use trading_bot::decimal::Dec;
use trading_bot::figures::{money_text, rounded_text, Rate};
use trading_bot::metrics::{StrategyMetrics, TradeResult};
use trading_bot::rules::str_dec;

fn dec(s: &str) -> Dec {
    str_dec(s)
}

fn assert_same(a: Dec, b: &str) {
    assert!(a.same(&dec(b)), "{a:?} is not {b}");
}

fn trade(pnl: &str, pnl_pct: &str) -> TradeResult {
    TradeResult {
        symbol: "BTCUSDT".to_string(),
        side: "Long".to_string(),
        entry_price: dec("100"),
        exit_price: dec("101"),
        pnl: dec(pnl),
        pnl_pct: dec(pnl_pct),
        timestamp_ms: 17,
    }
}

#[test]
fn shares_are_written() {
    let r = Rate { part: 1, whole: 3 };
    assert_eq!(r.text(), "33.3");
    assert_eq!(r.fine_text(), "33.33");
    assert_eq!(Rate { part: 2, whole: 3 }.text(), "66.7");
    assert_eq!(Rate { part: 1, whole: 8 }.text(), "12.5");
    assert_eq!(Rate { part: 5, whole: 0 }.text(), "0.0");
    assert!(r.is_above(33));
    assert!(!r.is_above(34));
    assert!(r.is_below(34));
    assert!(!Rate { part: 1, whole: 2 }.is_above(50));
    assert!(!Rate { part: 1, whole: 2 }.is_below(50));
    assert!(Rate { part: 1, whole: 0 }.is_below(1));
    assert!(!Rate { part: 1, whole: 0 }.is_above(0));
}

#[test]
fn amounts_are_written() {
    assert_eq!(money_text(dec("1234.567")), "1234.57");
    assert_eq!(money_text(dec("-0.5")), "-0.50");
    assert_eq!(money_text(dec("0.125")), "0.12");
    assert_eq!(money_text(dec("0.135")), "0.14");
    assert_eq!(rounded_text(dec("2.5"), 0), "2");
    assert_eq!(rounded_text(dec("-99.99999"), 4), "-100.0000");
}

#[test]
fn trades_are_counted() {
    let mut m = StrategyMetrics::new();
    m.record_signal();
    m.record_signal();
    m.record_signal();
    assert!(m.record_trade(trade("10", "1")));
    assert!(m.record_trade(trade("-4", "-1")));
    assert!(m.record_trade(trade("6", "3")));
    assert!(m.record_trade(trade("-2", "1")));
    assert_eq!((m.total_signals, m.total_trades), (3, 4));
    assert_eq!((m.winning_trades, m.losing_trades), (2, 2));
    assert_same(m.total_pnl, "10");
    assert_same(m.avg_win, "8");
    assert_same(m.avg_loss, "3");
    // The peak was 12, the deepest fall 4.
    assert_same(m.max_drawdown, "4");
    assert_eq!(money_text(m.max_drawdown_pct), "33.33");
    assert_eq!(money_text(m.profit_factor), "2.67");
    // The mean is one, the deviation the root of two.
    assert_eq!(rounded_text(m.sharpe_ratio, 6), "11.224972");
    assert_eq!(
        m.summary(),
        "Metrics: signals=3, trades=4, win_rate=50.00%, pnl=$10.00, sharpe=11.22, max_dd=33.33%"
    );
}

#[test]
fn only_the_last_hundred_trades_are_kept() {
    let mut m = StrategyMetrics::new();
    for _ in 0..100 {
        assert!(m.record_trade(trade("-1", "1")));
    }
    assert_same(m.avg_loss, "1");
    assert_same(m.max_drawdown, "100");
    for _ in 0..100 {
        assert!(m.record_trade(trade("2", "1")));
    }
    assert_eq!(m.trades.len(), 100);
    assert_eq!(m.total_trades, 200);
    assert_same(m.total_pnl, "100");
    assert_same(m.max_drawdown, "0");
    // No deviation: what it was.
    assert_same(m.sharpe_ratio, "0");
}

#[test]
fn a_result_that_cannot_be_held() {
    let mut m = StrategyMetrics::new();
    let large = Dec::from_parts(79_228_162_514_264_337_593_543_950_335, 0).unwrap();
    let mut t = trade("1", "1");
    t.pnl = large;
    assert!(m.record_trade(t));
    let mut t = trade("1", "1");
    t.pnl = large;
    assert!(!m.record_trade(t));
}

#[test]
fn all_trades_count_and_the_last_are_kept() {
    let mut m = StrategyMetrics::new();
    for i in 0..150 {
        m.record_signal();
        let pnl = if i % 3 == 0 { "-1" } else { "2" };
        assert!(m.record_trade(trade(pnl, "0.1")));
    }
    assert_eq!((m.total_signals, m.total_trades), (150, 150));
    assert_eq!((m.winning_trades, m.losing_trades), (100, 50));
    assert_eq!((m.win_rate.part, m.win_rate.whole), (100, 150));
    assert_same(m.total_pnl, "150");
    assert_eq!(m.trades.len(), 100);
    // The oldest that is kept is the fifty-first, which won.
    assert_same(m.trades[0].pnl, "2");
    assert_same(m.trades[1].pnl, "-1");
    assert_same(m.max_drawdown, "1");
}
