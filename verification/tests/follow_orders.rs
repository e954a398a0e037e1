use trading_bot::config::{BotConfig, Environment, FileConfig};
use trading_bot::connection::PositionSide;
use trading_bot::decimal::Dec;
use trading_bot::extended::Extended;
use trading_bot::figures::rounded_text;
use trading_bot::follow_orders::{
    evaluate_position, exit_limits, AdvancedPositionManager, CloseReason, ExitLimits, Followed, Follower,
    PositionDecision,
};
use trading_bot::rules::str_dec;
use trading_bot::user_stream::PositionUpdate;

fn dec(s: &str) -> Dec {
    str_dec(s)
}

fn assert_same(a: Dec, b: &str) {
    assert!(a.same(&dec(b)), "{a:?} is not {b}");
}

fn assert_finite(a: Extended, b: &str) {
    match a {
        Extended::Finite(d) => assert_same(d, b),
        other => panic!("{other:?} is not {b}"),
    }
}

const MINUTE: u64 = 60_000;

/// A position of two units from 100, tenfold, with a range of one.
fn manager(side: PositionSide) -> AdvancedPositionManager {
    let mut m = AdvancedPositionManager::new();
    m.open_position(7, dec("100"), side, dec("2"), dec("10"), dec("1"), 0);
    m
}

fn reason(m: &mut AdvancedPositionManager, price: &str, atr: &str, now: u64) -> String {
    match m.evaluate(7, dec(price), Extended::Finite(dec(atr)), now).unwrap() {
        PositionDecision::NoPosition => "none".to_string(),
        PositionDecision::Hold => "hold".to_string(),
        PositionDecision::PartialClose { reason, .. } => format!("part: {}", reason.text()),
        PositionDecision::FullClose { reason } => reason.text(),
    }
}

#[test]
fn positions_that_are_not_followed() {
    let mut m = manager(PositionSide::Long);
    let atr = Extended::Finite(dec("1"));
    assert!(matches!(m.evaluate(8, dec("100"), atr, 0), Some(PositionDecision::NoPosition)));
    m.close_position(7);
    assert!(matches!(m.evaluate(7, dec("100"), atr, 0), Some(PositionDecision::NoPosition)));
}

#[test]
fn a_loss_is_stopped() {
    let mut m = manager(PositionSide::Long);
    assert_eq!(reason(&mut m, "97.51", "1", 0), "hold");
    assert_eq!(reason(&mut m, "97.5", "1", 0), "Stop loss hit");
    let mut m = manager(PositionSide::Short);
    assert_eq!(reason(&mut m, "102.49", "1", 0), "hold");
    assert_eq!(reason(&mut m, "102.5", "1", 300 * MINUTE), "Stop loss hit");
}

#[test]
fn a_profit_is_taken_in_parts() {
    let mut m = manager(PositionSide::Long);
    assert_eq!(reason(&mut m, "100.14", "1", 0), "hold");
    assert_eq!(reason(&mut m, "100.15", "1", 5), "part: First profit target (+1.5%)");
    {
        let p = &m.positions[0].1;
        assert_same(p.size, "1");
        assert_eq!(p.partial_exits.len(), 1);
        assert_eq!(p.partial_exits[0].exit_time_ms, 5);
        assert_same(p.partial_exits[0].profit_pct, "1.5");
        assert_same(p.partial_exits[0].exit_price, "100.15");
    }
    assert_eq!(reason(&mut m, "100.2", "1", 6), "part: Second profit target (+2%)");
    assert_same(m.positions[0].1.size, "0.5");
    assert_eq!(reason(&mut m, "100.4", "1", 7), "hold");
    assert_finite(m.positions[0].1.peak_profit_pct, "4");
    assert_eq!(reason(&mut m, "100.19", "1", 8), "Trailing stop (peak: 4.00%, current: 1.90%)");
}

#[test]
fn positions_end() {
    let mut m = manager(PositionSide::Long);
    assert_eq!(reason(&mut m, "100", "1", 240 * MINUTE), "hold");
    assert_eq!(reason(&mut m, "100", "1", 241 * MINUTE), "Maximum holding time (4 hours)");
    let mut m = manager(PositionSide::Long);
    assert_eq!(reason(&mut m, "100", "2", 0), "hold");
    assert_eq!(reason(&mut m, "100", "2.1", 0), "Excessive volatility");
    let mut m = manager(PositionSide::Long);
    assert_eq!(reason(&mut m, "100.1", "1", 0), "hold");
    assert_eq!(reason(&mut m, "100.03", "1", 0), "hold");
    assert_eq!(reason(&mut m, "100.02", "1", 0), "Reversal detected (70% retracement)");
    let mut m = manager(PositionSide::Short);
    assert_eq!(reason(&mut m, "99.97", "1", 30 * MINUTE), "hold");
    assert_eq!(reason(&mut m, "99.97", "1", 31 * MINUTE), "Early profit taking (small win)");
    assert_eq!(reason(&mut m, "99.95", "1", 31 * MINUTE), "hold");
}

fn limits() -> ExitLimits {
    ExitLimits {
        tp_percent: dec("5"),
        sl_percent: dec("3"),
        commission_pct: dec("0.08"),
        atr_sl_multiplier: dec("3"),
        atr_tp_multiplier: dec("6"),
    }
}

#[test]
fn limits_of_the_settings() {
    let config = BotConfig::from_env(&Environment::default(), &FileConfig::default());
    let fee = rounded_text(config.fee_bps_round_trip, 4);
    let limits = exit_limits(&config).unwrap();
    let pct = rounded_text(limits.commission_pct, 4);
    assert_eq!((fee.as_str(), pct.as_str()), ("8.0000", "0.0800"));
    assert!(limits.tp_percent.same(&config.tp_percent));
    assert!(limits.atr_sl_multiplier.same(&config.atr_sl_multiplier));
}

fn followed(side: PositionSide, size: &str) -> Followed {
    Followed {
        position_id: 7,
        side,
        entry_price: dec("100"),
        size: dec(size),
        leverage: dec("10"),
        atr: Extended::Finite(dec("1")),
        prices: vec![],
    }
}

fn exit(side: PositionSide, price: &str, atr: Option<&str>) -> Option<String> {
    evaluate_position(&followed(side, "1"), dec(price), atr.map(dec), &limits())
        .unwrap()
        .map(|r| r.text())
}

#[test]
fn limits_of_the_range() {
    let long = |price: &str| exit(PositionSide::Long, price, Some("0.05"));
    assert_eq!(long("99.85").unwrap(), "ATR SL hit (99.8500 vs entry 100.0000)");
    assert_eq!(long("100.3").unwrap(), "ATR TP hit (100.3000 vs entry 100.0000)");
    assert_eq!(long("99.86"), None);
    let short = |price: &str| exit(PositionSide::Short, price, Some("0.05"));
    assert_eq!(short("100.15").unwrap(), "ATR SL hit (100.1500 vs entry 100.0000)");
    assert_eq!(short("99.7").unwrap(), "ATR TP hit (99.7000 vs entry 100.0000)");
    assert_eq!(short("100.14"), None);
}

#[test]
fn limits_of_the_return() {
    let long = |price: &str| exit(PositionSide::Long, price, None);
    assert_eq!(
        long("100.508").unwrap(),
        "TP/SL net ROI: 5.00% (ROI: 5.08%, leverage: 10.0x)"
    );
    assert_eq!(long("100.507"), None);
    assert_eq!(
        long("99.708").unwrap(),
        "TP/SL net ROI: -3.00% (ROI: -2.92%, leverage: 10.0x)"
    );
    assert_eq!(long("99.709"), None);
    let short = |price: &str| exit(PositionSide::Short, price, Some("0"));
    assert!(short("99.492").is_some());
    assert!(short("100.291").is_none());
}

#[test]
fn positions_that_are_not_valid_are_held() {
    for size in ["0", "-1", "0.0000000000000002"] {
        let p = followed(PositionSide::Long, size);
        assert!(evaluate_position(&p, dec("1"), None, &limits()).unwrap().is_none());
    }
    let mut p = followed(PositionSide::Long, "1");
    p.leverage = dec("0");
    assert!(evaluate_position(&p, dec("1"), None, &limits()).unwrap().is_none());
    let large = Dec::from_parts(79_228_162_514_264_337_593_543_950_335, 0).unwrap();
    let p = followed(PositionSide::Long, "1");
    assert!(evaluate_position(&p, large, Some(large), &limits()).is_none());
}

fn update(symbol: &str, size: &str, is_closed: bool) -> PositionUpdate {
    PositionUpdate {
        symbol: symbol.to_string(),
        side: PositionSide::Long,
        entry_price: dec("100"),
        size: dec(size),
        leverage: dec("10"),
        unrealized_pnl: dec("0"),
        is_closed,
    }
}

#[test]
fn a_position_from_its_first_update_to_its_last() {
    let mut f = Follower::new();
    f.on_position_update(&update("BTCUSDT", "2", false), 7, Some(dec("1")), 0);
    assert!(f.on_tick("ETHUSDT", dec("1"), None, &limits(), 0).unwrap().is_none());
    assert!(f.on_tick("BTCUSDT", dec("100"), None, &limits(), 1).unwrap().is_none());
    let r = f.on_tick("BTCUSDT", dec("100.2"), None, &limits(), 2).unwrap().unwrap();
    assert_eq!(r.position_id, 7);
    assert!(matches!(r.reason, CloseReason::FirstTarget));
    assert_eq!(r.text(), "Partial: First profit target (+1.5%)");
    assert_same(r.partial_close_percentage.unwrap(), "0.5");
    // The range is now estimated: the change of 0.002 from the first price to the second.
    assert_finite(f.positions[0].1.atr, "0.2004");
    f.on_position_update(&update("BTCUSDT", "1", false), 7, None, 3);
    assert_same(f.positions[0].1.size, "1");
    assert_eq!(f.positions[0].1.prices.len(), 2);
    let r = f.on_tick("BTCUSDT", dec("97.5"), None, &limits(), 4).unwrap().unwrap();
    assert_eq!(r.text(), "Stop loss hit");
    assert!(r.partial_close_percentage.is_none());
    f.on_position_update(&update("BTCUSDT", "0", true), 7, None, 5);
    assert!(f.positions.is_empty());
    assert!(f.manager.positions.is_empty());
}

fn without_entry(side: PositionSide, leverage: &str) -> AdvancedPositionManager {
    let mut m = AdvancedPositionManager::new();
    m.open_position(7, dec("0"), side, dec("2"), dec(leverage), dec("1"), 0);
    m
}

#[test]
fn from_no_entry_price_every_profit_is_infinite() {
    let mut m = without_entry(PositionSide::Long, "10");
    assert_eq!(reason(&mut m, "100", "1", 0), "part: First profit target (+1.5%)");
    assert!(matches!(m.positions[0].1.peak_profit_pct, Extended::Infinity));
    assert_finite(m.positions[0].1.lowest_profit_pct, "0");
    assert_eq!(reason(&mut m, "1", "1", 0), "part: Second profit target (+2%)");
    assert_eq!(reason(&mut m, "1", "1", 31 * MINUTE), "hold");
    assert_eq!(reason(&mut m, "1", "1", 241 * MINUTE), "Maximum holding time (4 hours)");
    m.positions[0].1.leverage = dec("-10");
    assert_eq!(reason(&mut m, "1", "1", 0), "Trailing stop (peak: inf%, current: -inf%)");
    assert!(matches!(m.positions[0].1.lowest_profit_pct, Extended::MinusInfinity));
    assert_eq!(reason(&mut m, "0", "1", 0), "Stop loss hit");

    let mut m = without_entry(PositionSide::Short, "10");
    assert_eq!(reason(&mut m, "100", "1", 0), "Stop loss hit");

    // Without leverage it is no number at all.
    let mut m = without_entry(PositionSide::Long, "0");
    assert_eq!(reason(&mut m, "100", "1", 0), "hold");
    assert_finite(m.positions[0].1.peak_profit_pct, "0");

    // A loss beyond every number after a profit is a reversal.
    let mut m = without_entry(PositionSide::Long, "-10");
    m.positions[0].1.peak_profit_pct = Extended::Finite(dec("1"));
    assert_eq!(reason(&mut m, "100", "1", 0), "Reversal detected (70% retracement)");
}

#[test]
fn a_change_from_a_price_of_zero_is_infinite() {
    let mut f = Follower::new();
    f.on_position_update(&update("BTCUSDT", "2", false), 7, Some(dec("1")), 0);
    let r = f.on_tick("BTCUSDT", dec("0"), None, &limits(), 1).unwrap().unwrap();
    assert_eq!(r.text(), "Stop loss hit");
    let r = f.on_tick("BTCUSDT", dec("100"), None, &limits(), 2).unwrap().unwrap();
    assert!(matches!(f.positions[0].1.atr, Extended::Infinity));
    assert_eq!(r.text(), "Excessive volatility");

    let mut f = Follower::new();
    f.on_position_update(&update("BTCUSDT", "2", false), 7, Some(dec("1")), 0);
    f.on_tick("BTCUSDT", dec("0"), None, &limits(), 1).unwrap();
    f.on_tick("BTCUSDT", dec("0"), None, &limits(), 2).unwrap();
    assert!(matches!(f.positions[0].1.atr, Extended::NotANumber));
    assert!(f.on_tick("BTCUSDT", dec("100"), None, &limits(), 3).unwrap().is_none());
}
