use trading_bot::margin::{is_usd_stable, split_margin_into_chunks, ProfitTracker};

/// Dollars in hundred-millionths.
fn units(dollars: f64) -> i64 {
    (dollars * 100_000_000.0).round() as i64
}

fn dollars(units: i128) -> f64 {
    units as f64 / 100_000_000.0
}

fn split(total: f64, min: f64, max: f64) -> Vec<f64> {
    split_margin_into_chunks(units(total), units(min), units(max))
        .into_iter()
        .map(|u| dollars(u as i128))
        .collect()
}

#[test]
fn test_is_usd_stable_usdc_uppercase() {
    assert!(is_usd_stable("USDC"));
}

#[test]
fn test_is_usd_stable_usdc_lowercase() {
    assert!(is_usd_stable("usdc"));
}

#[test]
fn test_is_usd_stable_usdc_mixed_case() {
    assert!(is_usd_stable("UsDc"));
}

#[test]
fn test_is_usd_stable_usdt_uppercase() {
    assert!(is_usd_stable("USDT"));
}

#[test]
fn test_is_usd_stable_usdt_lowercase() {
    assert!(is_usd_stable("usdt"));
}

#[test]
fn test_is_usd_stable_usdt_mixed_case() {
    assert!(is_usd_stable("UsDt"));
}

#[test]
fn test_is_usd_stable_rejects_busd() {
    assert!(!is_usd_stable("BUSD"));
    assert!(!is_usd_stable("busd"));
}

#[test]
fn test_is_usd_stable_rejects_other_assets() {
    assert!(!is_usd_stable("BTC"));
    assert!(!is_usd_stable("ETH"));
    assert!(!is_usd_stable("EUR"));
    assert!(!is_usd_stable(""));
}

#[test]
fn test_is_usd_stable_rejects_whitespace() {
    assert!(!is_usd_stable(" USDC"));
    assert!(!is_usd_stable("USDC "));
    assert!(!is_usd_stable(" USDC "));
}

#[test]
fn test_split_margin_into_chunks_exact_multiple() {
    // 300 USD, min 10, max 100 -> [100, 100, 50, 50] (split last 100 into 2x50)
    let chunks = split(300.0, 10.0, 100.0);
    assert_eq!(chunks.len(), 4);
    assert_eq!(chunks[0], 100.0);
    assert_eq!(chunks[1], 100.0);
    assert!((chunks[2] - 50.0).abs() < 0.01);
    assert!((chunks[3] - 50.0).abs() < 0.01);
}

#[test]
fn test_split_margin_into_chunks_with_remainder() {
    // 250 USD, min 10, max 100 -> [100, 75, 75] (split last 150 into 2x75)
    let chunks = split(250.0, 10.0, 100.0);
    assert_eq!(chunks.len(), 3);
    assert_eq!(chunks[0], 100.0);
    assert!((chunks[1] - 75.0).abs() < 0.01);
    assert!((chunks[2] - 75.0).abs() < 0.01);
}

#[test]
fn test_split_margin_into_chunks_small_remainder() {
    // 105 USD, min 10, max 100 -> [100, 5] (5 < 10, so only [100])
    let chunks = split(105.0, 10.0, 100.0);
    assert_eq!(chunks.len(), 1);
    assert_eq!(chunks[0], 100.0);
}

#[test]
fn test_split_margin_into_chunks_minimum_size() {
    // 15 USD, min 10, max 100 -> [15]
    let chunks = split(15.0, 10.0, 100.0);
    assert_eq!(chunks.len(), 1);
    assert_eq!(chunks[0], 15.0);
}

#[test]
fn test_split_margin_into_chunks_below_minimum() {
    // 5 USD, min 10, max 100 -> []
    let chunks = split(5.0, 10.0, 100.0);
    assert_eq!(chunks.len(), 0);
}

#[test]
fn test_split_margin_into_chunks_exact_minimum() {
    // 10 USD, min 10, max 100 -> [10]
    let chunks = split(10.0, 10.0, 100.0);
    assert_eq!(chunks.len(), 1);
    assert_eq!(chunks[0], 10.0);
}

#[test]
fn test_split_margin_into_chunks_exact_maximum() {
    // 100 USD, min 10, max 100 -> [50, 50] (split to maximize trades)
    let chunks = split(100.0, 10.0, 100.0);
    assert_eq!(chunks.len(), 2);
    assert!((chunks[0] - 50.0).abs() < 0.01);
    assert!((chunks[1] - 50.0).abs() < 0.01);
}

#[test]
fn test_split_margin_into_chunks_large_amount() {
    // 1000 USD, min 10, max 100 -> [100, 100, ..., 100, 50, 50] (10 chunks of 100, then split last 100 into 2x50)
    let chunks = split(1000.0, 10.0, 100.0);
    // 1000 = 9x100 + 100, last 100 split into 2x50 = 9 + 2 = 11 chunks
    assert_eq!(chunks.len(), 11);
    for i in 0..9 {
        assert_eq!(chunks[i], 100.0);
    }
    assert!((chunks[9] - 50.0).abs() < 0.01);
    assert!((chunks[10] - 50.0).abs() < 0.01);
}

#[test]
fn test_split_margin_into_chunks_zero_margin() {
    // 0 USD -> []
    let chunks = split(0.0, 10.0, 100.0);
    assert_eq!(chunks.len(), 0);
}

#[test]
fn test_split_margin_into_chunks_negative_margin() {
    // Negative margin -> []
    let chunks = split(-10.0, 10.0, 100.0);
    assert_eq!(chunks.len(), 0);
}

#[test]
fn test_split_margin_into_chunks_custom_min_max() {
    // 150 USD, min 20, max 50 -> [50, 50, 25, 25] (split last 50 into 2x25)
    let chunks = split(150.0, 20.0, 50.0);
    assert_eq!(chunks.len(), 4);
    assert_eq!(chunks[0], 50.0);
    assert_eq!(chunks[1], 50.0);
    assert!((chunks[2] - 25.0).abs() < 0.01);
    assert!((chunks[3] - 25.0).abs() < 0.01);
}

#[test]
fn test_margin_chunking_respects_limits() {
    // 140 USD available -> [70, 70] chunks (split to maximize trades)
    let chunks = split(140.0, 10.0, 100.0);
    assert_eq!(chunks.len(), 2);
    assert!((chunks[0] - 70.0).abs() < 0.01);
    assert!((chunks[1] - 70.0).abs() < 0.01);

    // Total spent tracking
    let mut total_spent = 0.0;
    for chunk in &chunks {
        total_spent += chunk;
    }
    assert!((total_spent - 140.0).abs() < 0.01); 
}

#[test]
fn test_leverage_separate_from_margin() {
    // Margin: 100 USD, Leverage: 20x
    // Notional: 2000 USD
    let margin = 100.0;
    let leverage = 20.0;
    let notional = margin * leverage;

    assert_eq!(notional, 2000.0);
    assert_eq!(margin, 100.0);
}

#[test]
fn test_margin_chunking_small_balance() {
    // 25 USD available -> [25] chunk (min 10, max 100)
    let chunks = split(25.0, 10.0, 100.0);
    assert_eq!(chunks.len(), 1);
    assert_eq!(chunks[0], 25.0);
}

#[test]
fn test_margin_chunking_large_balance() {
    // 500 USD available -> [100, 100, 100, 100, 50, 50] chunks (split last 100 into 2x50)
    let chunks = split(500.0, 10.0, 100.0);
    assert_eq!(chunks.len(), 6);
    for i in 0..4 {
        assert_eq!(chunks[i], 100.0);
    }
    assert!((chunks[4] - 50.0).abs() < 0.01);
    assert!((chunks[5] - 50.0).abs() < 0.01);
}

#[test]
fn test_profit_tracker_new() {
    let tracker = ProfitTracker::new();
    assert_eq!(tracker.total_trades, 0);
    assert_eq!(tracker.winning_trades, 0);
    assert_eq!(dollars(tracker.total_profit), 0.0);
    assert_eq!(dollars(tracker.total_fees), 0.0);
    assert_eq!(dollars(tracker.total_loss), 0.0);
}

#[test]
fn test_profit_tracker_record_winning_trade() {
    let mut tracker = ProfitTracker::new();
    tracker.record_trade(units(10.0), units(1.0));
    assert_eq!(tracker.total_trades, 1);
    assert_eq!(tracker.winning_trades, 1);
    assert_eq!(dollars(tracker.total_profit), 10.0);
    assert_eq!(dollars(tracker.total_fees), 1.0);
    assert_eq!(dollars(tracker.total_loss), 0.0);
}

#[test]
fn test_profit_tracker_record_losing_trade() {
    let mut tracker = ProfitTracker::new();
    tracker.record_trade(units(-5.0), units(1.0));
    assert_eq!(tracker.total_trades, 1);
    assert_eq!(tracker.winning_trades, 0);
    assert_eq!(dollars(tracker.total_profit), 0.0);
    assert_eq!(dollars(tracker.total_fees), 1.0);
    assert_eq!(dollars(tracker.total_loss), 5.0);
}

#[test]
fn test_profit_tracker_win_rate() {
    let mut tracker = ProfitTracker::new();
    tracker.record_trade(units(10.0), units(1.0));
    tracker.record_trade(units(-5.0), units(1.0));
    tracker.record_trade(units(20.0), units(1.0));
    // 2 wins out of 3 trades = 66.67%
    let win_rate = (tracker.win_rate() as f64 / 1_000_000.0);
    assert!((win_rate - 66.67).abs() < 0.1);
}

#[test]
fn test_profit_tracker_win_rate_no_trades() {
    let tracker = ProfitTracker::new();
    assert_eq!((tracker.win_rate() as f64 / 1_000_000.0), 0.0);
}

#[test]
fn test_profit_tracker_net_profit() {
    let mut tracker = ProfitTracker::new();
    tracker.record_trade(units(10.0), units(1.0));
    tracker.record_trade(units(-5.0), units(1.0));
    tracker.record_trade(units(20.0), units(1.0));
    // profit: 30, fees: 3, loss: 5, net = 30 - 3 - 5 = 22
    let net = dollars(tracker.net_profit());
    assert!((net - 22.0).abs() < 0.01);
}

#[test]
fn test_profit_tracker_reset() {
    let mut tracker = ProfitTracker::new();
    tracker.record_trade(units(10.0), units(1.0));
    tracker.reset();
    assert_eq!(tracker.total_trades, 0);
    assert_eq!(tracker.winning_trades, 0);
    assert_eq!(dollars(tracker.total_profit), 0.0);
    assert_eq!(dollars(tracker.total_fees), 0.0);
    assert_eq!(dollars(tracker.total_loss), 0.0);
}
