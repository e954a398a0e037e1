use trading_bot::decimal::Dec;
use trading_bot::risk::{check_risk, RiskAction, RiskLimits};
use trading_bot::rules::str_dec;
use trading_bot::types::{Position, Px, Qty};

fn dec(s: &str) -> Dec {
    str_dec(s)
}

fn create_test_position(symbol: &str, qty: Dec, entry: Dec, leverage: u32) -> Position {
    Position {
        symbol: symbol.to_string(),
        qty: Qty(qty),
        entry: Px(entry),
        leverage,
        liq_px: None,
    }
}

fn create_test_limits(inv_cap: Dec, min_liq_gap: &str, dd_limit: i64, max_leverage: u32) -> RiskLimits {
    RiskLimits {
        inv_cap: Qty(inv_cap),
        min_liq_gap_bps: dec(min_liq_gap),
        dd_limit_bps: dd_limit,
        max_leverage,
    }
}

#[test]
fn test_risk_ok() {
    let pos = create_test_position("BTCUSDT", dec("0.1"), dec("50000"), 5);
    let inv = Qty(dec("0.05"));
    let limits = create_test_limits(dec("1.0"), "300", 2000, 10);

    let action = check_risk(&pos, inv, dec("500"), -100, &limits);
    assert_eq!(action, RiskAction::Okay);
}

#[test]
fn test_risk_halt_on_drawdown() {
    let pos = create_test_position("BTCUSDT", dec("0.1"), dec("50000"), 5);
    let inv = Qty(dec("0.05"));
    let limits = create_test_limits(dec("1.0"), "300", 2000, 10);

    let action = check_risk(&pos, inv, dec("500"), -2500, &limits);
    assert_eq!(action, RiskAction::Halt);
}

#[test]
fn test_risk_reduce_on_inventory_exceeded() {
    let pos = create_test_position("BTCUSDT", dec("0.1"), dec("50000"), 5);
    let limits = create_test_limits(dec("0.5"), "300", 2000, 10);

    let inv = Qty(dec("0.6"));
    let action = check_risk(&pos, inv, dec("500"), -100, &limits);
    assert_eq!(action, RiskAction::Reduce);
}

#[test]
fn test_risk_reduce_on_low_liquidation_gap() {
    let pos = create_test_position("BTCUSDT", dec("0.1"), dec("50000"), 5);
    let inv = Qty(dec("0.05"));
    let limits = create_test_limits(dec("1.0"), "300", 2000, 10);

    let action = check_risk(&pos, inv, dec("200"), -100, &limits);
    assert_eq!(action, RiskAction::Reduce);
}

#[test]
fn test_risk_reduce_on_leverage_exceeded() {
    let pos = create_test_position("BTCUSDT", dec("0.1"), dec("50000"), 15);
    let inv = Qty(dec("0.05"));
    let limits = create_test_limits(dec("1.0"), "300", 2000, 10);

    let action = check_risk(&pos, inv, dec("500"), -100, &limits);
    assert_eq!(action, RiskAction::Reduce);
}

#[test]
fn test_risk_negative_inventory() {
    let pos = create_test_position("BTCUSDT", dec("-0.1"), dec("50000"), 5);
    let limits = create_test_limits(dec("0.5"), "300", 2000, 10);

    let inv = Qty(dec("-0.6"));
    let action = check_risk(&pos, inv, dec("500"), -100, &limits);
    assert_eq!(action, RiskAction::Reduce);
}

#[test]
fn test_risk_edge_cases() {
    let pos = create_test_position("BTCUSDT", dec("0.1"), dec("50000"), 5);
    let limits = create_test_limits(dec("1.0"), "300", 2000, 10);

    // Exactly at the limit of the drawdown.
    let action = check_risk(&pos, Qty(dec("0.05")), dec("500"), -2000, &limits);
    assert_eq!(action, RiskAction::Halt);

    // Just below it.
    let action = check_risk(&pos, Qty(dec("0.05")), dec("500"), -1999, &limits);
    assert_eq!(action, RiskAction::Okay);

    // Exactly at the cap of the inventory.
    let action = check_risk(&pos, Qty(dec("1.0")), dec("500"), -100, &limits);
    assert_eq!(action, RiskAction::Okay);

    // Just above it.
    let action = check_risk(&pos, Qty(dec("1.0001")), dec("500"), -100, &limits);
    assert_eq!(action, RiskAction::Reduce);

    // Exactly at the gap to liquidation.
    let action = check_risk(&pos, Qty(dec("0.05")), dec("300"), -100, &limits);
    assert_eq!(action, RiskAction::Okay);

    // Just below it.
    let action = check_risk(&pos, Qty(dec("0.05")), dec("299"), -100, &limits);
    assert_eq!(action, RiskAction::Reduce);

    // Exactly at the highest leverage.
    let pos_max_leverage = create_test_position("BTCUSDT", dec("0.1"), dec("50000"), 10);
    let action = check_risk(&pos_max_leverage, Qty(dec("0.05")), dec("500"), -100, &limits);
    assert_eq!(action, RiskAction::Okay);

    // Just above it.
    let pos_over_leverage = create_test_position("BTCUSDT", dec("0.1"), dec("50000"), 11);
    let action = check_risk(&pos_over_leverage, Qty(dec("0.05")), dec("500"), -100, &limits);
    assert_eq!(action, RiskAction::Reduce);
}
