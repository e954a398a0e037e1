use trading_bot::decimal::Dec;
use trading_bot::order_analysis::{
    analyze_orders, apply_fill_rate_decay, calculate_fill_rate_from_history, compare_orders,
    should_sync_orders, update_fill_rate_on_cancel, update_fill_rate_on_fill, validate_order,
    FillRateState, OrderError, OrderInfo,
};
use trading_bot::rules::str_dec;
use trading_bot::types::{Px, Qty, Side};

fn dec(s: &str) -> Dec {
    str_dec(s)
}

fn assert_same(a: Dec, b: &str) {
    assert!(a.same(&dec(b)), "{a:?} is not {b}");
}

fn order(id: &str, side: Side, price: &str, created_at: u64) -> OrderInfo {
    OrderInfo {
        order_id: id.to_string(),
        side,
        price: Px(dec(price)),
        qty: Qty(dec("1")),
        created_at,
    }
}

#[test]
fn orders_that_are_far_from_the_market() {
    let orders = vec![
        order("near", Side::Buy, "99.5", 0),
        order("away", Side::Buy, "98.5", 0),
        order("far", Side::Sell, "103", 0),
        order("crossed", Side::Sell, "96", 0),
    ];
    let cancel = |notional: &str| {
        analyze_orders(&orders, Px(dec("100")), Px(dec("100")), dec(notional), 10_000, 0)
    };
    assert_eq!(cancel("0"), ["far", "crossed"]);
    assert_eq!(cancel("5"), ["away", "far", "crossed"]);
    // Without a price nothing is far.
    assert!(analyze_orders(&orders, Px(dec("0")), Px(dec("0")), dec("5"), 10_000, 0).is_empty());
}

#[test]
fn orders_that_are_stale() {
    let orders = vec![order("a", Side::Buy, "100", 1000), order("b", Side::Buy, "100", 5000)];
    let cancel = |notional: &str, now: u64| {
        analyze_orders(&orders, Px(dec("100")), Px(dec("100")), dec(notional), 9000, now)
    };
    assert!(cancel("0", 10_000).is_empty());
    assert_eq!(cancel("0", 10_001), ["a"]);
    // Two thirds of the limit while there is a position.
    assert!(cancel("5", 7000).is_empty());
    assert_eq!(cancel("5", 7001), ["a"]);
    assert_eq!(cancel("5", 11_001), ["a", "b"]);
    assert!(cancel("5", 0).is_empty());
}

#[test]
fn rates_of_fills() {
    let mut s = FillRateState::new();
    assert_same(s.fill_rate, "0.5");
    assert!(update_fill_rate_on_cancel(&mut s, dec("0.8")));
    assert_same(s.fill_rate, "0.4");
    assert_eq!(s.consecutive_no_fills, 1);
    assert!(update_fill_rate_on_fill(&mut s, dec("0.95"), dec("0.05"), 17));
    assert_same(s.fill_rate, "0.43");
    assert_eq!(s.consecutive_no_fills, 0);
    assert_eq!(s.last_fill_time, Some(17));
    assert!(update_fill_rate_on_fill(&mut s, dec("2"), dec("0.5"), 18));
    assert_same(s.fill_rate, "1");
    assert!(update_fill_rate_on_cancel(&mut s, dec("-1")));
    assert_same(s.fill_rate, "0");
}

#[test]
fn a_rate_decays() {
    let mut s = FillRateState::new();
    assert!(apply_fill_rate_decay(&mut s, dec("0.9"), 30, 1000));
    assert_same(s.fill_rate, "0.45");
    assert_eq!(s.last_decay_check, Some(1000));
    assert_eq!(s.last_decay_period, Some(30));
    assert!(apply_fill_rate_decay(&mut s, dec("0.9"), 30, 30_999));
    assert_same(s.fill_rate, "0.45");
    assert!(apply_fill_rate_decay(&mut s, dec("0.9"), 20, 31_000));
    assert_same(s.fill_rate, "0.405");
    assert_eq!(s.last_decay_period, Some(20));
    let large = Dec::from_parts(79_228_162_514_264_337_593_543_950_335, 0).unwrap();
    s.fill_rate = large;
    assert!(!apply_fill_rate_decay(&mut s, large, 0, 40_000));
    assert_eq!(s.last_decay_period, Some(20));
}

#[test]
fn a_rate_from_history() {
    assert_same(calculate_fill_rate_from_history(0, 0, 60).unwrap(), "0.5");
    assert_same(calculate_fill_rate_from_history(3, 4, 60).unwrap(), "0.75");
    assert_same(calculate_fill_rate_from_history(5, 4, 60).unwrap(), "1");
}

#[test]
fn orders_of_the_exchange_and_of_the_bot() {
    let ids = |l: &[&str]| -> Vec<String> { l.iter().map(|s| s.to_string()).collect() };
    let r = compare_orders(&ids(&["a", "b"]), &ids(&["b", "c"]));
    assert_eq!(r.new_orders, ["c"]);
    assert_eq!(r.unchanged_orders, ["b"]);
    assert_eq!(r.removed_orders, ["a"]);
    assert!(should_sync_orders(None, 60));
    assert!(should_sync_orders(Some(60), 60));
    assert!(!should_sync_orders(Some(59), 60));
}

#[test]
fn orders_that_are_not_valid() {
    let check = |price: &str, qty: &str, bid: &str, ask: &str, side: Side, min: Option<&str>| {
        validate_order(
            Px(dec(price)), Qty(dec(qty)), Px(dec(bid)), Px(dec(ask)), side, min.map(dec),
        )
    };
    assert!(check("100", "1", "99", "101", Side::Buy, Some("100")).is_ok());
    assert!(check("100", "1", "0", "101", Side::Buy, None).is_ok());
    let text = |r: Result<(), OrderError>| r.unwrap_err().text();
    assert_eq!(text(check("0", "1", "99", "101", Side::Buy, None)), "Order price must be positive");
    assert_eq!(text(check("1", "0", "99", "101", Side::Buy, None)), "Order quantity must be positive");
    assert_eq!(text(check("1", "1", "0", "101", Side::Sell, None)), "Market price is invalid");
    assert_eq!(
        text(check("100", "0.5", "99", "101", Side::Buy, Some("60"))),
        "Order notional 50.0 is below minimum 60"
    );
    assert_eq!(
        text(check("79228162514264337593543950335", "2", "99", "101", Side::Buy, Some("60"))),
        "Order notional cannot be held"
    );
}
