use trading_bot::decimal::Dec;
use trading_bot::exec::{
    close_step, fetch_position, fetch_premium_index, market_close_order, place_limit, rules_for,
    CloseEvent, CloseState, PlaceError, ReadError,
};
use trading_bot::positions::FutPosition;
use trading_bot::rules::{str_dec, FutExchangeSymbol, FutFilter, SymbolRules};
use trading_bot::types::{Px, Qty, Side};

fn dec(s: &str) -> Dec {
    str_dec(s)
}

fn assert_same(a: Dec, b: &str) {
    assert!(a.same(&dec(b)), "{a:?} is not {b}");
}

fn rules() -> SymbolRules {
    SymbolRules {
        tick_size: dec("0.01"),
        step_size: dec("0.001"),
        price_precision: 2,
        qty_precision: 3,
        min_notional: dec("5"),
        max_leverage: None,
    }
}

#[test]
fn rules_of_the_exchange_or_of_the_settings() {
    let told = Some(vec![FutExchangeSymbol {
        symbol: "BTCUSDT".to_string(),
        base_asset: "BTC".to_string(),
        quote_asset: "USDT".to_string(),
        contract_type: String::new(),
        status: String::new(),
        filters: vec![FutFilter::PriceFilter { tick_size: "0.5".to_string() }],
        price_precision: None,
        qty_precision: None,
    }]);
    assert_same(rules_for(&told, &rules()).unwrap().tick_size, "0.5");
    assert!(rules_for(&Some(vec![]), &rules()).is_none());
    let fallback = rules_for(&None, &rules()).unwrap();
    assert_same(fallback.tick_size, "0.01");
    assert_same(fallback.min_notional, "0");
}

#[test]
fn a_limit_order_is_written() {
    let t = place_limit(Px(dec("50000.129")), Qty(dec("-0.0019")), &rules()).unwrap();
    assert_eq!(t, ("50000.12".to_string(), "0.001".to_string()));
    assert_eq!(
        place_limit(Px(dec("4999")), Qty(dec("0.001")), &rules()),
        Err(PlaceError::BelowMinNotional)
    );
    let large = Dec::from_parts(79_228_162_514_264_337_593_543_950_335, 0).unwrap();
    assert_eq!(place_limit(Px(large), Qty(dec("1")), &rules()), Err(PlaceError::Overflow));
}

#[test]
fn a_position_that_is_listed() {
    let p = |amt: &str| FutPosition {
        symbol: "BTCUSDT".to_string(),
        position_amt: amt.to_string(),
        entry_price: "50000".to_string(),
        leverage: "20".to_string(),
        liquidation_price: "0".to_string(),
        position_side: None,
    };
    let r = fetch_position(&vec![p("0.5")], "BTCUSDT").unwrap();
    assert_same(r.qty.0, "0.5");
    assert!(r.liq_px.is_none());
    assert_eq!(fetch_position(&vec![], "BTCUSDT").unwrap_err(), ReadError::NotFound);
    assert_eq!(fetch_position(&vec![p("x")], "BTCUSDT").unwrap_err(), ReadError::Unreadable);
}

#[test]
fn a_premium() {
    let p = fetch_premium_index("50000", Some("0.0001"), Some(17)).unwrap();
    assert_same(p.mark.0, "50000");
    assert_same(p.funding_rate.unwrap(), "0.0001");
    assert_eq!(p.next_funding_time, Some(17));
    let p = fetch_premium_index("50000", Some("x"), Some(0)).unwrap();
    assert!(p.funding_rate.is_none());
    assert_eq!(p.next_funding_time, None);
    assert!(fetch_premium_index("", None, None).is_none());
}

fn run(events: &[CloseEvent]) -> CloseState {
    let mut s = CloseState::Initial;
    for e in events {
        s = close_step(s, *e, dec("0.001"));
    }
    s
}

#[test]
fn a_position_is_closed() {
    let at = |q: &str| CloseEvent::Position(dec(q));
    assert!(matches!(run(&[at("0")]), CloseState::Done));
    assert!(matches!(run(&[at("0.0001")]), CloseState::Done));
    assert!(matches!(run(&[CloseEvent::NoPosition]), CloseState::Failed));
    match run(&[at("-0.5"), at("-0.4567")]) {
        CloseState::Sending { attempt: 0, side: Side::Buy, qty } => assert_same(qty, "0.456"),
        other => panic!("{other:?}"),
    }
    assert!(matches!(run(&[at("1"), at("1"), CloseEvent::Sent, at("0")]), CloseState::Done));
    let refused = [at("1"), at("1"), CloseEvent::Refused];
    assert!(matches!(run(&refused), CloseState::Checking { attempt: 1, pause_ms: 500 }));
    let mut events = vec![at("1")];
    for _ in 0..3 {
        events.extend([at("1"), CloseEvent::Sent, at("0.5")]);
    }
    assert!(matches!(run(&events), CloseState::PartlyClosed));
    let mut events = vec![at("1")];
    for _ in 0..3 {
        events.extend([at("1"), CloseEvent::Refused]);
    }
    assert!(matches!(run(&events), CloseState::Failed));
}

#[test]
fn the_order_that_closes_at_the_market() {
    let order = market_close_order(Side::Sell, dec("1.2"), &rules());
    assert_eq!(order.side, Side::Sell);
    assert_eq!(order.qty_text, "1.200");
    assert!(order.position_side.is_none());
    assert!(order.limit_price.is_none());
}
