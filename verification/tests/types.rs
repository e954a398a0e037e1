use trading_bot::decimal::Dec;
use trading_bot::rules::str_dec;
use trading_bot::types::{BookLevel, OrderBook, Position, Px, Qty, Quotes, Side};

fn assert_same(a: Dec, b: &str) {
    assert!(a.same(&str_dec(b)), "{a:?} is not {b}");
}

#[test]
fn test_orderbook_creation() {
    let ob = OrderBook {
        best_bid: Some(BookLevel {
            px: Px(str_dec("50000")),
            qty: Qty(str_dec("0.1")),
        }),
        best_ask: Some(BookLevel {
            px: Px(str_dec("50010")),
            qty: Qty(str_dec("0.1")),
        }),
        top_bids: None,
        top_asks: None,
    };

    assert!(ob.best_bid.is_some());
    assert!(ob.best_ask.is_some());
    assert_same(ob.best_bid.unwrap().px.0, "50000");
    assert_same(ob.best_ask.unwrap().px.0, "50010");
}

#[test]
fn test_orderbook_default() {
    let ob = OrderBook::default();
    assert!(ob.best_bid.is_none());
    assert!(ob.best_ask.is_none());
}

#[test]
fn test_quotes_creation() {
    let quotes = Quotes {
        bid: Some((Px(str_dec("50000")), Qty(str_dec("0.1")))),
        ask: Some((Px(str_dec("50010")), Qty(str_dec("0.1")))),
    };

    assert!(quotes.bid.is_some());
    assert!(quotes.ask.is_some());
}

#[test]
fn test_quotes_default() {
    let quotes = Quotes::default();
    assert!(quotes.bid.is_none());
    assert!(quotes.ask.is_none());
}

#[test]
fn test_position_creation() {
    let pos = Position {
        symbol: "BTCUSDT".to_string(),
        qty: Qty(str_dec("0.1")),
        entry: Px(str_dec("50000")),
        leverage: 5,
        liq_px: Some(Px(str_dec("45000"))),
    };

    assert_eq!(pos.symbol, "BTCUSDT");
    assert_same(pos.qty.0, "0.1");
    assert_same(pos.entry.0, "50000");
    assert_eq!(pos.leverage, 5);
    assert!(pos.liq_px.is_some());
}

#[test]
fn test_side_equality() {
    assert_eq!(Side::Buy, Side::Buy);
    assert_eq!(Side::Sell, Side::Sell);
    assert_ne!(Side::Buy, Side::Sell);
}
