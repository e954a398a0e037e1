use trading_bot::decimal::Dec;
use trading_bot::json::{Json, Number};
use trading_bot::leverage::{
    fetch_max_leverage, leverage_candidates, leverage_params, leverage_step, select_max_leverage,
    symbol_max_leverage, LeverageBrackets, LeverageError, LeverageState,
};
use trading_bot::positions::{
    available_balance, best_prices, fetch_all_positions, fetch_position, fetch_balance,
    fetch_open_orders, FutBalance, FutOpenOrder, FutPosition, PositionError, PriceError,
};
use trading_bot::query::query_text;
use trading_bot::rules::{
    rules_from_fut_symbol, str_dec, place_trailing_stop_order, validate_and_format_order_params,
    written_precision, FutExchangeSymbol, FutFilter, OrderParamError, SymbolRules,
};
use trading_bot::types::{Px, Qty, Side};

fn dec(s: &str) -> Dec {
    str_dec(s)
}

fn assert_same(a: Dec, b: &str) {
    assert!(a.same(&dec(b)), "{a:?} is not {b}");
}

fn listed(filters: Vec<FutFilter>) -> FutExchangeSymbol {
    FutExchangeSymbol {
        symbol: "BTCUSDT".to_string(),
        base_asset: "BTC".to_string(),
        quote_asset: "USDT".to_string(),
        contract_type: "PERPETUAL".to_string(),
        status: "TRADING".to_string(),
        filters,
        price_precision: None,
        qty_precision: None,
    }
}

#[test]
fn rules_follow_from_filters() {
    let rules = rules_from_fut_symbol(&listed(vec![
        FutFilter::PriceFilter { tick_size: "0.10".to_string() },
        FutFilter::Other,
        FutFilter::LotSize { step_size: "0.001".to_string() },
        FutFilter::MinNotional { notional: "5".to_string() },
    ]));
    assert_same(rules.tick_size, "0.1");
    assert_same(rules.step_size, "0.001");
    assert_eq!(rules.price_precision, 2);
    assert_eq!(rules.qty_precision, 3);
    assert_same(rules.min_notional, "5");
    assert_eq!(rules.max_leverage, None);
}

#[test]
fn rules_that_are_missing_have_steps() {
    let rules = rules_from_fut_symbol(&listed(vec![]));
    assert_same(rules.tick_size, "0.01");
    assert_same(rules.step_size, "0.001");
    assert_same(rules.min_notional, "0");
}

#[test]
fn a_precision_that_is_listed_is_kept() {
    let mut sym = listed(vec![FutFilter::PriceFilter { tick_size: "0.10".to_string() }]);
    sym.price_precision = Some(7);
    assert_eq!(rules_from_fut_symbol(&sym).price_precision, 7);
    assert_eq!(written_precision(dec("0.01"), 7), 2);
    assert_eq!(written_precision(dec("0.01"), 1), 1);
    assert_eq!(written_precision(dec("0"), 7), 7);
}

fn rules() -> SymbolRules {
    SymbolRules {
        tick_size: dec("0.01"),
        step_size: dec("0.001"),
        price_precision: 2,
        qty_precision: 3,
        min_notional: dec("5"),
        max_leverage: None,
    }
}

#[test]
fn orders_are_rounded_to_the_rules() {
    let o = validate_and_format_order_params(Px(dec("50000.129")), Qty(dec("-0.0019")), &rules()).unwrap();
    assert_eq!(o.price_text, "50000.12");
    assert_eq!(o.qty_text, "0.001");
    assert_same(o.price, "50000.12");
    assert_same(o.qty, "0.001");
}

#[test]
fn orders_that_are_worth_too_little_are_refused() {
    let r = validate_and_format_order_params(Px(dec("4999.99")), Qty(dec("0.001")), &rules());
    assert_eq!(r.unwrap_err(), OrderParamError::BelowMinNotional);
    let r = validate_and_format_order_params(Px(dec("5000")), Qty(dec("0.001")), &rules());
    assert!(r.is_ok());
}

#[test]
fn orders_that_cannot_be_written_are_refused() {
    let mut r = rules();
    r.qty_precision = 0;
    r.min_notional = dec("0");
    let o = validate_and_format_order_params(Px(dec("100")), Qty(dec("0.004")), &r).unwrap();
    assert_same(o.qty, "0.004");
    let large = Dec::from_parts(79_228_162_514_264_337_593_543_950_335, 0).unwrap();
    let r = validate_and_format_order_params(Px(large), Qty(dec("1")), &rules());
    assert_eq!(r.unwrap_err(), OrderParamError::Overflow);
}

#[test]
fn parameters_of_a_trailing_stop() {
    let p = place_trailing_stop_order(
        "BTCUSDT", Px(dec("50000.129")), dec("0.00500"), Qty(dec("0.0019")), &rules(), true, 17, 5000,
    );
    assert_eq!(
        query_text(&p.unwrap()),
        "symbol=BTCUSDT&type=TRAILING_STOP_MARKET&activationPrice=50000.12&callbackRate=0.5\
         &quantity=0.001&reduceOnly=true&timestamp=17&recvWindow=5000&positionSide=LONG"
    );
    let large = Dec::from_parts(79_228_162_514_264_337_593_543_950_335, 0).unwrap();
    let p = place_trailing_stop_order("BTCUSDT", Px(dec("1")), large, Qty(dec("1")), &rules(), false, 17, 5000);
    assert!(p.is_none());
}

fn position(symbol: &str, amt: &str, side: Option<&str>) -> FutPosition {
    FutPosition {
        symbol: symbol.to_string(),
        position_amt: amt.to_string(),
        entry_price: "50000".to_string(),
        leverage: "20".to_string(),
        liquidation_price: "45000".to_string(),
        position_side: side.map(|s| s.to_string()),
    }
}

#[test]
fn the_position_of_a_symbol() {
    let list = vec![position("ETHUSDT", "1", None), position("btcusdt", "-0.5", None)];
    let p = fetch_position(&list, "BTCUSDT", false).unwrap();
    assert_eq!(p.symbol, "BTCUSDT");
    assert_same(p.qty.0, "-0.5");
    assert_same(p.entry.0, "50000");
    assert_eq!(p.leverage, 20);
    assert_same(p.liq_px.unwrap().0, "45000");
    assert_eq!(fetch_position(&list, "XRPUSDT", false).unwrap_err(), PositionError::NotFound);
}

#[test]
fn several_positions_of_a_symbol_add_up() {
    let list = vec![position("BTCUSDT", "2", None), position("BTCUSDT", "-0.5", None)];
    assert_same(fetch_position(&list, "BTCUSDT", false).unwrap().qty.0, "1.5");
}

#[test]
fn a_position_that_cannot_be_read() {
    let mut p = position("BTCUSDT", "x", None);
    assert_eq!(fetch_position(&vec![p.clone()], "BTCUSDT", false).unwrap_err(), PositionError::BadNumber);
    p.position_amt = "1".to_string();
    p.leverage = "x".to_string();
    p.liquidation_price = "0".to_string();
    let r = fetch_position(&vec![p], "BTCUSDT", false).unwrap();
    assert_eq!(r.leverage, 1);
    assert!(r.liq_px.is_none());
}

#[test]
fn sides_are_held_apart_in_hedge_mode() {
    let long = position("BTCUSDT", "0.5", Some("LONG"));
    let short = position("BTCUSDT", "-0.3", Some("SHORT"));
    let none = position("BTCUSDT", "0", Some("SHORT"));
    let p = fetch_position(&vec![long.clone(), none], "BTCUSDT", true).unwrap();
    assert_same(p.qty.0, "0.5");
    assert_eq!(
        fetch_position(&vec![long, short], "BTCUSDT", true).unwrap_err(),
        PositionError::BothSides
    );
    let p = fetch_position(&vec![position("BTCUSDT", "-0.3", Some("BOTH"))], "BTCUSDT", true).unwrap();
    assert_same(p.qty.0, "0.3");
    let p = fetch_position(&vec![position("BTCUSDT", "1", Some("OTHER"))], "BTCUSDT", true).unwrap();
    assert_same(p.qty.0, "0");
}

#[test]
fn all_positions_that_are_open() {
    let list = vec![
        position("ETHUSDT", "0", None),
        position("BTCUSDT", "-0.5", None),
        position("XRPUSDT", "10", None),
    ];
    let all = fetch_all_positions(&list).unwrap();
    let symbols: Vec<&str> = all.iter().map(|p| p.symbol.as_str()).collect();
    assert_eq!(symbols, ["BTCUSDT", "XRPUSDT"]);
}

fn balance(asset: &str, free: &str) -> FutBalance {
    FutBalance { asset: asset.to_string(), available_balance: free.to_string() }
}

#[test]
fn balances() {
    let list = vec![balance("BNB", "x"), balance("USDT", "12.5")];
    assert_same(available_balance(&list, "USDT").unwrap(), "12.5");
    assert_same(available_balance(&list, "EUR").unwrap(), "0");
    assert!(available_balance(&list, "BNB").is_none());

    let read = fetch_balance(&list, "USDC").unwrap();
    assert_eq!(read.len(), 1);
    assert_eq!(read[0].asset, "USDT");
    assert!(fetch_balance(&list, "BNB").is_none());
    assert!(fetch_balance(&vec![balance("usdc", "")], "BNB").is_none());
}

#[test]
fn open_orders() {
    let order = |price: &str, side: &str| FutOpenOrder {
        order_id: 42,
        price: price.to_string(),
        orig_qty: "0.5".to_string(),
        side: side.to_string(),
    };
    let read = fetch_open_orders(&vec![order("100", "BUY"), order("101", "SELL")]).unwrap();
    assert_eq!(read[0].order_id, "42");
    assert_eq!(read[0].side, Side::Buy);
    assert_eq!(read[1].side, Side::Sell);
    assert_same(read[1].price.0, "101");
    assert_same(read[0].qty.0, "0.5");
    assert!(fetch_open_orders(&vec![order("x", "BUY")]).is_none());
}

#[test]
fn prices_of_a_book() {
    let level = |p: &str| (p.to_string(), "1".to_string());
    let (bid, ask) = best_prices(&vec![level("100"), level("99")], &vec![level("101")]).unwrap();
    assert_same(bid.0, "100");
    assert_same(ask.0, "101");
    assert_eq!(best_prices(&vec![], &vec![level("101")]).unwrap_err(), PriceError::NoBid);
    assert_eq!(best_prices(&vec![level("100")], &vec![]).unwrap_err(), PriceError::NoAsk);
    assert_eq!(best_prices(&vec![level("x")], &vec![level("101")]).unwrap_err(), PriceError::BadNumber);
}

fn brackets(symbol: &str, leverages: &[u32]) -> LeverageBrackets {
    LeverageBrackets { symbol: symbol.to_string(), leverages: leverages.to_vec() }
}

#[test]
fn the_leverage_that_a_symbol_allows() {
    let list = vec![brackets("ETHUSDT", &[75, 100, 50]), brackets("BTCUSDT", &[20, 125])];
    assert_eq!(select_max_leverage(&list, "btcusdt"), Some(125));
    assert_eq!(select_max_leverage(&list, "XRPUSDT"), Some(100));
    assert_eq!(select_max_leverage(&vec![], "BTCUSDT"), None);
    assert_eq!(symbol_max_leverage(&list, "BTCUSDT"), Ok(125));
    assert_eq!(symbol_max_leverage(&list, "btcusdt"), Err(LeverageError::SymbolMissing));
    assert_eq!(
        symbol_max_leverage(&vec![brackets("BTCUSDT", &[])], "BTCUSDT"),
        Err(LeverageError::NoBrackets)
    );
}

fn text(s: &str) -> Json {
    Json::Text(s.to_string())
}

fn whole(n: u64) -> Json {
    Json::Number(Number { unsigned: Some(n), signed: None, decimal: None })
}

fn object(fields: Vec<(&str, Json)>) -> Json {
    Json::Object(fields.into_iter().map(|(k, v)| (k.to_string(), v)).collect())
}

#[test]
fn brackets_are_read_leniently() {
    let answer = Json::List(vec![
        object(vec![("symbol", text("BTCUSDT"))]),
        object(vec![
            ("symbol", text("ETHUSDT")),
            (
                "brackets",
                Json::List(vec![
                    object(vec![("initialLeverage", text("50"))]),
                    object(vec![("initialLeverage", whole(75))]),
                    object(vec![("initialLeverage", Json::Null)]),
                ]),
            ),
        ]),
    ]);
    assert_eq!(fetch_max_leverage(&answer, None, "ETHUSDT"), Some(75));
    assert_eq!(fetch_max_leverage(&answer, Some(vec![brackets("ETHUSDT", &[5])]), "ETHUSDT"), Some(5));
    assert_eq!(fetch_max_leverage(&Json::Null, None, "ETHUSDT"), None);
}

#[test]
fn leverages_are_tried_from_the_highest() {
    assert_eq!(leverage_candidates(125), [100, 75, 50, 25, 20, 10, 5, 1]);
    assert_eq!(leverage_candidates(75), [75, 50, 25, 20, 10, 5, 1]);
    assert_eq!(leverage_candidates(3), [3, 5, 1]);
    let c = leverage_candidates(20);
    assert_eq!(leverage_step(&c, 0, None), LeverageState::Accepted { leverage: 20 });
    assert_eq!(
        leverage_step(&c, 0, Some("Leverage 20 is not valid")),
        LeverageState::Trying { index: 1 }
    );
    assert_eq!(leverage_step(&c, 0, Some("busy")), LeverageState::Failed);
    assert_eq!(
        leverage_step(&c, c.len() - 1, Some("Leverage 1 is not valid")),
        LeverageState::Failed
    );
    assert_eq!(
        query_text(&leverage_params("BTCUSDT", 20, 17, 5000)),
        "symbol=BTCUSDT&leverage=20&timestamp=17&recvWindow=5000"
    );
}

#[test]
fn an_order_never_asks_for_more() {
    let mut r = rules();
    r.tick_size = dec("0.3");
    r.step_size = dec("0.7");
    r.price_precision = 1;
    r.qty_precision = 1;
    r.min_notional = dec("0");
    let o = validate_and_format_order_params(Px(dec("100")), Qty(dec("-10")), &r).unwrap();
    assert!(o.price.same(&dec("99.9")));
    assert!(o.qty.same(&dec("9.8")));
    assert_eq!((o.price_text.as_str(), o.qty_text.as_str()), ("99.9", "9.8"));
    // With fewer places than the steps have, both are rounded down once more.
    r.price_precision = 0;
    r.qty_precision = 0;
    let o = validate_and_format_order_params(Px(dec("100")), Qty(dec("-10")), &r).unwrap();
    assert!(o.price.same(&dec("99")));
    assert!(o.qty.same(&dec("9")));
}
