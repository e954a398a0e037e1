use trading_bot::config::{BotConfig, Environment, FileConfig};
use trading_bot::connection::{
    check_leverage, check_message_size, extract_text_from_message, fit_weight, get_endpoint_weight,
    WeightStep,
    is_order_endpoint, margin_mode_params, next_retry_delay, order_params, server_time_offset,
    synced_timestamp, trim_slashes, Connection, ConnectionError, NewOrderRequest, PositionSide,
    StreamMessage,
};
use trading_bot::decimal::Dec;
use trading_bot::json::Json;
use trading_bot::query::query_text;
use trading_bot::rules::str_dec;
use trading_bot::symbol_info::{
    calculate_limit_price, calculate_order_price, fetch_symbol_info, format_quantity,
    round_to_step_size, send_order, send_order_fast, usable_best_prices, ExchangeSymbol, PriceError,
    SymbolFilter, SymbolPrecision,
};

fn dec(s: &str) -> Dec {
    str_dec(s)
}

fn assert_same(a: Dec, b: &str) {
    assert!(a.same(&dec(b)), "{a:?} is not {b}");
}

fn connection() -> Connection {
    let mut cfg = BotConfig::from_env(&Environment::default(), &FileConfig::default());
    cfg.ws_base_url = "wss://example.org//".to_string();
    Connection::new(cfg)
}

#[test]
fn addresses_of_streams() {
    let c = connection();
    assert_eq!(c.quote_asset(), "USDT");
    assert_eq!(c.config().symbol, "BTCUSDT");
    assert_eq!(c.mark_price_stream_url(), "wss://example.org/ws/btcusdt@markPrice@1s");
    assert_eq!(c.depth_stream_url(), "wss://example.org/ws/btcusdt@depth20@100ms");
    assert_eq!(c.open_interest_stream_url(), "wss://example.org/ws/btcusdt@openInterest");
    assert_eq!(c.force_order_stream_url(), "wss://example.org/ws/btcusdt@forceOrder");
    assert_eq!(c.user_stream_url("abc"), "wss://example.org/ws/abc");
    let symbols = ["BTCUSDT".to_string(), "\u{c9}THUSDT".to_string()];
    assert_eq!(
        Connection::build_combined_stream_url(&symbols, "kline", Some("5m")),
        "wss://fstream.binance.com/stream?streams=btcusdt@kline@5m/\u{e9}thusdt@kline@5m"
    );
    assert_eq!(
        Connection::build_combined_stream_url(&[], "kline", None),
        "wss://fstream.binance.com/stream?streams="
    );
    assert_eq!(trim_slashes("///"), "");
}

#[test]
fn messages_of_streams() {
    assert_eq!(check_message_size(1_048_576), Ok(()));
    assert_eq!(check_message_size(1_048_577), Err(ConnectionError::MessageTooLarge));
    assert_eq!(
        extract_text_from_message(StreamMessage::Text("a".to_string())),
        Ok(Some("a".to_string()))
    );
    assert_eq!(
        extract_text_from_message(StreamMessage::Text("a".repeat(1_048_577))),
        Err(ConnectionError::MessageTooLarge)
    );
    assert_eq!(extract_text_from_message(StreamMessage::Binary(5)), Ok(None));
    assert_eq!(
        extract_text_from_message(StreamMessage::Binary(1_048_577)),
        Err(ConnectionError::MessageTooLarge)
    );
    assert_eq!(extract_text_from_message(StreamMessage::Control), Ok(None));
    assert_eq!(
        extract_text_from_message(StreamMessage::Failed),
        Err(ConnectionError::StreamFailed)
    );
}

#[test]
fn credentials_and_health() {
    let mut c = connection();
    assert_eq!(c.ensure_credentials(), Err(ConnectionError::CredentialsMissing));
    c.config.api_key = "key".to_string();
    c.config.api_secret = "secret".to_string();
    assert_eq!(c.ensure_credentials(), Ok(()));
    assert_eq!(c.check_websocket_health(None, 100), (true, i64::MAX));
    assert_eq!(c.check_websocket_health(Some(70), 100), (false, 30));
    assert_eq!(c.check_websocket_health(Some(69), 100), (true, 31));
}

#[test]
fn what_requests_count() {
    assert_eq!(get_endpoint_weight("/fapi/v2/balance"), 5);
    assert_eq!(get_endpoint_weight("/fapi/v2/positionRisk"), 5);
    assert_eq!(get_endpoint_weight("/fapi/v1/forceOrders"), 20);
    assert_eq!(get_endpoint_weight("/fapi/v1/time"), 1);
    assert!(is_order_endpoint("/fapi/v1/order"));
    assert!(is_order_endpoint("/fapi/v1/marginType"));
    assert!(is_order_endpoint("/fapi/v1/leverage"));
    assert!(!is_order_endpoint("/fapi/v2/balance"));
}

#[test]
fn clocks() {
    assert_eq!(server_time_offset(100, 160, 111), 55);
    assert_eq!(server_time_offset(-100, 0, -101), 100);
    assert_eq!(synced_timestamp(1000, -5), 995);
    assert_eq!(next_retry_delay(1), 2);
    assert_eq!(next_retry_delay(30), 60);
    assert_eq!(next_retry_delay(31), 60);
    assert_eq!(next_retry_delay(u64::MAX), 60);
}

fn order(quantity: &str, reduce_only: bool) -> NewOrderRequest {
    NewOrderRequest {
        symbol: "BTCUSDT".to_string(),
        side: PositionSide::Short,
        quantity: dec(quantity),
        reduce_only,
        client_order_id: Some("mine".to_string()),
    }
}

#[test]
fn parameters_of_orders() {
    assert_eq!(
        query_text(&order_params(&order("1", false), "1.00", Some("50000")).unwrap()),
        "symbol=BTCUSDT&side=SELL&type=LIMIT&quantity=1.00&price=50000&timeInForce=GTC&newClientOrderId=mine"
    );
    assert_eq!(
        query_text(&order_params(&order("1", true), "1.00", Some("50000")).unwrap()),
        "symbol=BTCUSDT&side=SELL&type=MARKET&quantity=1.00&reduceOnly=true&newClientOrderId=mine"
    );
    assert_eq!(
        order_params(&order("0", false), "0", None),
        Err(ConnectionError::QuantityNotPositive)
    );
    assert_eq!(
        query_text(&margin_mode_params("BTCUSDT", false)),
        "symbol=BTCUSDT&marginType=CROSSED"
    );
    assert_eq!(PositionSide::Long.to_binance_str(), "BUY");
}

#[test]
fn leverages_that_are_refused() {
    assert_eq!(check_leverage(dec("20"), dec("20")), Ok(()));
    assert_eq!(check_leverage(dec("0"), dec("20")), Err(ConnectionError::LeverageNotPositive));
    assert_eq!(check_leverage(dec("20.5"), dec("20")), Err(ConnectionError::LeverageAboveMaximum));
}

fn text(s: &str) -> Json {
    Json::Text(s.to_string())
}

fn filter(kind: &str, fields: Vec<(&str, Json)>) -> SymbolFilter {
    SymbolFilter {
        filter_type: kind.to_string(),
        data: Json::Object(fields.into_iter().map(|(k, v)| (k.to_string(), v)).collect()),
    }
}

fn info() -> SymbolPrecision {
    SymbolPrecision {
        step_size: dec("0.001"),
        min_quantity: dec("0.001"),
        max_quantity: Some(dec("100")),
        tick_size: dec("0.1"),
        min_price: dec("0.1"),
        max_price: None,
    }
}

#[test]
fn filters_of_a_symbol() {
    let listed = vec![ExchangeSymbol {
        symbol: "BTCUSDT".to_string(),
        filters: vec![
            filter(
                "LOT_SIZE",
                vec![("stepSize", text("0.001")), ("minQty", text("0.002")), ("maxQty", text("500"))],
            ),
            filter(
                "PRICE_FILTER",
                vec![
                    ("tickSize", text("0.10")),
                    ("minPrice", text("1")),
                    ("maxPrice", text("x")),
                ],
            ),
        ],
    }];
    let p = fetch_symbol_info(&listed, "BTCUSDT").unwrap();
    assert_same(p.step_size, "0.001");
    assert_same(p.min_quantity, "0.002");
    assert_same(p.max_quantity.unwrap(), "500");
    assert_same(p.tick_size, "0.1");
    assert_same(p.min_price, "1");
    assert!(p.max_price.is_none());
    assert!(fetch_symbol_info(&listed, "ETHUSDT").is_none());
}

fn levels(prices: &[&str]) -> Vec<(String, String)> {
    prices.iter().map(|p| (p.to_string(), "1".to_string())).collect()
}

#[test]
fn prices_of_orders() {
    let long = calculate_limit_price(PositionSide::Long, dec("100"), dec("102"), dec("0.1")).unwrap();
    let short = calculate_limit_price(PositionSide::Short, dec("100"), dec("102"), dec("0.1")).unwrap();
    assert_same(long, "102");
    assert_same(short, "100");
    let between = calculate_limit_price(PositionSide::Long, dec("100"), dec("102.05"), dec("0.1"));
    assert_same(between.unwrap(), "102.1");
    let free = calculate_limit_price(PositionSide::Long, dec("100"), dec("102.05"), dec("0"));
    assert_same(free.unwrap(), "102.05");
    let (bid, ask) = usable_best_prices(&levels(&["100"]), &levels(&["102"])).unwrap();
    assert_same(bid, "100");
    assert_same(ask, "102");
    assert!(usable_best_prices(&levels(&["0"]), &levels(&["102"])).is_none());
    assert!(usable_best_prices(&levels(&[]), &levels(&["102"])).is_none());

    let p = calculate_order_price(&levels(&["100"]), &levels(&["102"]), Some(&info()), PositionSide::Long);
    assert_same(p.unwrap(), "102");
    let err = |r: Result<Dec, PriceError>| r.unwrap_err();
    assert_eq!(
        err(calculate_order_price(&levels(&["x"]), &levels(&["102"]), Some(&info()), PositionSide::Long)),
        PriceError::InvalidBestBid
    );
    assert_eq!(
        err(calculate_order_price(&levels(&["100"]), &levels(&[]), Some(&info()), PositionSide::Long)),
        PriceError::InvalidBestAsk
    );
    assert_eq!(
        err(calculate_order_price(&levels(&["100"]), &levels(&["102"]), None, PositionSide::Long)),
        PriceError::UnknownSymbol
    );
}

#[test]
fn quantities_of_orders() {
    assert_same(round_to_step_size(dec("1.2345"), dec("0.01")).unwrap(), "1.23");
    assert_eq!(format_quantity(dec("1.2"), dec("0.001")), "1.200");
    assert_eq!(format_quantity(dec("5"), dec("1")), "5");
}

#[test]
fn orders_as_they_are_sent() {
    let p = send_order(&order("1.23456", false), &info(), Some((dec("100"), dec("102")))).unwrap();
    assert_eq!(
        query_text(&p),
        "symbol=BTCUSDT&side=SELL&type=LIMIT&quantity=1.234&price=100.0&timeInForce=GTC&newClientOrderId=mine"
    );
    let market = "symbol=BTCUSDT&side=SELL&type=MARKET&quantity=1.234&reduceOnly=true&newClientOrderId=mine";
    let p = send_order(&order("1.23456", true), &info(), Some((dec("100"), dec("102")))).unwrap();
    assert_eq!(query_text(&p), market);
    let p = send_order_fast(&order("1.23456", true), &info()).unwrap();
    assert_eq!(query_text(&p), market);
    assert_eq!(
        send_order(&order("0", false), &info(), None),
        Err(ConnectionError::QuantityNotPositive)
    );
    let mut fine = info();
    fine.step_size = Dec::from_parts(1, 28).unwrap();
    assert_eq!(
        send_order_fast(&order("79228162514264337593543950335", false), &fine),
        Err(ConnectionError::Overflow)
    );
}

#[test]
fn requests_are_fitted_into_the_limit() {
    let step = |wait_ms, new_window, used| WeightStep { wait_ms, new_window, used };
    assert_eq!(fit_weight(0, 0, 5), step(0, false, 5));
    assert_eq!(fit_weight(2395, 59_999, 5), step(0, false, 2400));
    assert_eq!(fit_weight(2396, 59_999, 5), step(1, true, 5));
    assert_eq!(fit_weight(2400, 0, 1), step(60_000, true, 1));
    assert_eq!(fit_weight(2400, 60_000, 1), step(0, true, 1));
    assert_eq!(fit_weight(u32::MAX, 10, u32::MAX), step(59_990, true, u32::MAX));
}
