use trading_bot::account::{
    balance_updates, handle_user_message, keep_alive_pause, position_updates, AccountBalance,
    AccountPosition, UserMessage,
};
use trading_bot::connection::PositionSide;
use trading_bot::decimal::Dec;
use trading_bot::json::{Json, Number};
use trading_bot::rules::str_dec;
use trading_bot::types::Side;
use trading_bot::user_stream::{
    into_order_update, keep_alive_due, keep_alive_url, listen_key_url, map_event, next_event,
    listed_position, parse_decimal, parse_side, to_position_update, told_position, ws_url_for,
    ListedPosition, OrderStatus,
    UserEvent, UserStreamAction, UserStreamError, UserStreamInput, UserStreamKind,
};

fn text(s: &str) -> Json {
    Json::Text(s.to_string())
}

fn object(fields: Vec<(&str, Json)>) -> Json {
    Json::Object(fields.into_iter().map(|(k, v)| (k.to_string(), v)).collect())
}

fn assert_same(a: Dec, b: &str) {
    assert!(a.same(&str_dec(b)), "{a:?} is not {b}");
}

fn order(status: &str, execution: &str) -> Vec<(&'static str, Json)> {
    vec![
        ("s", text("BTCUSDT")),
        ("i", Json::Number(Number { unsigned: Some(42), signed: Some(42), decimal: None })),
        ("c", text("mine")),
        ("S", text("BUY")),
        ("X", text(status)),
        ("x", text(execution)),
        ("l", text("0.1")),
        ("z", text("0.3")),
        ("L", text("50000")),
        ("m", Json::Bool(true)),
        ("n", text("0.02")),
    ]
}

fn update(status: &str, execution: &str) -> Json {
    object(vec![("e", text("ORDER_TRADE_UPDATE")), ("o", object(order(status, execution)))])
}

#[test]
fn a_fill_is_reported() {
    match map_event(&update("PARTIALLY_FILLED", "TRADE")).unwrap() {
        UserEvent::OrderFill {
            symbol,
            order_id,
            client_order_id,
            side,
            qty,
            cumulative_filled_qty,
            price,
            is_maker,
            order_status,
            commission,
        } => {
            assert_eq!(symbol, "BTCUSDT");
            assert_eq!(order_id, "42");
            assert_eq!(client_order_id.as_deref(), Some("mine"));
            assert_eq!(side, Side::Buy);
            assert_same(qty.0, "0.1");
            assert_same(cumulative_filled_qty.0, "0.3");
            assert_same(price.0, "50000");
            assert!(is_maker);
            assert_eq!(order_status, "PARTIALLY_FILLED");
            assert_same(commission, "0.02");
        }
        other => panic!("{other:?}"),
    }
}

#[test]
fn a_cancelled_order_is_reported() {
    match map_event(&update("CANCELED", "CANCELED")).unwrap() {
        UserEvent::OrderCanceled { symbol, order_id, client_order_id } => {
            assert_eq!(symbol, "BTCUSDT");
            assert_eq!(order_id, "42");
            assert_eq!(client_order_id.as_deref(), Some("mine"));
        }
        other => panic!("{other:?}"),
    }
    assert!(matches!(map_event(&update("NEW", "NEW")).unwrap(), UserEvent::Heartbeat));
}

#[test]
fn an_execution_report_is_an_order_itself() {
    let mut fields = order("FILLED", "TRADE");
    fields.push(("e", text("executionReport")));
    assert!(matches!(map_event(&object(fields)).unwrap(), UserEvent::OrderFill { .. }));
}

#[test]
fn an_update_without_an_order_fails() {
    let v = object(vec![("e", text("ORDER_TRADE_UPDATE"))]);
    assert_eq!(map_event(&v).unwrap_err(), UserStreamError::MissingPayload);
    assert!(matches!(map_event(&Json::Null).unwrap(), UserEvent::Heartbeat));
}

#[test]
fn what_comes_out_of_the_stream() {
    assert!(matches!(next_event(&UserStreamInput::Ping), UserStreamAction::AnswerPing));
    assert!(matches!(
        next_event(&UserStreamInput::Pong),
        UserStreamAction::Report(UserEvent::Heartbeat)
    ));
    for input in [UserStreamInput::EmptyText, UserStreamInput::Binary, UserStreamInput::Frame] {
        assert!(matches!(next_event(&input), UserStreamAction::Wait));
    }
    let wrapped = object(vec![("data", update("FILLED", "TRADE"))]);
    assert!(matches!(
        next_event(&UserStreamInput::Text(wrapped)),
        UserStreamAction::Report(UserEvent::OrderFill { .. })
    ));
    for (input, error) in [
        (UserStreamInput::UnreadableText, UserStreamError::Unreadable),
        (UserStreamInput::Close, UserStreamError::Closed),
        (UserStreamInput::ClosedError, UserStreamError::Closed),
        (UserStreamInput::OtherError, UserStreamError::Failed),
        (UserStreamInput::End, UserStreamError::Terminated),
    ] {
        match next_event(&input) {
            UserStreamAction::Fail(e) => assert_eq!(e, error),
            other => panic!("{other:?}"),
        }
    }
    assert!(matches!(next_event(&UserStreamInput::Timeout), UserStreamAction::Reconnect));
}

#[test]
fn addresses_of_the_stream() {
    assert_eq!(ws_url_for(UserStreamKind::Futures, "abc"), "wss://fstream.binance.com/ws/abc");
    assert_eq!(listen_key_url("https://example.org//"), "https://example.org/fapi/v1/listenKey");
    assert_eq!(
        keep_alive_url("https://example.org/", "abc"),
        "https://example.org/fapi/v1/listenKey?listenKey=abc"
    );
    assert!(!keep_alive_due(1499));
    assert!(keep_alive_due(1500));
}

#[test]
fn a_listen_key_is_refreshed_three_times() {
    assert_eq!(keep_alive_pause(1), Some(10));
    assert_eq!(keep_alive_pause(2), Some(20));
    assert_eq!(keep_alive_pause(3), None);
}

#[test]
fn words_of_the_exchange() {
    assert_eq!(parse_side("buy"), Side::Buy);
    assert_eq!(parse_side("BUY"), Side::Buy);
    assert_eq!(parse_side("sell"), Side::Sell);
    assert_eq!(parse_side(""), Side::Sell);
    let v = object(vec![("p", text("1.5")), ("q", text("x"))]);
    assert_same(parse_decimal(&v, "p"), "1.5");
    assert_same(parse_decimal(&v, "q"), "0");
    assert_same(parse_decimal(&v, "r"), "0");
}

#[test]
fn updates_of_orders() {
    for (word, status) in [
        ("NEW", OrderStatus::New),
        ("PARTIALLY_FILLED", OrderStatus::PartiallyFilled),
        ("FILLED", OrderStatus::Filled),
        ("CANCELED", OrderStatus::Canceled),
        ("REJECTED", OrderStatus::Rejected),
        ("EXPIRED", OrderStatus::New),
    ] {
        assert_eq!(into_order_update("BTCUSDT", "BUY", word, "1", 17).status, status);
    }
    let u = into_order_update("BTCUSDT", "SELL", "NEW", "x", 17);
    assert_eq!(u.ts_ms, 17);
    assert_eq!(u.side, PositionSide::Short);
    assert_same(u.filled_qty, "0");
}

#[test]
fn updates_of_positions() {
    let u = to_position_update("BTCUSDT", "-0.5", "50000", "x", str_dec("20")).unwrap();
    assert_eq!(u.side, PositionSide::Short);
    assert_same(u.size, "0.5");
    assert_same(u.entry_price, "50000");
    assert_same(u.unrealized_pnl, "0");
    assert_same(u.leverage, "20");
    assert!(!u.is_closed);
    assert!(to_position_update("BTCUSDT", "0", "0", "0", str_dec("20")).unwrap().is_closed);
    assert!(to_position_update("BTCUSDT", "x", "0", "0", str_dec("20")).is_none());
    assert!(told_position("BTCUSDT", "0", "0", "0", "20").is_none());
    assert_same(told_position("BTCUSDT", "1", "0", "0", "20").unwrap().leverage, "20");
}

#[test]
fn an_update_of_the_account() {
    let kind = |k: &str| handle_user_message(&object(vec![("e", text(k))]));
    assert_eq!(kind("ORDER_TRADE_UPDATE"), UserMessage::Order);
    assert_eq!(kind("ACCOUNT_UPDATE"), UserMessage::Account);
    assert_eq!(kind("listenKeyExpired"), UserMessage::Other);
    assert_eq!(handle_user_message(&Json::Null), UserMessage::Other);

    let balance = |asset: &str, free: &str| AccountBalance {
        asset: asset.to_string(),
        wallet_balance: free.to_string(),
    };
    let told = balance_updates(&vec![balance("BNB", "x"), balance("USDT", "12.5")]);
    assert_eq!(told.len(), 1);
    assert_eq!(told[0].asset, "USDT");
    assert_same(told[0].free, "12.5");

    let position = |symbol: &str, amount: &str| AccountPosition {
        symbol: symbol.to_string(),
        position_amount: amount.to_string(),
        entry_price: "1".to_string(),
        unrealized_pnl: "0".to_string(),
    };
    let told = position_updates(&vec![position("A", ""), position("B", "2")], str_dec("20"));
    assert_eq!(told.len(), 1);
    assert_eq!(told[0].symbol, "B");
}

#[test]
fn the_first_position_of_a_symbol_is_listed() {
    let listed = |symbol: &str, amount: &str| ListedPosition {
        symbol: symbol.to_string(),
        position_amount: amount.to_string(),
        entry_price: "100".to_string(),
        unrealized_profit: "-2".to_string(),
        leverage: "20".to_string(),
    };
    let list = vec![listed("btcusdt", "9"), listed("BTCUSDT", "-1"), listed("BTCUSDT", "5")];
    let u = listed_position(&list, "BTCUSDT").unwrap();
    assert_eq!(u.symbol, "BTCUSDT");
    assert_eq!(u.side, PositionSide::Short);
    assert_same(u.size, "1");
    assert_same(u.unrealized_pnl, "-2");
    assert_same(u.leverage, "20");
    assert!(listed_position(&list, "ETHUSDT").is_none());
    assert!(listed_position(&vec![listed("BTCUSDT", "0")], "BTCUSDT").is_none());
    assert!(to_position_update("BTCUSDT", "1_0", "0", "0", str_dec("20")).is_none());
}
