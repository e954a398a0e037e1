use trading_bot::placing::{
    attempt_client_id, base_client_id, is_valid_client_id, limit_order_params, tif_text,
};
use trading_bot::query::{
    depth_url, exchange_info_url, lookup_params, query_text, signed_address, venue_base,
};
use trading_bot::signing::{sign, sign_params, with_signature};
use trading_bot::types::{Side, Tif};
use trading_bot::venue::{
    cancel_params, listed_rules, margin_type_params, order_query_outcome, order_query_params,
    position_side_params, rules_step, symbol_assets, symbol_metadata, OrderQueryOutcome, RulesStep,
};
use trading_bot::rules::{FutExchangeSymbol, FutFilter};

fn pair(name: &str, value: &str) -> (String, String) {
    (name.to_string(), value.to_string())
}

fn text(params: &Vec<(String, String)>) -> String {
    query_text(params)
}

#[test]
fn a_signature_is_the_code_of_the_query() {
    assert_eq!(
        sign("Jefe", "what do ya want for nothing?"),
        "5bdcc146bf60754e6a042426089575c75a003f089d2739839dec58b964ec3843"
    );
    assert_eq!(
        with_signature("what do ya want for nothing?", "Jefe"),
        "what do ya want for nothing?&signature=5bdcc146bf60754e6a042426089575c75a003f089d2739839dec58b964ec3843"
    );
}

#[test]
fn a_form_is_encoded_and_signed() {
    let params = vec![pair("symbol", "BTCUSDT"), pair("note", "a b&c")];
    let q = "symbol=BTCUSDT&note=a+b%26c&timestamp=17&recvWindow=5000";
    assert_eq!(
        sign_params(params.clone(), 17, 5000, "key").unwrap(),
        format!("{q}&signature={}", sign("key", q))
    );
    let q = "symbol=BTCUSDT&note=a+b%26c&timestamp=-17";
    assert_eq!(
        sign_params(params, -17, 0, "key").unwrap(),
        format!("{q}&signature={}", sign("key", q))
    );
}

#[test]
fn a_signed_address_ends_with_the_signature() {
    let params = cancel_params("BTCUSDT", "42", 17, 5000);
    let q = "symbol=BTCUSDT&orderId=42&timestamp=17&recvWindow=5000";
    assert_eq!(text(&params), q);
    assert_eq!(
        signed_address("https://example.org", "/fapi/v1/order", &params, "key"),
        format!("https://example.org/fapi/v1/order?{q}&signature={}", sign("key", q))
    );
}

#[test]
fn a_symbol_is_encoded_in_an_address() {
    assert_eq!(
        exchange_info_url("https://example.org", "BTC USDT/1"),
        "https://example.org/fapi/v1/exchangeInfo?symbol=BTC%20USDT%2F1"
    );
    assert_eq!(
        depth_url("https://example.org", "BTCUSDT"),
        "https://example.org/fapi/v1/depth?symbol=BTCUSDT&limit=5"
    );
}

#[test]
fn bytes_that_stand_for_themselves() {
    let kept = "AZaz09-_.~";
    assert_eq!(exchange_info_url("", kept), format!("/fapi/v1/exchangeInfo?symbol={kept}"));
    assert_eq!(
        exchange_info_url("", "*+%&=?\u{e9}\u{1f600}\n"),
        "/fapi/v1/exchangeInfo?symbol=%2A%2B%25%26%3D%3F%C3%A9%F0%9F%98%80%0A"
    );
    let q = "AZaz09-_.%7E=*%2B%25%26%3D%3F%C3%A9%F0%9F%98%80%0A+&=&timestamp=1";
    let params = vec![pair(kept, "*+%&=?\u{e9}\u{1f600}\n "), pair("", "")];
    assert_eq!(
        sign_params(params, 1, 0, "key").unwrap(),
        format!("{q}&signature={}", sign("key", q))
    );
    let q = "timestamp=1";
    assert_eq!(
        sign_params(vec![], 1, 0, "key").unwrap(),
        format!("{q}&signature={}", sign("key", q))
    );
}

#[test]
fn the_test_network_has_an_address_of_its_own() {
    assert_eq!(venue_base("https://testnet.example.org"), "https://testnet.binancefuture.com");
    assert_eq!(venue_base("https://fapi.binance.com"), "https://fapi.binance.com");
}

#[test]
fn parameters_of_lookups() {
    assert_eq!(text(&lookup_params(Some("BTCUSDT"), 17, 5000)), "symbol=BTCUSDT&timestamp=17&recvWindow=5000");
    assert_eq!(text(&lookup_params(None, 17, 5000)), "timestamp=17&recvWindow=5000");
    assert_eq!(text(&vec![]), "");
    assert_eq!(
        text(&order_query_params("BTCUSDT", "id-1", 17, 5000)),
        "symbol=BTCUSDT&origClientOrderId=id-1&timestamp=17&recvWindow=5000"
    );
}

#[test]
fn parameters_of_settings() {
    assert_eq!(
        text(&position_side_params(true, 17, 5000)),
        "dualSidePosition=true&timestamp=17&recvWindow=5000"
    );
    assert_eq!(
        text(&position_side_params(false, 17, 5000)),
        "dualSidePosition=false&timestamp=17&recvWindow=5000"
    );
    assert_eq!(
        text(&margin_type_params("BTCUSDT", true, 17, 5000)),
        "symbol=BTCUSDT&marginType=ISOLATED&timestamp=17&recvWindow=5000"
    );
    assert_eq!(
        text(&margin_type_params("BTCUSDT", false, 17, 5000)),
        "symbol=BTCUSDT&marginType=CROSSED&timestamp=17&recvWindow=5000"
    );
}

#[test]
fn parameters_of_a_limit_order() {
    let params = limit_order_params(
        "BTCUSDT", Side::Buy, Tif::PostOnly, "50000.1", "0.001", "id-1", true, 17, 5000,
    );
    assert_eq!(
        text(&params),
        "symbol=BTCUSDT&side=BUY&type=LIMIT&timeInForce=GTX&price=50000.1&quantity=0.001\
         &timestamp=17&recvWindow=5000&newOrderRespType=RESULT&positionSide=LONG&newClientOrderId=id-1"
    );
    let params = limit_order_params(
        "BTCUSDT", Side::Sell, Tif::Ioc, "50000.1", "0.001", "not valid", false, 17, 5000,
    );
    assert_eq!(
        text(&params),
        "symbol=BTCUSDT&side=SELL&type=LIMIT&timeInForce=IOC&price=50000.1&quantity=0.001\
         &timestamp=17&recvWindow=5000&newOrderRespType=RESULT"
    );
    assert_eq!(tif_text(Tif::Gtc), "GTC");
}

#[test]
fn client_order_ids() {
    assert!(is_valid_client_id("abc-DEF_123"));
    assert!(is_valid_client_id("\u{e9}t\u{e9}"));
    assert!(!is_valid_client_id(""));
    assert!(!is_valid_client_id("a b"));
    assert!(!is_valid_client_id("a.b"));
    assert!(is_valid_client_id(&"a".repeat(36)));
    assert!(!is_valid_client_id(&"a".repeat(37)));
    // The length is counted in bytes.
    assert!(!is_valid_client_id(&"\u{e9}".repeat(19)));
    assert_eq!(base_client_id("mine", 17), "mine");
    assert_eq!(base_client_id("", 17), "17");
    assert_eq!(attempt_client_id("mine", 0, 1_234_567_890), "mine");
    assert_eq!(attempt_client_id("mine", 2, 1_234_567_890), "mine-1234567890-567890");
}

#[test]
fn answers_to_a_question_for_an_order() {
    assert_eq!(order_query_outcome(true, true, ""), OrderQueryOutcome::Found);
    assert_eq!(order_query_outcome(true, false, ""), OrderQueryOutcome::NotFound);
    assert_eq!(
        order_query_outcome(false, false, "{\"msg\":\"ORDER DOES NOT EXIST\"}"),
        OrderQueryOutcome::NotFound
    );
    assert_eq!(order_query_outcome(false, false, "{\"code\":-2013}"), OrderQueryOutcome::NotFound);
    assert_eq!(order_query_outcome(false, false, "busy"), OrderQueryOutcome::Failed);
}

#[test]
fn rules_are_asked_for_three_times() {
    assert_eq!(rules_step(0, None), RulesStep::RetryAfter(100));
    assert_eq!(rules_step(1, None), RulesStep::RetryAfter(200));
    assert_eq!(rules_step(2, None), RulesStep::GiveUp);
    assert_eq!(rules_step(0, Some(1)), RulesStep::Read);
    assert_eq!(rules_step(0, Some(0)), RulesStep::SymbolMissing);
}

fn symbol(name: &str) -> FutExchangeSymbol {
    FutExchangeSymbol {
        symbol: name.to_string(),
        base_asset: "BTC".to_string(),
        quote_asset: "USDT".to_string(),
        contract_type: "PERPETUAL".to_string(),
        status: "TRADING".to_string(),
        filters: vec![FutFilter::PriceFilter { tick_size: "0.1".to_string() }],
        price_precision: None,
        qty_precision: None,
    }
}

#[test]
fn what_is_listed_of_symbols() {
    let listed = vec![symbol("BTCUSDT"), symbol("ETHUSDT")];
    let meta = symbol_metadata(&listed);
    assert_eq!(meta.len(), 2);
    assert_eq!(meta[1].symbol, "ETHUSDT");
    assert_eq!(meta[0].base_asset, "BTC");
    assert_eq!(meta[0].quote_asset, "USDT");
    assert_eq!(meta[0].status.as_deref(), Some("TRADING"));
    assert_eq!(meta[0].contract_type.as_deref(), Some("PERPETUAL"));
    assert_eq!(symbol_assets(&listed), Some(("BTC".to_string(), "USDT".to_string())));
    assert_eq!(symbol_assets(&vec![]), None);

    let rules = listed_rules(&listed, Some(20)).unwrap();
    assert_eq!(rules.max_leverage, Some(20));
    assert_eq!(rules.price_precision, 1);
    assert!(listed_rules(&vec![], Some(20)).is_none());
}
