use trading_bot::flatten::{
    calculate_dust_threshold, close_order_params, flatten_action, flatten_step, FlattenAction,
    FlattenError, FlattenEvent, FlattenMode, FlattenOutcome, FlattenState,
};
use trading_bot::query::query_text;
use trading_bot::rules::{str_dec, SymbolRules};
use trading_bot::types::Px;

const BOTH: FlattenMode = FlattenMode { hedge_mode: false, use_market_only: false };
const MARKET: FlattenMode = FlattenMode { hedge_mode: true, use_market_only: true };

fn rules() -> SymbolRules {
    SymbolRules {
        tick_size: str_dec("0.1"),
        step_size: str_dec("0.001"),
        price_precision: 2,
        qty_precision: 3,
        min_notional: str_dec("5"),
        max_leverage: None,
    }
}

fn position(qty: &str) -> FlattenEvent {
    FlattenEvent::Position { qty: str_dec(qty) }
}

fn told() -> FlattenEvent {
    FlattenEvent::Rules { rules: rules() }
}

fn prices(bid: &str, ask: &str) -> FlattenEvent {
    FlattenEvent::Prices { bid: Px(str_dec(bid)), ask: Px(str_dec(ask)) }
}

fn run(mode: FlattenMode, events: &[FlattenEvent]) -> FlattenState {
    let mut state = FlattenState::Start;
    for e in events {
        state = flatten_step(mode, state, *e);
    }
    state
}

fn outcome(mode: FlattenMode, events: &[FlattenEvent]) -> FlattenOutcome {
    match run(mode, events) {
        FlattenState::Finished { outcome } => outcome,
        other => panic!("not finished: {other:?}"),
    }
}

fn failed(e: FlattenError) -> FlattenOutcome {
    FlattenOutcome::Failed(e)
}

fn sent(mode: FlattenMode, events: &[FlattenEvent]) -> String {
    match flatten_action(mode, &run(mode, events)) {
        FlattenAction::SendOrder { order } => {
            query_text(&close_order_params(&order, "BTCUSDT", 17, 5000))
        }
        other => panic!("{other:?}"),
    }
}

#[test]
fn nothing_is_there_to_close() {
    assert_eq!(outcome(BOTH, &[position("0")]), FlattenOutcome::Closed);
    assert_eq!(outcome(BOTH, &[FlattenEvent::PositionMissing]), FlattenOutcome::Closed);
    assert_eq!(
        outcome(BOTH, &[FlattenEvent::PositionFailed]),
        failed(FlattenError::PositionUnavailable)
    );
    assert_eq!(outcome(BOTH, &[position("0.0004"), told()]), FlattenOutcome::Closed);
    assert_eq!(
        outcome(BOTH, &[position("1"), FlattenEvent::RulesFailed]),
        failed(FlattenError::RulesUnavailable)
    );
}

#[test]
fn a_position_is_closed_by_a_market_order() {
    let start = [position("0.5"), told(), position("0.4567")];
    assert_eq!(
        sent(BOTH, &start),
        "symbol=BTCUSDT&side=SELL&type=MARKET&quantity=0.456&reduceOnly=true&timestamp=17&recvWindow=5000"
    );
    assert_eq!(
        sent(MARKET, &[position("-0.5"), told(), position("-0.5")]),
        "symbol=BTCUSDT&side=BUY&type=MARKET&quantity=0.500&reduceOnly=true&timestamp=17&recvWindow=5000&positionSide=SHORT"
    );
    let end = [position("0.5"), told(), position("0.5"), FlattenEvent::OrderAccepted, position("0")];
    assert_eq!(outcome(BOTH, &end), FlattenOutcome::Closed);
    let end = [position("0.5"), told(), position("0.5"), FlattenEvent::OrderRefusedClosed];
    assert_eq!(outcome(BOTH, &end), FlattenOutcome::Closed);
    let end = [position("0.5"), told(), FlattenEvent::PositionMissing];
    assert_eq!(outcome(BOTH, &end), FlattenOutcome::Closed);
}

#[test]
fn what_has_to_be_done() {
    assert!(matches!(
        flatten_action(BOTH, &FlattenState::Start),
        FlattenAction::FetchPosition { pause_ms: 0 }
    ));
    assert!(matches!(flatten_action(BOTH, &run(BOTH, &[position("1")])), FlattenAction::FetchRules));
    let accepted = [position("1"), told(), position("1"), FlattenEvent::OrderAccepted];
    assert!(matches!(
        flatten_action(BOTH, &run(BOTH, &accepted)),
        FlattenAction::FetchPosition { pause_ms: 1000 }
    ));
    let again = [position("1"), told(), position("1"), FlattenEvent::OrderFailed];
    assert!(matches!(
        flatten_action(BOTH, &run(BOTH, &again)),
        FlattenAction::FetchPosition { pause_ms: 500 }
    ));
    let small = [position("1"), told(), position("1"), FlattenEvent::OrderRefusedMinNotional];
    assert!(matches!(flatten_action(BOTH, &run(BOTH, &small)), FlattenAction::RefreshRules));
    assert!(matches!(
        flatten_action(MARKET, &run(MARKET, &small)),
        FlattenAction::FetchPosition { pause_ms: 500 }
    ));
}

#[test]
fn three_attempts_are_made() {
    let mut events = vec![position("1"), told()];
    for _ in 0..3 {
        events.extend([position("1"), FlattenEvent::OrderAccepted, position("0.5")]);
    }
    assert_eq!(outcome(BOTH, &events), failed(FlattenError::NotFullyClosed));
    let mut events = vec![position("1"), told()];
    for _ in 0..3 {
        events.extend([position("1"), FlattenEvent::OrderFailed]);
    }
    assert_eq!(outcome(BOTH, &events), failed(FlattenError::SendFailed));
    assert_eq!(outcome(MARKET, &events), failed(FlattenError::MarketFailed));
}

#[test]
fn a_position_that_grows_is_given_up() {
    let events = [position("1"), told(), position("1.6")];
    assert_eq!(outcome(BOTH, &events), failed(FlattenError::ControlLost));
    let events = [position("1"), told(), position("1"), FlattenEvent::OrderAccepted, position("-1.6")];
    assert_eq!(outcome(BOTH, &events), failed(FlattenError::ControlLost));
    let events = [position("1"), told(), position("1"), FlattenEvent::OrderAccepted, position("1.2")];
    match run(BOTH, &events) {
        FlattenState::NeedPosition { closing, .. } => assert_eq!(closing.growth_events, 1),
        other => panic!("{other:?}"),
    }
}

#[test]
fn a_rest_that_is_worth_too_little_gets_a_limit_order() {
    let start = [
        position("0.5"),
        told(),
        position("0.5"),
        FlattenEvent::OrderRefusedMinNotional,
        told(),
    ];
    assert!(matches!(flatten_action(BOTH, &run(BOTH, &start)), FlattenAction::FetchPrices));
    let with = |e: FlattenEvent| {
        let mut v = start.to_vec();
        v.push(e);
        v
    };
    // Half a coin at nine is less than five.
    assert_eq!(outcome(BOTH, &with(prices("9", "10"))), FlattenOutcome::Closed);
    assert_eq!(
        sent(BOTH, &with(prices("100", "102"))),
        "symbol=BTCUSDT&side=SELL&type=LIMIT&timeInForce=GTC&price=101.9&quantity=0.500&reduceOnly=true&timestamp=17&recvWindow=5000"
    );
    let mut end = with(prices("100", "102"));
    end.push(FlattenEvent::OrderAccepted);
    assert_eq!(outcome(BOTH, &end), FlattenOutcome::Closed);
    let mut end = with(prices("100", "102"));
    end.push(FlattenEvent::OrderFailed);
    assert_eq!(outcome(BOTH, &end), failed(FlattenError::LimitFallbackFailed));
    // Without prices a coin is taken to be worth a cent: 500 of them are too few.
    assert_eq!(outcome(BOTH, &with(FlattenEvent::PricesFailed)), FlattenOutcome::Closed);
}

#[test]
fn without_prices_a_large_rest_stays() {
    let events = [
        position("600"),
        told(),
        position("600"),
        FlattenEvent::OrderRefusedMinNotional,
        FlattenEvent::RulesFailed,
        FlattenEvent::PricesFailed,
    ];
    assert_eq!(outcome(BOTH, &events), failed(FlattenError::PricesUnavailable));
}

#[test]
fn a_limit_order_fails_in_the_last_attempt() {
    let mut events = vec![position("1"), told()];
    for _ in 0..2 {
        events.extend([position("1"), FlattenEvent::OrderFailed]);
    }
    events.extend([
        position("1"),
        FlattenEvent::OrderRefusedMinNotional,
        told(),
        prices("100", "102"),
        FlattenEvent::OrderFailed,
    ]);
    assert_eq!(outcome(BOTH, &events), failed(FlattenError::Unexpected));
}

#[test]
fn dust() {
    assert!(calculate_dust_threshold(str_dec("5"), str_dec("50")).unwrap().same(&str_dec("0.1")));
    assert!(calculate_dust_threshold(str_dec("5"), str_dec("0")).unwrap().same(&str_dec("500")));
}
