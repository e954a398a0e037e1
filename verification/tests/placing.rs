use trading_bot::api_errors::RuleBreach;
use trading_bot::placing::{
    order_texts, place_step, PlaceError, PlaceEvent, PlaceOutcome, PlaceRequest, PlaceState,
};
use trading_bot::rules::{str_dec, OrderParamError, SymbolRules};
use trading_bot::types::{Px, Qty};

fn rules(tick: &str) -> SymbolRules {
    SymbolRules {
        tick_size: str_dec(tick),
        step_size: str_dec("0.001"),
        price_precision: 4,
        qty_precision: 3,
        min_notional: str_dec("5"),
        max_leverage: None,
    }
}

fn request(px: &str, qty: &str) -> PlaceRequest {
    PlaceRequest { px: Px(str_dec(px)), qty: Qty(str_dec(qty)) }
}

fn refused(status: u16, body: &str) -> PlaceEvent {
    PlaceEvent::Refused { status, body: body.to_string() }
}

fn run(req: PlaceRequest, events: Vec<PlaceEvent>) -> PlaceState {
    let mut state = PlaceState::NeedRules;
    for e in events {
        state = place_step(req, state, e);
    }
    state
}

fn outcome(state: PlaceState) -> PlaceOutcome {
    match state {
        PlaceState::Finished { outcome } => outcome,
        other => panic!("not finished: {other:?}"),
    }
}

#[test]
fn an_order_is_rounded_and_placed() {
    let req = request("50000.129", "0.0019");
    let state = run(req, vec![PlaceEvent::Rules { rules: rules("0.01") }]);
    match &state {
        PlaceState::Sending { attempt, order } => {
            assert_eq!(*attempt, 0);
            assert_eq!(order_texts(order), ("50000.12".to_string(), "0.001".to_string()));
        }
        other => panic!("{other:?}"),
    }
    let told = PlaceEvent::Placed { order_id: 42, client_order_id: Some("c-1".to_string()) };
    let end = place_step(req, state, told);
    assert_eq!(
        outcome(end),
        PlaceOutcome::Placed { order_id: 42, client_order_id: Some("c-1".to_string()) }
    );
}

#[test]
fn without_rules_nothing_is_sent() {
    let end = run(request("1", "1"), vec![PlaceEvent::RulesFailed]);
    assert_eq!(outcome(end), PlaceOutcome::Failed(PlaceError::RulesUnavailable));
    let end = run(request("1", "1"), vec![PlaceEvent::Rules { rules: rules("0.01") }]);
    assert_eq!(
        outcome(end),
        PlaceOutcome::Failed(PlaceError::Invalid(OrderParamError::BelowMinNotional))
    );
}

#[test]
fn what_may_pass_is_tried_four_times() {
    let req = request("50000", "0.001");
    let mut state = run(req, vec![PlaceEvent::Rules { rules: rules("0.01") }]);
    for (n, pause) in [(1, 100), (2, 300), (3, 900)] {
        state = place_step(req, state.clone(), refused(503, "busy"));
        match &state {
            PlaceState::Querying { attempt, pause_ms, .. } => {
                assert_eq!(*attempt, n);
                assert_eq!(*pause_ms, pause);
            }
            other => panic!("{other:?}"),
        }
        state = place_step(req, state.clone(), PlaceEvent::OrderUnknown);
    }
    let end = place_step(req, state.clone(), PlaceEvent::NetworkFailed);
    assert_eq!(outcome(end), PlaceOutcome::Failed(PlaceError::Network));
    let end = place_step(req, state.clone(), PlaceEvent::BadAnswer);
    assert_eq!(outcome(end), PlaceOutcome::Failed(PlaceError::BadAnswer));
    let end = place_step(req, state.clone(), refused(503, "busy"));
    assert_eq!(outcome(end), PlaceOutcome::Failed(PlaceError::Refused));
    let last = place_step(req, state, refused(400, "-1111"));
    assert!(matches!(last, PlaceState::ForgettingRules { breach: RuleBreach::Precision }));
    let end = place_step(req, last, PlaceEvent::RulesForgotten);
    assert_eq!(outcome(end), PlaceOutcome::Failed(PlaceError::RuleBroken(RuleBreach::Precision)));
}

#[test]
fn an_order_that_is_there_is_not_sent_again() {
    let req = request("50000", "0.001");
    let end = run(
        req,
        vec![
            PlaceEvent::Rules { rules: rules("0.01") },
            PlaceEvent::NetworkFailed,
            PlaceEvent::OrderFound { order_id: 7, client_order_id: Some("base".to_string()) },
        ],
    );
    assert_eq!(
        outcome(end),
        PlaceOutcome::Placed { order_id: 7, client_order_id: Some("base".to_string()) }
    );
    let end = run(
        req,
        vec![
            PlaceEvent::Rules { rules: rules("0.01") },
            PlaceEvent::NetworkFailed,
            PlaceEvent::OrderFound { order_id: 8, client_order_id: None },
        ],
    );
    assert_eq!(outcome(end), PlaceOutcome::Placed { order_id: 8, client_order_id: None });
}

#[test]
fn a_broken_rule_is_asked_for_anew() {
    let req = request("50000.129", "0.001");
    let start = vec![
        PlaceEvent::Rules { rules: rules("0.001") },
        refused(400, "Precision is over the maximum"),
    ];
    let state = run(req, start);
    assert!(matches!(
        state,
        PlaceState::RefreshingRules { attempt: 0, breach: RuleBreach::Precision }
    ));
    let next = place_step(req, state.clone(), PlaceEvent::Rules { rules: rules("0.1") });
    match next {
        PlaceState::Querying { attempt, order, pause_ms } => {
            assert_eq!(attempt, 1);
            assert_eq!(pause_ms, 100);
            assert_eq!(order_texts(&order).0, "50000.1");
        }
        other => panic!("{other:?}"),
    }
    let end = place_step(req, state.clone(), PlaceEvent::RulesFailed);
    assert_eq!(outcome(end), PlaceOutcome::Failed(PlaceError::RefreshFailed(RuleBreach::Precision)));
    let mut high = rules("0.1");
    high.min_notional = str_dec("1000");
    let end = place_step(req, state.clone(), PlaceEvent::Rules { rules: high });
    assert_eq!(
        outcome(end),
        PlaceOutcome::Failed(PlaceError::InvalidAfterRefresh(RuleBreach::Precision))
    );
}

#[test]
fn what_stays_is_not_tried_again() {
    let req = request("50000", "0.001");
    let end = run(
        req,
        vec![PlaceEvent::Rules { rules: rules("0.01") }, refused(400, "Margin is insufficient")],
    );
    assert_eq!(outcome(end), PlaceOutcome::Failed(PlaceError::Permanent));
    let end = run(req, vec![PlaceEvent::Rules { rules: rules("0.01") }, refused(401, "who?")]);
    assert_eq!(outcome(end), PlaceOutcome::Failed(PlaceError::Refused));
}
