use trading_bot::backtest::{
    count_setting, force_orders_file_name, klines_file_name, portfolio, rank_by_pnl, slice_bounds,
    walk_forward_enabled, walk_forward_split, walk_forward_verdict, WalkForwardVerdict,
};
use trading_bot::decimal::Dec;
use trading_bot::rules::str_dec;
use trading_bot::supervision::{
    disconnect_reason, event_loop_step, finished_tasks, health_action, initial_symbols,
    removed_but_held, tick_delivery, use_combined_stream, ChannelInput, HealthAction, LoopStep,
    ReaderLag, TickDelivery,
};

fn names(list: &[&str]) -> Vec<String> {
    list.iter().map(|s| s.to_string()).collect()
}

fn numbers(list: &[&str]) -> Vec<Dec> {
    list.iter().map(|s| str_dec(s)).collect()
}

#[test]
fn symbols_and_streams() {
    assert!(!use_combined_stream(2));
    assert!(use_combined_stream(3));
    assert_eq!(initial_symbols(Some(names(&["A", "B"])), "C"), ["A", "B"]);
    assert_eq!(initial_symbols(None, "C"), ["C"]);
    assert_eq!(removed_but_held(&names(&["A", "B", "C"]), &names(&["C", "A"])), ["A", "C"]);
}

#[test]
fn a_market_that_is_not_heard() {
    assert_eq!(health_action(false, true, 100, 60), HealthAction::Healthy);
    assert_eq!(health_action(true, true, 61, 60), HealthAction::ClosePositions);
    assert_eq!(health_action(true, true, 60, 60), HealthAction::Warn);
    assert_eq!(health_action(true, false, 61, 60), HealthAction::Warn);
    assert_eq!(disconnect_reason(61, 60), "WebSocket disconnected for 61s (threshold: 60s)");
    assert_eq!(finished_tasks(&vec![true, false, true]), 2);
}

#[test]
fn loops_over_channels() {
    assert_eq!(event_loop_step(false, ChannelInput::Event), LoopStep::Handle);
    assert_eq!(event_loop_step(true, ChannelInput::Event), LoopStep::Stop);
    assert_eq!(event_loop_step(false, ChannelInput::Lagged), LoopStep::Wait);
    assert_eq!(event_loop_step(false, ChannelInput::Closed), LoopStep::Stop);
    assert_eq!(tick_delivery(ReaderLag::Keeping), TickDelivery::Send);
    assert_eq!(tick_delivery(ReaderLag::Behind), TickDelivery::RecoverAndSend);
    assert_eq!(tick_delivery(ReaderLag::Gone), TickDelivery::Stop);
}

#[test]
fn parts_of_the_past() {
    assert_eq!(slice_bounds(0, 5, 10), Some((0, 5)));
    assert_eq!(slice_bounds(8, 5, 10), Some((8, 10)));
    assert_eq!(slice_bounds(8, usize::MAX, 10), Some((8, 10)));
    assert_eq!(slice_bounds(10, 5, 10), None);
    assert_eq!(slice_bounds(0, 0, 10), None);
    assert_eq!(walk_forward_split(501), (250, 250));
    assert!(walk_forward_enabled(true, 10, 200));
    assert!(!walk_forward_enabled(true, 9, 200));
    assert!(!walk_forward_enabled(true, 10, 199));
    assert!(!walk_forward_enabled(false, 10, 200));
}

#[test]
fn symbols_are_ranked() {
    assert_eq!(rank_by_pnl(&numbers(&["1", "3", "-2", "3", "2"])), [1, 3, 4, 0, 2]);
    assert!(rank_by_pnl(&vec![]).is_empty());
    let (total, winners) = portfolio(&numbers(&["1", "3", "-2", "0"]));
    assert!(total.unwrap().same(&str_dec("2")));
    assert_eq!(winners, 2);
}

#[test]
fn what_was_learned_is_tested() {
    // Learning won 2 on average of ten.
    let best = numbers(&["10", "10"]);
    let verdict = |r: &[&str]| walk_forward_verdict(&best, &numbers(r)).unwrap();
    assert_eq!(verdict(&["1", "1"]), WalkForwardVerdict::Validated);
    assert_eq!(verdict(&["1", "0.9"]), WalkForwardVerdict::Doubtful);
    assert_eq!(verdict(&["-1", "0.9"]), WalkForwardVerdict::Harmful);
    assert_eq!(verdict(&[]), WalkForwardVerdict::Doubtful);
}

#[test]
fn names_and_counts() {
    assert_eq!(klines_file_name("BTCUSDT", "5m", 288), "BTCUSDT_5m_288.json");
    assert_eq!(
        force_orders_file_name("BTCUSDT", Some(17), None, 100),
        "BTCUSDT_17_0_100_force_orders.json"
    );
    assert_eq!(count_setting(Some("7"), 5), 7);
    assert_eq!(count_setting(Some("x"), 5), 5);
    assert_eq!(count_setting(None, 5), 5);
}
