use trading_bot::analyzer::{AiAnalyzer, AnomalyType, ErrorLog, Severity};
use trading_bot::arith::{average_opt, root_opt};
use trading_bot::connection::PositionSide;
use trading_bot::decimal::Dec;
use trading_bot::json::{Json, Number};
use trading_bot::log_analysis::{
    analyze_console_log, analyze_trading_events, read_log_from, recent_lines,
};
use trading_bot::log_lines::{extract_symbol_from_log, parse_log_line, split_lines};
use trading_bot::rules::str_dec;
use trading_bot::user_stream::OrderStatus;

fn dec(s: &str) -> Dec {
    str_dec(s)
}

fn assert_same(a: Dec, b: &str) {
    assert!(a.same(&dec(b)), "{a:?} is not {b}");
}

fn orders(a: &mut AiAnalyzer, status: OrderStatus, count: usize) {
    for _ in 0..count {
        a.analyze_order_update("BTCUSDT", "17", PositionSide::Long, status, 5000);
    }
}

fn close(a: &mut AiAnalyzer, pnl: &str) {
    assert!(a.analyze_position_update("BTCUSDT", false, Some(dec(pnl)), 5000));
}

#[test]
fn signals_and_orders_are_logged() {
    let mut a = AiAnalyzer::new();
    a.analyze_trade_signal("BTCUSDT", PositionSide::Short, dec("100.50"), 5000);
    assert_eq!(a.total_signals, 1);
    assert_eq!(a.operation_log[0].details, "Short @ 100.50");
    assert_eq!(a.operation_log[0].operation_type, "signal");
    assert!(a.operation_log[0].success);
    orders(&mut a, OrderStatus::Filled, 1);
    orders(&mut a, OrderStatus::Rejected, 1);
    assert_eq!(a.operation_log[1].details, "17 - Filled");
    assert!(a.operation_log[1].success);
    assert!(!a.operation_log[2].success);
    let s = &a.get_order_stats()[0];
    assert_eq!(s.0, "BTCUSDT");
    assert_eq!((s.1.total_orders, s.1.filled_orders, s.1.rejected_orders), (2, 1, 1));
    assert_eq!(a.error_log.len(), 1);
    assert_eq!(a.error_log[0].message, "Order 17 rejected");
    assert_eq!(a.error_log[0].module, "ORDERING");
    assert_eq!(a.error_log[0].context.len(), 3);
    for _ in 0..1100 {
        a.analyze_trade_signal("BTCUSDT", PositionSide::Long, dec("1"), 5000);
    }
    assert_eq!(a.operation_log.len(), 1000);
    assert_eq!(a.total_signals, 1101);
}

#[test]
fn rejections_and_cancellations_are_anomalies() {
    let mut a = AiAnalyzer::new();
    orders(&mut a, OrderStatus::Filled, 7);
    orders(&mut a, OrderStatus::Canceled, 3);
    orders(&mut a, OrderStatus::Rejected, 2);
    assert!(a.anomaly_history.is_empty());
    orders(&mut a, OrderStatus::Rejected, 1);
    assert_eq!(
        a.anomaly_history[0].message,
        "High order rejection rate for BTCUSDT: 23.1% (threshold: 20%)"
    );
    assert_eq!(a.anomaly_history[0].severity, Severity::High);
    assert_eq!(a.anomaly_history[0].timestamp, 5);
    let mut a = AiAnalyzer::new();
    orders(&mut a, OrderStatus::New, 7);
    orders(&mut a, OrderStatus::Canceled, 4);
    assert_eq!(
        a.anomaly_history[0].message,
        "High order cancellation rate for BTCUSDT: 36.4% (threshold: 30%)"
    );
    assert!(matches!(
        a.anomaly_history[0].anomaly_type,
        AnomalyType::FrequentCancellations { recent_orders: 11, .. }
    ));
    orders(&mut a, OrderStatus::Canceled, 200);
    assert_eq!(a.anomaly_history.len(), 100);
    assert_eq!(a.get_recent_anomalies(3).len(), 3);
}

#[test]
fn trades_are_anomalies() {
    let mut a = AiAnalyzer::new();
    // The first update only begins.
    close(&mut a, "1");
    assert_eq!(a.total_trades, 0);
    for pnl in ["5", "5", "5", "5", "-1", "0", "0", "0", "0", "0"] {
        close(&mut a, pnl);
    }
    assert_eq!((a.total_trades, a.total_wins, a.total_losses), (10, 4, 1));
    assert!(a.anomaly_history.is_empty());
    close(&mut a, "0");
    assert_eq!(
        a.anomaly_history[0].message,
        "Low win rate for BTCUSDT: 36.4% (11 trades, threshold: 40%)"
    );
    let s = &a.get_trade_stats()[0].1;
    assert_same(s.total_pnl, "19");
    assert_eq!(s.recent_pnl.len(), 10);
    let mut a = AiAnalyzer::new();
    for pnl in ["0", "-1", "-2", "-60"] {
        close(&mut a, pnl);
    }
    assert_eq!(
        a.anomaly_history[0].message,
        "Unusual PnL pattern for BTCUSDT: $-60.00 loss (recent avg: $-21.00)"
    );
    assert_eq!(a.anomaly_history[0].severity, Severity::High);
}

#[test]
fn balances_that_jump_are_anomalies() {
    let mut a = AiAnalyzer::new();
    a.analyze_balance_update(dec("2000"), dec("0"), 5);
    a.analyze_balance_update(dec("2100"), dec("500"), 6);
    assert!(a.anomaly_history.is_empty());
    a.analyze_balance_update(dec("1999.5"), dec("0"), 7);
    assert_eq!(
        a.anomaly_history[0].message,
        "Large USDT balance change detected: $2100.00 -> $1999.50 ($100.50 change)"
    );
    let mut a = AiAnalyzer::new();
    a.analyze_balance_update(dec("10"), dec("0"), 5);
    a.analyze_balance_update(dec("11"), dec("0"), 6);
    assert!(a.anomaly_history.is_empty());
    a.analyze_balance_update(dec("12.2"), dec("0"), 7);
    assert_eq!(a.anomaly_history.len(), 1);
}

#[test]
fn a_report() {
    let mut a = AiAnalyzer::new();
    assert!(a.generate_analysis_report(9).recommendations.is_empty());
    orders(&mut a, OrderStatus::Filled, 5);
    orders(&mut a, OrderStatus::Rejected, 3);
    orders(&mut a, OrderStatus::Canceled, 4);
    a.analyze_trade_signal("BTCUSDT", PositionSide::Long, dec("1"), 5000);
    for pnl in ["0", "1", "-1", "-1", "-1", "-1", "-1"] {
        close(&mut a, pnl);
    }
    let r = a.generate_analysis_report(9);
    assert_eq!(r.timestamp, 9);
    assert_eq!(r.summary.total_orders, 12);
    assert_eq!((r.summary.total_signals, r.summary.total_errors), (1, 3));
    assert_eq!(r.summary.win_rate.text(), "16.7");
    let s = &r.per_symbol_stats[0];
    assert_eq!((s.symbol, s.trades, s.wins, s.losses, s.orders), ("BTCUSDT", 6, 1, 5, 12));
    assert_same(s.total_pnl, "-4");
    assert_eq!(s.order_rejection_rate.text(), "25.0");
    assert_eq!(r.operation_analysis.total_operations, 13);
    assert_eq!(
        r.operation_analysis.operation_types,
        [("order".to_string(), 12), ("signal".to_string(), 1)]
    );
    assert_eq!(r.operation_analysis.success_rate.text(), "46.2");
    assert_eq!(r.operation_analysis.error_rate.text(), "23.1");
    assert_eq!(
        r.recommendations,
        [
            "⚠️ BTCUSDT has very low win rate (16.7%). Consider pausing trading for this symbol.",
            "🚨 BTCUSDT has high order rejection rate (25.0%). Check exchange API status and order parameters.",
            "⚠️ BTCUSDT has high cancellation rate (33.3%). Review spread validation and market conditions.",
        ]
    );
}

#[test]
fn lines_of_a_log() {
    assert_eq!(split_lines("a\r\nb\n\nc"), ["a", "b", "", "c"]);
    assert_eq!(split_lines("a\n"), ["a"]);
    assert!(split_lines("").is_empty());
    assert_eq!(
        parse_log_line("12:00 WARN app::trending: TRENDING: lagged"),
        ("app::trending".to_string(), "TRENDING: lagged".to_string())
    );
    assert_eq!(
        parse_log_line("2025-11-16T19:16:27.104027Z  WARN app::trending: TRENDING: MarketTick channel lagged"),
        ("app::trending".to_string(), "TRENDING: MarketTick channel lagged".to_string())
    );
    assert_eq!(parse_log_line("12:00 WARN app:"), ("UNKNOWN".to_string(), "12:00 WARN app:".to_string()));
    assert_eq!(extract_symbol_from_log("x symbol=BTCUSDC y").unwrap(), "BTCUSDC");
    assert_eq!(extract_symbol_from_log("symbol=ETHUSDT").unwrap(), "ETHUSDT");
    assert_eq!(extract_symbol_from_log("rejected symbol: BTCUSDC").unwrap(), "BTCUSDC");
    assert_eq!(
        extract_symbol_from_log("no leverage brackets found for symbol: BTCUSDC\tagain").unwrap(),
        "BTCUSDC"
    );
    assert_eq!(extract_symbol_from_log("symbol: A symbol=B").unwrap(), "A");
    assert_eq!(extract_symbol_from_log("symbol=B symbol: A").unwrap(), "B");
    assert_eq!(extract_symbol_from_log("symbol:ETHUSDT"), None);
    assert_eq!(extract_symbol_from_log("rejected"), None);
    assert_eq!(recent_lines("a\nb\nc"), ["c", "b", "a"]);
    assert_eq!(read_log_from(10, 20), 10);
    assert_eq!(read_log_from(20, 10), 0);
}

#[test]
fn errors_of_a_console() {
    let mut log: Vec<ErrorLog> = vec![];
    analyze_console_log(
        "12:00 ERROR app: it failed symbol=BTCUSDT\n12:01 WARN app: take care\nok",
        &mut log,
        7,
    );
    assert_eq!(log.len(), 1);
    assert_eq!(log[0].error_type, "log_error");
    assert_eq!(log[0].module, "app");
    assert_eq!(log[0].message, "it failed symbol=BTCUSDT");
    assert_eq!(log[0].symbol.as_deref(), Some("BTCUSDT"));
    let mut many = String::new();
    for i in 0..11 {
        many.push_str(&format!("12:00 ERROR app: e{i}\n"));
    }
    many.push_str("12:01\tWARN\tapp: take care\n");
    let mut log: Vec<ErrorLog> = vec![];
    analyze_console_log(&many, &mut log, 7);
    assert_eq!(log.len(), 12);
    assert_eq!(log[11].error_type, "high_error_rate");
    assert_eq!(
        log[11].message,
        "High error rate detected: 11 errors, 1 warnings in recent logs"
    );
    assert_eq!(
        log[11].context[2].1,
        "12:00 ERROR app: e0; 12:00 ERROR app: e1; 12:00 ERROR app: e2"
    );
    for _ in 0..50 {
        analyze_console_log(&many, &mut log, 7);
    }
    assert_eq!(log.len(), 500);
    let mut log: Vec<ErrorLog> = vec![];
    analyze_console_log(&"12:00 WARN app: w\n".repeat(50), &mut log, 7);
    assert!(log.is_empty());
    analyze_console_log(&"12:00 WARN app: w\n".repeat(51), &mut log, 7);
    assert_eq!(log[0].message, "High warning rate detected: 51 warnings in recent logs");
}

fn event(kind: &str, pnl: Option<&str>) -> Option<Json> {
    let mut fields = vec![("event_type".to_string(), Json::Text(kind.to_string()))];
    if let Some(p) = pnl {
        let n = Number { unsigned: None, signed: None, decimal: Some(dec(p)) };
        fields.push(("unrealized_pnl".to_string(), Json::Number(n)));
    }
    Some(Json::Object(fields))
}

#[test]
fn events_of_trading() {
    let mut events = vec![None, event("other", None)];
    events.extend((0..11).map(|_| event("order_filled", None)));
    events.extend((0..11).map(|_| event("order_canceled", None)));
    let mut log: Vec<ErrorLog> = vec![];
    analyze_trading_events(&events, &mut log, 7);
    assert!(log.is_empty());
    events.push(event("order_canceled", None));
    analyze_trading_events(&events, &mut log, 7);
    assert_eq!(log[0].message, "High order cancellation rate: 52.2% (12 cancels, 11 fills)");
    assert_eq!(log[0].context[2].1, "52.2%");
    let mut losses: Vec<Option<Json>> =
        (0..5).map(|_| event("position_updated", Some("-60"))).collect();
    let mut log: Vec<ErrorLog> = vec![];
    analyze_trading_events(&losses, &mut log, 7);
    assert!(log.is_empty());
    losses.push(event("position_updated", Some("-0.5")));
    analyze_trading_events(&losses, &mut log, 7);
    assert_eq!(log[0].message, "Large unrealized losses detected: avg $-50.08, min $-60.00");
    assert_eq!(log[0].error_type, "large_unrealized_losses");
}

#[test]
fn roots_and_averages() {
    assert_same(root_opt(dec("2.25")).unwrap(), "1.5");
    assert_same(root_opt(dec("2")).unwrap(), "1.41421356237309");
    assert_same(root_opt(dec("0")).unwrap(), "0");
    assert_same(root_opt(dec("-1")).unwrap(), "0");
    let list = vec![dec("1"), dec("2"), dec("6")];
    assert_same(average_opt(&list, 3, 3).unwrap(), "3");
    assert_same(average_opt(&list, 2, 2).unwrap(), "1.5");
    assert_same(average_opt(&list, 3, 2).unwrap(), "4");
}
