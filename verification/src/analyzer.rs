//! Watching the bot at work: statistics, anomalies and reports.
use vstd::prelude::*;

use crate::arith::{average_before, average_opt};
use crate::assoc::{
    by_text, distinct_keys, find_text, lemma_push, lemma_update, value_of,
};
use crate::connection::PositionSide;
use crate::decimal::{
    dec_of, dec_text, difference, lemma_powers, lemma_value, one, product, sum, Dec,
};
use crate::figures::{money, money_text, Rate};
use crate::quant::{abs_dec, abs_of};
use crate::rounding::{
    can_be_held, law_exact_is_kept, law_rounding_above, law_rounding_is_close,
    law_rounding_of_negative, lemma_zero_and_one, rounds_to,
};
use crate::text::{copy_of, glue3, glue5, nat_text, u64_text};
use crate::user_stream::OrderStatus;

verus! {

/// How many anomalies, operations and errors are remembered.
pub const ANOMALY_HISTORY: usize = 100;

pub const OPERATION_LOG: usize = 1000;

pub const ERROR_LOG: usize = 500;

/// How many results of trades are remembered for a symbol.
pub const RECENT_TRADES: usize = 10;

#[derive(Clone, Copy, Debug, PartialEq, Eq, Structural)]
pub enum Severity {
    /// To be watched.
    Low,
    /// To be looked into.
    Medium,
    /// To be acted on.
    High,
}

/// What is out of the ordinary.
#[derive(Debug)]
pub enum AnomalyType {
    /// Many orders are rejected.
    HighOrderRejectionRate { symbol: String, rejection_rate: Rate, threshold: Dec },
    /// Sudden losses.
    UnusualPnLPattern { symbol: String, pnl_change: Dec, recent_trades: u64 },
    /// Few trades win.
    LowWinRate { symbol: String, win_rate: Rate, total_trades: u64 },
    /// The spread is wide.
    HighSpread { symbol: String, spread_bps: Dec, threshold: Dec },
    /// Many orders are cancelled.
    FrequentCancellations { symbol: String, cancel_rate: Rate, recent_orders: u64 },
    /// The balance changed by a lot.
    BalanceInconsistency { expected: Dec, actual: Dec, difference: Dec },
    /// The stream was closed again and again.
    WebSocketDisconnections { count: u64, duration_secs: u64 },
    /// Too many orders were rejected to go on.
    CircuitBreakerTriggered { symbol: String, rejection_count: u64 },
}

/// What an [`AnomalyType`] says.
pub enum AnomalyShape {
    HighOrderRejectionRate { symbol: Seq<char>, rejection_rate: Rate, threshold: Dec },
    UnusualPnLPattern { symbol: Seq<char>, pnl_change: Dec, recent_trades: u64 },
    LowWinRate { symbol: Seq<char>, win_rate: Rate, total_trades: u64 },
    HighSpread { symbol: Seq<char>, spread_bps: Dec, threshold: Dec },
    FrequentCancellations { symbol: Seq<char>, cancel_rate: Rate, recent_orders: u64 },
    BalanceInconsistency { expected: Dec, actual: Dec, difference: Dec },
    WebSocketDisconnections { count: u64, duration_secs: u64 },
    CircuitBreakerTriggered { symbol: Seq<char>, rejection_count: u64 },
}

impl View for AnomalyType {
    type V = AnomalyShape;

    open spec fn view(&self) -> AnomalyShape {
        match *self {
            AnomalyType::HighOrderRejectionRate { symbol, rejection_rate, threshold } =>
                AnomalyShape::HighOrderRejectionRate {
                symbol: symbol@,
                rejection_rate,
                threshold,
            },
            AnomalyType::UnusualPnLPattern { symbol, pnl_change, recent_trades } =>
                AnomalyShape::UnusualPnLPattern { symbol: symbol@, pnl_change, recent_trades },
            AnomalyType::LowWinRate { symbol, win_rate, total_trades } =>
                AnomalyShape::LowWinRate { symbol: symbol@, win_rate, total_trades },
            AnomalyType::HighSpread { symbol, spread_bps, threshold } =>
                AnomalyShape::HighSpread { symbol: symbol@, spread_bps, threshold },
            AnomalyType::FrequentCancellations { symbol, cancel_rate, recent_orders } =>
                AnomalyShape::FrequentCancellations {
                symbol: symbol@,
                cancel_rate,
                recent_orders,
            },
            AnomalyType::BalanceInconsistency { expected, actual, difference } =>
                AnomalyShape::BalanceInconsistency { expected, actual, difference },
            AnomalyType::WebSocketDisconnections { count, duration_secs } =>
                AnomalyShape::WebSocketDisconnections { count, duration_secs },
            AnomalyType::CircuitBreakerTriggered { symbol, rejection_count } =>
                AnomalyShape::CircuitBreakerTriggered { symbol: symbol@, rejection_count },
        }
    }
}

#[derive(Debug)]
pub struct AnomalyReport {
    pub timestamp: u64,
    pub anomaly_type: AnomalyType,
    pub severity: Severity,
    pub message: String,
    pub recommendation: String,
}

/// What an [`AnomalyReport`] says.
#[verifier::ext_equal]
pub struct AnomalyView {
    pub timestamp: u64,
    pub anomaly: AnomalyShape,
    pub severity: Severity,
    pub message: Seq<char>,
    pub recommendation: Seq<char>,
}

impl View for AnomalyReport {
    type V = AnomalyView;

    open spec fn view(&self) -> AnomalyView {
        AnomalyView {
            timestamp: self.timestamp,
            anomaly: self.anomaly_type@,
            severity: self.severity,
            message: self.message@,
            recommendation: self.recommendation@,
        }
    }
}

/// What a list of reports says.
pub open spec fn anomalies(list: Seq<AnomalyReport>) -> Seq<AnomalyView> {
    Seq::new(list.len(), |i: int| list[i]@)
}

/// Something that the bot did.
#[derive(Debug)]
pub struct OperationLog {
    pub timestamp: u64,
    pub operation_type: String,
    pub symbol: Option<String>,
    pub details: String,
    pub success: bool,
    pub duration_ms: Option<u64>,
}

/// The text of an optional name.
pub open spec fn name_of(s: Option<String>) -> Option<Seq<char>> {
    match s {
        Some(t) => Some(t@),
        None => None,
    }
}

/// What an [`OperationLog`] says.
#[verifier::ext_equal]
pub struct OperationView {
    pub timestamp: u64,
    pub operation_type: Seq<char>,
    pub symbol: Option<Seq<char>>,
    pub details: Seq<char>,
    pub success: bool,
    pub duration_ms: Option<u64>,
}

impl View for OperationLog {
    type V = OperationView;

    open spec fn view(&self) -> OperationView {
        OperationView {
            timestamp: self.timestamp,
            operation_type: self.operation_type@,
            symbol: name_of(self.symbol),
            details: self.details@,
            success: self.success,
            duration_ms: self.duration_ms,
        }
    }
}

/// What a list of operations says.
pub open spec fn operations(list: Seq<OperationLog>) -> Seq<OperationView> {
    Seq::new(list.len(), |i: int| list[i]@)
}

/// An error that was met, with its circumstances.
#[derive(Debug)]
pub struct ErrorLog {
    pub timestamp: u64,
    pub error_type: String,
    pub module: String,
    pub symbol: Option<String>,
    pub message: String,
    pub context: Vec<(String, String)>,
}

/// What an [`ErrorLog`] says.
#[verifier::ext_equal]
pub struct ErrorView {
    pub timestamp: u64,
    pub error_type: Seq<char>,
    pub module: Seq<char>,
    pub symbol: Option<Seq<char>>,
    pub message: Seq<char>,
    pub context: Seq<(Seq<char>, Seq<char>)>,
}

/// What a list of circumstances says.
pub open spec fn pairs(list: Seq<(String, String)>) -> Seq<(Seq<char>, Seq<char>)> {
    Seq::new(list.len(), |i: int| (list[i].0@, list[i].1@))
}

impl View for ErrorLog {
    type V = ErrorView;

    open spec fn view(&self) -> ErrorView {
        ErrorView {
            timestamp: self.timestamp,
            error_type: self.error_type@,
            module: self.module@,
            symbol: name_of(self.symbol),
            message: self.message@,
            context: pairs(self.context@),
        }
    }
}

/// What a list of errors says.
pub open spec fn errors(list: Seq<ErrorLog>) -> Seq<ErrorView> {
    Seq::new(list.len(), |i: int| list[i]@)
}

/// A list with one more entry, without its first where there are too many.
pub open spec fn capped<T>(list: Seq<T>, x: T, cap: nat) -> Seq<T> {
    let longer = list.push(x);
    if longer.len() > cap {
        longer.skip(1)
    } else {
        longer
    }
}

fn push_capped<T>(list: &mut Vec<T>, x: T, cap: usize)
    ensures
        final(list)@ == capped(old(list)@, x, cap as nat),
{
    list.push(x);
    if list.len() > cap {
        list.remove(0);
        assert(list@ =~= old(list)@.push(x).skip(1));
    }
}

fn push_anomaly(list: &mut Vec<AnomalyReport>, x: AnomalyReport)
    ensures
        anomalies(final(list)@) == capped(anomalies(old(list)@), x@, ANOMALY_HISTORY as nat),
{
    push_capped(list, x, ANOMALY_HISTORY);
    assert(anomalies(list@) =~= capped(anomalies(old(list)@), x@, ANOMALY_HISTORY as nat));
}

fn push_operation(list: &mut Vec<OperationLog>, x: OperationLog)
    ensures
        operations(final(list)@) == capped(operations(old(list)@), x@, OPERATION_LOG as nat),
{
    push_capped(list, x, OPERATION_LOG);
    assert(operations(list@) =~= capped(operations(old(list)@), x@, OPERATION_LOG as nat));
}

pub(crate) fn push_error(list: &mut Vec<ErrorLog>, x: ErrorLog)
    ensures
        errors(final(list)@) == capped(errors(old(list)@), x@, ERROR_LOG as nat),
{
    push_capped(list, x, ERROR_LOG);
    assert(errors(list@) =~= capped(errors(old(list)@), x@, ERROR_LOG as nat));
}

/// The orders in a symbol.
#[derive(Clone, Copy, Debug)]
pub struct OrderStats {
    pub total_orders: u64,
    pub filled_orders: u64,
    pub canceled_orders: u64,
    pub rejected_orders: u64,
    pub last_order_ms: Option<u64>,
}

impl OrderStats {
    /// Each order counts once at most as filled, cancelled or rejected.
    pub open spec fn wf(self) -> bool {
        self.filled_orders + self.canceled_orders + self.rejected_orders <= self.total_orders
    }

    pub open spec fn rejection(self) -> Rate {
        Rate { part: self.rejected_orders, whole: self.total_orders }
    }

    pub open spec fn cancellation(self) -> Rate {
        Rate { part: self.canceled_orders, whole: self.total_orders }
    }

    pub fn rejection_rate(&self) -> (r: Rate)
        ensures
            r == self.rejection(),
    {
        Rate { part: self.rejected_orders, whole: self.total_orders }
    }

    pub fn cancellation_rate(&self) -> (r: Rate)
        ensures
            r == self.cancellation(),
    {
        Rate { part: self.canceled_orders, whole: self.total_orders }
    }
}

/// No orders.
pub open spec fn no_orders() -> OrderStats {
    OrderStats {
        total_orders: 0,
        filled_orders: 0,
        canceled_orders: 0,
        rejected_orders: 0,
        last_order_ms: None,
    }
}

fn zero_orders() -> (r: OrderStats)
    ensures
        r == no_orders(),
{
    OrderStats {
        total_orders: 0,
        filled_orders: 0,
        canceled_orders: 0,
        rejected_orders: 0,
        last_order_ms: None,
    }
}

/// The orders with one more.
pub open spec fn counted(s: OrderStats, status: OrderStatus, now_ms: u64) -> OrderStats {
    OrderStats {
        total_orders: (s.total_orders + 1) as u64,
        filled_orders: if status == OrderStatus::Filled {
            (s.filled_orders + 1) as u64
        } else {
            s.filled_orders
        },
        canceled_orders: if status == OrderStatus::Canceled {
            (s.canceled_orders + 1) as u64
        } else {
            s.canceled_orders
        },
        rejected_orders: if status == OrderStatus::Rejected {
            (s.rejected_orders + 1) as u64
        } else {
            s.rejected_orders
        },
        last_order_ms: Some(now_ms),
    }
}

fn count_order(s: &OrderStats, status: OrderStatus, now_ms: u64) -> (r: OrderStats)
    requires
        s.wf(),
        s.total_orders < u64::MAX,
    ensures
        r == counted(*s, status, now_ms),
        r.wf(),
{
    let mut r = *s;
    r.total_orders = s.total_orders + 1;
    r.last_order_ms = Some(now_ms);
    match status {
        OrderStatus::Filled => {
            r.filled_orders = s.filled_orders + 1;
        },
        OrderStatus::Canceled => {
            r.canceled_orders = s.canceled_orders + 1;
        },
        OrderStatus::Rejected => {
            r.rejected_orders = s.rejected_orders + 1;
        },
        _ => {},
    }
    r
}

/// More than a fifth of more than ten orders were rejected.
pub open spec fn rejects_often(s: OrderStats) -> bool {
    s.total_orders > 10 && s.rejection().above(20)
}

/// More than three tenths of more than ten orders were cancelled.
pub open spec fn cancels_often(s: OrderStats) -> bool {
    s.total_orders > 10 && s.cancellation().above(30)
}

/// The report of frequent rejections.
pub open spec fn rejection_report(symbol: Seq<char>, s: OrderStats, now_secs: u64) -> AnomalyView {
    AnomalyView {
        timestamp: now_secs,
        anomaly: AnomalyShape::HighOrderRejectionRate {
            symbol,
            rejection_rate: s.rejection(),
            threshold: dec_of(20, 0),
        },
        severity: Severity::High,
        message: "High order rejection rate for "@ + symbol + ": "@ + s.rejection().shown()
            + "% (threshold: 20%)"@,
        recommendation: "Check exchange API status, order parameters, and account permissions"@,
    }
}

/// The report of frequent cancellations.
pub open spec fn cancellation_report(symbol: Seq<char>, s: OrderStats, now_secs: u64) ->
    AnomalyView {
    AnomalyView {
        timestamp: now_secs,
        anomaly: AnomalyShape::FrequentCancellations {
            symbol,
            cancel_rate: s.cancellation(),
            recent_orders: s.total_orders,
        },
        severity: Severity::Medium,
        message: "High order cancellation rate for "@ + symbol + ": "@ + s.cancellation().shown()
            + "% (threshold: 30%)"@,
        recommendation: "Review spread validation logic and market conditions"@,
    }
}

/// The history with what is out of the ordinary about the orders in a symbol.
pub open spec fn order_anomalies(
    history: Seq<AnomalyView>,
    symbol: Seq<char>,
    s: OrderStats,
    now_secs: u64,
) -> Seq<AnomalyView> {
    let first = if rejects_often(s) {
        capped(history, rejection_report(symbol, s, now_secs), ANOMALY_HISTORY as nat)
    } else {
        history
    };
    if cancels_often(s) {
        capped(first, cancellation_report(symbol, s, now_secs), ANOMALY_HISTORY as nat)
    } else {
        first
    }
}

/// Reports what is out of the ordinary about the orders in a symbol.
pub fn detect_order_anomalies(
    symbol: &str,
    stat: &OrderStats,
    history: &mut Vec<AnomalyReport>,
    now_secs: u64,
)
    ensures
        anomalies(final(history)@) == order_anomalies(
            anomalies(old(history)@),
            symbol@,
            *stat,
            now_secs,
        ),
{
    let rejection_rate = stat.rejection_rate();
    if stat.total_orders > 10 && rejection_rate.is_above(20) {
        let rate = rejection_rate.text();
        let report = AnomalyReport {
            timestamp: now_secs,
            anomaly_type: AnomalyType::HighOrderRejectionRate {
                symbol: copy_of(symbol),
                rejection_rate,
                threshold: Dec::new(20, 0),
            },
            severity: Severity::High,
            message: glue5(
                "High order rejection rate for ",
                symbol,
                ": ",
                rate.as_str(),
                "% (threshold: 20%)",
            ),
            recommendation: copy_of(
                "Check exchange API status, order parameters, and account permissions",
            ),
        };
        push_anomaly(history, report);
    }
    let cancel_rate = stat.cancellation_rate();
    if stat.total_orders > 10 && cancel_rate.is_above(30) {
        let rate = cancel_rate.text();
        let report = AnomalyReport {
            timestamp: now_secs,
            anomaly_type: AnomalyType::FrequentCancellations {
                symbol: copy_of(symbol),
                cancel_rate,
                recent_orders: stat.total_orders,
            },
            severity: Severity::Medium,
            message: glue5(
                "High order cancellation rate for ",
                symbol,
                ": ",
                rate.as_str(),
                "% (threshold: 30%)",
            ),
            recommendation: copy_of("Review spread validation logic and market conditions"),
        };
        push_anomaly(history, report);
    }
}

/// The trades in a symbol.
#[derive(Debug)]
pub struct TradeStats {
    pub total_trades: u64,
    pub winning_trades: u64,
    pub losing_trades: u64,
    pub total_pnl: Dec,
    /// The results of the last trades, the oldest first.
    pub recent_pnl: Vec<Dec>,
    pub last_trade_ms: Option<u64>,
}

impl TradeStats {
    /// Each trade counts once at most as won or lost, and not too many results are kept.
    pub open spec fn wf(self) -> bool {
        self.winning_trades + self.losing_trades <= self.total_trades && self.recent_pnl@.len()
            <= RECENT_TRADES
    }

    pub open spec fn wins(self) -> Rate {
        Rate { part: self.winning_trades, whole: self.total_trades }
    }

    pub fn win_rate(&self) -> (r: Rate)
        ensures
            r == self.wins(),
    {
        Rate { part: self.winning_trades, whole: self.total_trades }
    }
}

/// Fewer than four tenths of more than ten trades won.
pub open spec fn wins_seldom(s: TradeStats) -> bool {
    s.total_trades > 10 && s.wins().below(40)
}

/// The average of the last results, where it can be held.
pub open spec fn recent_average(s: TradeStats) -> Option<Dec> {
    average_before(s.recent_pnl@, s.recent_pnl@.len() as int, s.recent_pnl@.len())
}

/// The last of at least three trades lost more than fifty, and they lost more than
/// twenty on average.
pub open spec fn loses_suddenly(s: TradeStats) -> bool {
    s.recent_pnl@.len() >= 3 && s.recent_pnl@.last()@ < dec_of(-50, 0)@ && recent_average(s) is Some
        && recent_average(s)->0@ < dec_of(-20, 0)@
}

/// The report of few wins.
pub open spec fn win_rate_report(symbol: Seq<char>, s: TradeStats, now_secs: u64) -> AnomalyView {
    AnomalyView {
        timestamp: now_secs,
        anomaly: AnomalyShape::LowWinRate {
            symbol,
            win_rate: s.wins(),
            total_trades: s.total_trades,
        },
        severity: Severity::Medium,
        message: "Low win rate for "@ + symbol + ": "@ + s.wins().shown() + "% ("@ + nat_text(
            s.total_trades as nat,
        ) + " trades, threshold: 40%)"@,
        recommendation:
            "Review strategy parameters, market conditions, and consider pausing trading for this symbol"@,
    }
}

/// The report of a sudden loss.
pub open spec fn loss_report(symbol: Seq<char>, s: TradeStats, now_secs: u64) -> AnomalyView {
    AnomalyView {
        timestamp: now_secs,
        anomaly: AnomalyShape::UnusualPnLPattern {
            symbol,
            pnl_change: s.recent_pnl@.last(),
            recent_trades: s.recent_pnl@.len() as u64,
        },
        severity: Severity::High,
        message: "Unusual PnL pattern for "@ + symbol + ": $"@ + money(s.recent_pnl@.last())
            + " loss (recent avg: $"@ + money(recent_average(s)->0) + ")"@,
        recommendation: "Review recent trades, check for slippage or execution issues"@,
    }
}

/// The history with what is out of the ordinary about the trades in a symbol.
pub open spec fn trade_anomalies(
    history: Seq<AnomalyView>,
    symbol: Seq<char>,
    s: TradeStats,
    now_secs: u64,
) -> Seq<AnomalyView> {
    let first = if wins_seldom(s) {
        capped(history, win_rate_report(symbol, s, now_secs), ANOMALY_HISTORY as nat)
    } else {
        history
    };
    if loses_suddenly(s) {
        capped(first, loss_report(symbol, s, now_secs), ANOMALY_HISTORY as nat)
    } else {
        first
    }
}

/// Reports what is out of the ordinary about the trades in a symbol.
pub fn detect_trade_anomalies(
    symbol: &str,
    stat: &TradeStats,
    history: &mut Vec<AnomalyReport>,
    now_secs: u64,
)
    requires
        stat.wf(),
    ensures
        anomalies(final(history)@) == trade_anomalies(
            anomalies(old(history)@),
            symbol@,
            *stat,
            now_secs,
        ),
{
    let win_rate = stat.win_rate();
    if stat.total_trades > 10 && win_rate.is_below(40) {
        let rate = win_rate.text();
        let count = u64_text(stat.total_trades);
        let head = glue5("Low win rate for ", symbol, ": ", rate.as_str(), "% (");
        let report = AnomalyReport {
            timestamp: now_secs,
            anomaly_type: AnomalyType::LowWinRate {
                symbol: copy_of(symbol),
                win_rate,
                total_trades: stat.total_trades,
            },
            severity: Severity::Medium,
            message: glue3(head.as_str(), count.as_str(), " trades, threshold: 40%)"),
            recommendation: copy_of(
                "Review strategy parameters, market conditions, and consider pausing trading for this symbol",
            ),
        };
        push_anomaly(history, report);
    }
    let n: usize = stat.recent_pnl.len();
    if n >= 3 {
        let last = stat.recent_pnl[n - 1];
        if let Some(average) = average_opt(&stat.recent_pnl, n, n) {
            if last.lt(&Dec::new(-50, 0)) && average.lt(&Dec::new(-20, 0)) {
                let loss = money_text(last);
                let mean = money_text(average);
                let head = glue5(
                    "Unusual PnL pattern for ",
                    symbol,
                    ": $",
                    loss.as_str(),
                    " loss (recent avg: $",
                );
                let report = AnomalyReport {
                    timestamp: now_secs,
                    anomaly_type: AnomalyType::UnusualPnLPattern {
                        symbol: copy_of(symbol),
                        pnl_change: last,
                        recent_trades: n as u64,
                    },
                    severity: Severity::High,
                    message: glue3(head.as_str(), mean.as_str(), ")"),
                    recommendation: copy_of(
                        "Review recent trades, check for slippage or execution issues",
                    ),
                };
                push_anomaly(history, report);
            }
        }
    }
}

/// The word for a side.
pub open spec fn side_name(side: PositionSide) -> Seq<char> {
    match side {
        PositionSide::Long => "Long"@,
        PositionSide::Short => "Short"@,
    }
}

fn side_text(side: PositionSide) -> (r: String)
    ensures
        r@ == side_name(side),
{
    match side {
        PositionSide::Long => copy_of("Long"),
        PositionSide::Short => copy_of("Short"),
    }
}

/// The word for a status.
pub open spec fn status_name(status: OrderStatus) -> Seq<char> {
    match status {
        OrderStatus::New => "New"@,
        OrderStatus::PartiallyFilled => "PartiallyFilled"@,
        OrderStatus::Filled => "Filled"@,
        OrderStatus::Canceled => "Canceled"@,
        OrderStatus::Rejected => "Rejected"@,
    }
}

fn status_text(status: OrderStatus) -> (r: String)
    ensures
        r@ == status_name(status),
{
    match status {
        OrderStatus::New => copy_of("New"),
        OrderStatus::PartiallyFilled => copy_of("PartiallyFilled"),
        OrderStatus::Filled => copy_of("Filled"),
        OrderStatus::Canceled => copy_of("Canceled"),
        OrderStatus::Rejected => copy_of("Rejected"),
    }
}

/// The operation of a signal.
pub open spec fn signal_operation(symbol: Seq<char>, side: PositionSide, price: Dec, now_ms: u64) ->
    OperationView {
    OperationView {
        timestamp: now_ms,
        operation_type: "signal"@,
        symbol: Some(symbol),
        details: side_name(side) + " @ "@ + dec_text(price),
        success: true,
        duration_ms: None,
    }
}

/// The operation of an order.
pub open spec fn order_operation(
    symbol: Seq<char>,
    order_id: Seq<char>,
    status: OrderStatus,
    now_ms: u64,
) -> OperationView {
    OperationView {
        timestamp: now_ms,
        operation_type: "order"@,
        symbol: Some(symbol),
        details: order_id + " - "@ + status_name(status),
        success: status == OrderStatus::Filled,
        duration_ms: None,
    }
}

/// The error of an order that was rejected.
pub open spec fn rejected_error(
    symbol: Seq<char>,
    order_id: Seq<char>,
    side: PositionSide,
    now_ms: u64,
) -> ErrorView {
    ErrorView {
        timestamp: now_ms,
        error_type: "order_rejected"@,
        module: "ORDERING"@,
        symbol: Some(symbol),
        message: "Order "@ + order_id + " rejected"@,
        context: seq![
            ("order_id"@, order_id),
            ("symbol"@, symbol),
            ("side"@, side_name(side)),
        ],
    }
}

/// The report of a large change of the balance.
pub open spec fn balance_report(before: Dec, after: Dec, change: Dec, now_secs: u64) ->
    AnomalyView {
    AnomalyView {
        timestamp: now_secs,
        anomaly: AnomalyShape::BalanceInconsistency {
            expected: before,
            actual: after,
            difference: change,
        },
        severity: Severity::High,
        message: "Large USDT balance change detected: $"@ + money(before) + " -> $"@ + money(after)
            + " ($"@ + money(change) + " change)"@,
        recommendation: "Check recent trades and order fills for accounting errors"@,
    }
}

/// The change of the balance, where it is above a hundred or a tenth of what was there.
pub open spec fn large_change(before: Dec, after: Dec) -> Option<Dec> {
    match (difference(after, before), product(before, dec_of(1, 1))) {
        (Some(d), Some(tenth)) => if abs_of(d)@ > dec_of(100, 0)@ || abs_of(d)@ > tenth@ {
            Some(abs_of(d))
        } else {
            None
        },
        _ => None,
    }
}

/// The steps to a large change of a balance: by more than a hundred, or by more than a tenth.
pub open spec fn change_by(
    before: int,
    after: int,
    d: int,
    tenth: int,
    change: Option<Dec>,
) -> bool {
    let size = if d < 0 {
        -d
    } else {
        d
    };
    &&& rounds_to(after - before, 1, d)
    &&& rounds_to(before * 1_000_000_000_000_000_000_000_000_000, one(), tenth)
    &&& change is Some <==> size > 100 * one() || size > tenth
    &&& change matches Some(c) ==> c@ == size
}

pub open spec fn change_told(before: Dec, after: Dec) -> bool {
    difference(after, before) is Some && product(before, dec_of(1, 1)) is Some ==> exists|
        d: int,
        tenth: int,
    | #[trigger]
        change_by(before@, after@, d, tenth, large_change(before, after))
}

/// A change of a balance, up or down, is reported where it is more than a hundred, and otherwise only
/// where it is more than a tenth of what it was; and the change is told without its sign.
pub proof fn law_large_changes(before: Dec, after: Dec)
    requires
        change_told(before, after),
        difference(after, before) is Some,
        product(before, dec_of(1, 1)) is Some,
        can_be_held(after@ - before@),
        before@ >= 0,
    ensures
        ({
            let size = if after@ < before@ {
                before@ - after@
            } else {
                after@ - before@
            };
            let r = large_change(before, after);
            &&& size > 100 * one() ==> r is Some
            &&& r is Some ==> size > 100 * one() || 10 * size > before@
            &&& r matches Some(c) ==> c@ == size
            &&& can_be_held(before@) && before@ > 0 && after@ == 0 ==> r is Some
        }),
{
    lemma_zero_and_one();
    let (d, tenth) = choose|d: int, tenth: int| #[trigger]
        change_by(before@, after@, d, tenth, large_change(before, after));
    law_exact_is_kept(after@ - before@, 1, d, after@ - before@);
    let size = if after@ < before@ {
        before@ - after@
    } else {
        after@ - before@
    };
    law_rounding_of_negative(after@ - before@, 1, after@ - before@);
    if 10 * size <= before@ {
        law_rounding_above(
            before@ * 1_000_000_000_000_000_000_000_000_000,
            one(),
            tenth,
            size,
        );
    }
    if can_be_held(before@) && before@ > 0 && after@ == 0 {
        law_rounding_is_close(
            before@ * 1_000_000_000_000_000_000_000_000_000,
            one(),
            tenth,
        );
    }
}

/// The result of a trade; nothing where it is not known.
pub open spec fn result_of(pnl: Option<Dec>) -> Dec {
    match pnl {
        Some(p) => p,
        None => dec_of(0, 0),
    }
}

/// No trades.
pub open spec fn is_no_trades(s: TradeStats) -> bool {
    &&& s.total_trades == 0
    &&& s.winning_trades == 0
    &&& s.losing_trades == 0
    &&& s.total_pnl == dec_of(0, 0)
    &&& s.recent_pnl@.len() == 0
    &&& s.last_trade_ms is None
}

/// `after` are the trades with one more of this result.
pub open spec fn traded(before: TradeStats, after: TradeStats, pnl: Dec, total: Dec) -> bool {
    &&& after.total_trades == before.total_trades + 1
    &&& after.winning_trades == before.winning_trades + if pnl@ > 0 {
        1int
    } else {
        0
    }
    &&& after.losing_trades == before.losing_trades + if pnl@ < 0 {
        1int
    } else {
        0
    }
    &&& after.total_pnl == total
    &&& after.recent_pnl@ == capped(before.recent_pnl@, pnl, RECENT_TRADES as nat)
}

/// `after` is `before`, with another time.
pub open spec fn same_trades(before: TradeStats, after: TradeStats) -> bool {
    &&& after.total_trades == before.total_trades
    &&& after.winning_trades == before.winning_trades
    &&& after.losing_trades == before.losing_trades
    &&& after.total_pnl == before.total_pnl
    &&& after.recent_pnl@ == before.recent_pnl@
}

/// A counter that starts again at zero when it is full.
pub open spec fn next_count(n: u64) -> u64 {
    if n == u64::MAX {
        0
    } else {
        (n + 1) as u64
    }
}

fn count_up(n: u64) -> (r: u64)
    ensures
        r == next_count(n),
{
    n.wrapping_add(1)
}

/// What is known of the bot at work.
#[derive(Debug)]
pub struct AiAnalyzer {
    pub trade_stats: Vec<(String, TradeStats)>,
    pub order_stats: Vec<(String, OrderStats)>,
    pub anomaly_history: Vec<AnomalyReport>,
    pub total_signals: u64,
    pub total_trades: u64,
    pub total_wins: u64,
    pub total_losses: u64,
    pub operation_log: Vec<OperationLog>,
    pub error_log: Vec<ErrorLog>,
    /// The balances in USDT and USDC.
    pub last_balance: Option<(Dec, Dec)>,
}

/// The totals and the anomalies are the same.
pub open spec fn same_totals(before: AiAnalyzer, after: AiAnalyzer) -> bool {
    &&& after.total_trades == before.total_trades
    &&& after.total_wins == before.total_wins
    &&& after.total_losses == before.total_losses
    &&& after.anomaly_history == before.anomaly_history
}

/// A pair of texts.
pub(crate) fn pair(name: &str, value: String) -> (r: (String, String))
    ensures
        r.0@ == name@,
        r.1@ == value@,
{
    (copy_of(name), value)
}

impl AiAnalyzer {
    /// No symbol stands twice, the counts fit together, and the logs are not too long.
    pub open spec fn wf(&self) -> bool {
        &&& distinct_keys(by_text(self.trade_stats@))
        &&& distinct_keys(by_text(self.order_stats@))
        &&& forall|i: int|
            0 <= i < self.trade_stats@.len() ==> (#[trigger] self.trade_stats@[i]).1.wf()
        &&& forall|i: int|
            0 <= i < self.order_stats@.len() ==> (#[trigger] self.order_stats@[i]).1.wf()
        &&& self.anomaly_history@.len() <= ANOMALY_HISTORY
        &&& self.operation_log@.len() <= OPERATION_LOG
        &&& self.error_log@.len() <= ERROR_LOG
    }

    /// The orders in a symbol; none where it is not known.
    pub open spec fn orders(&self, symbol: Seq<char>) -> OrderStats {
        match value_of(by_text(self.order_stats@), symbol) {
            Some(s) => s,
            None => no_orders(),
        }
    }

    /// The trades in a symbol.
    pub open spec fn trades(&self, symbol: Seq<char>) -> Option<TradeStats> {
        value_of(by_text(self.trade_stats@), symbol)
    }

    pub fn new() -> (r: AiAnalyzer)
        ensures
            r.wf(),
            r.trade_stats@.len() == 0,
            r.order_stats@.len() == 0,
            forall|s: Seq<char>| #[trigger] r.orders(s) == no_orders(),
            forall|s: Seq<char>| #[trigger] r.trades(s) is None,
            r.anomaly_history@.len() == 0,
            r.operation_log@.len() == 0,
            r.error_log@.len() == 0,
            r.total_signals == 0,
            r.total_trades == 0,
            r.total_wins == 0,
            r.total_losses == 0,
            r.last_balance is None,
    {
        AiAnalyzer {
            trade_stats: Vec::new(),
            order_stats: Vec::new(),
            anomaly_history: Vec::new(),
            total_signals: 0,
            total_trades: 0,
            total_wins: 0,
            total_losses: 0,
            operation_log: Vec::new(),
            error_log: Vec::new(),
            last_balance: None,
        }
    }

    /// Takes note of a signal.
    pub fn analyze_trade_signal(
        &mut self,
        symbol: &str,
        side: PositionSide,
        entry_price: Dec,
        now_ms: u64,
    )
        requires
            old(self).wf(),
        ensures
            final(self).wf(),
            *final(self) == (AiAnalyzer {
                total_signals: next_count(old(self).total_signals),
                operation_log: final(self).operation_log,
                ..*old(self)
            }),
            operations(final(self).operation_log@) == capped(
                operations(old(self).operation_log@),
                signal_operation(symbol@, side, entry_price, now_ms),
                OPERATION_LOG as nat,
            ),
    {
        self.total_signals = count_up(self.total_signals);
        let side_word = side_text(side);
        let price = entry_price.to_text();
        let entry = OperationLog {
            timestamp: now_ms,
            operation_type: copy_of("signal"),
            symbol: Some(copy_of(symbol)),
            details: glue3(side_word.as_str(), " @ ", price.as_str()),
            success: true,
            duration_ms: None,
        };
        assert(entry@ =~= signal_operation(symbol@, side, entry_price, now_ms));
        push_operation(&mut self.operation_log, entry);
        assert(operations(self.operation_log@).len() == self.operation_log@.len());
    }

    /// Counts an order, and reports what is out of the ordinary about the orders in
    /// its symbol.
    pub fn analyze_order_update(
        &mut self,
        symbol: &str,
        order_id: &str,
        side: PositionSide,
        status: OrderStatus,
        now_ms: u64,
    )
        requires
            old(self).wf(),
            old(self).orders(symbol@).total_orders < u64::MAX,
        ensures
            final(self).wf(),
            *final(self) == (AiAnalyzer {
                order_stats: final(self).order_stats,
                operation_log: final(self).operation_log,
                error_log: final(self).error_log,
                anomaly_history: final(self).anomaly_history,
                ..*old(self)
            }),
            final(self).orders(symbol@) == counted(old(self).orders(symbol@), status, now_ms),
            forall|s: Seq<char>|
                s != symbol@ ==> #[trigger] final(self).orders(s) == old(self).orders(s),
            operations(final(self).operation_log@) == capped(
                operations(old(self).operation_log@),
                order_operation(symbol@, order_id@, status, now_ms),
                OPERATION_LOG as nat,
            ),
            errors(final(self).error_log@) == if status == OrderStatus::Rejected {
                capped(
                    errors(old(self).error_log@),
                    rejected_error(symbol@, order_id@, side, now_ms),
                    ERROR_LOG as nat,
                )
            } else {
                errors(old(self).error_log@)
            },
            anomalies(final(self).anomaly_history@) == order_anomalies(
                anomalies(old(self).anomaly_history@),
                symbol@,
                counted(old(self).orders(symbol@), status, now_ms),
                now_ms / 1000,
            ),
    {
        let ghost before = by_text(self.order_stats@);
        let stat = match find_text(&self.order_stats, symbol) {
            Some(i) => {
                assert(self.order_stats@[i as int].1.wf());
                let s = count_order(&self.order_stats[i].1, status, now_ms);
                let (name, _) = self.order_stats.remove(i);
                self.order_stats.insert(i, (name, s));
                proof {
                    lemma_update(before, i as int, s);
                    assert(by_text(self.order_stats@) =~= before.update(
                        i as int,
                        (before[i as int].0, s),
                    ));
                }
                s
            },
            None => {
                let zero = zero_orders();
                let s = count_order(&zero, status, now_ms);
                self.order_stats.push((copy_of(symbol), s));
                proof {
                    lemma_push(before, symbol@, s);
                    assert(by_text(self.order_stats@) =~= before.push((symbol@, s)));
                }
                s
            },
        };
        let status_word = status_text(status);
        let entry = OperationLog {
            timestamp: now_ms,
            operation_type: copy_of("order"),
            symbol: Some(copy_of(symbol)),
            details: glue3(order_id, " - ", status_word.as_str()),
            success: match status {
                OrderStatus::Filled => true,
                _ => false,
            },
            duration_ms: None,
        };
        assert(entry@ =~= order_operation(symbol@, order_id@, status, now_ms));
        push_operation(&mut self.operation_log, entry);
        assert(operations(self.operation_log@).len() == self.operation_log@.len());
        if let OrderStatus::Rejected = status {
            let mut context: Vec<(String, String)> = Vec::new();
            context.push(pair("order_id", copy_of(order_id)));
            context.push(pair("symbol", copy_of(symbol)));
            context.push(pair("side", side_text(side)));
            let error = ErrorLog {
                timestamp: now_ms,
                error_type: copy_of("order_rejected"),
                module: copy_of("ORDERING"),
                symbol: Some(copy_of(symbol)),
                message: glue3("Order ", order_id, " rejected"),
                context,
            };
            assert(error@.context =~= rejected_error(symbol@, order_id@, side, now_ms).context);
            assert(error@ =~= rejected_error(symbol@, order_id@, side, now_ms));
            push_error(&mut self.error_log, error);
            assert(errors(self.error_log@).len() == self.error_log@.len());
        }
        detect_order_anomalies(symbol, &stat, &mut self.anomaly_history, now_ms / 1000);
        assert(anomalies(self.anomaly_history@).len() == self.anomaly_history@.len());
        assert(anomalies(old(self).anomaly_history@).len() == old(self).anomaly_history@.len());
    }

    /// Takes note of a position, and counts a trade where one was closed that was known
    /// before. `false` where the total of the results cannot be held; nothing is
    /// changed then.
    pub fn analyze_position_update(
        &mut self,
        symbol: &str,
        is_open: bool,
        unrealized_pnl: Option<Dec>,
        now_ms: u64,
    ) -> (r: bool)
        requires
            old(self).wf(),
            old(self).trades(symbol@) matches Some(s) ==> s.total_trades < u64::MAX,
        ensures
            final(self).wf(),
            forall|s: Seq<char>|
                s != symbol@ ==> #[trigger] final(self).trades(s) == old(self).trades(s),
            final(self).order_stats == old(self).order_stats,
            final(self).operation_log == old(self).operation_log,
            final(self).error_log == old(self).error_log,
            final(self).total_signals == old(self).total_signals,
            final(self).last_balance == old(self).last_balance,
            match old(self).trades(symbol@) {
                None => r && (final(self).trades(symbol@) matches Some(after) && after.last_trade_ms
                    == Some(now_ms) && is_no_trades(
                    TradeStats { last_trade_ms: None, ..after },
                )) && same_totals(*old(self), *final(self)),
                Some(before) => if is_open || before.last_trade_ms is None {
                    r && (final(self).trades(symbol@) matches Some(after) && after.last_trade_ms
                        == Some(now_ms) && same_trades(before, after)) && same_totals(
                        *old(self),
                        *final(self),
                    )
                } else {
                    let pnl = result_of(unrealized_pnl);
                    match sum(before.total_pnl, pnl) {
                        None => !r && *final(self) == *old(self),
                        Some(total) => {
                            &&& r
                            &&& final(self).trades(symbol@) matches Some(after) && {
                                &&& after.last_trade_ms == Some(now_ms)
                                &&& traded(before, after, pnl, total)
                                &&& anomalies(final(self).anomaly_history@) == trade_anomalies(
                                    anomalies(old(self).anomaly_history@),
                                    symbol@,
                                    after,
                                    now_ms / 1000,
                                )
                            }
                            &&& final(self).total_trades == next_count(old(self).total_trades)
                            &&& final(self).total_wins == if pnl@ > 0 {
                                next_count(old(self).total_wins)
                            } else {
                                old(self).total_wins
                            }
                            &&& final(self).total_losses == if pnl@ < 0 {
                                next_count(old(self).total_losses)
                            } else {
                                old(self).total_losses
                            }
                        },
                    }
                },
            },
    {
        let ghost before = by_text(self.trade_stats@);
        let i: usize = match find_text(&self.trade_stats, symbol) {
            None => {
                let s = TradeStats {
                    total_trades: 0,
                    winning_trades: 0,
                    losing_trades: 0,
                    total_pnl: Dec::new(0, 0),
                    recent_pnl: Vec::new(),
                    last_trade_ms: Some(now_ms),
                };
                proof {
                    lemma_push(before, symbol@, s);
                }
                self.trade_stats.push((copy_of(symbol), s));
                assert(by_text(self.trade_stats@) =~= before.push((symbol@, s)));
                return true;
            },
            Some(i) => i,
        };
        assert(self.trade_stats@[i as int].1.wf());
        let counts = !is_open && self.trade_stats[i].1.last_trade_ms.is_some();
        let pnl = match unrealized_pnl {
            Some(p) => p,
            None => Dec::new(0, 0),
        };
        let total = self.trade_stats[i].1.total_pnl.checked_add(&pnl);
        if counts && total.is_none() {
            return false;
        }
        let (name, mut s) = self.trade_stats.remove(i);
        if counts {
            s.total_trades = s.total_trades + 1;
            self.total_trades = count_up(self.total_trades);
            if pnl.is_positive() {
                s.winning_trades = s.winning_trades + 1;
                self.total_wins = count_up(self.total_wins);
            } else if pnl.is_sign_negative() {
                s.losing_trades = s.losing_trades + 1;
                self.total_losses = count_up(self.total_losses);
            }
            if let Some(t) = total {
                s.total_pnl = t;
            }
            push_capped(&mut s.recent_pnl, pnl, RECENT_TRADES);
        }
        s.last_trade_ms = Some(now_ms);
        if counts {
            detect_trade_anomalies(symbol, &s, &mut self.anomaly_history, now_ms / 1000);
            assert(anomalies(self.anomaly_history@).len() == self.anomaly_history@.len());
            assert(anomalies(old(self).anomaly_history@).len() == old(self).anomaly_history@.len());
        }
        proof {
            lemma_update(before, i as int, s);
        }
        self.trade_stats.insert(i, (name, s));
        assert(by_text(self.trade_stats@) =~= before.update(i as int, (before[i as int].0, s)));
        true
    }

    /// Takes note of the balances, and reports a large change.
    pub fn analyze_balance_update(&mut self, usdt: Dec, usdc: Dec, now_secs: u64)
        requires
            old(self).wf(),
        ensures
            final(self).wf(),
            *final(self) == (AiAnalyzer {
                anomaly_history: final(self).anomaly_history,
                last_balance: Some((usdt, usdc)),
                ..*old(self)
            }),
            anomalies(final(self).anomaly_history@) == match old(self).last_balance {
                None => anomalies(old(self).anomaly_history@),
                Some((before, _)) => match large_change(before, usdt) {
                    None => anomalies(old(self).anomaly_history@),
                    Some(change) => capped(
                        anomalies(old(self).anomaly_history@),
                        balance_report(before, usdt, change, now_secs),
                        ANOMALY_HISTORY as nat,
                    ),
                },
            },
            old(self).last_balance matches Some((before, _)) ==> change_told(before, usdt),
    {
        proof {
            lemma_powers();
            lemma_value(1, 1);
            lemma_value(100, 0);
        }
        if let Some((before, _)) = self.last_balance {
            if let (Some(d), Some(tenth)) = (
                usdt.checked_sub(&before),
                before.checked_mul(&Dec::new(1, 1)),
            ) {
                let change = abs_dec(d);
                assert(change_by(before@, usdt@, d@, tenth@, large_change(before, usdt)));
                if Dec::new(100, 0).lt(&change) || tenth.lt(&change) {
                    let was = money_text(before);
                    let is_now = money_text(usdt);
                    let by = money_text(change);
                    let head = glue5(
                        "Large USDT balance change detected: $",
                        was.as_str(),
                        " -> $",
                        is_now.as_str(),
                        " ($",
                    );
                    let report = AnomalyReport {
                        timestamp: now_secs,
                        anomaly_type: AnomalyType::BalanceInconsistency {
                            expected: before,
                            actual: usdt,
                            difference: change,
                        },
                        severity: Severity::High,
                        message: glue3(head.as_str(), by.as_str(), " change)"),
                        recommendation: copy_of(
                            "Check recent trades and order fills for accounting errors",
                        ),
                    };
                    push_anomaly(&mut self.anomaly_history, report);
                    assert(anomalies(self.anomaly_history@).len() == self.anomaly_history@.len());
                }
            }
        }
        self.last_balance = Some((usdt, usdc));
    }
}

/// Orders are anomalous only after more than ten: where more than a fifth are rejected, and where
/// more than three tenths are cancelled. Trades are after more than ten, where fewer than four
/// tenths are won; and a loss is sudden where the last of at least three results is below minus
/// fifty and their average is below minus twenty.
pub proof fn law_what_is_anomalous(o: OrderStats, t: TradeStats)
    ensures
        rejects_often(o) <==> o.total_orders > 10 && 5 * o.rejected_orders > o.total_orders,
        cancels_often(o) <==> o.total_orders > 10 && 10 * o.canceled_orders > 3 * o.total_orders,
        wins_seldom(t) <==> t.total_trades > 10 && 5 * t.winning_trades < 2 * t.total_trades,
        loses_suddenly(t) ==> t.recent_pnl@.len() >= 3 && t.recent_pnl@.last()@ < -(50 * one())
            && (recent_average(t) matches Some(a) && a@ < -(20 * one())),
        t.recent_pnl@.len() >= 3 && t.recent_pnl@.last()@ < -(50 * one()) && (recent_average(
            t,
        ) matches Some(a) && a@ < -(20 * one())) ==> loses_suddenly(t),
{
    lemma_powers();
    lemma_value(-50, 0);
    lemma_value(-20, 0);
}

/// Every order counts once, and once more under what became of it.
pub proof fn law_counted_orders(s: OrderStats, status: OrderStatus, now_ms: u64)
    requires
        s.wf(),
        s.total_orders < u64::MAX,
    ensures
        ({
            let c = counted(s, status, now_ms);
            let filled = c.filled_orders - s.filled_orders;
            let canceled = c.canceled_orders - s.canceled_orders;
            let rejected = c.rejected_orders - s.rejected_orders;
            &&& c.total_orders - s.total_orders == 1
            &&& filled == (if status is Filled {
                1int
            } else {
                0
            })
            &&& canceled == (if status is Canceled {
                1int
            } else {
                0
            })
            &&& rejected == (if status is Rejected {
                1int
            } else {
                0
            })
            &&& c.last_order_ms == Some(now_ms)
        }),
{
}

/// A list that is full loses its oldest entry for a new one, and no other.
pub proof fn law_capped<T>(list: Seq<T>, x: T, cap: nat)
    requires
        0 < cap,
        list.len() <= cap,
    ensures
        capped(list, x, cap).len() <= cap,
        capped(list, x, cap).last() == x,
        list.len() < cap ==> capped(list, x, cap) == list.push(x),
        list.len() == cap ==> capped(list, x, cap) == list.skip(1).push(x),
{
    if list.len() == cap {
        assert(capped(list, x, cap) =~= list.skip(1).push(x));
    }
}

/// What is remembered: a hundred anomalies, a thousand operations, five hundred errors, and ten
/// results of each symbol.
pub proof fn law_what_is_remembered(a: AiAnalyzer, before: TradeStats, after: TradeStats, pnl: Dec, total: Dec)
    requires
        a.wf(),
        before.wf(),
        traded(before, after, pnl, total),
    ensures
        a.anomaly_history@.len() <= 100,
        a.operation_log@.len() <= 1000,
        a.error_log@.len() <= 500,
        after.recent_pnl@.len() <= 10,
        after.recent_pnl@.last() == pnl,
        after.total_trades - before.total_trades == 1,
        pnl@ > 0 ==> after.winning_trades - before.winning_trades == 1 && after.losing_trades
            == before.losing_trades,
        pnl@ < 0 ==> after.losing_trades - before.losing_trades == 1 && after.winning_trades
            == before.winning_trades,
        pnl@ == 0 ==> after.winning_trades == before.winning_trades && after.losing_trades
            == before.losing_trades,
{
}

} // verus!
