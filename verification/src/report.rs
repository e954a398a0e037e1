//! The report on the bot at work.
use vstd::prelude::*;

use crate::analyzer::{AiAnalyzer, AnomalyReport, ErrorLog, OperationLog, OrderStats, TradeStats};
use crate::assoc::{by_text, distinct_keys, find_text, lemma_push, lemma_update, value_of};
use crate::decimal::Dec;
use crate::figures::Rate;
use crate::initialization::texts;
use crate::text::{copy_of, glue3, glue5, nat_text, u64_text};

verus! {

/// How many of the last anomalies and errors a report holds.
pub const REPORTED: usize = 20;

#[derive(Debug)]
pub struct SummaryStats {
    pub total_signals: u64,
    pub total_trades: u64,
    pub total_wins: u64,
    pub total_losses: u64,
    pub win_rate: Rate,
    pub total_orders: u128,
    pub total_anomalies: usize,
    pub total_errors: usize,
}

#[derive(Debug)]
pub struct SymbolStats<'a> {
    pub symbol: &'a str,
    pub trades: u64,
    pub wins: u64,
    pub losses: u64,
    pub win_rate: Rate,
    pub total_pnl: Dec,
    pub orders: u64,
    pub order_rejection_rate: Rate,
    pub order_cancel_rate: Rate,
}

#[derive(Debug)]
pub struct OperationAnalysis {
    pub total_operations: usize,
    pub success_rate: Rate,
    /// How often each type of operation was done.
    pub operation_types: Vec<(String, u64)>,
    pub error_rate: Rate,
}

#[derive(Debug)]
pub struct AnalysisReport<'a> {
    pub timestamp: u64,
    pub summary: SummaryStats,
    pub per_symbol_stats: Vec<SymbolStats<'a>>,
    /// The last anomalies, the newest first.
    pub anomalies: Vec<&'a AnomalyReport>,
    /// The last errors, the newest first.
    pub recent_errors: Vec<&'a ErrorLog>,
    pub operation_analysis: OperationAnalysis,
    pub recommendations: Vec<String>,
}

/// The orders in all symbols.
pub open spec fn orders_in(list: Seq<(String, OrderStats)>) -> nat
    decreases list.len(),
{
    if list.len() == 0 {
        0
    } else {
        orders_in(list.drop_last()) + list.last().1.total_orders as nat
    }
}

fn sum_orders(list: &Vec<(String, OrderStats)>) -> (r: u128)
    ensures
        r == orders_in(list@),
{
    let mut total: u128 = 0;
    let mut i: usize = 0;
    while i < list.len()
        invariant
            i <= list@.len(),
            total == orders_in(list@.take(i as int)),
            total <= i * 0xffff_ffff_ffff_ffff,
        decreases list.len() - i,
    {
        proof {
            let now = list@.take(i as int + 1);
            assert(now.drop_last() =~= list@.take(i as int));
            assert(now.last() == list@[i as int]);
            assert(i * 0xffff_ffff_ffff_ffff <= 0xffff_ffff_ffff_ffff * 0xffff_ffff_ffff_ffff)
                by (nonlinear_arith)
                requires
                    0 <= i <= 0xffff_ffff_ffff_ffff,
            ;
        }
        total = total + list[i].1.total_orders as u128;
        i += 1;
    }
    assert(list@.take(list@.len() as int) =~= list@);
    total
}

/// What the report says of a symbol.
pub open spec fn symbol_reported(s: SymbolStats, name: Seq<char>, t: TradeStats, o: OrderStats) ->
    bool {
    &&& s.symbol@ == name
    &&& s.trades == t.total_trades
    &&& s.wins == t.winning_trades
    &&& s.losses == t.losing_trades
    &&& s.win_rate == t.wins()
    &&& s.total_pnl == t.total_pnl
    &&& s.orders == o.total_orders
    &&& s.order_rejection_rate == o.rejection()
    &&& s.order_cancel_rate == o.cancellation()
}

/// A text in a list where a condition holds.
pub open spec fn advice_if(cond: bool, text: Seq<char>) -> Seq<Seq<char>> {
    if cond {
        seq![text]
    } else {
        Seq::empty()
    }
}

/// What is recommended for a symbol: for few wins, many rejections and many cancellations.
pub open spec fn symbol_advice(name: Seq<char>, t: TradeStats, o: OrderStats) -> Seq<Seq<char>> {
    advice_if(
        t.wins().below(30) && t.total_trades > 5,
        "⚠️ "@ + name + " has very low win rate ("@ + t.wins().shown()
            + "%). Consider pausing trading for this symbol."@,
    ) + advice_if(
        o.rejection().above(20),
        "🚨 "@ + name + " has high order rejection rate ("@ + o.rejection().shown()
            + "%). Check exchange API status and order parameters."@,
    ) + advice_if(
        o.cancellation().above(30),
        "⚠️ "@ + name + " has high cancellation rate ("@ + o.cancellation().shown()
            + "%). Review spread validation and market conditions."@,
    )
}

/// What is recommended for the first `n` symbols.
pub open spec fn advice_for(a: AiAnalyzer, n: nat) -> Seq<Seq<char>>
    decreases n,
{
    if n == 0 {
        Seq::empty()
    } else {
        let (name, t) = a.trade_stats@[n - 1];
        advice_for(a, (n - 1) as nat) + symbol_advice(name@, t, a.orders(name@))
    }
}

/// The share of trades that won.
pub open spec fn overall_wins(a: AiAnalyzer) -> Rate {
    Rate { part: a.total_wins, whole: a.total_trades }
}

/// What is recommended: for few wins overall, for the symbols, and for many errors.
pub open spec fn advice(a: AiAnalyzer) -> Seq<Seq<char>> {
    advice_if(
        overall_wins(a).below(40) && a.total_trades > 10,
        "⚠️ Low win rate ("@ + overall_wins(a).shown()
            + "%) detected. Consider reviewing strategy parameters or market conditions."@,
    ) + advice_for(a, a.trade_stats@.len()) + advice_if(
        a.error_log@.len() > 50,
        "🚨 High error count ("@ + nat_text(a.error_log@.len())
            + ") detected. Review error logs for patterns."@,
    )
}

/// How many operations are of this type.
pub open spec fn count_type(list: Seq<OperationLog>, kind: Seq<char>) -> nat
    decreases list.len(),
{
    if list.len() == 0 {
        0
    } else {
        count_type(list.drop_last(), kind) + if list.last().operation_type@ == kind {
            1nat
        } else {
            0
        }
    }
}

/// How many operations succeeded.
pub open spec fn count_success(list: Seq<OperationLog>) -> nat
    decreases list.len(),
{
    if list.len() == 0 {
        0
    } else {
        count_success(list.drop_last()) + if list.last().success {
            1nat
        } else {
            0
        }
    }
}

/// The counts of the types are those of the operations; a type that was not done has none.
pub open spec fn types_counted(types: Seq<(String, u64)>, list: Seq<OperationLog>) -> bool {
    &&& distinct_keys(by_text(types))
    &&& forall|kind: Seq<char>| #[trigger]
        value_of(by_text(types), kind) == if count_type(list, kind) == 0 {
            None
        } else {
            Some(count_type(list, kind) as u64)
        }
}

proof fn lemma_count_type_bound(list: Seq<OperationLog>, kind: Seq<char>)
    ensures
        count_type(list, kind) <= list.len(),
    decreases list.len(),
{
    if list.len() > 0 {
        lemma_count_type_bound(list.drop_last(), kind);
    }
}

fn count_types(list: &Vec<OperationLog>) -> (r: (Vec<(String, u64)>, u64))
    requires
        list@.len() < u64::MAX,
    ensures
        types_counted(r.0@, list@),
        r.1 == count_success(list@),
        r.1 <= list@.len(),
{
    let mut types: Vec<(String, u64)> = Vec::new();
    let mut successes: u64 = 0;
    let mut i: usize = 0;
    assert(types_counted(types@, list@.take(0)));
    while i < list.len()
        invariant
            i <= list@.len() < u64::MAX,
            types_counted(types@, list@.take(i as int)),
            successes == count_success(list@.take(i as int)),
            successes <= i,
        decreases list.len() - i,
    {
        let kind = list[i].operation_type.as_str();
        let ghost before = by_text(types@);
        let ghost done = list@.take(i as int);
        let ghost now = list@.take(i as int + 1);
        proof {
            assert(now.drop_last() =~= done);
            assert(now.last() == list@[i as int]);
            lemma_count_type_bound(done, kind@);
        }
        match find_text(&types, kind) {
            Some(k) => {
                let (name, n) = types.remove(k);
                assert(n == count_type(done, kind@));
                types.insert(k, (name, n + 1));
                proof {
                    lemma_update(before, k as int, (n + 1) as u64);
                    assert(by_text(types@) =~= before.update(
                        k as int,
                        (before[k as int].0, (n + 1) as u64),
                    ));
                }
            },
            None => {
                types.push((copy_of(kind), 1));
                proof {
                    lemma_push(before, kind@, 1u64);
                    assert(by_text(types@) =~= before.push((kind@, 1u64)));
                }
            },
        }
        if list[i].success {
            successes = successes + 1;
        }
        assert(types_counted(types@, now));
        i += 1;
    }
    assert(list@.take(list@.len() as int) =~= list@);
    (types, successes)
}

/// The last entries of a list, the newest first, and not more than `limit`.
pub open spec fn newest<T>(list: Seq<T>, limit: nat) -> Seq<T> {
    Seq::new(
        if list.len() < limit {
            list.len()
        } else {
            limit
        },
        |i: int| list[list.len() - 1 - i],
    )
}

/// The entries that references lead to.
pub open spec fn pointed_at<'a, T>(list: Seq<&'a T>) -> Seq<T> {
    Seq::new(list.len(), |i: int| *list[i])
}

fn take_newest<'a, T>(list: &'a Vec<T>, limit: usize) -> (r: Vec<&'a T>)
    ensures
        pointed_at(r@) == newest(list@, limit as nat),
{
    let n: usize = list.len();
    let count: usize = if n < limit {
        n
    } else {
        limit
    };
    let mut v: Vec<&'a T> = Vec::new();
    let mut i: usize = 0;
    while i < count
        invariant
            i <= count <= n,
            n == list@.len(),
            v@.len() == i,
            forall|k: int| 0 <= k < i ==> *(#[trigger] v@[k]) == list@[n - 1 - k],
        decreases count - i,
    {
        v.push(&list[n - 1 - i]);
        i += 1;
    }
    assert(pointed_at(v@) =~= newest(list@, limit as nat));
    v
}

/// Adds what is recommended for a symbol.
fn push_symbol_advice(list: &mut Vec<String>, name: &str, t: &TradeStats, o: &OrderStats)
    ensures
        texts(final(list)@) == texts(old(list)@) + symbol_advice(name@, *t, *o),
{
    let ghost start = texts(list@);
    let wins = t.win_rate();
    if wins.is_below(30) && t.total_trades > 5 {
        let rate = wins.text();
        list.push(
            glue5(
                "⚠️ ",
                name,
                " has very low win rate (",
                rate.as_str(),
                "%). Consider pausing trading for this symbol.",
            ),
        );
    }
    let ghost first = advice_if(
        t.wins().below(30) && t.total_trades > 5,
        "⚠️ "@ + name@ + " has very low win rate ("@ + t.wins().shown()
            + "%). Consider pausing trading for this symbol."@,
    );
    assert(texts(list@) =~= start + first);
    let rejection = o.rejection_rate();
    if rejection.is_above(20) {
        let rate = rejection.text();
        list.push(
            glue5(
                "🚨 ",
                name,
                " has high order rejection rate (",
                rate.as_str(),
                "%). Check exchange API status and order parameters.",
            ),
        );
    }
    let ghost second = advice_if(
        o.rejection().above(20),
        "🚨 "@ + name@ + " has high order rejection rate ("@ + o.rejection().shown()
            + "%). Check exchange API status and order parameters."@,
    );
    assert(texts(list@) =~= start + (first + second));
    let cancellation = o.cancellation_rate();
    if cancellation.is_above(30) {
        let rate = cancellation.text();
        list.push(
            glue5(
                "⚠️ ",
                name,
                " has high cancellation rate (",
                rate.as_str(),
                "%). Review spread validation and market conditions.",
            ),
        );
    }
    assert(texts(list@) =~= start + symbol_advice(name@, *t, *o));
}

impl AiAnalyzer {
    /// The orders in a symbol.
    fn find_orders(&self, symbol: &str) -> (r: OrderStats)
        ensures
            r == self.orders(symbol@),
    {
        match find_text(&self.order_stats, symbol) {
            Some(i) => self.order_stats[i].1,
            None => OrderStats {
                total_orders: 0,
                filled_orders: 0,
                canceled_orders: 0,
                rejected_orders: 0,
                last_order_ms: None,
            },
        }
    }

    /// The report on everything that is known.
    pub fn generate_analysis_report<'a>(&'a self, now_secs: u64) -> (r: AnalysisReport<'a>)
        requires
            self.wf(),
        ensures
            r.timestamp == now_secs,
            r.summary.total_signals == self.total_signals,
            r.summary.total_trades == self.total_trades,
            r.summary.total_wins == self.total_wins,
            r.summary.total_losses == self.total_losses,
            r.summary.win_rate == overall_wins(*self),
            r.summary.total_orders == orders_in(self.order_stats@),
            r.summary.total_anomalies == self.anomaly_history@.len(),
            r.summary.total_errors == self.error_log@.len(),
            r.per_symbol_stats@.len() == self.trade_stats@.len(),
            forall|i: int|
                0 <= i < self.trade_stats@.len() ==> symbol_reported(
                    #[trigger] r.per_symbol_stats@[i],
                    self.trade_stats@[i].0@,
                    self.trade_stats@[i].1,
                    self.orders(self.trade_stats@[i].0@),
                ),
            pointed_at(r.anomalies@) == newest(self.anomaly_history@, REPORTED as nat),
            pointed_at(r.recent_errors@) == newest(self.error_log@, REPORTED as nat),
            r.operation_analysis.total_operations == self.operation_log@.len(),
            r.operation_analysis.success_rate == (Rate {
                part: count_success(self.operation_log@) as u64,
                whole: self.operation_log@.len() as u64,
            }),
            r.operation_analysis.error_rate == (Rate {
                part: self.error_log@.len() as u64,
                whole: self.operation_log@.len() as u64,
            }),
            types_counted(r.operation_analysis.operation_types@, self.operation_log@),
            texts(r.recommendations@) == advice(*self),
    {
        let win_rate = Rate { part: self.total_wins, whole: self.total_trades };
        let summary = SummaryStats {
            total_signals: self.total_signals,
            total_trades: self.total_trades,
            total_wins: self.total_wins,
            total_losses: self.total_losses,
            win_rate,
            total_orders: sum_orders(&self.order_stats),
            total_anomalies: self.anomaly_history.len(),
            total_errors: self.error_log.len(),
        };
        let mut recommendations: Vec<String> = Vec::new();
        if win_rate.is_below(40) && self.total_trades > 10 {
            let rate = win_rate.text();
            recommendations.push(
                glue3(
                    "⚠️ Low win rate (",
                    rate.as_str(),
                    "%) detected. Consider reviewing strategy parameters or market conditions.",
                ),
            );
        }
        let ghost first = advice_if(
            overall_wins(*self).below(40) && self.total_trades > 10,
            "⚠️ Low win rate ("@ + overall_wins(*self).shown()
                + "%) detected. Consider reviewing strategy parameters or market conditions."@,
        );
        assert(texts(recommendations@) =~= first + advice_for(*self, 0));
        let mut per_symbol_stats: Vec<SymbolStats<'a>> = Vec::new();
        let mut i: usize = 0;
        while i < self.trade_stats.len()
            invariant
                i <= self.trade_stats@.len(),
                per_symbol_stats@.len() == i,
                forall|k: int|
                    0 <= k < i ==> symbol_reported(
                        #[trigger] per_symbol_stats@[k],
                        self.trade_stats@[k].0@,
                        self.trade_stats@[k].1,
                        self.orders(self.trade_stats@[k].0@),
                    ),
                texts(recommendations@) == first + advice_for(*self, i as nat),
            decreases self.trade_stats.len() - i,
        {
            let name = self.trade_stats[i].0.as_str();
            let t = &self.trade_stats[i].1;
            let o = self.find_orders(name);
            per_symbol_stats.push(
                SymbolStats {
                    symbol: name,
                    trades: t.total_trades,
                    wins: t.winning_trades,
                    losses: t.losing_trades,
                    win_rate: t.win_rate(),
                    total_pnl: t.total_pnl,
                    orders: o.total_orders,
                    order_rejection_rate: o.rejection_rate(),
                    order_cancel_rate: o.cancellation_rate(),
                },
            );
            push_symbol_advice(&mut recommendations, name, t, &o);
            proof {
                let more = symbol_advice(name@, *t, o);
                assert((first + advice_for(*self, i as nat)) + more =~= first + (advice_for(
                    *self,
                    i as nat,
                ) + more));
            }
            i += 1;
        }
        if self.error_log.len() > 50 {
            let count = u64_text(self.error_log.len() as u64);
            recommendations.push(
                glue3(
                    "🚨 High error count (",
                    count.as_str(),
                    ") detected. Review error logs for patterns.",
                ),
            );
        }
        assert(texts(recommendations@) =~= advice(*self));
        let (operation_types, successes) = count_types(&self.operation_log);
        let operations: u64 = self.operation_log.len() as u64;
        let operation_analysis = OperationAnalysis {
            total_operations: self.operation_log.len(),
            success_rate: Rate { part: successes, whole: operations },
            operation_types,
            error_rate: Rate { part: self.error_log.len() as u64, whole: operations },
        };
        AnalysisReport {
            timestamp: now_secs,
            summary,
            per_symbol_stats,
            anomalies: take_newest(&self.anomaly_history, REPORTED),
            recent_errors: take_newest(&self.error_log, REPORTED),
            operation_analysis,
            recommendations,
        }
    }

    /// The last anomalies, the newest first.
    pub fn get_recent_anomalies<'a>(&'a self, limit: usize) -> (r: Vec<&'a AnomalyReport>)
        ensures
            pointed_at(r@) == newest(self.anomaly_history@, limit as nat),
    {
        take_newest(&self.anomaly_history, limit)
    }

    /// The trades, by symbol.
    pub fn get_trade_stats(&self) -> (r: &Vec<(String, TradeStats)>)
        ensures
            *r == self.trade_stats,
    {
        &self.trade_stats
    }

    /// The orders, by symbol.
    pub fn get_order_stats(&self) -> (r: &Vec<(String, OrderStats)>)
        ensures
            *r == self.order_stats,
    {
        &self.order_stats
    }
}

} // verus!
