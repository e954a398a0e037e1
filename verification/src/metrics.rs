//! How well the strategy does: wins, losses, drawdown and return on risk.
use vstd::prelude::*;

use crate::arith::{
    add_opt, div_by, div_opt, floor_root, lit, minus, mul_by, mul_opt, number, over, plus, root,
    root_opt, root_units, sub_opt, times, unsigned,
};
use crate::decimal::{
    dec_of, difference, lemma_powers, lemma_value, one, pow10, sum, value_of, Dec,
};
use crate::figures::{money, money_text, Rate};
use crate::quant::abs_dec;
use crate::quotes::lemma_sign;
use crate::rounding::{
    can_be_held, law_exact_is_kept, law_rounding_above, law_rounding_scales, lemma_exact,
    lemma_held, lemma_zero_and_one, rounds_to,
};
use crate::text::{glue5, nat_text, u64_text};

verus! {

/// How many trades the figures are made of.
pub const MAX_TRADES: usize = 100;

/// A trade that is over.
#[derive(Debug)]
pub struct TradeResult {
    pub symbol: String,
    pub side: String,
    pub entry_price: Dec,
    pub exit_price: Dec,
    pub pnl: Dec,
    pub pnl_pct: Dec,
    pub timestamp_ms: u64,
}

/// The figures of a strategy.
#[derive(Debug)]
pub struct StrategyMetrics {
    pub total_signals: u64,
    pub total_trades: u64,
    pub winning_trades: u64,
    pub losing_trades: u64,
    pub total_pnl: Dec,
    pub win_rate: Rate,
    pub avg_win: Dec,
    pub avg_loss: Dec,
    pub profit_factor: Dec,
    pub max_drawdown: Dec,
    pub max_drawdown_pct: Dec,
    pub sharpe_ratio: Dec,
    /// The last trades, the oldest first.
    pub trades: Vec<TradeResult>,
}

/// How many of the first `n` trades won.
pub open spec fn wins(trades: Seq<TradeResult>, n: nat) -> nat
    decreases n,
{
    if n == 0 {
        0
    } else {
        wins(trades, (n - 1) as nat) + if trades[n - 1].pnl@ > 0 {
            1nat
        } else {
            0
        }
    }
}

/// The total of the wins among the first `n` trades.
pub open spec fn won(trades: Seq<TradeResult>, n: nat) -> Option<Dec>
    decreases n,
{
    if n == 0 {
        lit(0, 0)
    } else if trades[n - 1].pnl@ > 0 {
        plus(won(trades, (n - 1) as nat), Some(trades[n - 1].pnl))
    } else {
        won(trades, (n - 1) as nat)
    }
}

/// The total of the losses among the first `n` trades, without their sign.
pub open spec fn lost(trades: Seq<TradeResult>, n: nat) -> Option<Dec>
    decreases n,
{
    if n == 0 {
        lit(0, 0)
    } else if trades[n - 1].pnl@ > 0 {
        lost(trades, (n - 1) as nat)
    } else {
        plus(lost(trades, (n - 1) as nat), unsigned(Some(trades[n - 1].pnl)))
    }
}

/// The result so far, its peak, and the deepest fall below a peak.
pub struct Course {
    pub result: Dec,
    pub peak: Dec,
    pub deepest: Dec,
}

/// The course of the first `n` trades.
pub open spec fn course(trades: Seq<TradeResult>, n: nat) -> Option<Course>
    decreases n,
{
    let zero = dec_of(0, 0);
    if n == 0 {
        Some(Course { result: zero, peak: zero, deepest: zero })
    } else {
        match course(trades, (n - 1) as nat) {
            None => None,
            Some(c) => match sum(c.result, trades[n - 1].pnl) {
                None => None,
                Some(result) => {
                    let peak = if result@ > c.peak@ {
                        result
                    } else {
                        c.peak
                    };
                    match difference(peak, result) {
                        None => None,
                        Some(fall) => Some(
                            Course {
                                result,
                                peak,
                                deepest: if fall@ > c.deepest@ {
                                    fall
                                } else {
                                    c.deepest
                                },
                            },
                        ),
                    }
                },
            },
        }
    }
}

/// The total of the returns of the first `n` trades.
pub open spec fn total_return(trades: Seq<TradeResult>, n: nat) -> Option<Dec>
    decreases n,
{
    if n == 0 {
        lit(0, 0)
    } else {
        plus(total_return(trades, (n - 1) as nat), Some(trades[n - 1].pnl_pct))
    }
}

/// The total of the squared distances of the first `n` returns from the mean.
pub open spec fn spread_of(trades: Seq<TradeResult>, mean: Option<Dec>, n: nat) -> Option<Dec>
    decreases n,
{
    if n == 0 {
        lit(0, 0)
    } else {
        let d = minus(Some(trades[n - 1].pnl_pct), mean);
        plus(spread_of(trades, mean, (n - 1) as nat), times(d, d))
    }
}

/// The mean of the returns by their deviation, for a year of 252 days; what it was
/// where there are fewer than two trades or no deviation.
pub open spec fn sharpe(trades: Seq<TradeResult>, before: Dec) -> Option<Dec> {
    let n = trades.len();
    if n < 2 {
        Some(before)
    } else {
        let count = lit(n as int, 0);
        let mean = over(total_return(trades, n), count);
        match over(spread_of(trades, mean, n), count) {
            None => None,
            Some(variance) => match root(variance) {
                None => None,
                Some(deviation) => if deviation@ > 0 {
                    times(over(mean, Some(deviation)), root(dec_of(252, 0)))
                } else {
                    Some(before)
                },
            },
        }
    }
}

/// What the first `n` returns come to.
pub open spec fn return_total(trades: Seq<TradeResult>, n: nat) -> int
    decreases n,
{
    if n == 0 {
        0
    } else {
        return_total(trades, (n - 1) as nat) + trades[n - 1].pnl_pct@
    }
}

/// The square of how far a return is from the mean, in units of 10^-56.
pub open spec fn square_of(t: TradeResult, mean: int) -> int {
    (t.pnl_pct@ - mean) * (t.pnl_pct@ - mean)
}

/// What the squares of the first `n` returns come to.
pub open spec fn square_total(trades: Seq<TradeResult>, mean: int, n: nat) -> int
    decreases n,
{
    if n == 0 {
        0
    } else {
        square_total(trades, mean, (n - 1) as nat) + square_of(trades[n - 1], mean)
    }
}

pub open spec fn return_totals_held(trades: Seq<TradeResult>) -> bool {
    forall|k: nat| k <= trades.len() ==> can_be_held(#[trigger] return_total(trades, k))
}

/// How far the returns are from the mean, their squares and what these come to can be held.
pub open spec fn squares_held(trades: Seq<TradeResult>, mean: int) -> bool {
    &&& forall|i: int|
        0 <= i < trades.len() ==> can_be_held((#[trigger] trades[i]).pnl_pct@ - mean) && square_of(
            trades[i],
            mean,
        ) % one() == 0 && can_be_held(square_of(trades[i], mean) / one())
    &&& forall|k: nat|
        k <= trades.len() ==> #[trigger] square_total(trades, mean, k) % one() == 0 && can_be_held(
            square_total(trades, mean, k) / one(),
        )
}

/// The steps to a return on risk: the mean of the returns by their deviation, times the root of
/// the 252 days of a year.
pub open spec fn sharpe_by(
    trades: Seq<TradeResult>,
    mean: int,
    variance: int,
    ratio: int,
    before: int,
    v: int,
) -> bool {
    let n = trades.len();
    let deviation = root_units(variance);
    &&& return_totals_held(trades) ==> rounds_to(return_total(trades, n), n as int, mean)
    &&& squares_held(trades, mean) ==> rounds_to(
        square_total(trades, mean, n) / one(),
        n as int,
        variance,
    )
    &&& deviation <= 0 ==> v == before
    &&& deviation > 0 ==> rounds_to(mean * one(), deviation, ratio) && rounds_to(
        ratio * root_units(252 * one()),
        one(),
        v,
    )
}

pub open spec fn sharpe_told(trades: Seq<TradeResult>, before: int, v: int) -> bool {
    &&& trades.len() < 2 ==> v == before
    &&& trades.len() >= 2 ==> exists|mean: int, variance: int, ratio: int| #[trigger]
        sharpe_by(trades, mean, variance, ratio, before, v)
}

/// A return on risk has the sign of what the returns come to, and stays what it was with fewer than
/// two trades.
pub proof fn law_return_on_risk(trades: Seq<TradeResult>, before: int, v: int)
    requires
        sharpe_told(trades, before, v),
        return_totals_held(trades),
    ensures
        trades.len() < 2 ==> v == before,
        v != before && return_total(trades, trades.len()) >= 0 ==> v >= 0,
        v != before && return_total(trades, trades.len()) <= 0 ==> v <= 0,
{
    if trades.len() >= 2 && v != before {
        let n = trades.len();
        let (mean, variance, ratio) = choose|mean: int, variance: int, ratio: int| #[trigger]
            sharpe_by(trades, mean, variance, ratio, before, v);
        let year = root_units(252 * one());
        let t = return_total(trades, n);
        assert(year >= 0) by {
            lemma_powers();
            assert(floor_root((252 * one()) as nat) * pow10(14) >= 0) by (nonlinear_arith)
                requires
                    floor_root((252 * one()) as nat) >= 0,
                    pow10(14) >= 0,
            ;
        }
        lemma_sign(t, n as int, mean);
        lemma_sign(mean * one(), root_units(variance), ratio);
        assert((ratio >= 0 ==> ratio * year >= 0) && (ratio <= 0 ==> ratio * year <= 0))
            by (nonlinear_arith)
            requires
                year >= 0,
        ;
        lemma_sign(ratio * year, one(), v);
    }
}

/// The average of a total over a count; what it was where there is nothing to count.
pub open spec fn average_or(total: Option<Dec>, count: nat, before: Dec) -> Option<Dec> {
    if count == 0 {
        Some(before)
    } else {
        over(total, lit(count as int, 0))
    }
}

/// The figures that are made of the last trades.
pub struct Figures {
    pub avg_win: Dec,
    pub avg_loss: Dec,
    pub profit_factor: Dec,
    pub max_drawdown: Dec,
    pub max_drawdown_pct: Dec,
    pub sharpe_ratio: Dec,
}

/// What the first `n` trades that won came to.
pub open spec fn won_total(trades: Seq<TradeResult>, n: nat) -> int
    decreases n,
{
    if n == 0 {
        0
    } else {
        won_total(trades, (n - 1) as nat) + if trades[n - 1].pnl@ > 0 {
            trades[n - 1].pnl@
        } else {
            0
        }
    }
}

/// What the first `n` trades came to.
pub open spec fn pnl_total(trades: Seq<TradeResult>, n: nat) -> int
    decreases n,
{
    if n == 0 {
        0
    } else {
        pnl_total(trades, (n - 1) as nat) + trades[n - 1].pnl@
    }
}

/// What the first trades came to, however many, can be held: those that won, those that did not and
/// all of them.
pub open spec fn totals_held(trades: Seq<TradeResult>) -> bool {
    forall|k: nat|
        k <= trades.len() ==> can_be_held(#[trigger] won_total(trades, k)) && can_be_held(
            won_total(trades, k) - pnl_total(trades, k),
        ) && can_be_held(pnl_total(trades, k))
}

/// How far any later result is below an earlier one can be held.
#[verifier::opaque]
pub open spec fn falls_held(trades: Seq<TradeResult>) -> bool {
    forall|i: nat, j: nat|
        i <= j <= trades.len() ==> can_be_held(
            #[trigger] pnl_total(trades, i) - #[trigger] pnl_total(trades, j),
        )
}

/// `v` is an average of what so many trades came to; what it was where there are none.
pub open spec fn is_mean(total: int, count: int, before: int, v: int) -> bool {
    if count == 0 {
        v == before
    } else {
        rounds_to(total, count, v)
    }
}

/// The peak and the deepest fall of a course, over all results on the way.
#[verifier::opaque]
pub open spec fn course_told(trades: Seq<TradeResult>, n: nat, peak: int, deepest: int) -> bool {
    &&& forall|k: nat| k <= n ==> #[trigger] pnl_total(trades, k) <= peak
    &&& exists|k: nat| k <= n && #[trigger] pnl_total(trades, k) == peak
    &&& forall|i: nat, j: nat|
        i <= j <= n ==> #[trigger] pnl_total(trades, i) - #[trigger] pnl_total(trades, j) <= deepest
    &&& exists|i: nat, j: nat|
        i <= j <= n && #[trigger] pnl_total(trades, i) - #[trigger] pnl_total(trades, j) == deepest
}

/// What the figures of trades are, where what they come to can be held: the average of those that
/// won and of those that did not, the one by the other, the deepest fall of the result from its
/// peak, and that in percent of the peak.
pub open spec fn figures_told(m: StrategyMetrics, trades: Seq<TradeResult>, f: Figures) -> bool {
    let n = trades.len();
    let w = wins(trades, n);
    &&& totals_held(trades) ==> {
        &&& is_mean(won_total(trades, n), w as int, m.avg_win@, f.avg_win@)
        &&& is_mean(won_total(trades, n) - pnl_total(trades, n), n - w, m.avg_loss@, f.avg_loss@)
        &&& falls_held(trades) ==> exists|peak: int| #[trigger]
            course_told(trades, n, peak, f.max_drawdown@) && (peak > 0 ==> drawdown_by(
                f.max_drawdown@,
                peak,
                f.max_drawdown_pct@,
            )) && (peak == 0 ==> f.max_drawdown_pct == m.max_drawdown_pct)
    }
    &&& f.avg_loss@ > 0 ==> rounds_to(f.avg_win@ * one(), f.avg_loss@, f.profit_factor@)
    &&& f.avg_loss@ == 0 ==> f.profit_factor == m.profit_factor
    &&& sharpe_told(trades, m.sharpe_ratio@, f.sharpe_ratio@)
}

/// A fall in percent of the peak.
pub open spec fn drawdown_by(deepest: int, peak: int, pct: int) -> bool {
    exists|q: int| #[trigger] rounds_to(deepest * one(), peak, q) && rounds_to(q * 100, 1, pct)
}

/// A drawdown is never negative, and at most all of the peak where no result is below zero; it is
/// nothing where no result is below an earlier one; a fall by all of the peak is a hundred
/// percent; and wins and losses that are as large on average make a factor of one.
pub proof fn law_figures(m: StrategyMetrics, trades: Seq<TradeResult>, f: Figures, peak: int)
    requires
        figures_told(m, trades, f),
        totals_held(trades),
        falls_held(trades),
        course_told(trades, trades.len(), peak, f.max_drawdown@),
    ensures
        f.max_drawdown@ >= 0,
        peak >= 0,
        (forall|i: nat, j: nat|
            i <= j <= trades.len() ==> #[trigger] pnl_total(trades, i) <= #[trigger] pnl_total(
                trades,
                j,
            )) ==> f.max_drawdown@ == 0,
        peak > 0 && f.max_drawdown@ == peak ==> f.max_drawdown_pct@ == 100 * one(),
        peak > 0 && f.max_drawdown@ == 0 ==> f.max_drawdown_pct@ == 0,
        f.avg_loss@ > 0 && f.avg_win@ == f.avg_loss@ ==> f.profit_factor@ == one(),
        f.avg_loss@ > 0 && f.avg_win@ >= f.avg_loss@ ==> f.profit_factor@ >= one(),
{
    lemma_powers();
    lemma_zero_and_one();
    reveal(course_told);
    let n = trades.len();
    assert(pnl_total(trades, 0) - pnl_total(trades, 0) <= f.max_drawdown@);
    assert(pnl_total(trades, 0) <= peak);
    if f.avg_loss@ > 0 {
        if f.avg_win@ >= f.avg_loss@ {
            law_rounding_above(f.avg_win@ * one(), f.avg_loss@, f.profit_factor@, one());
        }
        if f.avg_win@ == f.avg_loss@ {
            law_exact_is_kept(f.avg_win@ * one(), f.avg_loss@, f.profit_factor@, one());
        }
    }
    let top = choose|p: int| #[trigger]
        course_told(trades, n, p, f.max_drawdown@) && (p > 0 ==> drawdown_by(
            f.max_drawdown@,
            p,
            f.max_drawdown_pct@,
        )) && (p == 0 ==> f.max_drawdown_pct == m.max_drawdown_pct);
    assert(top == peak);
    if peak > 0 {
        let q = choose|q: int| #[trigger]
            rounds_to(f.max_drawdown@ * one(), peak, q) && rounds_to(
                q * 100,
                1,
                f.max_drawdown_pct@,
            );
        if f.max_drawdown@ == peak {
            law_exact_is_kept(f.max_drawdown@ * one(), peak, q, one());
            lemma_exact(100, 0, 1);
            law_exact_is_kept(q * 100, 1, f.max_drawdown_pct@, 100 * one());
        }
        if f.max_drawdown@ == 0 {
            law_exact_is_kept(f.max_drawdown@ * one(), peak, q, 0);
            law_exact_is_kept(q * 100, 1, f.max_drawdown_pct@, 0);
        }
    }
}

/// The figures of the last trades; none where a number cannot be held.
pub open spec fn figures_of(m: StrategyMetrics, trades: Seq<TradeResult>) -> Option<Figures> {
    let n = trades.len();
    let w = wins(trades, n);
    match (
        average_or(won(trades, n), w, m.avg_win),
        average_or(lost(trades, n), (n - w) as nat, m.avg_loss),
        course(trades, n),
        sharpe(trades, m.sharpe_ratio),
    ) {
        (Some(avg_win), Some(avg_loss), Some(c), Some(sharpe_ratio)) => {
            let factor = if avg_loss@ == 0 {
                Some(m.profit_factor)
            } else {
                over(Some(avg_win), Some(avg_loss))
            };
            let pct = if c.peak@ == 0 {
                Some(m.max_drawdown_pct)
            } else {
                times(over(Some(c.deepest), Some(c.peak)), lit(100, 0))
            };
            match (factor, pct) {
                (Some(profit_factor), Some(max_drawdown_pct)) => Some(
                    Figures {
                        avg_win,
                        avg_loss,
                        profit_factor,
                        max_drawdown: c.deepest,
                        max_drawdown_pct,
                        sharpe_ratio,
                    },
                ),
                _ => None,
            }
        },
        _ => None,
    }
}

/// The last trades with one more, and not more than the figures are made of.
pub open spec fn with_trade(trades: Seq<TradeResult>, trade: TradeResult) -> Seq<TradeResult> {
    let longer = trades.push(trade);
    if longer.len() > MAX_TRADES {
        longer.skip(1)
    } else {
        longer
    }
}

/// `after` is `before` with one trade more; `r` says whether every number could be held.
pub open spec fn trade_recorded(
    before: StrategyMetrics,
    after: StrategyMetrics,
    trade: TradeResult,
    r: bool,
) -> bool {
    &&& after.total_signals == before.total_signals
    &&& after.total_trades == before.total_trades + 1
    &&& after.winning_trades == before.winning_trades + if trade.pnl@ > 0 {
        1int
    } else {
        0
    }
    &&& after.losing_trades == before.losing_trades + if trade.pnl@ > 0 {
        0int
    } else {
        1
    }
    &&& after.win_rate == (Rate { part: after.winning_trades, whole: after.total_trades })
    &&& after.trades@ == with_trade(before.trades@, trade)
    &&& match (
        sum(before.total_pnl, trade.pnl),
        figures_of(before, with_trade(before.trades@, trade)),
    ) {
        (Some(total), Some(f)) => {
            &&& r
            &&& figures_told(before, with_trade(before.trades@, trade), f)
            &&& rounds_to(before.total_pnl@ + trade.pnl@, 1, after.total_pnl@)
            &&& after.total_pnl == total
            &&& after.avg_win == f.avg_win
            &&& after.avg_loss == f.avg_loss
            &&& after.profit_factor == f.profit_factor
            &&& after.max_drawdown == f.max_drawdown
            &&& after.max_drawdown_pct == f.max_drawdown_pct
            &&& after.sharpe_ratio == f.sharpe_ratio
        },
        _ => {
            &&& !r
            &&& after.total_pnl == before.total_pnl
            &&& after.avg_win == before.avg_win
            &&& after.avg_loss == before.avg_loss
            &&& after.profit_factor == before.profit_factor
            &&& after.max_drawdown == before.max_drawdown
            &&& after.max_drawdown_pct == before.max_drawdown_pct
            &&& after.sharpe_ratio == before.sharpe_ratio
        },
    }
}

/// The last trades of all that there were, not more than the figures are made of.
pub open spec fn last_trades(all: Seq<TradeResult>) -> Seq<TradeResult> {
    if all.len() > MAX_TRADES {
        all.skip(all.len() - MAX_TRADES)
    } else {
        all
    }
}

/// The result of the first `n` trades.
pub open spec fn total_result(all: Seq<TradeResult>, n: nat) -> Option<Dec>
    decreases n,
{
    if n == 0 {
        lit(0, 0)
    } else {
        plus(total_result(all, (n - 1) as nat), Some(all[n - 1].pnl))
    }
}

/// The counts are those of all the trades that there were, and the last are kept.
pub open spec fn counts(m: StrategyMetrics, all: Seq<TradeResult>) -> bool {
    &&& m.total_trades == all.len()
    &&& m.winning_trades == wins(all, all.len())
    &&& m.winning_trades + m.losing_trades == all.len()
    &&& all.len() > 0 ==> m.win_rate == (Rate { part: m.winning_trades, whole: m.total_trades })
    &&& m.trades@ == last_trades(all)
}

/// The result is that of all the trades that there were, and the drawdown that of the last.
pub open spec fn adds_up(m: StrategyMetrics, all: Seq<TradeResult>) -> bool {
    &&& total_result(all, all.len()) == Some(m.total_pnl)
    &&& course(last_trades(all), last_trades(all).len()) matches Some(c) && m.max_drawdown
        == c.deepest
}

fn find_course(trades: &Vec<TradeResult>) -> (r: Option<Course>)
    ensures
        r == course(trades@, trades@.len()),
        r is Some && totals_held(trades@) && falls_held(trades@) ==> course_told(
            trades@,
            trades@.len(),
            r->0.peak@,
            r->0.deepest@,
        ),
{
    let zero = Dec::new(0, 0);
    let mut c = Course { result: zero, peak: zero, deepest: zero };
    let mut i: usize = 0;
    proof {
        lemma_value(0, 0);
        reveal(course_told);
        assert(pnl_total(trades@, 0) == 0);
        assert(pnl_total(trades@, 0) - pnl_total(trades@, 0) == 0);
    }
    while i < trades.len()
        invariant
            i <= trades@.len(),
            course(trades@, i as nat) == Some(c),
            totals_held(trades@) && falls_held(trades@) ==> c.result@ == pnl_total(
                trades@,
                i as nat,
            ) && course_told(
                trades@,
                i as nat,
                c.peak@,
                c.deepest@,
            ),
        decreases trades.len() - i,
    {
        let ghost before = c;
        let result = match c.result.checked_add(&trades[i].pnl) {
            Some(x) => x,
            None => {
                proof {
                    assert(course(trades@, (i + 1) as nat) is None);
                    lemma_course_stays_lost(trades@, (i + 1) as nat, trades@.len());
                }
                return None;
            },
        };
        let peak = if c.peak.lt(&result) {
            result
        } else {
            c.peak
        };
        let fall = match peak.checked_sub(&result) {
            Some(x) => x,
            None => {
                proof {
                    assert(course(trades@, (i + 1) as nat) is None);
                    lemma_course_stays_lost(trades@, (i + 1) as nat, trades@.len());
                }
                return None;
            },
        };
        let deepest = if c.deepest.lt(&fall) {
            fall
        } else {
            c.deepest
        };
        c = Course { result, peak, deepest };
        proof {
            if totals_held(trades@) && falls_held(trades@) {
                lemma_course_step(trades@, i as nat, before, c, result@, fall@);
            }
        }
        i += 1;
    }
    Some(c)
}

/// One more trade takes the result, its peak and its deepest fall on.
#[verifier::rlimit(60)]
proof fn lemma_course_step(
    trades: Seq<TradeResult>,
    i: nat,
    before: Course,
    after: Course,
    result: int,
    fall: int,
)
    requires
        i < trades.len(),
        totals_held(trades),
        falls_held(trades),
        before.result@ == pnl_total(trades, i),
        course_told(trades, i, before.peak@, before.deepest@),
        rounds_to(before.result@ + trades[i as int].pnl@, 1, result),
        rounds_to(after.peak@ - result, 1, fall),
        after.result@ == result,
        after.peak@ == (if result > before.peak@ {
            result
        } else {
            before.peak@
        }),
        after.deepest@ == (if fall > before.deepest@ {
            fall
        } else {
            before.deepest@
        }),
    ensures
        after.result@ == pnl_total(trades, i + 1),
        course_told(trades, i + 1, after.peak@, after.deepest@),
{
    reveal(falls_held);
    reveal(course_told);
    let now = pnl_total(trades, i + 1);
    assert(can_be_held(won_total(trades, i + 1)) && can_be_held(now));
    law_exact_is_kept(now, 1, result, now);
    let k = choose|k: nat| k <= i && #[trigger] pnl_total(trades, k) == before.peak@;
    let top: nat = if result > before.peak@ {
        i + 1
    } else {
        k
    };
    assert(pnl_total(trades, top) == after.peak@);
    assert(can_be_held(pnl_total(trades, top) - pnl_total(trades, i + 1)));
    law_exact_is_kept(after.peak@ - result, 1, fall, after.peak@ - result);
    assert forall|a: nat, b: nat| a <= b <= i + 1 implies #[trigger] pnl_total(trades, a)
        - #[trigger] pnl_total(trades, b) <= after.deepest@ by {
        if b == i + 1 && a <= i {
            assert(pnl_total(trades, a) <= before.peak@);
        } else if a == i + 1 {
            assert(pnl_total(trades, 0) - pnl_total(trades, 0) <= before.deepest@);
        }
    }
    if fall > before.deepest@ {
        assert(pnl_total(trades, top) - pnl_total(trades, i + 1) == after.deepest@);
    } else {
        let (a, b) = choose|a: nat, b: nat|
            a <= b <= i && #[trigger] pnl_total(trades, a) - #[trigger] pnl_total(trades, b)
                == before.deepest@;
        assert(pnl_total(trades, a) - pnl_total(trades, b) == after.deepest@);
    }
}

proof fn lemma_course_stays_lost(trades: Seq<TradeResult>, k: nat, n: nat)
    requires
        k <= n,
        course(trades, k) is None,
    ensures
        course(trades, n) is None,
    decreases n,
{
    if k < n {
        lemma_course_stays_lost(trades, k, (n - 1) as nat);
    }
}

fn find_sharpe(trades: &Vec<TradeResult>, before: Dec) -> (r: Option<Dec>)
    requires
        trades@.len() <= MAX_TRADES,
    ensures
        r == sharpe(trades@, before),
        r matches Some(v) ==> sharpe_told(trades@, before@, v@),
{
    proof {
        lemma_powers();
        lemma_value(0, 0);
        lemma_value(252, 0);
    }
    let n: usize = trades.len();
    if n < 2 {
        return Some(before);
    }
    let mut total = number(0, 0);
    let mut i: usize = 0;
    while i < n
        invariant
            i <= n == trades@.len(),
            total == total_return(trades@, i as nat),
            return_totals_held(trades@) ==> value_of(total) == Some(
                return_total(trades@, i as nat),
            ),
        decreases n - i,
    {
        total = add_opt(total, Some(trades[i].pnl_pct));
        proof {
            if return_totals_held(trades@) {
                let after = return_total(trades@, (i + 1) as nat);
                assert(can_be_held(after));
                lemma_held(after, value_of(total));
            }
        }
        i += 1;
    }
    let mean = div_by(total, n as i64);
    let ghost m: int = if mean is Some {
        mean->0@
    } else {
        0
    };
    let mut squares = number(0, 0);
    let mut j: usize = 0;
    while j < n
        invariant
            j <= n == trades@.len(),
            squares == spread_of(trades@, mean, j as nat),
            mean matches Some(x) ==> x@ == m,
            pow10(28) == one(),
            mean is Some && squares_held(trades@, m) ==> value_of(squares) == Some(
                square_total(trades@, m, j as nat) / one(),
            ),
        decreases n - j,
    {
        let d = sub_opt(Some(trades[j].pnl_pct), mean);
        let square = mul_opt(d, d);
        squares = add_opt(squares, square);
        proof {
            if mean is Some && squares_held(trades@, m) {
                let t = trades@[j as int];
                let before = square_total(trades@, m, j as nat);
                let after = square_total(trades@, m, (j + 1) as nat);
                lemma_held(t.pnl_pct@ - m, value_of(d));
                let exact = square_of(t, m);
                assert(exact == (exact / one()) * one() && before == (before / one()) * one()
                    && after == (after / one()) * one());
                law_rounding_scales(exact / one(), 1, one(), value_of(square));
                lemma_held(exact / one(), value_of(square));
                lemma_held(after / one(), value_of(squares));
            }
        }
        j += 1;
    }
    match div_by(squares, n as i64) {
        None => None,
        Some(variance) => match root_opt(variance) {
            None => None,
            Some(deviation) => if deviation.is_positive() {
                let ratio = div_opt(mean, Some(deviation));
                let year = root_opt(Dec::new(252, 0));
                let r = mul_opt(ratio, year);
                proof {
                    if r is Some {
                        assert(year->0@ == root_units(252 * one()));
                        assert(sharpe_by(
                            trades@,
                            m,
                            variance@,
                            ratio->0@,
                            before@,
                            r->0@,
                        ));
                    }
                }
                r
            } else {
                proof {
                    assert(mean is Some);
                    assert(sharpe_by(trades@, m, variance@, 0, before@, before@));
                }
                Some(before)
            },
        },
    }
}

fn find_average(total: Option<Dec>, count: usize, before: Dec) -> (r: Option<Dec>)
    requires
        count <= MAX_TRADES,
    ensures
        r == average_or(total, count as nat, before),
        r is Some && total is Some ==> is_mean(total->0@, count as int, before@, r->0@),
{
    if count == 0 {
        Some(before)
    } else {
        div_by(total, count as i64)
    }
}

impl StrategyMetrics {
    /// Each trade counts once, and not too many are kept.
    pub open spec fn wf(&self) -> bool {
        self.winning_trades + self.losing_trades == self.total_trades && self.trades@.len()
            <= MAX_TRADES
    }

    pub fn new() -> (r: StrategyMetrics)
        ensures
            r.wf(),
            r.total_signals == 0,
            r.total_trades == 0,
            r.total_pnl == dec_of(0, 0),
            r.win_rate == (Rate { part: 0, whole: 0 }),
            r.avg_win == dec_of(0, 0),
            r.avg_loss == dec_of(0, 0),
            r.profit_factor == dec_of(0, 0),
            r.max_drawdown == dec_of(0, 0),
            r.max_drawdown_pct == dec_of(0, 0),
            r.sharpe_ratio == dec_of(0, 0),
            r.trades@.len() == 0,
    {
        let zero = Dec::new(0, 0);
        StrategyMetrics {
            total_signals: 0,
            total_trades: 0,
            winning_trades: 0,
            losing_trades: 0,
            total_pnl: zero,
            win_rate: Rate { part: 0, whole: 0 },
            avg_win: zero,
            avg_loss: zero,
            profit_factor: zero,
            max_drawdown: zero,
            max_drawdown_pct: zero,
            sharpe_ratio: zero,
            trades: Vec::new(),
        }
    }

    /// Takes note of a signal.
    pub fn record_signal(&mut self)
        requires
            old(self).total_signals < u64::MAX,
        ensures
            *final(self) == (StrategyMetrics {
                total_signals: (old(self).total_signals + 1) as u64,
                ..*old(self)
            }),
    {
        self.total_signals = self.total_signals + 1;
    }

    fn find_figures(&self) -> (r: Option<Figures>)
        requires
            self.trades@.len() <= MAX_TRADES,
        ensures
            r == figures_of(*self, self.trades@),
            r matches Some(f) ==> figures_told(*self, self.trades@, f),
    {
        proof {
            lemma_powers();
            lemma_value(0, 0);
        }
        let n: usize = self.trades.len();
        let mut count: usize = 0;
        let mut total_won = number(0, 0);
        let mut total_lost = number(0, 0);
        let mut i: usize = 0;
        while i < n
            invariant
                i <= n == self.trades@.len(),
                count == wins(self.trades@, i as nat),
                count <= i,
                total_won == won(self.trades@, i as nat),
                total_lost == lost(self.trades@, i as nat),
                totals_held(self.trades@) ==> value_of(total_won) == Some(
                    won_total(self.trades@, i as nat),
                ) && value_of(total_lost) == Some(
                    won_total(self.trades@, i as nat) - pnl_total(self.trades@, i as nat),
                ),
            decreases n - i,
        {
            let pnl = self.trades[i].pnl;
            if pnl.is_positive() {
                count += 1;
                total_won = add_opt(total_won, Some(pnl));
            } else {
                let size = abs_dec(pnl);
                total_lost = add_opt(total_lost, Some(size));
            }
            proof {
                if totals_held(self.trades@) {
                    let t = self.trades@;
                    let k = (i + 1) as nat;
                    assert(can_be_held(won_total(t, k)) && can_be_held(
                        won_total(t, k) - pnl_total(t, k),
                    ));
                    if pnl@ > 0 {
                        lemma_held(won_total(t, k), value_of(total_won));
                    } else {
                        lemma_held(won_total(t, k) - pnl_total(t, k), value_of(total_lost));
                    }
                }
            }
            i += 1;
        }
        let (avg_win, avg_loss, c, sharpe_ratio) = match (
            find_average(total_won, count, self.avg_win),
            find_average(total_lost, n - count, self.avg_loss),
            find_course(&self.trades),
            find_sharpe(&self.trades, self.sharpe_ratio),
        ) {
            (Some(w), Some(l), Some(c), Some(s)) => (w, l, c, s),
            _ => return None,
        };
        let factor = if avg_loss.is_zero() {
            Some(self.profit_factor)
        } else {
            div_opt(Some(avg_win), Some(avg_loss))
        };
        let pct = if c.peak.is_zero() {
            Some(self.max_drawdown_pct)
        } else {
            let q = div_opt(Some(c.deepest), Some(c.peak));
            let pct = mul_by(q, 100);
            proof {
                if pct is Some && c.peak@ > 0 {
                    assert(rounds_to(c.deepest@ * one(), c.peak@, q->0@));
                    assert(drawdown_by(c.deepest@, c.peak@, pct->0@));
                }
            }
            pct
        };
        match (factor, pct) {
            (Some(profit_factor), Some(max_drawdown_pct)) => {
                let f = Figures {
                    avg_win,
                    avg_loss,
                    profit_factor,
                    max_drawdown: c.deepest,
                    max_drawdown_pct,
                    sharpe_ratio,
                };
                proof {
                    let t = self.trades@;
                    if totals_held(t) {
                        assert(is_mean(
                            won_total(t, n as nat),
                            count as int,
                            self.avg_win@,
                            f.avg_win@,
                        ));
                        assert(is_mean(
                            won_total(t, n as nat) - pnl_total(t, n as nat),
                            n - count,
                            self.avg_loss@,
                            f.avg_loss@,
                        ));
                        if falls_held(t) {
                            assert(course_told(t, n as nat, c.peak@, f.max_drawdown@));
                        }
                    }
                    assert(f.avg_loss@ > 0 ==> rounds_to(
                        f.avg_win@ * one(),
                        f.avg_loss@,
                        f.profit_factor@,
                    ));
                    assert(sharpe_told(t, self.sharpe_ratio@, f.sharpe_ratio@));
                    assert(figures_told(*self, t, f));
                }
                Some(f)
            },
            _ => None,
        }
    }

    /// Counts a trade and makes the figures anew. `false` where a number cannot be
    /// held: the trade counts, and the figures stay what they were.
    pub fn record_trade(&mut self, trade: TradeResult) -> (r: bool)
        requires
            old(self).wf(),
            old(self).total_trades < u64::MAX,
        ensures
            final(self).wf(),
            trade_recorded(*old(self), *final(self), trade, r),
    {
        self.total_trades = self.total_trades + 1;
        if trade.pnl.is_positive() {
            self.winning_trades = self.winning_trades + 1;
        } else {
            self.losing_trades = self.losing_trades + 1;
        }
        let total = self.total_pnl.checked_add(&trade.pnl);
        self.trades.push(trade);
        if self.trades.len() > MAX_TRADES {
            self.trades.remove(0);
            assert(self.trades@ =~= old(self).trades@.push(trade).skip(1));
        }
        self.win_rate = Rate { part: self.winning_trades, whole: self.total_trades };
        match (total, self.find_figures()) {
            (Some(t), Some(f)) => {
                self.total_pnl = t;
                self.avg_win = f.avg_win;
                self.avg_loss = f.avg_loss;
                self.profit_factor = f.profit_factor;
                self.max_drawdown = f.max_drawdown;
                self.max_drawdown_pct = f.max_drawdown_pct;
                self.sharpe_ratio = f.sharpe_ratio;
                true
            },
            _ => false,
        }
    }

    /// The figures in one line.
    pub fn summary(&self) -> (r: String)
        ensures
            r@ == "Metrics: signals="@ + nat_text(self.total_signals as nat) + ", trades="@
                + nat_text(self.total_trades as nat) + ", win_rate="@
                + self.win_rate.shown_finely() + "%, pnl=$"@ + money(self.total_pnl) + ", sharpe="@
                + money(self.sharpe_ratio) + ", max_dd="@ + money(self.max_drawdown_pct) + "%"@,
    {
        let signals = u64_text(self.total_signals);
        let trades = u64_text(self.total_trades);
        let rate = self.win_rate.fine_text();
        let pnl = money_text(self.total_pnl);
        let sharpe = money_text(self.sharpe_ratio);
        let drawdown = money_text(self.max_drawdown_pct);
        let a = glue5(
            "Metrics: signals=",
            signals.as_str(),
            ", trades=",
            trades.as_str(),
            ", win_rate=",
        );
        let b = glue5(a.as_str(), rate.as_str(), "%, pnl=$", pnl.as_str(), ", sharpe=");
        let c = glue5(b.as_str(), sharpe.as_str(), ", max_dd=", drawdown.as_str(), "%");
        c
    }
}

/// What is counted of the first trades does not depend on those behind them.
proof fn lemma_first_trades(all: Seq<TradeResult>, trade: TradeResult, n: nat)
    requires
        n <= all.len(),
    ensures
        wins(all.push(trade), n) == wins(all, n),
        total_result(all.push(trade), n) == total_result(all, n),
    decreases n,
{
    if n > 0 {
        lemma_first_trades(all, trade, (n - 1) as nat);
    }
}

/// New figures are those of no trades.
pub proof fn law_new_figures(m: StrategyMetrics)
    requires
        m.wf(),
        m.total_trades == 0,
        m.total_pnl == dec_of(0, 0),
        m.max_drawdown == dec_of(0, 0),
        m.trades@.len() == 0,
    ensures
        counts(m, Seq::empty()),
        adds_up(m, Seq::empty()),
{
    assert(m.trades@ =~= Seq::<TradeResult>::empty());
}

/// A signal changes nothing of what the trades were.
pub proof fn law_signals_are_no_trades(before: StrategyMetrics, after: StrategyMetrics, all: Seq<
    TradeResult,
>)
    requires
        after == (StrategyMetrics { total_signals: after.total_signals, ..before }),
    ensures
        counts(before, all) ==> counts(after, all),
        adds_up(before, all) ==> adds_up(after, all),
{
}

/// Each trade that is recorded is one of all the trades that there were: it is counted, won
/// or lost, and kept among the last; where every number can be held, the result is the sum
/// of all and the drawdown that of those kept.
pub proof fn law_trades_are_recorded(
    before: StrategyMetrics,
    after: StrategyMetrics,
    trade: TradeResult,
    r: bool,
    all: Seq<TradeResult>,
)
    requires
        counts(before, all),
        trade_recorded(before, after, trade, r),
    ensures
        counts(after, all.push(trade)),
        r && adds_up(before, all) ==> adds_up(after, all.push(trade)),
{
    lemma_first_trades(all, trade, all.len());
    let more = all.push(trade);
    assert(with_trade(last_trades(all), trade) =~= last_trades(more));
}

/// No fall below a peak is deeper than the deepest.
pub proof fn law_deepest_fall(trades: Seq<TradeResult>, k: nat, n: nat, at: Course, end: Course)
    requires
        0 < k <= n,
        course(trades, k) == Some(at),
        course(trades, n) == Some(end),
    ensures
        difference(at.peak, at.result) matches Some(fall) && fall@ <= at.deepest@ <= end.deepest@,
        at.peak@ <= end.peak@,
    decreases n,
{
    if k < n {
        law_deepest_fall(trades, k, (n - 1) as nat, at, course(trades, (n - 1) as nat)->0);
    }
}

/// A drawdown is never negative and the peak never below zero, nor below the result.
pub proof fn law_course(trades: Seq<TradeResult>, n: nat, c: Course)
    requires
        course(trades, n) == Some(c),
    ensures
        c.deepest@ >= dec_of(0, 0)@,
        c.peak@ >= dec_of(0, 0)@,
        c.peak@ >= c.result@,
    decreases n,
{
    if n > 0 {
        let before = course(trades, (n - 1) as nat)->0;
        law_course(trades, (n - 1) as nat, before);
    }
}

} // verus!
