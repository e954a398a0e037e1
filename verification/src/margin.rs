//! Splitting margin over trades, and keeping account of profits.
//!
//! Amounts are integers that count hundred-millionths of a dollar.
use vstd::prelude::*;

use crate::text::{ascii_lowered, same_ignoring_ascii_case};

verus! {

/// Whether an asset is one of the dollar coins that the bot trades in.
pub fn is_usd_stable(asset: &str) -> (r: bool)
    ensures
        r == (ascii_lowered(asset@) == ascii_lowered("USDC"@) || ascii_lowered(asset@)
            == ascii_lowered("USDT"@)),
{
    same_ignoring_ascii_case(asset, "USDC") || same_ignoring_ascii_case(asset, "USDT")
}

/// The parts that margin is split into: as many of the largest size as leave at
/// least that much again; of what is then left, two halves where it holds the
/// largest and the smallest size, or is the largest size and its half is not too
/// small. A part below the smallest size is not used.
pub open spec fn margin_chunks(total: int, min: int, max: int) -> Seq<int>
    decreases total,
{
    if total < min || min <= 0 || max < min {
        Seq::empty()
    } else if total >= 2 * max {
        seq![max] + margin_chunks(total - max, min, max)
    } else if total >= max {
        if total - max >= min || (total == max && max / 2 >= min) {
            seq![total / 2, total - total / 2]
        } else {
            seq![max]
        }
    } else {
        seq![total]
    }
}

/// A list of amounts.
pub open spec fn amounts(v: Seq<i64>) -> Seq<int> {
    v.map_values(|a: i64| a as int)
}

/// The sum of amounts.
pub open spec fn sum_of(s: Seq<int>) -> int
    decreases s.len(),
{
    if s.len() == 0 {
        0
    } else {
        s[0] + sum_of(s.skip(1))
    }
}

pub fn split_margin_into_chunks(total: i64, min: i64, max: i64) -> (r: Vec<i64>)
    requires
        0 < min <= max,
    ensures
        amounts(r@) == margin_chunks(total as int, min as int, max as int),
{
    let mut v: Vec<i64> = Vec::new();
    let mut rest: i64 = total;
    let ghost all = margin_chunks(total as int, min as int, max as int);
    assert(amounts(v@) + all =~= all);
    while rest >= min && rest - max >= max
        invariant
            0 < min <= max,
            rest <= total,
            amounts(v@) + margin_chunks(rest as int, min as int, max as int) == all,
        decreases rest,
    {
        let ghost before = v@;
        v.push(max);
        rest = rest - max;
        proof {
            let tail = margin_chunks(rest as int, min as int, max as int);
            assert(amounts(v@) =~= amounts(before).push(max as int));
            assert(amounts(v@) + tail =~= amounts(before) + (seq![max as int] + tail));
        }
    }
    let ghost before = v@;
    if rest >= min {
        if rest >= max {
            if rest - max >= min || (rest == max && max / 2 >= min) {
                let half: i64 = rest / 2;
                v.push(half);
                v.push(rest - half);
            } else {
                v.push(max);
            }
        } else {
            v.push(rest);
        }
    }
    assert(amounts(v@) =~= amounts(before) + margin_chunks(rest as int, min as int, max as int));
    v
}

/// No part is below the smallest size or above the largest; the parts together
/// are not more than the margin, and less than the smallest size is left over.
pub proof fn law_chunks_keep_limits(total: int, min: int, max: int)
    requires
        0 < min <= max,
    ensures
        forall|i: int|
            0 <= i < margin_chunks(total, min, max).len() ==> min <= #[trigger] margin_chunks(
                total,
                min,
                max,
            )[i] <= max,
        total >= 0 ==> total - min < sum_of(margin_chunks(total, min, max)) <= total,
        total < min <==> margin_chunks(total, min, max).len() == 0,
    decreases total,
{
    let c = margin_chunks(total, min, max);
    if total >= 2 * max {
        let tail = margin_chunks(total - max, min, max);
        law_chunks_keep_limits(total - max, min, max);
        assert(c.skip(1) =~= tail);
        assert forall|i: int| 0 <= i < c.len() implies min <= #[trigger] c[i] <= max by {
            if i > 0 {
                assert(c[i] == tail[i - 1]);
            }
        }
    } else if total >= min {
        reveal_with_fuel(sum_of, 3);
        if c.len() == 2 {
            assert(c.skip(1).skip(1) =~= Seq::<int>::empty());
        } else {
            assert(c.skip(1) =~= Seq::<int>::empty());
        }
    }
}

/// Margin below the largest size is one part, of all of it. From there on up to twice that size it
/// is two even parts, of all of it, where what is above the largest size is not too small for a
/// part; otherwise it is one part of the largest size, or two even parts of that size. And a
/// part of the largest size is taken off while there is twice as much.
pub proof fn law_shape_of_chunks(total: int, min: int, max: int)
    requires
        0 < min <= max,
        total >= min,
    ensures
        ({
            let c = margin_chunks(total, min, max);
            let rest = margin_chunks(total - max, min, max);
            &&& total < max ==> c == seq![total]
            &&& max <= total < 2 * max && total - max >= min ==> c.len() == 2 && c[0] + c[1]
                == total && 0 <= c[1] - c[0] <= 1
            &&& max < total && total - max < min ==> c == seq![max]
            &&& total == max && max < 2 * min ==> c == seq![max]
            &&& total == max && max >= 2 * min ==> c.len() == 2 && c[0] + c[1] == max && 0 <= c[1]
                - c[0] <= 1
            &&& total >= 2 * max ==> c.len() == rest.len() + 1 && c[0] == max && c.skip(1) == rest
        }),
{
    if total >= 2 * max {
        let c = margin_chunks(total, min, max);
        assert(c.skip(1) =~= margin_chunks(total - max, min, max));
    }
}

/// An account of trades.
#[derive(Clone, Copy, Debug, PartialEq, Eq, Structural)]
pub struct ProfitTracker {
    pub total_trades: u64,
    pub winning_trades: u64,
    pub total_profit: i128,
    pub total_fees: i128,
    pub total_loss: i128,
}

/// An account without trades.
pub open spec fn no_trades() -> ProfitTracker {
    ProfitTracker {
        total_trades: 0,
        winning_trades: 0,
        total_profit: 0,
        total_fees: 0,
        total_loss: 0,
    }
}

impl ProfitTracker {
    /// Not more trades were won than made.
    pub open spec fn wf(&self) -> bool {
        self.winning_trades <= self.total_trades
    }

    pub fn new() -> (r: ProfitTracker)
        ensures
            r == no_trades(),
            r.wf(),
    {
        ProfitTracker {
            total_trades: 0,
            winning_trades: 0,
            total_profit: 0,
            total_fees: 0,
            total_loss: 0,
        }
    }

    /// The account after one more trade.
    pub open spec fn with_trade(&self, pnl: i64, fee: i64) -> ProfitTracker {
        ProfitTracker {
            total_trades: (self.total_trades + 1) as u64,
            winning_trades: if pnl > 0 {
                (self.winning_trades + 1) as u64
            } else {
                self.winning_trades
            },
            total_profit: if pnl > 0 {
                (self.total_profit + pnl) as i128
            } else {
                self.total_profit
            },
            total_fees: (self.total_fees + fee) as i128,
            total_loss: if pnl > 0 {
                self.total_loss
            } else {
                (self.total_loss - pnl) as i128
            },
        }
    }

    pub fn record_trade(&mut self, pnl: i64, fee: i64)
        requires
            old(self).wf(),
            old(self).total_trades < u64::MAX,
            i128::MIN <= old(self).total_fees + fee <= i128::MAX,
            pnl > 0 ==> old(self).total_profit + pnl <= i128::MAX,
            pnl <= 0 ==> old(self).total_loss - pnl <= i128::MAX,
        ensures
            final(self).wf(),
            *final(self) == old(self).with_trade(pnl, fee),
    {
        self.total_trades = self.total_trades + 1;
        self.total_fees = self.total_fees + fee as i128;
        if pnl > 0 {
            self.winning_trades = self.winning_trades + 1;
            self.total_profit = self.total_profit + pnl as i128;
        } else {
            self.total_loss = self.total_loss - pnl as i128;
        }
    }

    /// The share of trades that were won, in millionths of a percent; zero without trades.
    pub fn win_rate(&self) -> (r: u64)
        requires
            self.wf(),
        ensures
            self.total_trades == 0 ==> r == 0,
            self.total_trades > 0 ==> r == (self.winning_trades * 100_000_000) / (
            self.total_trades as int),
            r <= 100_000_000,
            self.total_trades > 0 ==> r * self.total_trades <= 100_000_000 * self.winning_trades
                < (r + 1) * self.total_trades,
    {
        if self.total_trades == 0 {
            return 0;
        }
        let part: u128 = self.winning_trades as u128 * 100_000_000;
        let rate: u128 = part / self.total_trades as u128;
        proof {
            let w = self.winning_trades as int;
            let t = self.total_trades as int;
            assert((w * 100_000_000) / t <= 100_000_000) by (nonlinear_arith)
                requires
                    0 <= w <= t,
                    t > 0,
            ;
            vstd::arithmetic::div_mod::lemma_fundamental_div_mod(w * 100_000_000, t);
            vstd::arithmetic::div_mod::lemma_mod_bound(w * 100_000_000, t);
            let q = (w * 100_000_000) / t;
            assert(t * q == q * t && (q + 1) * t == q * t + t) by (nonlinear_arith);
        }
        rate as u64
    }

    pub fn net_profit(&self) -> (r: i128)
        requires
            i128::MIN <= self.total_profit - self.total_fees <= i128::MAX,
            i128::MIN <= self.total_profit - self.total_fees - self.total_loss <= i128::MAX,
        ensures
            r == self.total_profit - self.total_fees - self.total_loss,
    {
        self.total_profit - self.total_fees - self.total_loss
    }

    pub fn reset(&mut self)
        ensures
            *final(self) == no_trades(),
            final(self).wf(),
    {
        *self = ProfitTracker::new();
    }
}

/// A trade changes the net profit by what it made less its fee.
pub proof fn law_net_profit_of_a_trade(t: ProfitTracker, pnl: i64, fee: i64)
    requires
        t.wf(),
        t.total_trades < u64::MAX,
        i128::MIN <= t.total_fees + fee <= i128::MAX,
        pnl > 0 ==> t.total_profit + pnl <= i128::MAX,
        pnl <= 0 ==> t.total_loss - pnl <= i128::MAX,
    ensures
        ({
            let u = t.with_trade(pnl, fee);
            u.total_profit - u.total_fees - u.total_loss == t.total_profit - t.total_fees
                - t.total_loss + pnl - fee
        }),
{
}

/// Each trade is counted once. One that made something is won and adds to the profits; any other
/// adds what it lost to the losses; its fee is added to the fees either way. Starting over
/// leaves nothing.
pub proof fn law_account_of_a_trade(t: ProfitTracker, pnl: i64, fee: i64)
    requires
        t.wf(),
        t.total_trades < u64::MAX,
        i128::MIN <= t.total_fees + fee <= i128::MAX,
        pnl > 0 ==> t.total_profit + pnl <= i128::MAX,
        pnl <= 0 ==> t.total_loss - pnl <= i128::MAX,
    ensures
        ({
            let u = t.with_trade(pnl, fee);
            let n = no_trades();
            &&& u.total_trades - t.total_trades == 1
            &&& u.total_fees - t.total_fees == fee
            &&& pnl > 0 ==> u.winning_trades - t.winning_trades == 1 && u.total_profit
                - t.total_profit == pnl && u.total_loss == t.total_loss
            &&& pnl <= 0 ==> u.winning_trades == t.winning_trades && u.total_profit
                == t.total_profit && t.total_loss - u.total_loss == pnl
            &&& n.total_trades == 0 && n.winning_trades == 0 && n.total_profit == 0 && n.total_fees
                == 0 && n.total_loss == 0
        }),
{
}

} // verus!
