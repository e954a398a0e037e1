//! Liquidations of late, as shares of the open interest.
use vstd::prelude::*;

use vstd::arithmetic::power::lemma_pow0;

use crate::arith::{add_opt, lit, mul_opt, number, plus, times};
use crate::decimal::{
    dec_of, difference, lemma_dec_of, lemma_powers, lemma_value, one, pow10, quotient, sum,
    value_of, Dec,
};
use crate::numbers::{plain_number, read_plain};
use crate::rounding::{
    can_be_held, is_close, law_rounding_above, law_rounding_below, law_rounding_is_close,
    law_rounding_is_unique, law_rounding_scales, lemma_held, lemma_zero_and_one, rounded,
    rounds_to,
};
use crate::text::{ascii_lowered, same_ignoring_ascii_case, same_text};

verus! {

/// A liquidation: when it was, its share, and whether it was of a long position.
#[derive(Clone, Copy, Debug)]
pub struct LiqEntry {
    pub ts_ms: u64,
    pub ratio: Dec,
    pub is_long_cluster: bool,
}

/// The liquidations within a window of time.
#[derive(Debug)]
pub struct LiqState {
    /// The oldest first.
    pub entries: Vec<LiqEntry>,
    pub long_sum: Dec,
    pub short_sum: Dec,
    pub open_interest: Dec,
    pub window_secs: u64,
}

/// A liquidation is older than the window, or from a time to come.
pub open spec fn is_old(e: LiqEntry, now_ms: u64, window_secs: u64) -> bool {
    now_ms < e.ts_ms || now_ms - e.ts_ms > window_secs * 1000
}

/// How many of the first liquidations are old.
pub open spec fn old_entries(entries: Seq<LiqEntry>, now_ms: u64, window_secs: u64) -> nat
    decreases entries.len(),
{
    if entries.len() > 0 && is_old(entries[0], now_ms, window_secs) {
        1 + old_entries(entries.skip(1), now_ms, window_secs)
    } else {
        0
    }
}

/// A sum without a share of it: nothing where the share is larger.
pub open spec fn taken_off(total: Dec, ratio: Dec) -> Dec {
    match difference(total, ratio) {
        Some(d) => if d@ < 0 {
            dec_of(0, 0)
        } else {
            d
        },
        None => dec_of(0, 0),
    }
}

fn take_off(total: Dec, ratio: Dec) -> (r: Dec)
    ensures
        r == taken_off(total, ratio),
        r@ >= 0,
        total@ >= ratio@ && can_be_held(total@ - ratio@) ==> r@ == total@ - ratio@,
{
    let rest = total.checked_sub(&ratio);
    proof {
        lemma_held(total@ - ratio@, value_of(rest));
        lemma_dec_of(0, 0);
    }
    match rest {
        Some(d) => if d.is_sign_negative() {
            Dec::new(0, 0)
        } else {
            d
        },
        None => Dec::new(0, 0),
    }
}

/// A sum without the first `n` liquidations of its kind.
pub open spec fn sum_without(total: Dec, entries: Seq<LiqEntry>, long: bool, n: nat) -> Dec
    decreases n,
{
    if n == 0 {
        total
    } else {
        let before = sum_without(total, entries, long, (n - 1) as nat);
        if entries[n - 1].is_long_cluster == long {
            taken_off(before, entries[n - 1].ratio)
        } else {
            before
        }
    }
}

/// The liquidations that are not old.
pub open spec fn kept_entries(s: LiqState, now_ms: u64) -> Seq<LiqEntry> {
    s.entries@.skip(old_entries(s.entries@, now_ms, s.window_secs) as int)
}

/// The sum of the liquidations of a kind that are not old.
pub open spec fn kept_sum(s: LiqState, long: bool, now_ms: u64) -> Dec {
    sum_without(
        if long {
            s.long_sum
        } else {
            s.short_sum
        },
        s.entries@,
        long,
        old_entries(s.entries@, now_ms, s.window_secs),
    )
}

/// The total of the shares of a kind.
pub open spec fn share_total(entries: Seq<LiqEntry>, long: bool) -> int
    decreases entries.len(),
{
    if entries.len() == 0 {
        0
    } else {
        share_total(entries.drop_last(), long) + if entries.last().is_long_cluster == long {
            entries.last().ratio@
        } else {
            0
        }
    }
}

/// No share is negative, and the total of the last of them, however many, can be held.
pub open spec fn totals_can_be_held(entries: Seq<LiqEntry>, long: bool) -> bool {
    &&& forall|i: int| 0 <= i < entries.len() ==> #[trigger] entries[i].ratio@ >= 0
    &&& forall|k: int|
        0 <= k <= entries.len() ==> can_be_held(share_total(#[trigger] entries.skip(k), long))
}

/// The sums are those of the liquidations that are kept.
pub open spec fn adds_up(s: LiqState) -> bool {
    s.long_sum@ == share_total(s.entries@, true) && s.short_sum@ == share_total(s.entries@, false)
}

/// No sum is negative.
pub open spec fn sums_not_negative(s: LiqState) -> bool {
    s.long_sum@ >= 0 && s.short_sum@ >= 0
}

/// A total is that of the first share and of the rest.
proof fn lemma_first_share(entries: Seq<LiqEntry>, long: bool)
    requires
        entries.len() > 0,
    ensures
        share_total(entries, long) == share_total(entries.skip(1), long)
            + if entries[0].is_long_cluster == long {
            entries[0].ratio@
        } else {
            0
        },
    decreases entries.len(),
{
    if entries.len() == 1 {
        assert(entries.drop_last() =~= Seq::<LiqEntry>::empty());
        assert(entries.skip(1) =~= Seq::<LiqEntry>::empty());
        assert(share_total(Seq::<LiqEntry>::empty(), long) == 0);
    } else {
        lemma_first_share(entries.drop_last(), long);
        assert(entries.drop_last().skip(1) =~= entries.skip(1).drop_last());
        assert(entries.skip(1).last() == entries.last());
        assert(entries.drop_last()[0] == entries[0]);
    }
}

/// A total of shares that are not negative is not negative.
proof fn lemma_total_not_negative(entries: Seq<LiqEntry>, long: bool)
    requires
        forall|i: int| 0 <= i < entries.len() ==> #[trigger] entries[i].ratio@ >= 0,
    ensures
        share_total(entries, long) >= 0,
    decreases entries.len(),
{
    if entries.len() > 0 {
        assert forall|i: int| 0 <= i < entries.drop_last().len() implies #[trigger] entries.drop_last()[i].ratio@
            >= 0 by {
            assert(entries[i].ratio@ >= 0);
        }
        lemma_total_not_negative(entries.drop_last(), long);
        assert(entries[entries.len() - 1].ratio@ >= 0);
    }
}

/// Without its first share a total can be held where all of them can.
proof fn lemma_step_off(entries: Seq<LiqEntry>, long: bool, n: int)
    requires
        totals_can_be_held(entries, long),
        0 <= n < entries.len(),
    ensures
        share_total(entries.skip(n), long) == share_total(entries.skip(n + 1), long)
            + if entries[n].is_long_cluster == long {
            entries[n].ratio@
        } else {
            0
        },
        share_total(entries.skip(n + 1), long) >= 0,
        can_be_held(share_total(entries.skip(n + 1), long)),
{
    let tail = entries.skip(n);
    lemma_first_share(tail, long);
    assert(tail.skip(1) =~= entries.skip(n + 1));
    assert(tail[0] == entries[n]);
    assert forall|i: int| 0 <= i < entries.skip(n + 1).len() implies #[trigger] entries.skip(n + 1)[i].ratio@
        >= 0 by {
        assert(entries[n + 1 + i].ratio@ >= 0);
    }
    lemma_total_not_negative(entries.skip(n + 1), long);
}

/// `after` is `before` without its old liquidations.
pub open spec fn pruned(before: LiqState, after: LiqState, now_ms: u64) -> bool {
    &&& after.entries@ == kept_entries(before, now_ms)
    &&& after.long_sum == kept_sum(before, true, now_ms)
    &&& after.short_sum == kept_sum(before, false, now_ms)
    &&& after.open_interest == before.open_interest
    &&& after.window_secs == before.window_secs
}

/// There is open interest to speak of.
pub open spec fn has_interest(s: LiqState) -> bool {
    s.open_interest@ > dec_of(2_220_446_049_250, 28)@
}

/// The share of the open interest that a liquidation has, where it counts.
pub open spec fn share_of(s: LiqState, notional: Dec) -> Option<Dec> {
    if has_interest(s) && notional@ > 0 {
        quotient(notional, s.open_interest)
    } else {
        None
    }
}

/// An order to sell liquidates a long position.
pub open spec fn liquidates_long(side: Seq<char>) -> bool {
    ascii_lowered(side) == ascii_lowered("SELL"@)
}

impl LiqState {
    pub fn new(window_secs: u64) -> (r: LiqState)
        ensures
            r.entries@.len() == 0,
            r.long_sum == dec_of(0, 0),
            r.short_sum == dec_of(0, 0),
            r.open_interest == dec_of(0, 0),
            r.window_secs == window_secs,
            adds_up(r),
            sums_not_negative(r),
    {
        proof {
            lemma_dec_of(0, 0);
        }
        let zero = Dec::new(0, 0);
        LiqState {
            entries: Vec::new(),
            long_sum: zero,
            short_sum: zero,
            open_interest: zero,
            window_secs,
        }
    }

    /// Forgets the liquidations that are old.
    pub fn prune(&mut self, now_ms: u64)
        ensures
            pruned(*old(self), *final(self), now_ms),
            adds_up(*old(self)) && totals_can_be_held(old(self).entries@, true)
                && totals_can_be_held(old(self).entries@, false) ==> adds_up(*final(self)),
            sums_not_negative(*old(self)) ==> sums_not_negative(*final(self)),
    {
        let ghost exact = adds_up(*self) && totals_can_be_held(self.entries@, true)
            && totals_can_be_held(self.entries@, false);
        let ghost entries = self.entries@;
        let ghost window = self.window_secs;
        let window_ms: u128 = self.window_secs as u128 * 1000;
        let mut n: usize = 0;
        let mut long_sum = self.long_sum;
        let mut short_sum = self.short_sum;
        let mut go = true;
        assert(entries.skip(0) =~= entries);
        while go && n < self.entries.len()
            invariant
                self.entries@ == entries,
                self.window_secs == window,
                window_ms == window * 1000,
                n <= entries.len(),
                old_entries(entries, now_ms, window) == if go {
                    n + old_entries(entries.skip(n as int), now_ms, window)
                } else {
                    n as int
                },
                long_sum == sum_without(old(self).long_sum, entries, true, n as nat),
                short_sum == sum_without(old(self).short_sum, entries, false, n as nat),
                exact ==> totals_can_be_held(entries, true) && totals_can_be_held(entries, false),
                exact ==> long_sum@ == share_total(entries.skip(n as int), true),
                exact ==> short_sum@ == share_total(entries.skip(n as int), false),
                *self == *old(self),
                sums_not_negative(*old(self)) ==> long_sum@ >= 0 && short_sum@ >= 0,
            decreases
                    if go {
                        entries.len() - n + 1
                    } else {
                        0
                    },
        {
            let e = self.entries[n];
            assert(entries.skip(n as int)[0] == e);
            let is_old_entry = now_ms < e.ts_ms || (now_ms - e.ts_ms) as u128 > window_ms;
            proof {
                if exact {
                    lemma_step_off(entries, true, n as int);
                    lemma_step_off(entries, false, n as int);
                }
            }
            if is_old_entry {
                if e.is_long_cluster {
                    long_sum = take_off(long_sum, e.ratio);
                } else {
                    short_sum = take_off(short_sum, e.ratio);
                }
                assert(entries.skip(n as int).skip(1) =~= entries.skip(n as int + 1));
                n += 1;
            } else {
                go = false;
            }
        }
        proof {
            if go {
                assert(entries.skip(n as int).len() == 0);
            }
        }
        let kept = self.entries.split_off(n);
        assert(kept@ =~= entries.skip(n as int));
        self.entries = kept;
        self.long_sum = long_sum;
        self.short_sum = short_sum;
    }

    /// Takes note of a liquidation. `false` where it does not count: there is no open
    /// interest, nothing was liquidated, or a number cannot be held.
    pub fn record(&mut self, side: &str, notional: Dec, now_ms: u64) -> (r: bool)
        ensures
            match share_of(*old(self), notional) {
                None => !r && *final(self) == *old(self),
                Some(ratio) => {
                    let long = liquidates_long(side@);
                    match sum(kept_sum(*old(self), long, now_ms), ratio) {
                        None => !r && pruned(*old(self), *final(self), now_ms),
                        Some(total) => {
                            &&& r
                            &&& final(self).entries@ == kept_entries(*old(self), now_ms).push(
                                LiqEntry { ts_ms: now_ms, ratio, is_long_cluster: long },
                            )
                            &&& final(self).long_sum == if long {
                                total
                            } else {
                                kept_sum(*old(self), true, now_ms)
                            }
                            &&& final(self).short_sum == if long {
                                kept_sum(*old(self), false, now_ms)
                            } else {
                                total
                            }
                            &&& final(self).open_interest == old(self).open_interest
                            &&& final(self).window_secs == old(self).window_secs
                        },
                    }
                },
            },
            adds_up(*old(self)) && totals_can_be_held(old(self).entries@, true)
                && totals_can_be_held(old(self).entries@, false) && can_be_held(
                share_total(final(self).entries@, liquidates_long(side@)),
            ) ==> adds_up(*final(self)),
            sums_not_negative(*old(self)) ==> sums_not_negative(*final(self)),
            r ==> rounds_to(
                notional@ * one(),
                old(self).open_interest@,
                final(self).entries@.last().ratio@,
            ),
    {
        proof {
            lemma_powers();
            lemma_value(2_220_446_049_250, 28);
        }
        if self.open_interest.le(&Dec::new(2_220_446_049_250, 28)) || !notional.is_positive() {
            return false;
        }
        let ratio = match notional.checked_div(&self.open_interest) {
            Some(x) => x,
            None => return false,
        };
        self.prune(now_ms);
        let is_long_cluster = same_ignoring_ascii_case(side, "SELL");
        let total = if is_long_cluster {
            self.long_sum.checked_add(&ratio)
        } else {
            self.short_sum.checked_add(&ratio)
        };
        let ghost kept = self.entries@;
        match total {
            None => false,
            Some(t) => {
                proof {
                    if sums_not_negative(*old(self)) {
                        lemma_zero_and_one();
                        lemma_dec_of(2_220_446_049_250, 28);
                        lemma_pow0(10);
                        assert(notional@ * pow10(28) >= 0) by (nonlinear_arith)
                            requires
                                notional@ > 0,
                                pow10(28) > 0,
                        ;
                        law_rounding_above(
                            notional@ * pow10(28),
                            self.open_interest@,
                            ratio@,
                            0,
                        );
                        let before = if is_long_cluster {
                            self.long_sum@
                        } else {
                            self.short_sum@
                        };
                        law_rounding_above(before + ratio@, 1, t@, 0);
                    }
                }
                self.entries.push(LiqEntry { ts_ms: now_ms, ratio, is_long_cluster });
                proof {
                    let all = self.entries@;
                    assert(all.drop_last() =~= kept);
                    let v = share_total(all, is_long_cluster);
                    if adds_up(*old(self)) && totals_can_be_held(old(self).entries@, true)
                        && totals_can_be_held(old(self).entries@, false) && can_be_held(v) {
                        law_rounding_is_unique(v, 1, t@, v, 1, v);
                    }
                }
                if is_long_cluster {
                    self.long_sum = t;
                } else {
                    self.short_sum = t;
                }
                true
            },
        }
    }

    /// Takes note of the open interest, where there is some.
    pub fn set_open_interest(&mut self, value: Dec)
        ensures
            *final(self) == (LiqState {
                open_interest: if value@ > 0 {
                    value
                } else {
                    old(self).open_interest
                },
                ..*old(self)
            }),
    {
        if value.is_positive() {
            self.open_interest = value;
        }
    }

    /// The shares of liquidated long and short positions, where there are some.
    pub fn snapshot(&self) -> (r: (Option<Dec>, Option<Dec>))
        ensures
            r == (positive(self.long_sum), positive(self.short_sum)),
    {
        let long = if self.long_sum.is_positive() {
            Some(self.long_sum)
        } else {
            None
        };
        let short = if self.short_sum.is_positive() {
            Some(self.short_sum)
        } else {
            None
        };
        (long, short)
    }
}

/// A number, where it is positive.
pub open spec fn positive(d: Dec) -> Option<Dec> {
    if d@ > 0 {
        Some(d)
    } else {
        None
    }
}

/// A liquidation is forgotten once it is older than the window; the first that is kept
/// is not.
pub proof fn law_first_entry_is_young(s: LiqState, now_ms: u64)
    ensures
        kept_entries(s, now_ms).len() > 0 ==> !is_old(
            kept_entries(s, now_ms)[0],
            now_ms,
            s.window_secs,
        ),
{
    lemma_first_young(s.entries@, now_ms, s.window_secs);
}

/// Forgetting what is old a second time, at the same time, changes nothing.
pub proof fn law_pruning_twice(before: LiqState, once: LiqState, twice: LiqState, now_ms: u64)
    requires
        pruned(before, once, now_ms),
        pruned(once, twice, now_ms),
    ensures
        twice.entries@ == once.entries@,
        twice.long_sum == once.long_sum,
        twice.short_sum == once.short_sum,
        twice.open_interest == once.open_interest,
        twice.window_secs == once.window_secs,
{
    law_first_entry_is_young(before, now_ms);
    assert(old_entries(once.entries@, now_ms, once.window_secs) == 0);
    assert(once.entries@.skip(0) =~= once.entries@);
}

proof fn lemma_first_young(entries: Seq<LiqEntry>, now_ms: u64, window_secs: u64)
    ensures
        old_entries(entries, now_ms, window_secs) <= entries.len(),
        old_entries(entries, now_ms, window_secs) < entries.len() ==> !is_old(
            entries[old_entries(entries, now_ms, window_secs) as int],
            now_ms,
            window_secs,
        ),
    decreases entries.len(),
{
    if entries.len() > 0 && is_old(entries[0], now_ms, window_secs) {
        lemma_first_young(entries.skip(1), now_ms, window_secs);
    }
}

/// A forced order of the exchange; the texts that it does not tell are missing.
#[derive(Debug)]
pub struct ForceOrder {
    pub symbol: String,
    pub side: String,
    pub last_filled: Option<String>,
    pub executed_qty: Option<String>,
    pub orig_qty: Option<String>,
    pub avg_price: Option<String>,
    pub price: Option<String>,
}

/// The number of the first text that is there; zero where it stands for none.
pub open spec fn first_number(texts: Seq<Option<String>>) -> Dec
    decreases texts.len(),
{
    if texts.len() == 0 {
        dec_of(0, 0)
    } else {
        match texts[0] {
            Some(t) => match plain_number(t@) {
                Some(d) => d,
                None => dec_of(0, 0),
            },
            None => first_number(texts.skip(1)),
        }
    }
}

fn number_or_zero(text: &String) -> (r: Dec)
    ensures
        r == match plain_number(text@) {
            Some(d) => d,
            None => dec_of(0, 0),
        },
{
    match read_plain(text.as_str()) {
        Some(d) => d,
        None => Dec::new(0, 0),
    }
}

fn read_first(a: &Option<String>, b: &Option<String>) -> (r: Dec)
    ensures
        r == first_number(seq![*a, *b]),
{
    proof {
        let s = seq![*a, *b];
        assert(s.skip(1) =~= seq![*b]);
        assert(seq![*b].skip(1) =~= Seq::<Option<String>>::empty());
        reveal_with_fuel(first_number, 3);
    }
    match a {
        Some(t) => number_or_zero(t),
        None => match b {
            Some(t) => number_or_zero(t),
            None => Dec::new(0, 0),
        },
    }
}

/// The price of a forced order: the average, or else the one that was asked for.
pub open spec fn forced_price(o: ForceOrder) -> Dec {
    first_number(seq![o.avg_price, o.price])
}

/// The value of a forced order in a stream: what was filled last, or else executed, or
/// else asked for, times its price.
pub open spec fn streamed_value(o: ForceOrder) -> Option<Dec> {
    times(
        Some(first_number(seq![o.last_filled, o.executed_qty, o.orig_qty])),
        Some(forced_price(o)),
    )
}

/// The value that a forced order adds; none where it is of another symbol or worth nothing.
pub fn force_order_value(order: &ForceOrder, symbol: &str) -> (r: Option<Dec>)
    ensures
        r == if order.symbol@ != symbol@ {
            None
        } else {
            match streamed_value(*order) {
                Some(v) => positive(v),
                None => None,
            }
        },
{
    if !same_text(order.symbol.as_str(), symbol) {
        return None;
    }
    proof {
        let s = seq![order.last_filled, order.executed_qty, order.orig_qty];
        assert(s.skip(1) =~= seq![order.executed_qty, order.orig_qty]);
        reveal_with_fuel(first_number, 2);
    }
    let qty = match &order.last_filled {
        Some(t) => number_or_zero(t),
        None => read_first(&order.executed_qty, &order.orig_qty),
    };
    let price = read_first(&order.avg_price, &order.price);
    match qty.checked_mul(&price) {
        Some(v) => if v.is_positive() {
            Some(v)
        } else {
            None
        },
        None => None,
    }
}

/// The value of a forced order in a list: what was executed, or else asked for, times
/// its price.
pub open spec fn listed_value(o: ForceOrder) -> Option<Dec> {
    times(Some(first_number(seq![o.executed_qty, o.orig_qty])), Some(forced_price(o)))
}

/// The values of the first `n` forced orders with this side.
pub open spec fn listed_total(orders: Seq<ForceOrder>, side: Seq<char>, n: nat) -> Option<Dec>
    decreases n,
{
    if n == 0 {
        lit(0, 0)
    } else if orders[n - 1].side@ == side {
        plus(listed_total(orders, side, (n - 1) as nat), listed_value(orders[n - 1]))
    } else {
        listed_total(orders, side, (n - 1) as nat)
    }
}

/// A total as a share of the open interest, where there is both.
pub open spec fn cluster_of(total: Option<Dec>, open_interest: Dec) -> Option<Dec> {
    match total {
        Some(t) => if open_interest@ > 0 && t@ > 0 {
            quotient(t, open_interest)
        } else {
            None
        },
        None => None,
    }
}

/// The number that the first text given reads as; zero where it cannot be read or none is given.
pub open spec fn first_given(a: Option<String>, b: Option<String>) -> int {
    let text = if a is Some {
        a
    } else {
        b
    };
    match text {
        Some(t) => match plain_number(t@) {
            Some(d) => d@,
            None => 0,
        },
        None => 0,
    }
}

/// What a listed order is worth, in units of 10^-56: what was executed of it, or else all of it,
/// at the average price, or else at its own.
pub open spec fn order_worth(o: ForceOrder) -> int {
    first_given(o.executed_qty, o.orig_qty) * first_given(o.avg_price, o.price)
}

/// What the first `n` orders of a side are worth together.
pub open spec fn listed_worth(orders: Seq<ForceOrder>, side: Seq<char>, n: nat) -> int
    decreases n,
{
    if n == 0 {
        0
    } else {
        listed_worth(orders, side, (n - 1) as nat) + if orders[n - 1].side@ == side {
            order_worth(orders[n - 1]) / one()
        } else {
            0
        }
    }
}

/// What each order of a list is worth, and so many of the first of a side, can be held.
pub open spec fn listed_held(orders: Seq<ForceOrder>, side: Seq<char>) -> bool {
    &&& forall|i: int|
        0 <= i < orders.len() ==> order_worth(#[trigger] orders[i]) % one() == 0 && can_be_held(
            order_worth(orders[i]) / one(),
        )
    &&& forall|k: nat|
        k <= orders.len() ==> can_be_held(#[trigger] listed_worth(orders, side, k))
}

/// One more order of a side adds what it is worth.
proof fn lemma_listed_step(
    orders: Seq<ForceOrder>,
    side: Seq<char>,
    i: nat,
    value: Option<Dec>,
    total: Option<Dec>,
)
    requires
        i < orders.len(),
        orders[i as int].side@ == side,
        value == listed_value(orders[i as int]),
        rounded(value_of(value), first_number(seq![
            orders[i as int].executed_qty,
            orders[i as int].orig_qty,
        ])@ * forced_price(orders[i as int])@, one()),
        listed_held(orders, side) && value is Some ==> rounded(
            value_of(total),
            listed_worth(orders, side, i) + value->0@,
            1,
        ),
    ensures
        listed_held(orders, side) ==> value_of(total) == Some(listed_worth(orders, side, i + 1)),
{
    let o = orders[i as int];
    lemma_value(0, 0);
    lemma_two_texts(o.executed_qty, o.orig_qty);
    lemma_two_texts(o.avg_price, o.price);
    if listed_held(orders, side) {
        let w = order_worth(o);
        assert(w == (w / one()) * one());
        law_rounding_scales(w / one(), 1, one(), value_of(value));
        lemma_held(w / one(), value_of(value));
        assert(can_be_held(listed_worth(orders, side, i + 1)));
        lemma_held(listed_worth(orders, side, i + 1), value_of(total));
    }
}

proof fn lemma_two_texts(a: Option<String>, b: Option<String>)
    ensures
        first_number(seq![a, b])@ == first_given(a, b),
{
    lemma_value(0, 0);
    reveal_with_fuel(first_number, 3);
    let s = seq![a, b];
    assert(s.skip(1)[0] == b);
    assert(s.skip(1).skip(1).len() == 0);
}

/// A cluster is a total by the open interest, where both are above zero.
pub open spec fn cluster_told(total: Option<Dec>, open_interest: Dec, r: Option<Dec>) -> bool {
    total matches Some(t) ==> if t@ > 0 && open_interest@ > 0 {
        rounded(value_of(r), t@ * one(), open_interest@)
    } else {
        r is None
    }
}

/// A cluster is none without liquidations or open interest; it is one where as much was
/// liquidated as there is open, below that not above one, and the share up to rounding.
pub proof fn law_clusters(total: Dec, open_interest: Dec, r: Option<Dec>)
    requires
        cluster_told(Some(total), open_interest, r),
    ensures
        total@ <= 0 || open_interest@ <= 0 ==> r is None,
        r matches Some(v) ==> v@ >= 0 && is_close(total@ * one(), open_interest@, v@),
        r is Some && total@ == open_interest@ ==> r->0@ == one(),
        r is Some && total@ <= open_interest@ ==> r->0@ <= one(),
{
    lemma_zero_and_one();
    lemma_powers();
    if r is Some {
        let v = r->0@;
        law_rounding_is_close(total@ * one(), open_interest@, v);
        law_rounding_above(total@ * one(), open_interest@, v, 0);
        if total@ <= open_interest@ {
            law_rounding_below(total@ * one(), open_interest@, v, one());
        }
        if total@ >= open_interest@ {
            law_rounding_above(total@ * one(), open_interest@, v, one());
        }
    }
}

fn find_cluster(total: Option<Dec>, open_interest: Dec) -> (r: Option<Dec>)
    ensures
        r == cluster_of(total, open_interest),
        cluster_told(total, open_interest, r),
{
    proof {
        lemma_powers();
    }
    match total {
        Some(t) => if open_interest.is_positive() && t.is_positive() {
            t.checked_div(&open_interest)
        } else {
            None
        },
        None => None,
    }
}

/// The liquidated long and short positions in a list of forced orders, as shares of the
/// open interest. Orders to sell are of long positions.
pub fn fetch_liquidation_clusters(orders: &Vec<ForceOrder>, open_interest: Dec) -> (r: (
    Option<Dec>,
    Option<Dec>,
))
    ensures
        r.0 == cluster_of(listed_total(orders@, "SELL"@, orders@.len()), open_interest),
        r.1 == cluster_of(listed_total(orders@, "BUY"@, orders@.len()), open_interest),
        cluster_told(listed_total(orders@, "SELL"@, orders@.len()), open_interest, r.0),
        cluster_told(listed_total(orders@, "BUY"@, orders@.len()), open_interest, r.1),
        listed_held(orders@, "SELL"@) ==> value_of(listed_total(orders@, "SELL"@, orders@.len()))
            == Some(listed_worth(orders@, "SELL"@, orders@.len())),
        listed_held(orders@, "BUY"@) ==> value_of(listed_total(orders@, "BUY"@, orders@.len()))
            == Some(listed_worth(orders@, "BUY"@, orders@.len())),
{
    let mut long_total = number(0, 0);
    let mut short_total = number(0, 0);
    let mut i: usize = 0;
    proof {
        reveal_strlit("SELL");
        reveal_strlit("BUY");
        assert("SELL"@.len() != "BUY"@.len());
        lemma_powers();
        lemma_value(0, 0);
    }
    while i < orders.len()
        invariant
            i <= orders@.len(),
            "SELL"@.len() != "BUY"@.len(),
            long_total == listed_total(orders@, "SELL"@, i as nat),
            short_total == listed_total(orders@, "BUY"@, i as nat),
            pow10(28) == one(),
            listed_held(orders@, "SELL"@) ==> value_of(long_total) == Some(
                listed_worth(orders@, "SELL"@, i as nat),
            ),
            listed_held(orders@, "BUY"@) ==> value_of(short_total) == Some(
                listed_worth(orders@, "BUY"@, i as nat),
            ),
        decreases orders.len() - i,
    {
        let o = &orders[i];
        let value = mul_opt(
            Some(read_first(&o.executed_qty, &o.orig_qty)),
            Some(read_first(&o.avg_price, &o.price)),
        );
        if same_text(o.side.as_str(), "SELL") {
            long_total = add_opt(long_total, value);
            proof {
                lemma_listed_step(orders@, "SELL"@, i as nat, value, long_total);
            }
        } else if same_text(o.side.as_str(), "BUY") {
            short_total = add_opt(short_total, value);
            proof {
                lemma_listed_step(orders@, "BUY"@, i as nat, value, short_total);
            }
        }
        i += 1;
    }
    (find_cluster(long_total, open_interest), find_cluster(short_total, open_interest))
}

/// What a forced order of a stream is worth: what was filled last of it, or else what was executed,
/// or else all of it, at the average price, or else at its own; a text that cannot be read counts
/// nothing.
pub proof fn law_streamed_orders(o: ForceOrder)
    ensures
        forced_price(o)@ == first_given(o.avg_price, o.price),
        o.last_filled is Some ==> streamed_value(o) == times(
            Some(first_number(seq![o.last_filled, None])),
            Some(forced_price(o)),
        ),
        o.last_filled is None ==> streamed_value(o) == listed_value(o),
{
    lemma_two_texts(o.avg_price, o.price);
    reveal_with_fuel(first_number, 4);
    let s = seq![o.last_filled, o.executed_qty, o.orig_qty];
    assert(s.skip(1) =~= seq![o.executed_qty, o.orig_qty]);
}

/// A liquidation counts within the window, in seconds, and not from a time to come. It is taken
/// note of only with open interest and a value above zero, as that of a long position exactly
/// where something was sold.
pub proof fn law_liquidations_that_count(
    s: LiqState,
    e: LiqEntry,
    notional: Dec,
    side: Seq<char>,
    now_ms: u64,
    window_secs: u64,
)
    ensures
        is_old(e, now_ms, window_secs) <==> !(e.ts_ms <= now_ms <= e.ts_ms + 1000 * window_secs),
        share_of(s, notional) is Some ==> notional@ > 0 && s.open_interest@ > 2_220_446_049_250,
        notional@ > 0 && s.open_interest@ > 2_220_446_049_250 ==> share_of(s, notional) == quotient(
            notional,
            s.open_interest,
        ),
        liquidates_long(side) <==> ascii_lowered(side) == ascii_lowered("SELL"@),
{
    lemma_powers();
    lemma_value(2_220_446_049_250, 28);
}

} // verus!
