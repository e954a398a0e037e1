//! Looking over resting orders: which to cancel, and which the exchange and the
//! bot know of.
use vstd::prelude::*;

use crate::arith::{
    abs_opt, add_opt, div_opt, higher, lit, lower, max_opt, min_opt, minus, mul_opt, number, over,
    plus, sub_opt, times, unsigned,
};
use crate::decimal::{
    dec_of, dec_text, lemma_bounds, lemma_dec_of, lemma_powers, lemma_value, one, pow10, product,
    value_of, Dec,
};
use crate::initialization::{list_contains, texts};
use crate::quant::lemma_abs;
use crate::quotes::lemma_sign;
use crate::rounding::{
    can_be_held, is_close, law_exact_is_kept, law_rounding_above, law_rounding_below,
    law_rounding_is_close, law_rounding_of_negative, law_rounding_scales, lemma_exact,
    lemma_zero_and_one, rounds_to,
};
use crate::text::{copy_of, glue3, joined};
use crate::types::{Px, Qty, Side};

verus! {

/// A resting order.
#[derive(Clone, Debug)]
pub struct OrderInfo {
    pub order_id: String,
    pub side: Side,
    pub price: Px,
    pub qty: Qty,
    /// When it was placed, in milliseconds.
    pub created_at: u64,
}

/// How old an order is, in milliseconds.
pub open spec fn age_of(o: OrderInfo, now_ms: u64) -> int {
    if now_ms > o.created_at {
        now_ms - o.created_at
    } else {
        0
    }
}

/// The age from which an order is stale: two thirds of the limit while there is a position.
pub open spec fn stale_age(has_position: bool, max_order_age_ms: u64) -> int {
    if has_position {
        (max_order_age_ms * 2) / 3
    } else {
        max_order_age_ms as int
    }
}

/// How far an order is from the price it would trade at, as a part of that price. Zero
/// where that price is not above zero; none where the distance cannot be held.
pub open spec fn distance_of(o: OrderInfo, bid: Px, ask: Px) -> Option<Dec> {
    match o.side {
        Side::Buy => if ask.0@ > 0 {
            over(minus(Some(ask.0), Some(o.price.0)), Some(ask.0))
        } else {
            lit(0, 0)
        },
        Side::Sell => if bid.0@ > 0 {
            over(minus(Some(o.price.0), Some(bid.0)), Some(bid.0))
        } else {
            lit(0, 0)
        },
    }
}

/// Whether an order is too far from the market: by more than one percent while there is a
/// position, and by more than two otherwise. A distance that cannot be held is too far.
pub open spec fn too_far(o: OrderInfo, bid: Px, ask: Px, has_position: bool) -> bool {
    match unsigned(distance_of(o, bid, ask)) {
        Some(d) => d@ > dec_of(
            if has_position {
                1
            } else {
                2
            },
            2,
        )@,
        None => true,
    }
}

/// Whether an order should be cancelled.
pub open spec fn should_cancel(
    o: OrderInfo,
    bid: Px,
    ask: Px,
    has_position: bool,
    max_order_age_ms: u64,
    now_ms: u64,
) -> bool {
    too_far(o, bid, ask, has_position) || age_of(o, now_ms) > stale_age(
        has_position,
        max_order_age_ms,
    )
}

/// The orders among `orders` that should be cancelled.
pub open spec fn cancelled_ids(
    orders: Seq<OrderInfo>,
    bid: Px,
    ask: Px,
    has_position: bool,
    max_order_age_ms: u64,
    now_ms: u64,
) -> Seq<Seq<char>>
    decreases orders.len(),
{
    if orders.len() == 0 {
        Seq::empty()
    } else {
        let head = cancelled_ids(
            orders.drop_last(),
            bid,
            ask,
            has_position,
            max_order_age_ms,
            now_ms,
        );
        if should_cancel(orders.last(), bid, ask, has_position, max_order_age_ms, now_ms) {
            head.push(orders.last().order_id@)
        } else {
            head
        }
    }
}

/// The steps from a price to how far another is above it, as a part of it.
pub open spec fn parts_by(change: int, market: int, c: int, part: int) -> bool {
    rounds_to(change, 1, c) && rounds_to(c * one(), market, part)
}

/// The price that an order would trade at: the ask for a buyer, and the bid for a seller.
pub open spec fn market_of(o: OrderInfo, bid: Px, ask: Px) -> int {
    match o.side {
        Side::Buy => ask.0@,
        Side::Sell => bid.0@,
    }
}

/// How far an order is on its own side of that price.
pub open spec fn behind_of(o: OrderInfo, bid: Px, ask: Px) -> int {
    match o.side {
        Side::Buy => ask.0@ - o.price.0@,
        Side::Sell => o.price.0@ - bid.0@,
    }
}

/// How far an order is from the price it would trade at.
pub open spec fn distance_told(o: OrderInfo, bid: Px, ask: Px) -> bool {
    market_of(o, bid, ask) > 0 ==> (distance_of(o, bid, ask) matches Some(d) ==> d.wf() && exists|
        c: int,
    | #[trigger]
        parts_by(behind_of(o, bid, ask), market_of(o, bid, ask), c, d@))
}

/// An order that is cancelled for its distance alone is more than a hundredth of the market
/// price away where there is a position, and more than a fiftieth where there is none. One that
/// is a tenth further than that is always cancelled. Where there is no market price, no order
/// is too far away.
pub proof fn law_orders_far_away(
    o: OrderInfo,
    bid: Px,
    ask: Px,
    has_position: bool,
    max_order_age_ms: u64,
    now_ms: u64,
)
    requires
        distance_told(o, bid, ask),
    ensures
        ({
            let market = if o.side is Buy {
                ask.0@
            } else {
                bid.0@
            };
            let away = if o.price.0@ > market {
                o.price.0@ - market
            } else {
                market - o.price.0@
            };
            let share: int = if has_position {
                100
            } else {
                50
            };
            let gone = should_cancel(o, bid, ask, has_position, max_order_age_ms, now_ms);
            let old = now_ms > o.created_at && (if has_position {
                3 * (now_ms - o.created_at) > 2 * max_order_age_ms
            } else {
                now_ms - o.created_at > max_order_age_ms
            });
            &&& old ==> gone
            &&& !old && market <= 0 ==> !gone
            &&& !old && market > 0 && can_be_held(away) && distance_of(o, bid, ask) is Some && gone
                ==> share * away > market
            &&& market > 0 && can_be_held(away) && 10 * share * away >= 11 * market ==> gone
        }),
{
    lemma_powers();
    lemma_value(0, 0);
    lemma_value(1, 2);
    lemma_value(2, 2);
    lemma_zero_and_one();
    let market = market_of(o, bid, ask);
    let change = behind_of(o, bid, ask);
    let away = if o.price.0@ > market {
        o.price.0@ - market
    } else {
        market - o.price.0@
    };
    let share: int = if has_position {
        100
    } else {
        50
    };
    lemma_dec_of(0, 0);
    let limit = one() / share;
    lemma_exact(limit / 100_000_000_000_000_000_000_000_000, 2, 1);
    let more = limit + limit / 10;
    lemma_exact(more / 10_000_000_000_000_000_000_000_000, 3, 1);
    if market > 0 && can_be_held(away) && distance_of(o, bid, ask) is Some {
        let d = distance_of(o, bid, ask)->0@;
        lemma_abs(distance_of(o, bid, ask)->0);
        let c = choose|c: int| #[trigger] parts_by(change, market, c, d);
        law_rounding_of_negative(away, 1, away);
        law_exact_is_kept(change, 1, c, change);
        lemma_sign(c * one(), market, d);
        let size = if d < 0 {
            -d
        } else {
            d
        };
        if c < 0 {
            law_rounding_of_negative(c * one(), market, d);
        }
        assert(rounds_to(away * one(), market, size));
        if share * away <= market {
            assert(away * one() <= limit * market) by (nonlinear_arith)
                requires
                    share * away <= market,
                    limit * share == one(),
                    share > 0,
                    limit > 0,
            ;
            law_rounding_below(away * one(), market, size, limit);
        }
        if 10 * share * away >= 11 * market {
            assert(more * market <= away * one()) by (nonlinear_arith)
                requires
                    10 * share * away >= 11 * market,
                    limit * share == one(),
                    10 * more == 11 * limit,
                    share > 0,
                    limit > 0,
            ;
            law_rounding_above(away * one(), market, size, more);
        }
    }
}

/// An order is cancelled exactly where one of its name is too far from the market or stale.
pub proof fn law_orders_cancelled(
    orders: Seq<OrderInfo>,
    bid: Px,
    ask: Px,
    has_position: bool,
    max_order_age_ms: u64,
    now_ms: u64,
    id: Seq<char>,
)
    ensures
        cancelled_ids(orders, bid, ask, has_position, max_order_age_ms, now_ms).contains(id)
            <==> exists|i: int|
            0 <= i < orders.len() && (#[trigger] orders[i]).order_id@ == id && should_cancel(
                orders[i],
                bid,
                ask,
                has_position,
                max_order_age_ms,
                now_ms,
            ),
        cancelled_ids(orders, bid, ask, has_position, max_order_age_ms, now_ms).len()
            <= orders.len(),
    decreases orders.len(),
{
    if orders.len() > 0 {
        let head = orders.drop_last();
        law_orders_cancelled(head, bid, ask, has_position, max_order_age_ms, now_ms, id);
        let h = cancelled_ids(head, bid, ask, has_position, max_order_age_ms, now_ms);
        let s = cancelled_ids(orders, bid, ask, has_position, max_order_age_ms, now_ms);
        if h.contains(id) {
            let i = choose|i: int|
                0 <= i < head.len() && (#[trigger] head[i]).order_id@ == id && should_cancel(
                    head[i],
                    bid,
                    ask,
                    has_position,
                    max_order_age_ms,
                    now_ms,
                );
            assert(orders[i] == head[i]);
            assert(s[h.index_of(id)] == id);
        }
        if s.len() > h.len() {
            assert(s[s.len() - 1] == orders.last().order_id@);
            assert(orders[orders.len() - 1] == orders.last());
        }
        if s.contains(id) && !h.contains(id) {
            assert(s.index_of(id) == s.len() - 1);
        }
        assert forall|i: int|
            0 <= i < orders.len() && (#[trigger] orders[i]).order_id@ == id && should_cancel(
                orders[i],
                bid,
                ask,
                has_position,
                max_order_age_ms,
                now_ms,
            ) implies s.contains(id) by {
            if i < head.len() {
                assert(head[i] == orders[i]);
            }
        }
    }
}

fn find_distance(o: &OrderInfo, bid: Px, ask: Px) -> (r: Option<Dec>)
    ensures
        r == distance_of(*o, bid, ask),
        distance_told(*o, bid, ask),
{
    proof {
        lemma_powers();
    }
    match o.side {
        Side::Buy => if ask.0.is_positive() {
            let c = sub_opt(Some(ask.0), Some(o.price.0));
            let r = div_opt(c, Some(ask.0));
            if let Some(d) = r {
                proof {
                    use_type_invariant(&d);
                    assert(parts_by(behind_of(*o, bid, ask), market_of(*o, bid, ask), c->0@, d@));
                }
            }
            r
        } else {
            number(0, 0)
        },
        Side::Sell => if bid.0.is_positive() {
            let c = sub_opt(Some(o.price.0), Some(bid.0));
            let r = div_opt(c, Some(bid.0));
            if let Some(d) = r {
                proof {
                    use_type_invariant(&d);
                    assert(parts_by(behind_of(*o, bid, ask), market_of(*o, bid, ask), c->0@, d@));
                }
            }
            r
        } else {
            number(0, 0)
        },
    }
}

/// The orders that are too far from the market or stale, in the order given.
pub fn analyze_orders(
    active_orders: &Vec<OrderInfo>,
    bid: Px,
    ask: Px,
    position_size_notional: Dec,
    max_order_age_ms: u64,
    now_ms: u64,
) -> (r: Vec<String>)
    ensures
        texts(r@) == cancelled_ids(
            active_orders@,
            bid,
            ask,
            position_size_notional@ > 0,
            max_order_age_ms,
            now_ms,
        ),
        forall|i: int|
            0 <= i < active_orders@.len() ==> distance_told(#[trigger] active_orders@[i], bid, ask),
{
    let has_position = position_size_notional.is_positive();
    let max_age: u64 = if has_position {
        ((max_order_age_ms as u128 * 2) / 3) as u64
    } else {
        max_order_age_ms
    };
    let limit = if has_position {
        Dec::new(1, 2)
    } else {
        Dec::new(2, 2)
    };
    let mut v: Vec<String> = Vec::new();
    let mut i: usize = 0;
    assert(texts(v@) =~= Seq::<Seq<char>>::empty());
    while i < active_orders.len()
        invariant
            i <= active_orders.len(),
            max_age == stale_age(has_position, max_order_age_ms),
            limit == dec_of(
                if has_position {
                    1
                } else {
                    2
                },
                2,
            ),
            texts(v@) == cancelled_ids(
                active_orders@.take(i as int),
                bid,
                ask,
                has_position,
                max_order_age_ms,
                now_ms,
            ),
            forall|j: int|
                0 <= j < i ==> distance_told(#[trigger] active_orders@[j], bid, ask),
        decreases active_orders.len() - i,
    {
        proof {
            let t = active_orders@.take(i as int + 1);
            assert(t.drop_last() =~= active_orders@.take(i as int));
            assert(t.last() == active_orders@[i as int]);
        }
        let far = match abs_opt(find_distance(&active_orders[i], bid, ask)) {
            Some(d) => limit.lt(&d),
            None => true,
        };
        let created: u64 = active_orders[i].created_at;
        let age: u64 = if now_ms > created {
            now_ms - created
        } else {
            0
        };
        if far || age > max_age {
            let ghost before = v@;
            v.push(active_orders[i].order_id.as_str().to_owned());
            assert(texts(v@) =~= texts(before).push(active_orders@[i as int].order_id@));
        }
        i += 1;
    }
    assert(active_orders@.take(active_orders@.len() as int) =~= active_orders@);
    v
}

/// How often orders are filled.
#[derive(Clone, Copy, Debug)]
pub struct FillRateState {
    pub fill_rate: Dec,
    pub consecutive_no_fills: u32,
    /// When an order was last filled, in milliseconds.
    pub last_fill_time: Option<u64>,
    /// When the rate last decayed, in milliseconds.
    pub last_decay_check: Option<u64>,
    /// The interval of the last decay, in seconds.
    pub last_decay_period: Option<u64>,
}

impl FillRateState {
    pub fn new() -> (r: FillRateState)
        ensures
            r == (FillRateState {
                fill_rate: dec_of(5, 1),
                consecutive_no_fills: 0,
                last_fill_time: None,
                last_decay_check: None,
                last_decay_period: None,
            }),
    {
        FillRateState {
            fill_rate: Dec::new(5, 1),
            consecutive_no_fills: 0,
            last_fill_time: None,
            last_decay_check: None,
            last_decay_period: None,
        }
    }
}

/// The rate after an order was filled: it grows, up to one.
pub open spec fn rate_after_fill(rate: Dec, factor: Dec, bonus: Dec) -> Option<Dec> {
    lower(plus(times(Some(rate), Some(factor)), Some(bonus)), lit(1, 0))
}

/// The rate after an order was not filled: it shrinks, down to zero.
pub open spec fn rate_after_loss(rate: Dec, factor: Dec) -> Option<Dec> {
    higher(times(Some(rate), Some(factor)), lit(0, 0))
}

/// The steps to a rate that grew: times a factor, plus a bonus, and one at most.
pub open spec fn grows_by(rate: int, factor: int, bonus: int, p: int, g: int, v: int) -> bool {
    &&& rounds_to(rate * factor, one(), p)
    &&& rounds_to(p + bonus, 1, g)
    &&& v == if g < one() {
        g
    } else {
        one()
    }
}

pub open spec fn grows(rate: int, factor: int, bonus: int, v: int) -> bool {
    exists|p: int, g: int| #[trigger] grows_by(rate, factor, bonus, p, g, v)
}

/// A rate that shrank: times a factor, and zero at least.
pub open spec fn shrinks(rate: int, factor: int, v: int) -> bool {
    exists|p: int| #[trigger] rounds_to(rate * factor, one(), p) && v == if p > 0 {
        p
    } else {
        0
    }
}

/// A fill raises the rate, and never above one: with a factor of one or more and a bonus that is
/// not negative a rate that is not negative does not fall unless it was above one, and with a
/// factor of one it grows by the bonus, where that can be held.
pub proof fn law_rate_grows(rate: int, factor: int, bonus: int, v: int)
    requires
        can_be_held(rate),
        rate >= 0,
        bonus >= 0,
        factor >= one(),
        grows(rate, factor, bonus, v),
    ensures
        v <= one(),
        rate <= one() ==> v >= rate,
        factor == one() && can_be_held(rate + bonus) ==> v == if rate + bonus < one() {
            rate + bonus
        } else {
            one()
        },
{
    let (p, g) = choose|p: int, g: int| #[trigger] grows_by(rate, factor, bonus, p, g, v);
    assert(rate * factor >= rate * one()) by (nonlinear_arith)
        requires
            factor >= one(),
            rate >= 0,
    ;
    law_rounding_above(rate * factor, one(), p, rate);
    law_rounding_above(p + bonus, 1, g, rate);
    if factor == one() && can_be_held(rate + bonus) {
        law_exact_is_kept(rate * factor, one(), p, rate);
        law_exact_is_kept(p + bonus, 1, g, rate + bonus);
    }
}

/// An order that was not filled lowers the rate, and never below zero: with a factor between
/// zero and one a rate that is not negative does not grow, with a factor of one it stays, and
/// with zero nothing is left; it is the factor times the rate up to rounding.
pub proof fn law_rate_shrinks(rate: int, factor: int, v: int)
    requires
        can_be_held(rate),
        rate >= 0,
        0 <= factor <= one(),
        shrinks(rate, factor, v),
    ensures
        0 <= v <= rate,
        factor == one() ==> v == rate,
        factor == 0 ==> v == 0,
        is_close(rate * factor, one(), v),
{
    let p = choose|p: int| #[trigger]
        rounds_to(rate * factor, one(), p) && v == if p > 0 {
            p
        } else {
            0
        };
    assert(0 <= rate * factor <= rate * one()) by (nonlinear_arith)
        requires
            0 <= factor <= one(),
            rate >= 0,
    ;
    lemma_sign(rate * factor, one(), p);
    law_rounding_below(rate * factor, one(), p, rate);
    law_rounding_is_close(rate * factor, one(), p);
    if factor == one() {
        law_exact_is_kept(rate * factor, one(), p, rate);
    }
}

/// What the state keeps of an order: a fill ends the count of orders without one and is noted
/// with its time; a cancelled order is counted and leaves the times; a decay leaves both, and
/// is noted with its time and interval. A decay is due when none was, or when so many whole
/// seconds have passed since.
pub proof fn law_fill_state(
    s: FillRateState,
    factor: Dec,
    bonus: Dec,
    decay_interval_sec: u64,
    now_ms: u64,
)
    requires
        s.consecutive_no_fills < u32::MAX,
    ensures
        after_fill(s, factor, bonus, now_ms) matches Some(a) ==> a.consecutive_no_fills == 0
            && a.last_fill_time == Some(now_ms) && a.last_decay_check == s.last_decay_check
            && a.last_decay_period == s.last_decay_period,
        after_cancel(s, factor) matches Some(a) ==> a.consecutive_no_fills - s.consecutive_no_fills
            == 1 && a.last_fill_time == s.last_fill_time && a.last_decay_check == s.last_decay_check
            && a.last_decay_period == s.last_decay_period,
        after_decay(s, factor, decay_interval_sec, now_ms) matches Some(a)
            ==> a.consecutive_no_fills == s.consecutive_no_fills && a.last_fill_time
            == s.last_fill_time && a.last_decay_check == Some(now_ms) && a.last_decay_period
            == Some(decay_interval_sec),
        s.last_decay_check is None ==> decay_due(s, decay_interval_sec, now_ms),
        s.last_decay_check matches Some(last) ==> (decay_due(s, decay_interval_sec, now_ms) <==> (
        now_ms >= last + 1000 * decay_interval_sec || decay_interval_sec == 0)),
{
}

/// The state after an order was filled; none where the rate cannot be held.
pub open spec fn after_fill(
    s: FillRateState,
    increase_factor: Dec,
    increase_bonus: Dec,
    now_ms: u64,
) -> Option<FillRateState> {
    match rate_after_fill(s.fill_rate, increase_factor, increase_bonus) {
        Some(fill_rate) => Some(
            FillRateState {
                fill_rate,
                consecutive_no_fills: 0,
                last_fill_time: Some(now_ms),
                ..s
            },
        ),
        None => None,
    }
}

/// Notes that an order was filled. Where the rate cannot be held nothing is changed, and
/// the result is false.
pub fn update_fill_rate_on_fill(
    state: &mut FillRateState,
    increase_factor: Dec,
    increase_bonus: Dec,
    now_ms: u64,
) -> (r: bool)
    ensures
        match after_fill(*old(state), increase_factor, increase_bonus, now_ms) {
            Some(s) => r && *final(state) == s,
            None => !r && *final(state) == *old(state),
        },
        r ==> grows(
            old(state).fill_rate@,
            increase_factor@,
            increase_bonus@,
            final(state).fill_rate@,
        ),
{
    let grown = add_opt(
        mul_opt(Some(state.fill_rate), Some(increase_factor)),
        Some(increase_bonus),
    );
    match min_opt(grown, number(1, 0)) {
        Some(rate) => {
            proof {
                lemma_powers();
                lemma_value(1, 0);
                let p = times(Some(state.fill_rate), Some(increase_factor))->0@;
                assert(grows_by(
                    state.fill_rate@,
                    increase_factor@,
                    increase_bonus@,
                    p,
                    grown->0@,
                    rate@,
                ));
            }
            state.fill_rate = rate;
            state.consecutive_no_fills = 0;
            state.last_fill_time = Some(now_ms);
            true
        },
        None => false,
    }
}

/// The state after an order was cancelled; none where the rate cannot be held.
pub open spec fn after_cancel(s: FillRateState, decrease_factor: Dec) -> Option<FillRateState> {
    match rate_after_loss(s.fill_rate, decrease_factor) {
        Some(fill_rate) => Some(
            FillRateState {
                fill_rate,
                consecutive_no_fills: (s.consecutive_no_fills + 1) as u32,
                ..s
            },
        ),
        None => None,
    }
}

/// Notes that an order was cancelled. Where the rate cannot be held nothing is changed,
/// and the result is false.
pub fn update_fill_rate_on_cancel(state: &mut FillRateState, decrease_factor: Dec) -> (r: bool)
    requires
        old(state).consecutive_no_fills < u32::MAX,
    ensures
        match after_cancel(*old(state), decrease_factor) {
            Some(s) => r && *final(state) == s,
            None => !r && *final(state) == *old(state),
        },
        r ==> shrinks(old(state).fill_rate@, decrease_factor@, final(state).fill_rate@),
{
    proof {
        lemma_powers();
        lemma_value(0, 0);
    }
    match max_opt(mul_opt(Some(state.fill_rate), Some(decrease_factor)), number(0, 0)) {
        Some(rate) => {
            state.fill_rate = rate;
            state.consecutive_no_fills = state.consecutive_no_fills + 1;
            true
        },
        None => false,
    }
}

/// Whether the interval is over, or none has begun.
pub open spec fn decay_due(s: FillRateState, decay_interval_sec: u64, now_ms: u64) -> bool {
    match s.last_decay_check {
        Some(last) => if now_ms > last {
            (now_ms - last) / 1000 >= decay_interval_sec
        } else {
            decay_interval_sec == 0
        },
        None => true,
    }
}

/// The state after a decay that is due; none where the rate cannot be held.
pub open spec fn after_decay(
    s: FillRateState,
    decay_factor: Dec,
    decay_interval_sec: u64,
    now_ms: u64,
) -> Option<FillRateState> {
    match rate_after_loss(s.fill_rate, decay_factor) {
        Some(fill_rate) => Some(
            FillRateState {
                fill_rate,
                last_decay_check: Some(now_ms),
                last_decay_period: Some(decay_interval_sec),
                ..s
            },
        ),
        None => None,
    }
}

/// Lets the rate decay where the interval is over. Where the rate cannot be held nothing
/// is changed, and the result is false.
pub fn apply_fill_rate_decay(
    state: &mut FillRateState,
    decay_factor: Dec,
    decay_interval_sec: u64,
    now_ms: u64,
) -> (r: bool)
    ensures
        if decay_due(*old(state), decay_interval_sec, now_ms) {
            match after_decay(*old(state), decay_factor, decay_interval_sec, now_ms) {
                Some(s) => r && *final(state) == s,
                None => !r && *final(state) == *old(state),
            }
        } else {
            r && *final(state) == *old(state)
        },
        r && decay_due(*old(state), decay_interval_sec, now_ms) ==> shrinks(
            old(state).fill_rate@,
            decay_factor@,
            final(state).fill_rate@,
        ),
{
    proof {
        lemma_powers();
        lemma_value(0, 0);
    }
    let due = match state.last_decay_check {
        Some(last) => if now_ms > last {
            (now_ms - last) / 1000 >= decay_interval_sec
        } else {
            decay_interval_sec == 0
        },
        None => true,
    };
    if !due {
        return true;
    }
    match max_opt(mul_opt(Some(state.fill_rate), Some(decay_factor)), number(0, 0)) {
        Some(rate) => {
            state.fill_rate = rate;
            state.last_decay_check = Some(now_ms);
            state.last_decay_period = Some(decay_interval_sec);
            true
        },
        None => false,
    }
}

/// A rate never grows above one, and never shrinks below zero.
pub proof fn law_fill_rate_bounds(rate: Dec, factor: Dec, bonus: Dec)
    ensures
        rate_after_fill(rate, factor, bonus) matches Some(r) ==> r@ <= dec_of(1, 0)@,
        rate_after_loss(rate, factor) matches Some(r) ==> r@ >= 0,
{
    lemma_dec_of(0, 0);
}

/// The part of all orders that were filled, kept between zero and one; a half without
/// orders. `None` where it cannot be held.
pub fn calculate_fill_rate_from_history(
    filled_orders: usize,
    total_orders: usize,
    _time_window_sec: u64,
) -> (r: Option<Dec>)
    ensures
        r == if total_orders == 0 {
            lit(5, 1)
        } else {
            lower(
                higher(over(lit(filled_orders as int, 0), lit(total_orders as int, 0)), lit(0, 0)),
                lit(1, 0),
            )
        },
        r matches Some(v) ==> 0 <= v@ <= one(),
        r is Some && 0 < total_orders && filled_orders <= total_orders ==> rounds_to(
            filled_orders * one(),
            total_orders as int,
            r->0@,
        ),
        r is Some && filled_orders >= total_orders > 0 ==> r->0@ == one(),
        total_orders == 0 ==> (r matches Some(v) && 2 * v@ == one()),
{
    proof {
        lemma_powers();
        lemma_value(5, 1);
        lemma_value(0, 0);
        lemma_value(1, 0);
    }
    if total_orders == 0 {
        return number(5, 1);
    }
    let part = div_opt(
        Dec::from_parts(filled_orders as i128, 0),
        Dec::from_parts(total_orders as i128, 0),
    );
    proof {
        let f = filled_orders as int;
        let t = total_orders as int;
        lemma_value(f, 0);
        lemma_value(t, 0);
        lemma_zero_and_one();
        if part is Some {
            law_rounding_scales(f * one(), t, one(), value_of(part));
            lemma_sign(f * one(), t, part->0@);
            if f <= t {
                law_rounding_below(f * one(), t, part->0@, one());
            }
            if f >= t {
                law_rounding_above(f * one(), t, part->0@, one());
            }
        }
    }
    min_opt(max_opt(part, number(0, 0)), number(1, 0))
}

/// Whether the orders are to be compared with the exchange again: they never were,
/// or the interval is over.
pub fn should_sync_orders(elapsed_secs: Option<u64>, sync_interval_sec: u64) -> (r: bool)
    ensures
        r == match elapsed_secs {
            Some(e) => e >= sync_interval_sec,
            None => true,
        },
{
    match elapsed_secs {
        Some(e) => e >= sync_interval_sec,
        None => true,
    }
}

/// The orders of the exchange held against those of the bot.
#[derive(Clone, Debug)]
pub struct OrderSyncResult {
    pub new_orders: Vec<String>,
    pub removed_orders: Vec<String>,
    pub unchanged_orders: Vec<String>,
}

impl OrderSyncResult {
    pub fn new() -> (r: OrderSyncResult)
        ensures
            r.new_orders@.len() == 0,
            r.removed_orders@.len() == 0,
            r.unchanged_orders@.len() == 0,
    {
        OrderSyncResult {
            new_orders: Vec::new(),
            removed_orders: Vec::new(),
            unchanged_orders: Vec::new(),
        }
    }
}

/// The texts of `of` that are in `other` (`with`), or those that are not.
pub open spec fn selected(of: Seq<Seq<char>>, other: Seq<Seq<char>>, with: bool) -> Seq<
    Seq<char>,
>
    decreases of.len(),
{
    if of.len() == 0 {
        Seq::empty()
    } else {
        let head = selected(of.drop_last(), other, with);
        if other.contains(of.last()) == with {
            head.push(of.last())
        } else {
            head
        }
    }
}

/// Holds the orders of the exchange against those of the bot. Each list names an
/// order once.
pub fn compare_orders(local_order_ids: &Vec<String>, api_order_ids: &Vec<String>) -> (r:
    OrderSyncResult)
    requires
        texts(local_order_ids@).no_duplicates(),
        texts(api_order_ids@).no_duplicates(),
    ensures
        texts(r.new_orders@) == selected(texts(api_order_ids@), texts(local_order_ids@), false),
        texts(r.unchanged_orders@) == selected(
            texts(api_order_ids@),
            texts(local_order_ids@),
            true,
        ),
        texts(r.removed_orders@) == selected(
            texts(local_order_ids@),
            texts(api_order_ids@),
            false,
        ),
{
    let (new_orders, unchanged_orders) = split_by(api_order_ids, local_order_ids);
    let (removed_orders, _kept) = split_by(local_order_ids, api_order_ids);
    let mut result = OrderSyncResult::new();
    result.new_orders = new_orders;
    result.unchanged_orders = unchanged_orders;
    result.removed_orders = removed_orders;
    result
}

/// The texts of `of` that are not in `other`, and those that are.
fn split_by(of: &Vec<String>, other: &Vec<String>) -> (r: (Vec<String>, Vec<String>))
    ensures
        texts(r.0@) == selected(texts(of@), texts(other@), false),
        texts(r.1@) == selected(texts(of@), texts(other@), true),
{
    let mut out: Vec<String> = Vec::new();
    let mut both: Vec<String> = Vec::new();
    let mut i: usize = 0;
    assert(texts(out@) =~= Seq::<Seq<char>>::empty());
    assert(texts(both@) =~= Seq::<Seq<char>>::empty());
    while i < of.len()
        invariant
            i <= of.len(),
            texts(out@) == selected(texts(of@).take(i as int), texts(other@), false),
            texts(both@) == selected(texts(of@).take(i as int), texts(other@), true),
        decreases of.len() - i,
    {
        proof {
            let t = texts(of@).take(i as int + 1);
            assert(t.drop_last() =~= texts(of@).take(i as int));
            assert(t.last() == of@[i as int]@);
        }
        let copy = of[i].as_str().to_owned();
        if list_contains(other, of[i].as_str()) {
            let ghost before = both@;
            both.push(copy);
            assert(texts(both@) =~= texts(before).push(of@[i as int]@));
        } else {
            let ghost before = out@;
            out.push(copy);
            assert(texts(out@) =~= texts(before).push(of@[i as int]@));
        }
        i += 1;
    }
    assert(texts(of@).take(of@.len() as int) =~= texts(of@));
    (out, both)
}

/// A text is selected exactly where it is in the one list and, as asked, in the other or not.
proof fn lemma_selected(of: Seq<Seq<char>>, other: Seq<Seq<char>>, with: bool, t: Seq<char>)
    ensures
        selected(of, other, with).contains(t) <==> of.contains(t) && other.contains(t) == with,
    decreases of.len(),
{
    if of.len() > 0 {
        let head = of.drop_last();
        lemma_selected(head, other, with, t);
        let s = selected(of, other, with);
        let h = selected(head, other, with);
        if head.contains(t) {
            let k = head.index_of(t);
            assert(of[k] == t);
        }
        if of.contains(t) && t != of.last() {
            let k = of.index_of(t);
            assert(head[k] == t);
        }
        if of.last() == t {
            assert(of[of.len() - 1] == t);
        }
        if h.contains(t) {
            let k = h.index_of(t);
            assert(s[k] == t);
        }
        if s.contains(t) && s.len() > h.len() {
            let k = s.index_of(t);
            if k < h.len() {
                assert(h[k] == t);
            }
        }
        if other.contains(of.last()) == with {
            assert(s[s.len() - 1] == of.last());
        }
    }
}

/// Every order that either side knows of is in exactly one of the three lists:
/// new where only the exchange knows it, removed where only the bot does, and
/// unchanged where both do.
pub proof fn law_orders_are_partitioned(
    local: Seq<Seq<char>>,
    api: Seq<Seq<char>>,
    id: Seq<char>,
)
    ensures
        selected(api, local, false).contains(id) <==> api.contains(id) && !local.contains(id),
        selected(api, local, true).contains(id) <==> api.contains(id) && local.contains(id),
        selected(local, api, false).contains(id) <==> local.contains(id) && !api.contains(id),
{
    lemma_selected(api, local, false, id);
    lemma_selected(api, local, true, id);
    lemma_selected(local, api, false, id);
}

/// Why an order is not valid.
#[derive(Clone, Copy, Debug)]
pub enum OrderError {
    PriceNotPositive,
    QuantityNotPositive,
    MarketPriceInvalid,
    BelowMinNotional { notional: Dec, min: Dec },
    /// The notional value is not a number that can be held.
    Overflow,
}

impl OrderError {
    /// The error in words.
    pub open spec fn words(&self) -> Seq<char> {
        match *self {
            OrderError::PriceNotPositive => "Order price must be positive"@,
            OrderError::QuantityNotPositive => "Order quantity must be positive"@,
            OrderError::MarketPriceInvalid => "Market price is invalid"@,
            OrderError::BelowMinNotional { notional, min } => "Order notional "@ + dec_text(notional)
                + " is below minimum "@ + dec_text(min),
            OrderError::Overflow => "Order notional cannot be held"@,
        }
    }

    /// The error in words.
    pub fn text(&self) -> (r: String)
        ensures
            r@ == self.words(),
    {
        match self {
            OrderError::PriceNotPositive => copy_of("Order price must be positive"),
            OrderError::QuantityNotPositive => copy_of("Order quantity must be positive"),
            OrderError::MarketPriceInvalid => copy_of("Market price is invalid"),
            OrderError::BelowMinNotional { notional, min } => {
                let n = notional.to_text();
                let head = glue3("Order notional ", n.as_str(), " is below minimum ");
                joined(head.as_str(), min.to_text().as_str())
            },
            OrderError::Overflow => copy_of("Order notional cannot be held"),
        }
    }
}

/// The outcome of checking an order.
pub open spec fn order_check(
    price: Px,
    qty: Qty,
    bid: Px,
    ask: Px,
    side: Side,
    min_notional: Option<Dec>,
) -> Result<(), OrderError> {
    let market = match side {
        Side::Buy => ask.0,
        Side::Sell => bid.0,
    };
    if price.0@ <= 0 {
        Err(OrderError::PriceNotPositive)
    } else if qty.0@ <= 0 {
        Err(OrderError::QuantityNotPositive)
    } else if market@ <= 0 {
        Err(OrderError::MarketPriceInvalid)
    } else {
        match min_notional {
            None => Ok(()),
            Some(min) => match product(price.0, qty.0) {
                None => Err(OrderError::Overflow),
                Some(n) => if n@ < min@ {
                    Err(OrderError::BelowMinNotional { notional: n, min })
                } else {
                    Ok(())
                },
            },
        }
    }
}

/// What an order is worth: its quantity at its price.
pub open spec fn worth_told(price: Px, qty: Qty) -> bool {
    product(price.0, qty.0) matches Some(n) ==> rounds_to(price.0@ * qty.0@, one(), n@)
}

/// An order is accepted only with a price, a quantity and a price of the other side of the
/// market that are above zero, and where it is worth the smallest value that is asked for; it is
/// then always accepted where its worth can be held. The first of these that fails is named.
pub proof fn law_accepted_orders(
    price: Px,
    qty: Qty,
    bid: Px,
    ask: Px,
    side: Side,
    min_notional: Option<Dec>,
)
    requires
        worth_told(price, qty),
    ensures
        ({
            let market = if side is Buy {
                ask.0@
            } else {
                bid.0@
            };
            let r = order_check(price, qty, bid, ask, side, min_notional);
            let positive = price.0@ > 0 && qty.0@ > 0 && market > 0;
            let worth = price.0@ * qty.0@;
            &&& r is Ok ==> positive
            &&& positive && min_notional is None ==> r is Ok
            &&& positive && min_notional is Some && min_notional->0.wf() && product(price.0, qty.0)
                is Some && worth >= min_notional->0@ * one() ==> r is Ok
            &&& r is Ok && min_notional is Some ==> product(price.0, qty.0) is Some && (can_be_held(
                product(price.0, qty.0)->0@,
            ) && worth == product(price.0, qty.0)->0@ * one() ==> worth >= min_notional->0@ * one())
            &&& (r matches Err(OrderError::PriceNotPositive)) <==> price.0@ <= 0
            &&& (r matches Err(OrderError::QuantityNotPositive)) <==> price.0@ > 0 && qty.0@ <= 0
            &&& (r matches Err(OrderError::MarketPriceInvalid)) <==> price.0@ > 0 && qty.0@ > 0
                && market <= 0
        }),
{
    if min_notional is Some && min_notional->0.wf() && product(price.0, qty.0) is Some {
        let min = min_notional->0;
        let n = product(price.0, qty.0)->0@;
        lemma_bounds(min);
        lemma_exact(min.num(), min.places(), 1);
        if price.0@ * qty.0@ >= min@ * one() {
            law_rounding_above(price.0@ * qty.0@, one(), n, min@);
        }
    }
}

/// Checks an order: its price and quantity, the price it would trade at, and its
/// notional value where there is a minimum for it.
pub fn validate_order(
    price: Px,
    qty: Qty,
    bid: Px,
    ask: Px,
    side: Side,
    min_notional: Option<Dec>,
) -> (r: Result<(), OrderError>)
    ensures
        r == order_check(price, qty, bid, ask, side, min_notional),
        worth_told(price, qty),
{
    proof {
        lemma_powers();
    }
    let worth = price.0.checked_mul(&qty.0);
    if !price.0.is_positive() {
        return Err(OrderError::PriceNotPositive);
    }
    if !qty.0.is_positive() {
        return Err(OrderError::QuantityNotPositive);
    }
    let market_price = match side {
        Side::Buy => ask.0,
        Side::Sell => bid.0,
    };
    if !market_price.is_positive() {
        return Err(OrderError::MarketPriceInvalid);
    }
    if let Some(min) = min_notional {
        match worth {
            Some(notional) => {
                if notional.lt(&min) {
                    return Err(OrderError::BelowMinNotional { notional, min });
                }
            },
            None => return Err(OrderError::Overflow),
        }
    }
    Ok(())
}

} // verus!
