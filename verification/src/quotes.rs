//! What the quotes of a market maker come to: their value, their spread and their prices, over
//! values in units of 10^-28.
use vstd::prelude::*;

use crate::decimal::one;
use crate::rounding::{
    can_be_held, is_close, law_exact_is_kept, law_rounding_above, law_rounding_below,
    law_rounding_is_close, law_rounding_is_unique, law_rounding_of_negative, law_rounding_twice,
    lemma_zero_and_one, precision, rounds_to,
};
use crate::signals::{larger, size_of_value, spreads, spreads_by};

verus! {

/// `mid` is halfway between two prices.
pub open spec fn halfway(bid: int, ask: int, mid: int) -> bool {
    exists|total: int| #[trigger] rounds_to(bid + ask, 1, total) && rounds_to(total, 2, mid)
}

/// `qty` is what `notional`, so many times, buys at a price; nothing where it is nothing.
pub open spec fn buys(notional: int, multiplier: int, mid: int, qty: int) -> bool {
    exists|usd: int| #[trigger]
        rounds_to(notional * multiplier, one(), usd) && (usd > 0 ==> rounds_to(
            usd * one(),
            mid,
            qty,
        )) && (usd <= 0 ==> qty == 0)
}

/// A quote that is not made larger is worth the notional value: its quantity is that value by
/// the price.
pub proof fn law_plain_quote(notional: int, mid: int, qty: int)
    requires
        can_be_held(notional),
        notional > 0,
        mid > 0,
        buys(notional, one(), mid, qty),
    ensures
        rounds_to(notional * one(), mid, qty),
        is_close(notional * one(), mid, qty),
{
    let usd = choose|usd: int| #[trigger]
        rounds_to(notional * one(), one(), usd) && (usd > 0 ==> rounds_to(usd * one(), mid, qty))
            && (usd <= 0 ==> qty == 0);
    law_exact_is_kept(notional * one(), one(), usd, notional);
    law_rounding_is_close(notional * one(), mid, qty);
}

/// A quote that is made larger is worth the notional value times the multiplier: the value is
/// rounded once, and its quantity is that by the price.
pub proof fn law_larger_quote(notional: int, multiplier: int, mid: int, qty: int)
    requires
        notional > 0,
        multiplier > 0,
        mid > 0,
        qty > 0,
        buys(notional, multiplier, mid, qty),
    ensures
        exists|usd: int| #[trigger]
            is_close(notional * multiplier, one(), usd) && is_close(usd * one(), mid, qty),
{
    let usd = choose|usd: int| #[trigger]
        rounds_to(notional * multiplier, one(), usd) && (usd > 0 ==> rounds_to(
            usd * one(),
            mid,
            qty,
        )) && (usd <= 0 ==> qty == 0);
    law_rounding_is_close(notional * multiplier, one(), usd);
    law_rounding_is_close(usd * one(), mid, qty);
}

/// How far a price is moved: by half of the spread, and by what funding, the inventory and the
/// book ask for.
pub struct Moves {
    pub half: int,
    pub funding: int,
    pub inventory: int,
    pub book: int,
}

/// The steps to the moves of a price: half of the spread; a hundred times the funding rate; the
/// share of the inventory twenty times, with its sign; and ten times the imbalance of the book,
/// against it. All are in basis points first.
pub open spec fn moves_by(
    spread: int,
    funding: int,
    share: int,
    imbalance: int,
    h: int,
    x: int,
    y: int,
    z: int,
    w: int,
    m: Moves,
) -> bool {
    &&& rounds_to(spread, 2, h)
    &&& rounds_to(h, 10000, m.half)
    &&& rounds_to(funding * 100, 1, x)
    &&& rounds_to(x, 10000, m.funding)
    &&& rounds_to(share, 1, y)
    &&& rounds_to(y * 20, 1, z)
    &&& rounds_to(z, 10000, m.inventory)
    &&& rounds_to(imbalance * -10, 1, w)
    &&& rounds_to(w, 10000, m.book)
}

pub open spec fn moves(spread: int, funding: int, share: int, imbalance: int, m: Moves) -> bool {
    exists|h: int, x: int, y: int, z: int, w: int| #[trigger]
        moves_by(spread, funding, share, imbalance, h, x, y, z, w, m)
}

/// Half of the spread is a twenty-thousandth of its basis points. Funding moves prices by a
/// hundredth of the rate; the inventory by a five-hundredth of its share of the cap; the book by
/// a thousandth of its imbalance, against it. Each holds up to rounding, and keeps the sign.
pub proof fn law_moves(spread: int, funding: int, share: int, imbalance: int, m: Moves)
    requires
        moves(spread, funding, share, imbalance, m),
    ensures
        ({
            let k = precision();
            let s = size_of_value(spread);
            let f = size_of_value(funding);
            let i = size_of_value(share);
            let b = size_of_value(imbalance);
            &&& -(100_000 * k + 4 * s) <= 2 * k * (20_000 * m.half - spread) <= 100_000 * k + 4 * s
            &&& -(100_000 * k + 400 * f) <= 2 * k * (10_000 * m.funding - 100 * funding) <= 100_000
                * k + 400 * f
            &&& -(100_000 * k + 400 * i) <= 2 * k * (10_000 * m.inventory - 20 * share) <= 100_000
                * k + 400 * i
            &&& -(100_000 * k + 400 * b) <= 2 * k * (10_000 * m.book + 10 * imbalance) <= 100_000 * k
                + 400 * b
        }),
        spread >= 0 ==> m.half >= 0,
        funding >= 0 ==> m.funding >= 0,
        funding <= 0 ==> m.funding <= 0,
        share >= 0 ==> m.inventory >= 0,
        share <= 0 ==> m.inventory <= 0,
        imbalance >= 0 ==> m.book <= 0,
        imbalance <= 0 ==> m.book >= 0,
{
    let (h, x, y, z, w) = choose|h: int, x: int, y: int, z: int, w: int| #[trigger]
        moves_by(spread, funding, share, imbalance, h, x, y, z, w, m);
    law_rounding_is_close(spread, 2, h);
    law_rounding_is_close(h, 10000, m.half);
    law_rounding_is_close(funding * 100, 1, x);
    law_rounding_is_close(x, 10000, m.funding);
    law_rounding_is_close(share, 1, y);
    law_rounding_is_close(y * 20, 1, z);
    law_rounding_is_close(z, 10000, m.inventory);
    law_rounding_is_close(imbalance * -10, 1, w);
    law_rounding_is_close(w, 10000, m.book);
    lemma_sign(spread, 2, h);
    lemma_sign(h, 10000, m.half);
    lemma_sign(funding * 100, 1, x);
    lemma_sign(x, 10000, m.funding);
    lemma_sign(share, 1, y);
    lemma_sign(y * 20, 1, z);
    lemma_sign(z, 10000, m.inventory);
    lemma_sign(imbalance * -10, 1, w);
    lemma_sign(w, 10000, m.book);
}

/// Rounding keeps the sign.
pub proof fn lemma_sign(n: int, d: int, v: int)
    requires
        d > 0,
        rounds_to(n, d, v),
    ensures
        n >= 0 ==> v >= 0,
        n <= 0 ==> v <= 0,
{
    lemma_zero_and_one();
    if n >= 0 {
        law_rounding_above(n, d, v, 0);
    }
    if n <= 0 {
        law_rounding_below(n, d, v, 0);
    }
}

/// Down for a bid, and up for an ask.
pub open spec fn turned(x: int, is_bid: bool) -> int {
    if is_bid {
        -x
    } else {
        x
    }
}

/// The steps to a price that is moved: down for a bid, up for an ask.
pub open spec fn moved_by(
    base: int,
    m: Moves,
    is_bid: bool,
    a: int,
    b: int,
    c: int,
    ratio: int,
    v: int,
) -> bool {
    &&& rounds_to(one() + turned(m.half, is_bid), 1, a)
    &&& rounds_to(a + turned(m.funding, is_bid), 1, b)
    &&& rounds_to(b + turned(m.inventory, is_bid), 1, c)
    &&& rounds_to(c + turned(m.book, is_bid), 1, ratio)
    &&& rounds_to(base * ratio, one(), v)
}

pub open spec fn moved(base: int, m: Moves, is_bid: bool, v: int) -> bool {
    exists|a: int, b: int, c: int, ratio: int| #[trigger]
        moved_by(base, m, is_bid, a, b, c, ratio, v)
}

/// A bid is below the base price, and an ask above it, by all the moves together, where these
/// can be held.
pub proof fn law_moved_price(base: int, m: Moves, is_bid: bool, v: int)
    requires
        moved(base, m, is_bid, v),
        is_bid ==> can_be_held(one() - m.half) && can_be_held(one() - m.half - m.funding)
            && can_be_held(one() - m.half - m.funding - m.inventory) && can_be_held(
            one() - m.half - m.funding - m.inventory - m.book,
        ),
        !is_bid ==> can_be_held(one() + m.half) && can_be_held(one() + m.half + m.funding)
            && can_be_held(one() + m.half + m.funding + m.inventory) && can_be_held(
            one() + m.half + m.funding + m.inventory + m.book,
        ),
    ensures
        is_bid ==> rounds_to(
            base * (one() - m.half - m.funding - m.inventory - m.book),
            one(),
            v,
        ),
        !is_bid ==> rounds_to(
            base * (one() + m.half + m.funding + m.inventory + m.book),
            one(),
            v,
        ),
{
    let (a, b, c, ratio) = choose|a: int, b: int, c: int, ratio: int| #[trigger]
        moved_by(base, m, is_bid, a, b, c, ratio, v);
    law_exact_is_kept(one() + turned(m.half, is_bid), 1, a, one() + turned(m.half, is_bid));
    law_exact_is_kept(a + turned(m.funding, is_bid), 1, b, a + turned(m.funding, is_bid));
    law_exact_is_kept(b + turned(m.inventory, is_bid), 1, c, b + turned(m.inventory, is_bid));
    law_exact_is_kept(c + turned(m.book, is_bid), 1, ratio, c + turned(m.book, is_bid));
}

/// The steps to the spread that is quoted: the base spread of volatility and inventory, at least
/// a ten-thousandth of a basis point; the adaptive one; ten times the imbalance of the book,
/// five at most; and half of all that again within three hundred basis points of liquidation.
pub open spec fn widens_by(
    s: SpreadInputs,
    u: int,
    w: int,
    both: int,
    adaptive: int,
    tilt: int,
    wider: int,
    v: int,
) -> bool {
    &&& rounds_to(s.a * s.sigma, one(), u)
    &&& rounds_to(s.b * s.share, one(), w)
    &&& rounds_to(u + w, 1, both)
    &&& spreads(
        s.volatility_coefficient,
        s.flow_coefficient,
        s.variance,
        s.flow,
        larger(both, 1_000_000_000_000_000_000_000_000),
        s.narrowest,
        adaptive,
    )
    &&& rounds_to(size_of_value(s.imbalance) * 10, 1, tilt)
    &&& rounds_to(
        adaptive + if tilt > 5 * one() {
            5 * one()
        } else {
            tilt
        },
        1,
        wider,
    )
    &&& s.liq_gap >= 300 * one() ==> v == wider
    &&& s.liq_gap < 300 * one() ==> rounds_to(
        wider * 15_000_000_000_000_000_000_000_000_000,
        one(),
        v,
    )
}

/// What a spread is made of.
pub struct SpreadInputs {
    pub a: int,
    pub sigma: int,
    pub b: int,
    pub share: int,
    pub volatility_coefficient: int,
    pub flow_coefficient: int,
    pub variance: int,
    pub flow: int,
    pub narrowest: int,
    pub imbalance: int,
    pub liq_gap: int,
}

pub open spec fn widens(s: SpreadInputs, v: int) -> bool {
    exists|u: int, w: int, both: int, adaptive: int, tilt: int, wider: int| #[trigger]
        widens_by(s, u, w, both, adaptive, tilt, wider, v)
}

/// The spread that is quoted is never below the narrowest one nor below nothing. Away from
/// liquidation it is the adaptive spread and at most five basis points more; near it, it is one
/// and a half times that, up to rounding.
pub proof fn law_quoted_spread(s: SpreadInputs, v: int)
    requires
        widens(s, v),
        s.narrowest >= 0,
        can_be_held(s.narrowest),
    ensures
        v >= s.narrowest,
        exists|adaptive: int, wider: int|
            {
                &&& #[trigger] is_wider(s, adaptive, wider)
                &&& s.liq_gap >= 300 * one() ==> v == wider
                &&& s.liq_gap < 300 * one() ==> is_close(wider * 3, 2, v)
            },
{
    let (u, w, both, adaptive, tilt, wider) = choose|
        u: int,
        w: int,
        both: int,
        adaptive: int,
        tilt: int,
        wider: int,
    | #[trigger]
        widens_by(s, u, w, both, adaptive, tilt, wider, v);
    lemma_zero_and_one();
    let (volatility, pressure, x, y, sum) = choose|
        volatility: int,
        pressure: int,
        x: int,
        y: int,
        sum: int,
    |
        #[trigger] spreads_by(
            s.volatility_coefficient,
            s.flow_coefficient,
            crate::arith::root_units(s.variance),
            size_of_value(s.flow),
            volatility,
            pressure,
            x,
            y,
            sum,
        ) && adaptive == larger(
            larger(both, 1_000_000_000_000_000_000_000_000),
            larger(sum, s.narrowest),
        );
    let extra = if tilt > 5 * one() {
        5 * one()
    } else {
        tilt
    };
    lemma_sign(size_of_value(s.imbalance) * 10, 1, tilt);
    law_rounding_is_close(size_of_value(s.imbalance) * 10, 1, tilt);
    law_rounding_is_close(adaptive + extra, 1, wider);
    law_rounding_above(adaptive + extra, 1, wider, s.narrowest);
    lemma_sign(adaptive + extra, 1, wider);
    assert(is_wider(s, adaptive, wider));
    if s.liq_gap < 300 * one() {
        let factor: int = 15_000_000_000_000_000_000_000_000_000;
        law_rounding_is_close(wider * factor, one(), v);
        law_rounding_above(wider * factor, one(), v, s.narrowest);
    }
}

/// `wider` is the adaptive spread with ten times the imbalance more, five basis points at most,
/// up to rounding.
pub open spec fn is_wider(s: SpreadInputs, adaptive: int, wider: int) -> bool {
    exists|tilt: int| #[trigger]
        is_close(size_of_value(s.imbalance) * 10, 1, tilt) && is_close(
            adaptive + if tilt > 5 * one() {
                5 * one()
            } else {
                tilt
            },
            1,
            wider,
        ) && adaptive >= s.narrowest
}

/// The steps to a price between two: each times the quantity of the other side, by both
/// quantities together.
pub open spec fn weighs_by(
    bid: int,
    ask: int,
    bid_vol: int,
    ask_vol: int,
    total: int,
    x: int,
    y: int,
    s: int,
    v: int,
) -> bool {
    &&& rounds_to(bid_vol + ask_vol, 1, total)
    &&& rounds_to(ask * bid_vol, one(), x)
    &&& rounds_to(bid * ask_vol, one(), y)
    &&& rounds_to(x + y, 1, s)
    &&& rounds_to(s * one(), total, v)
}

/// `v` is the price that the quantities of both sides point to; halfway where there are none.
pub open spec fn weighs(bid: int, ask: int, bid_vol: int, ask_vol: int, v: int) -> bool {
    if bid_vol == 0 && ask_vol == 0 {
        halfway(bid, ask, v)
    } else {
        exists|total: int, x: int, y: int, s: int| #[trigger]
            weighs_by(bid, ask, bid_vol, ask_vol, total, x, y, s, v)
    }
}

/// The price that both sides point to is the average of their prices, each with the weight of the
/// other side's quantity, where the steps can be held: more on the bid side moves it to the ask.
pub proof fn law_weighted_price(
    bid: int,
    ask: int,
    bid_vol: int,
    ask_vol: int,
    v: int,
    x: int,
    y: int,
    exact: int,
)
    requires
        bid_vol >= 0,
        ask_vol >= 0,
        bid_vol + ask_vol > 0,
        weighs(bid, ask, bid_vol, ask_vol, v),
        can_be_held(bid_vol + ask_vol),
        can_be_held(x),
        can_be_held(y),
        can_be_held(x + y),
        can_be_held(exact),
        x * one() == ask * bid_vol,
        y * one() == bid * ask_vol,
        exact * (bid_vol + ask_vol) == (x + y) * one(),
    ensures
        v == exact,
        v * (bid_vol + ask_vol) == ask * bid_vol + bid * ask_vol,
{
    let (total, a, b, s) = choose|total: int, a: int, b: int, s: int| #[trigger]
        weighs_by(bid, ask, bid_vol, ask_vol, total, a, b, s, v);
    law_exact_is_kept(bid_vol + ask_vol, 1, total, bid_vol + ask_vol);
    law_exact_is_kept(ask * bid_vol, one(), a, x);
    law_exact_is_kept(bid * ask_vol, one(), b, y);
    law_exact_is_kept(a + b, 1, s, x + y);
    law_exact_is_kept(s * one(), total, v, exact);
}

/// The steps to a variance with one more return: nineteen parts of twenty of what it was, and one
/// part of the square of the return.
pub open spec fn varies_by(
    variance: int,
    last: int,
    mid: int,
    c: int,
    r: int,
    square: int,
    a: int,
    b: int,
    v: int,
) -> bool {
    &&& rounds_to(mid - last, 1, c)
    &&& rounds_to(c * one(), last, r)
    &&& rounds_to(r * r, one(), square)
    &&& rounds_to(9_500_000_000_000_000_000_000_000_000 * variance, one(), a)
    &&& rounds_to(500_000_000_000_000_000_000_000_000 * square, one(), b)
    &&& rounds_to(a + b, 1, v)
}

pub open spec fn varies(variance: int, last: int, mid: int, v: int) -> bool {
    exists|c: int, r: int, square: int, a: int, b: int| #[trigger]
        varies_by(variance, last, mid, c, r, square, a, b, v)
}

/// A variance is never negative; a price that stays takes a twentieth off it; prices as far above
/// and below give the same; and where the steps can be held it is nineteen twentieths of what
/// it was and a twentieth of the squared return.
pub proof fn law_variance(
    variance: int,
    last: int,
    mid: int,
    v: int,
    mirrored: int,
    r: int,
    square: int,
)
    requires
        last > 0,
        variance >= 0,
        varies(variance, last, mid, v),
        varies(variance, last, last - (mid - last), mirrored),
    ensures
        v >= 0,
        mirrored == v,
        mid == last ==> is_close(19 * variance, 20, v),
        can_be_held(mid - last) && can_be_held(r) && can_be_held(square) && r * last == (mid - last)
            * one() && square * one() == r * r && 19 * variance % 20 == 0 && square % 20 == 0
            && can_be_held(19 * variance / 20) && can_be_held(square / 20) && can_be_held(
            (19 * variance + square) / 20,
        ) ==> v == (19 * variance + square) / 20,
{
    lemma_zero_and_one();
    let (c, x, q, a, b) = choose|c: int, x: int, q: int, a: int, b: int| #[trigger]
        varies_by(variance, last, mid, c, x, q, a, b, v);
    let (c2, x2, q2, a2, b2) = choose|c: int, x: int, q: int, a: int, b: int| #[trigger]
        varies_by(variance, last, last - (mid - last), c, x, q, a, b, mirrored);
    assert(x * x >= 0) by (nonlinear_arith);
    law_rounding_above(x * x, one(), q, 0);
    law_rounding_above(9_500_000_000_000_000_000_000_000_000 * variance, one(), a, 0);
    law_rounding_above(500_000_000_000_000_000_000_000_000 * q, one(), b, 0);
    law_rounding_above(a + b, 1, v, 0);
    law_rounding_of_negative(mid - last, 1, c);
    law_rounding_is_unique(-(mid - last), 1, -c, last - (mid - last) - last, 1, c2);
    law_rounding_of_negative(c * one(), last, x);
    law_rounding_is_unique(-(c * one()), last, -x, c2 * one(), last, x2);
    assert(x2 * x2 == x * x) by (nonlinear_arith)
        requires
            x2 == -x,
    ;
    law_rounding_is_unique(x * x, one(), q, x2 * x2, one(), q2);
    law_rounding_is_unique(
        9_500_000_000_000_000_000_000_000_000 * variance,
        one(),
        a,
        9_500_000_000_000_000_000_000_000_000 * variance,
        one(),
        a2,
    );
    law_rounding_is_unique(
        500_000_000_000_000_000_000_000_000 * q,
        one(),
        b,
        500_000_000_000_000_000_000_000_000 * q2,
        one(),
        b2,
    );
    law_rounding_is_unique(a + b, 1, v, a2 + b2, 1, mirrored);
    if mid == last {
        law_exact_is_kept(mid - last, 1, c, 0);
        law_exact_is_kept(c * one(), last, x, 0);
        law_exact_is_kept(x * x, one(), q, 0);
        law_exact_is_kept(500_000_000_000_000_000_000_000_000 * q, one(), b, 0);
        law_rounding_twice(9_500_000_000_000_000_000_000_000_000 * variance, one(), a);
        law_exact_is_kept(a + b, 1, v, a);
        law_rounding_is_close(9_500_000_000_000_000_000_000_000_000 * variance, one(), a);
    }
    if can_be_held(mid - last) && can_be_held(r) && can_be_held(square) && r * last == (mid - last)
        * one() && square * one() == r * r && 19 * variance % 20 == 0 && square % 20 == 0
        && can_be_held(19 * variance / 20) && can_be_held(square / 20) && can_be_held(
        (19 * variance + square) / 20,
    ) {
        law_exact_is_kept(mid - last, 1, c, mid - last);
        law_exact_is_kept(c * one(), last, x, r);
        law_exact_is_kept(x * x, one(), q, square);
        law_exact_is_kept(
            9_500_000_000_000_000_000_000_000_000 * variance,
            one(),
            a,
            19 * variance / 20,
        );
        law_exact_is_kept(500_000_000_000_000_000_000_000_000 * q, one(), b, square / 20);
        law_exact_is_kept(a + b, 1, v, (19 * variance + square) / 20);
    }
}

/// The steps to how much more the bid side grew than the ask side.
pub open spec fn grows_by(
    bid: int,
    last_bid: int,
    ask: int,
    last_ask: int,
    b: int,
    a: int,
    growth: int,
) -> bool {
    &&& rounds_to(bid - last_bid, 1, b)
    &&& rounds_to(ask - last_ask, 1, a)
    &&& rounds_to(b - a, 1, growth)
}

/// The steps to an order flow `dt` milliseconds later. Within a fifth of a second the old flow
/// fades by a tenth of the part of that time that has passed, and the growth counts for all of
/// that part; after it nine tenths are kept and a tenth of the growth is added.
pub open spec fn flows_by(flow: int, growth: int, dt: int, x: int, y: int, v: int) -> bool {
    &&& 0 < dt <= 200 ==> rounds_to(
        flow * (one() - dt * 5_000_000_000_000_000_000_000_000),
        one(),
        x,
    ) && rounds_to(growth * (dt * 50_000_000_000_000_000_000_000_000), one(), y)
    &&& !(0 < dt <= 200) ==> rounds_to(
        flow * 9_000_000_000_000_000_000_000_000_000,
        one(),
        x,
    ) && rounds_to(growth * 1_000_000_000_000_000_000_000_000_000, one(), y)
    &&& rounds_to(x + y, 1, v)
}

pub open spec fn flows(flow: int, growth: int, dt: int, v: int) -> bool {
    exists|x: int, y: int| #[trigger] flows_by(flow, growth, dt, x, y, v)
}

/// A flow without growth fades toward zero and keeps its sign; one without a past has the sign of
/// the growth; and where the steps can be held both are weighed by the time that has passed.
pub proof fn law_flow(flow: int, growth: int, dt: int, v: int, x: int, y: int)
    requires
        can_be_held(flow),
        flows(flow, growth, dt, v),
    ensures
        growth == 0 && flow >= 0 ==> 0 <= v <= flow,
        growth == 0 && flow <= 0 ==> flow <= v <= 0,
        flow == 0 && growth >= 0 ==> v >= 0,
        flow == 0 && growth <= 0 ==> v <= 0,
        can_be_held(x) && can_be_held(y) && can_be_held(x + y) && (if 0 < dt <= 200 {
            2000 * x == flow * (2000 - dt) && 200 * y == growth * dt
        } else {
            10 * x == 9 * flow && 10 * y == growth
        }) ==> v == x + y,
{
    lemma_zero_and_one();
    let (a, b) = choose|a: int, b: int| #[trigger] flows_by(flow, growth, dt, a, b, v);
    let kept: int = if 0 < dt <= 200 {
        one() - dt * 5_000_000_000_000_000_000_000_000
    } else {
        9_000_000_000_000_000_000_000_000_000
    };
    let part: int = if 0 < dt <= 200 {
        dt * 50_000_000_000_000_000_000_000_000
    } else {
        1_000_000_000_000_000_000_000_000_000
    };
    assert(0 < kept <= one());
    assert(0 < part);
    assert(rounds_to(flow * kept, one(), a));
    assert(rounds_to(growth * part, one(), b));
    assert((flow >= 0 ==> 0 <= flow * kept <= flow * one()) && (flow <= 0 ==> flow * one() <= flow
        * kept <= 0)) by (nonlinear_arith)
        requires
            0 < kept <= one(),
    ;
    assert((growth >= 0 ==> growth * part >= 0) && (growth <= 0 ==> growth * part <= 0))
        by (nonlinear_arith)
        requires
            part > 0,
    ;
    lemma_sign(flow * kept, one(), a);
    lemma_sign(growth * part, one(), b);
    if flow >= 0 {
        law_rounding_below(flow * kept, one(), a, flow);
    }
    if flow <= 0 {
        law_rounding_above(flow * kept, one(), a, flow);
    }
    if growth == 0 {
        law_rounding_twice(flow * kept, one(), a);
        law_exact_is_kept(a + b, 1, v, a);
    }
    lemma_sign(a + b, 1, v);
    if can_be_held(x) && can_be_held(y) && can_be_held(x + y) && (if 0 < dt <= 200 {
        2000 * x == flow * (2000 - dt) && 200 * y == growth * dt
    } else {
        10 * x == 9 * flow && 10 * y == growth
    }) {
        if 0 < dt <= 200 {
            assert(flow * kept == x * one()) by (nonlinear_arith)
                requires
                    2000 * x == flow * (2000 - dt),
                    kept == one() - dt * 5_000_000_000_000_000_000_000_000,
            ;
            assert(growth * part == y * one()) by (nonlinear_arith)
                requires
                    200 * y == growth * dt,
                    part == dt * 50_000_000_000_000_000_000_000_000,
            ;
        }
        law_exact_is_kept(flow * kept, one(), a, x);
        law_exact_is_kept(growth * part, one(), b, y);
        law_exact_is_kept(a + b, 1, v, x + y);
    }
}

} // verus!
