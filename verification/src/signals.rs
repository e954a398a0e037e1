//! The signals that quotes follow: the imbalance of the book, the spread and the target of
//! the inventory. They are stated over values in units of 10^-28, with every step rounded
//! as decimal arithmetic rounds it.
use vstd::prelude::*;

use vstd::arithmetic::power::lemma_pow_positive;

use crate::arith::{floor_root, law_root, root_units};
use crate::decimal::{lemma_powers, one, pow10, quotient_rounded, value_of, Dec};
use crate::rounding::{
    can_be_held, law_exact_is_kept, law_rounding_above, law_rounding_below, law_rounding_is_unique, law_rounding_keeps_order,
    law_rounding_of_negative, law_rounding_twice, lemma_rounded_fits, lemma_smaller_fits,
    lemma_zero_and_one, rounded, rounds_to,
};

verus! {

/// `r` is how much `x` is above `y`, of both together, with each step rounded.
pub open spec fn balances(x: int, y: int, r: int) -> bool {
    exists|total: int, gap: int| #[trigger] balances_by(x, y, total, gap, r)
}

/// `r` is the gap between `x` and `y`, of their total.
pub open spec fn balances_by(x: int, y: int, total: int, gap: int, r: int) -> bool {
    &&& rounds_to(x + y, 1, total)
    &&& rounds_to(x - y, 1, gap)
    &&& if total == 0 {
        r == 0
    } else {
        rounds_to(gap * pow10(28), total, r)
    }
}

/// A gap is not larger than the total.
proof fn lemma_gap_within_total(x: int, y: int, total: int, gap: int)
    requires
        x >= 0,
        y >= 0,
        rounds_to(x + y, 1, total),
        rounds_to(x - y, 1, gap),
    ensures
        -total <= gap <= total,
        total >= 0,
        x + y > 0 ==> total > 0,
        x + y == 0 ==> total == 0,
{
    lemma_zero_and_one();
    law_rounding_keeps_order(x - y, 1, gap, x + y, 1, total);
    law_rounding_of_negative(x + y, 1, total);
    law_rounding_keeps_order(-(x + y), 1, -total, x - y, 1, gap);
    law_rounding_above(x + y, 1, total, 0);
    if x + y > 0 {
        law_rounding_above(x + y, 1, total, 1);
    } else {
        law_rounding_is_unique(0, 1, 0, x + y, 1, total);
    }
}

/// Two volumes that are nothing together have no imbalance.
pub proof fn lemma_no_volume(x: int, y: int, total: int)
    requires
        x >= 0,
        y >= 0,
        rounds_to(x + y, 1, total),
        total == 0,
    ensures
        balances(x, y, 0),
{
    lemma_zero_and_one();
    if x + y > 0 {
        law_rounding_above(x + y, 1, total, 1);
    }
    assert(balances_by(x, y, 0, 0, 0));
}

/// The imbalance of two volumes can be held where their total can.
pub proof fn lemma_imbalance_known(bid: Dec, ask: Dec, total: Dec, gap: Option<Dec>, r: Option<Dec>)
    requires
        bid@ >= 0,
        ask@ >= 0,
        rounds_to(bid@ + ask@, 1, total@),
        total@ != 0,
        rounded(value_of(gap), bid@ - ask@, 1),
        gap matches Some(g) ==> quotient_rounded(r, g, total),
    ensures
        r is Some,
        balances(bid@, ask@, r->0@),
{
    let x = bid@;
    let y = ask@;
    let one = pow10(28);
    lemma_zero_and_one();
    lemma_rounded_fits(x + y, 1, total@);
    lemma_smaller_fits(x - y, 1, x + y, 1);
    let g = gap->0@;
    lemma_gap_within_total(x, y, total@, g);
    lemma_rounded_fits(one, 1, one);
    assert(-(one * total@) <= (g * one) * 1 <= one * total@) by (nonlinear_arith)
        requires
            -total@ <= g <= total@,
            one > 0,
    ;
    lemma_smaller_fits(g * one, total@, one, 1);
    assert(balances_by(x, y, total@, g, r->0@));
}

/// The imbalance of two volumes is between -1 and 1, as positive as the first is above
/// the second, nothing where they are the same, and 1 where there is no second. With the
/// sides swapped it has the other sign.
pub proof fn law_imbalance(x: int, y: int, r: int, swapped: int)
    requires
        x >= 0,
        y >= 0,
        balances(x, y, r),
        balances(y, x, swapped),
    ensures
        -pow10(28) <= r <= pow10(28),
        swapped == -r,
        x == y ==> r == 0,
        x >= y ==> r >= 0,
        x <= y ==> r <= 0,
        y == 0 && x > 0 ==> r == pow10(28),
{
    let (total, gap) = choose|total: int, gap: int| balances_by(x, y, total, gap, r);
    let (total2, gap2) = choose|total: int, gap: int| balances_by(y, x, total, gap, swapped);
    let one = pow10(28);
    lemma_zero_and_one();
    lemma_gap_within_total(x, y, total, gap);
    law_rounding_is_unique(x + y, 1, total, y + x, 1, total2);
    law_rounding_of_negative(x - y, 1, gap);
    law_rounding_is_unique(-(x - y), 1, -gap, y - x, 1, gap2);
    assert((-gap) * one == -(gap * one)) by (nonlinear_arith);
    if total != 0 {
        assert(gap * one <= one * total && (-one) * total <= gap * one) by (nonlinear_arith)
            requires
                -total <= gap <= total,
                one > 0,
        ;
        law_rounding_below(gap * one, total, r, one);
        law_rounding_above(gap * one, total, r, -one);
        law_rounding_of_negative(gap * one, total, r);
        law_rounding_is_unique(-(gap * one), total, -r, gap2 * one, total2, swapped);
        if x >= y {
            law_rounding_above(x - y, 1, gap, 0);
            assert(0 * total <= gap * one) by (nonlinear_arith)
                requires
                    gap >= 0,
                    one > 0,
            ;
            law_rounding_above(gap * one, total, r, 0);
        }
        if x <= y {
            law_rounding_below(x - y, 1, gap, 0);
            assert(gap * one <= 0 * total) by (nonlinear_arith)
                requires
                    gap <= 0,
                    one > 0,
            ;
            law_rounding_below(gap * one, total, r, 0);
        }
        if y == 0 {
            law_rounding_is_unique(x + y, 1, total, x - y, 1, gap);
            assert(one * total <= gap * one) by (nonlinear_arith)
                requires
                    gap == total,
            ;
            law_rounding_above(gap * one, total, r, one);
        }
    }
}

/// The size of a value.
pub open spec fn size_of_value(v: int) -> int {
    if v < 0 {
        -v
    } else {
        v
    }
}

/// The steps to a spread: the volatility and the order flow in hundredths of a percent,
/// each times its coefficient, and their sum.
pub open spec fn spreads_by(
    c1: int,
    c2: int,
    root: int,
    flow: int,
    volatility: int,
    pressure: int,
    a: int,
    b: int,
    sum: int,
) -> bool {
    let one = pow10(28);
    &&& rounds_to(root * (10_000 * one), one, volatility)
    &&& rounds_to(flow * (100 * one), one, pressure)
    &&& rounds_to(c1 * volatility, one, a)
    &&& rounds_to(c2 * pressure, one, b)
    &&& rounds_to(a + b, 1, sum)
}

/// The larger of two values.
pub open spec fn larger(a: int, b: int) -> int {
    if a < b {
        b
    } else {
        a
    }
}

/// `r` is the largest of the base spread, the narrowest spread, and the one that the
/// variance and the order flow ask for.
pub open spec fn spreads(
    c1: int,
    c2: int,
    variance: int,
    flow: int,
    base: int,
    narrowest: int,
    r: int,
) -> bool {
    exists|volatility: int, pressure: int, a: int, b: int, sum: int|
        #[trigger] spreads_by(
            c1,
            c2,
            root_units(variance),
            size_of_value(flow),
            volatility,
            pressure,
            a,
            b,
            sum,
        ) && r == larger(base, larger(sum, narrowest))
}

/// The root of a larger value is not smaller.
proof fn lemma_root_keeps_order(v1: int, v2: int)
    requires
        v1 <= v2,
    ensures
        0 <= root_units(v1) <= root_units(v2),
{
    lemma_pow_positive(10, 14);
    let u = pow10(14);
    if v2 > 0 {
        let r2 = floor_root(v2 as nat);
        law_root(v2 as nat);
        assert(0 <= r2 * u) by (nonlinear_arith)
            requires
                r2 >= 0,
                u > 0,
        ;
        if v1 > 0 {
            let r1 = floor_root(v1 as nat);
            law_root(v1 as nat);
            assert(r1 <= r2) by (nonlinear_arith)
                requires
                    r1 >= 0,
                    r2 >= 0,
                    r1 * r1 <= v1,
                    v1 <= v2,
                    v2 < (r2 + 1) * (r2 + 1),
            ;
            assert(0 <= r1 * u && r1 * u <= r2 * u) by (nonlinear_arith)
                requires
                    0 <= r1 <= r2,
                    u > 0,
            ;
        }
    }
}

/// A product with a factor that is not negative keeps the order of the other.
proof fn lemma_product_keeps_order(c: int, x1: int, x2: int, v1: int, v2: int)
    requires
        c >= 0,
        x1 <= x2,
        rounds_to(c * x1, pow10(28), v1),
        rounds_to(c * x2, pow10(28), v2),
    ensures
        v1 <= v2,
{
    let one = pow10(28);
    lemma_zero_and_one();
    assert((c * x1) * one <= (c * x2) * one) by (nonlinear_arith)
        requires
            c >= 0,
            x1 <= x2,
            one > 0,
    ;
    law_rounding_keeps_order(c * x1, one, v1, c * x2, one, v2);
}

/// The spread is not below the base spread, nor below the narrowest. With coefficients
/// that are not negative it does not fall when the variance, the size of the order flow,
/// the base spread or the narrowest spread grows.
pub proof fn law_spread_keeps_order(
    c1: int,
    c2: int,
    variance1: int,
    flow1: int,
    base1: int,
    narrowest1: int,
    r1: int,
    variance2: int,
    flow2: int,
    base2: int,
    narrowest2: int,
    r2: int,
)
    requires
        c1 >= 0,
        c2 >= 0,
        variance1 <= variance2,
        size_of_value(flow1) <= size_of_value(flow2),
        base1 <= base2,
        narrowest1 <= narrowest2,
        spreads(c1, c2, variance1, flow1, base1, narrowest1, r1),
        spreads(c1, c2, variance2, flow2, base2, narrowest2, r2),
    ensures
        base1 <= r1,
        narrowest1 <= r1,
        r1 <= r2,
{
    let one = pow10(28);
    lemma_zero_and_one();
    let q1 = root_units(variance1);
    let q2 = root_units(variance2);
    let f1 = size_of_value(flow1);
    let f2 = size_of_value(flow2);
    lemma_root_keeps_order(variance1, variance2);
    let (v1, p1, a1, b1, s1) = choose|v: int, p: int, a: int, b: int, s: int|
        #[trigger] spreads_by(c1, c2, q1, f1, v, p, a, b, s) && r1 == larger(
            base1,
            larger(s, narrowest1),
        );
    let (v2, p2, a2, b2, s2) = choose|v: int, p: int, a: int, b: int, s: int|
        #[trigger] spreads_by(c1, c2, q2, f2, v, p, a, b, s) && r2 == larger(
            base2,
            larger(s, narrowest2),
        );
    assert(q1 * (10_000 * one) == (10_000 * one) * q1 && q2 * (10_000 * one) == (10_000 * one) * q2
        && f1 * (100 * one) == (100 * one) * f1 && f2 * (100 * one) == (100 * one) * f2)
        by (nonlinear_arith);
    lemma_product_keeps_order(10_000 * one, q1, q2, v1, v2);
    lemma_product_keeps_order(100 * one, f1, f2, p1, p2);
    lemma_product_keeps_order(c1, v1, v2, a1, a2);
    lemma_product_keeps_order(c2, p1, p2, b1, b2);
    law_rounding_keeps_order(a1 + b1, 1, s1, a2 + b2, 1, s2);
}

/// The steps to a bias: the funding rate in hundredths of a percent, the trend times its
/// multiplier, and a hundredth of their sum.
pub open spec fn leans_by(
    multiplier: int,
    funding: int,
    trend: int,
    f: int,
    t: int,
    sum: int,
    bias: int,
) -> bool {
    let one = pow10(28);
    &&& rounds_to(funding * (10_000 * one), one, f)
    &&& rounds_to(trend * multiplier, one, t)
    &&& rounds_to(f + t, 1, sum)
    &&& rounds_to(sum * one, 100 * one, bias)
}

/// `bias` is how far the funding rate and the trend lean to one side.
pub open spec fn leans(multiplier: int, funding: int, trend: int, bias: int) -> bool {
    exists|f: int, t: int, sum: int|
        #[trigger] leans_by(multiplier, funding, trend, f, t, sum, bias)
}

/// `ratio` is a bias as a share between -1 and 1: that of the bias and one more.
pub open spec fn squashes(bias: int, whole: int, ratio: int) -> bool {
    let one = pow10(28);
    if bias > 10 * one {
        ratio == one
    } else if bias < -(10 * one) {
        ratio == -one
    } else {
        rounds_to(one + size_of_value(bias), 1, whole) && rounds_to(bias * one, whole, ratio)
    }
}

/// `r` is the share of the cap that a bias calls for.
pub open spec fn aims_at(cap: int, bias: int, r: int) -> bool {
    exists|whole: int, ratio: int|
        #[trigger] squashes(bias, whole, ratio) && rounds_to(cap * ratio, pow10(28), r)
}

/// One more than the size of a bias can be held without rounding.
pub open spec fn one_more_is_exact(bias: int) -> bool {
    let whole = pow10(28) + size_of_value(bias);
    rounds_to(whole, 1, whole)
}

/// A bias is a number that can be held.
proof fn lemma_bias_is_held(multiplier: int, funding: int, trend: int, bias: int)
    requires
        leans(multiplier, funding, trend, bias),
    ensures
        rounds_to(bias, 1, bias),
{
    lemma_zero_and_one();
    let (f, t, sum) = choose|f: int, t: int, sum: int|
        leans_by(multiplier, funding, trend, f, t, sum, bias);
    law_rounding_twice(sum * pow10(28), 100 * pow10(28), bias);
}

/// The bias does not fall when the funding rate or the trend grows.
proof fn lemma_bias_keeps_order(
    multiplier: int,
    funding1: int,
    trend1: int,
    bias1: int,
    funding2: int,
    trend2: int,
    bias2: int,
)
    requires
        multiplier >= 0,
        funding1 <= funding2,
        trend1 <= trend2,
        leans(multiplier, funding1, trend1, bias1),
        leans(multiplier, funding2, trend2, bias2),
    ensures
        bias1 <= bias2,
{
    let one = pow10(28);
    lemma_zero_and_one();
    let (f1, t1, s1) = choose|f: int, t: int, sum: int|
        leans_by(multiplier, funding1, trend1, f, t, sum, bias1);
    let (f2, t2, s2) = choose|f: int, t: int, sum: int|
        leans_by(multiplier, funding2, trend2, f, t, sum, bias2);
    assert(funding1 * (10_000 * one) == (10_000 * one) * funding1 && funding2 * (10_000 * one) == (
    10_000 * one) * funding2 && trend1 * multiplier == multiplier * trend1 && trend2 * multiplier
        == multiplier * trend2) by (nonlinear_arith);
    lemma_product_keeps_order(10_000 * one, funding1, funding2, f1, f2);
    lemma_product_keeps_order(multiplier, trend1, trend2, t1, t2);
    law_rounding_keeps_order(f1 + t1, 1, s1, f2 + t2, 1, s2);
    let hundred = 100 * one;
    assert((s1 * one) * hundred <= (s2 * one) * hundred) by (nonlinear_arith)
        requires
            s1 <= s2,
            one > 0,
            hundred == 100 * one,
    ;
    law_rounding_keeps_order(s1 * one, hundred, bias1, s2 * one, hundred, bias2);
}

/// With the signs of the funding rate and the trend turned the bias turns too.
proof fn lemma_bias_turns(multiplier: int, funding: int, trend: int, bias: int, turned: int)
    requires
        leans(multiplier, funding, trend, bias),
        leans(multiplier, -funding, -trend, turned),
    ensures
        turned == -bias,
{
    let one = pow10(28);
    lemma_zero_and_one();
    let (f, t, s) = choose|f: int, t: int, sum: int|
        leans_by(multiplier, funding, trend, f, t, sum, bias);
    let nf = -funding;
    let nt = -trend;
    let (g, u, z) = choose|f: int, t: int, sum: int|
        leans_by(multiplier, nf, nt, f, t, sum, turned);
    assert((-funding) * (10_000 * one) == -(funding * (10_000 * one)) && (-trend) * multiplier == -(
    trend * multiplier) && (-s) * one == -(s * one)) by (nonlinear_arith);
    law_rounding_of_negative(funding * (10_000 * one), one, f);
    law_rounding_is_unique(
        -(funding * (10_000 * one)),
        one,
        -f,
        (-funding) * (10_000 * one),
        one,
        g,
    );
    law_rounding_of_negative(trend * multiplier, one, t);
    law_rounding_is_unique(-(trend * multiplier), one, -t, (-trend) * multiplier, one, u);
    law_rounding_of_negative(f + t, 1, s);
    law_rounding_is_unique(-(f + t), 1, -s, g + u, 1, z);
    law_rounding_of_negative(s * one, 100 * one, bias);
    law_rounding_is_unique(-(s * one), 100 * one, -bias, z * one, 100 * one, turned);
}

/// A share is between -1 and 1, and has the sign of the bias.
proof fn lemma_share_bounds(bias: int, whole: int, ratio: int)
    requires
        rounds_to(bias, 1, bias),
        squashes(bias, whole, ratio),
    ensures
        -pow10(28) <= ratio <= pow10(28),
        bias >= 0 ==> ratio >= 0,
        bias <= 0 ==> ratio <= 0,
        -(10 * pow10(28)) <= bias <= 10 * pow10(28) ==> whole > 0,
{
    let one = pow10(28);
    lemma_zero_and_one();
    if -(10 * one) <= bias <= 10 * one {
        let size = size_of_value(bias);
        law_rounding_of_negative(bias, 1, bias);
        law_rounding_above(one + size, 1, whole, size);
        law_rounding_above(one + size, 1, whole, one);
        assert(bias * one <= one * whole && (-one) * whole <= bias * one) by (nonlinear_arith)
            requires
                -whole <= bias <= whole,
                one > 0,
        ;
        law_rounding_below(bias * one, whole, ratio, one);
        law_rounding_above(bias * one, whole, ratio, -one);
        if bias >= 0 {
            assert(0 * whole <= bias * one) by (nonlinear_arith)
                requires
                    bias >= 0,
                    one > 0,
            ;
            law_rounding_above(bias * one, whole, ratio, 0);
        }
        if bias <= 0 {
            assert(bias * one <= 0 * whole) by (nonlinear_arith)
                requires
                    bias <= 0,
                    one > 0,
            ;
            law_rounding_below(bias * one, whole, ratio, 0);
        }
    }
}

/// The target of the inventory is within its cap, has the sign of the funding rate and
/// the trend where both have the same, and turns with both of them. With neither it is
/// nothing.
pub proof fn law_target_within_cap(
    cap: int,
    multiplier: int,
    funding: int,
    trend: int,
    bias: int,
    r: int,
    turned_bias: int,
    turned: int,
)
    requires
        cap >= 0,
        rounds_to(cap, 1, cap),
        multiplier >= 0,
        leans(multiplier, funding, trend, bias),
        aims_at(cap, bias, r),
        leans(multiplier, -funding, -trend, turned_bias),
        aims_at(cap, turned_bias, turned),
    ensures
        -cap <= r <= cap,
        turned == -r,
        funding >= 0 && trend >= 0 ==> r >= 0,
        funding <= 0 && trend <= 0 ==> r <= 0,
        funding == 0 && trend == 0 ==> r == 0,
{
    let one = pow10(28);
    lemma_zero_and_one();
    let (whole, ratio) = choose|whole: int, ratio: int|
        #[trigger] squashes(bias, whole, ratio) && rounds_to(cap * ratio, one, r);
    let (whole2, ratio2) = choose|whole: int, ratio: int|
        #[trigger] squashes(turned_bias, whole, ratio) && rounds_to(cap * ratio, one, turned);
    lemma_bias_is_held(multiplier, funding, trend, bias);
    lemma_bias_turns(multiplier, funding, trend, bias, turned_bias);
    lemma_share_bounds(bias, whole, ratio);
    if -(10 * one) <= bias <= 10 * one {
        law_rounding_is_unique(
            one + size_of_value(bias),
            1,
            whole,
            one + size_of_value(turned_bias),
            1,
            whole2,
        );
        assert((-bias) * one == -(bias * one)) by (nonlinear_arith);
        law_rounding_of_negative(bias * one, whole, ratio);
        law_rounding_is_unique(-(bias * one), whole, -ratio, turned_bias * one, whole2, ratio2);
    }
    assert(ratio2 == -ratio);
    assert(cap * (-ratio) == -(cap * ratio)) by (nonlinear_arith);
    law_rounding_of_negative(cap * ratio, one, r);
    law_rounding_is_unique(-(cap * ratio), one, -r, cap * ratio2, one, turned);
    assert(cap * ratio <= cap * one && (-cap) * one <= cap * ratio) by (nonlinear_arith)
        requires
            cap >= 0,
            -one <= ratio <= one,
    ;
    law_rounding_of_negative(cap, 1, cap);
    law_rounding_below(cap * ratio, one, r, cap);
    law_rounding_above(cap * ratio, one, r, -cap);
    if funding >= 0 && trend >= 0 {
        lemma_bias_keeps_order(multiplier, -funding, -trend, turned_bias, funding, trend, bias);
        assert(0 * one <= cap * ratio) by (nonlinear_arith)
            requires
                cap >= 0,
                ratio >= 0,
        ;
        law_rounding_above(cap * ratio, one, r, 0);
    }
    if funding <= 0 && trend <= 0 {
        lemma_bias_keeps_order(multiplier, funding, trend, bias, -funding, -trend, turned_bias);
        assert(cap * ratio <= 0 * one) by (nonlinear_arith)
            requires
                cap >= 0,
                ratio <= 0,
        ;
        law_rounding_below(cap * ratio, one, r, 0);
    }
}

/// The share of a larger bias is not smaller.
proof fn lemma_share_keeps_order(b1: int, w1: int, q1: int, b2: int, w2: int, q2: int)
    requires
        rounds_to(b1, 1, b1),
        rounds_to(b2, 1, b2),
        b1 <= b2,
        one_more_is_exact(b1),
        one_more_is_exact(b2),
        squashes(b1, w1, q1),
        squashes(b2, w2, q2),
    ensures
        q1 <= q2,
{
    let one = pow10(28);
    lemma_zero_and_one();
    lemma_share_bounds(b1, w1, q1);
    lemma_share_bounds(b2, w2, q2);
    if -(10 * one) <= b1 && b2 <= 10 * one {
        let s1 = size_of_value(b1);
        let s2 = size_of_value(b2);
        law_rounding_is_unique(one + s1, 1, w1, one + s1, 1, one + s1);
        law_rounding_is_unique(one + s2, 1, w2, one + s2, 1, one + s2);
        assert(b1 * s2 <= b2 * s1) by (nonlinear_arith)
            requires
                b1 <= b2,
                s1 == if b1 < 0 { -b1 } else { b1 },
                s2 == if b2 < 0 { -b2 } else { b2 },
        ;
        assert((b1 * one) * w2 <= (b2 * one) * w1) by (nonlinear_arith)
            requires
                w1 == one + s1,
                w2 == one + s2,
                b1 * s2 <= b2 * s1,
                b1 <= b2,
                one > 0,
        ;
        law_rounding_keeps_order(b1 * one, w1, q1, b2 * one, w2, q2);
    }
}

/// The target of the inventory does not fall when the funding rate or the trend grows,
/// where one more than the size of each bias can be held without rounding.
pub proof fn law_target_keeps_order(
    cap: int,
    multiplier: int,
    funding1: int,
    trend1: int,
    bias1: int,
    r1: int,
    funding2: int,
    trend2: int,
    bias2: int,
    r2: int,
)
    requires
        cap >= 0,
        multiplier >= 0,
        funding1 <= funding2,
        trend1 <= trend2,
        leans(multiplier, funding1, trend1, bias1),
        aims_at(cap, bias1, r1),
        leans(multiplier, funding2, trend2, bias2),
        aims_at(cap, bias2, r2),
        one_more_is_exact(bias1),
        one_more_is_exact(bias2),
    ensures
        r1 <= r2,
{
    let one = pow10(28);
    let (w1, q1) = choose|whole: int, ratio: int|
        #[trigger] squashes(bias1, whole, ratio) && rounds_to(cap * ratio, one, r1);
    let (w2, q2) = choose|whole: int, ratio: int|
        #[trigger] squashes(bias2, whole, ratio) && rounds_to(cap * ratio, one, r2);
    lemma_bias_is_held(multiplier, funding1, trend1, bias1);
    lemma_bias_is_held(multiplier, funding2, trend2, bias2);
    lemma_bias_keeps_order(multiplier, funding1, trend1, bias1, funding2, trend2, bias2);
    lemma_share_keeps_order(bias1, w1, q1, bias2, w2, q2);
    lemma_product_keeps_order(cap, q1, q2, r1, r2);
}

/// What a spread is made of, where the steps can be held: the first coefficient times ten thousand
/// times the volatility, and the second times a hundred times the size of the flow; and the
/// widest of that, the base and the narrowest spread is taken.
pub proof fn law_parts_of_a_spread(
    c1: int,
    c2: int,
    variance: int,
    flow: int,
    base: int,
    narrowest: int,
    r: int,
    a: int,
    b: int,
)
    requires
        spreads(c1, c2, variance, flow, base, narrowest, r),
        can_be_held(10_000 * root_units(variance)),
        can_be_held(100 * flow),
        can_be_held(a),
        can_be_held(b),
        can_be_held(a + b),
        a * one() == c1 * (10_000 * root_units(variance)),
        b * one() == c2 * (100 * size_of_value(flow)),
    ensures
        r >= base && r >= narrowest && r >= a + b,
        r == base || r == narrowest || r == a + b,
{
    lemma_powers();
    let root = root_units(variance);
    let size = size_of_value(flow);
    let (volatility, pressure, x, y, sum) = choose|
        volatility: int,
        pressure: int,
        x: int,
        y: int,
        sum: int,
    |
        #[trigger] spreads_by(c1, c2, root, size, volatility, pressure, x, y, sum) && r == larger(
            base,
            larger(sum, narrowest),
        );
    law_rounding_of_negative(100 * flow, 1, 100 * flow);
    law_exact_is_kept(root * (10_000 * one()), one(), volatility, 10_000 * root);
    law_exact_is_kept(size * (100 * one()), one(), pressure, 100 * size);
    law_exact_is_kept(c1 * volatility, one(), x, a);
    law_exact_is_kept(c2 * pressure, one(), y, b);
    law_exact_is_kept(x + y, 1, sum, a + b);
}

/// What a lean is made of, where the steps can be held: a hundredth of ten thousand times the
/// funding rate and the trend times its multiplier.
pub proof fn law_parts_of_a_lean(
    multiplier: int,
    funding: int,
    trend: int,
    bias: int,
    t: int,
    exact: int,
)
    requires
        leans(multiplier, funding, trend, bias),
        can_be_held(10_000 * funding),
        can_be_held(t),
        can_be_held(10_000 * funding + t),
        can_be_held(exact),
        t * one() == trend * multiplier,
        100 * exact == 10_000 * funding + t,
    ensures
        bias == exact,
{
    lemma_powers();
    let (f, w, sum) = choose|f: int, w: int, sum: int|
        #[trigger] leans_by(multiplier, funding, trend, f, w, sum, bias);
    law_exact_is_kept(funding * (10_000 * one()), one(), f, 10_000 * funding);
    law_exact_is_kept(trend * multiplier, one(), w, t);
    law_exact_is_kept(f + w, 1, sum, 10_000 * funding + t);
    law_exact_is_kept(sum * one(), 100 * one(), bias, exact);
}

/// Where a lean is above ten the whole cap is aimed at, to the side it leans to; below that it is
/// the cap times the lean over one more than its size, where the steps can be held.
pub proof fn law_what_is_aimed_at(cap: int, bias: int, r: int, ratio: int, exact: int)
    requires
        aims_at(cap, bias, r),
        can_be_held(cap),
    ensures
        bias > 10 * one() ==> r == cap,
        bias < -(10 * one()) ==> r == -cap,
        -(10 * one()) <= bias <= 10 * one() && can_be_held(one() + size_of_value(bias))
            && can_be_held(ratio) && can_be_held(exact) && ratio * (one() + size_of_value(bias))
            == bias * one() && exact * one() == cap * ratio ==> r == exact,
{
    lemma_powers();
    let (whole, x) = choose|whole: int, x: int|
        #[trigger] squashes(bias, whole, x) && rounds_to(cap * x, pow10(28), r);
    if bias > 10 * one() {
        law_exact_is_kept(cap * x, one(), r, cap);
    } else if bias < -(10 * one()) {
        law_rounding_of_negative(cap, 1, cap);
        assert(cap * (-one()) == (-cap) * one());
        law_exact_is_kept(cap * x, one(), r, -cap);
    } else if can_be_held(one() + size_of_value(bias)) && can_be_held(ratio) && can_be_held(exact)
        && ratio * (one() + size_of_value(bias)) == bias * one() && exact * one() == cap * ratio {
        let w = one() + size_of_value(bias);
        law_exact_is_kept(w, 1, whole, w);
        law_exact_is_kept(bias * one(), whole, x, ratio);
        law_exact_is_kept(cap * x, one(), r, exact);
    }
}

} // verus!
