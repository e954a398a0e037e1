//! Rounding to the numbers that a [`crate::decimal::Dec`] can be.
//!
//! A fraction `n / d` is counted in units of 10^-28. It is rounded to the nearest number
//! with as many decimal places, 28 at most, as its mantissa has room for.
use vstd::prelude::*;

use vstd::arithmetic::div_mod::*;
use vstd::arithmetic::power::*;

use crate::decimal::{pow10, MAX_MANTISSA};

verus! {

/// The integer nearest to `n / d`; of two that are as near, the even one.
pub open spec fn nearest_even(n: int, d: int) -> int {
    let q = n / d;
    let twice = 2 * (n % d);
    if twice < d || (twice == d && q % 2 == 0) {
        q
    } else {
        q + 1
    }
}

/// The mantissa of `n / d` units when it is written with `s` decimal places.
pub open spec fn mantissa_at(n: int, d: int, s: nat) -> int {
    nearest_even(n, d * pow10((28 - s) as nat))
}

/// There is room for the mantissa with `s` decimal places.
pub open spec fn fits_at(n: int, d: int, s: nat) -> bool {
    s <= 28 && -MAX_MANTISSA <= mantissa_at(n, d, s) <= MAX_MANTISSA
}

/// With `s` decimal places, and not with more, there is room for `n / d` units, and `v`
/// units is the nearest number with that many.
pub open spec fn rounds_at(n: int, d: int, v: int, s: nat) -> bool {
    &&& fits_at(n, d, s)
    &&& s < 28 ==> !fits_at(n, d, s + 1)
    &&& v == mantissa_at(n, d, s) * pow10((28 - s) as nat)
}

/// `n / d` units are rounded to `v` units.
pub open spec fn rounds_to(n: int, d: int, v: int) -> bool {
    exists|s: nat| #[trigger] rounds_at(n, d, v, s)
}

/// A value that a number can have.
pub open spec fn can_be_held(v: int) -> bool {
    rounds_to(v, 1, v)
}

/// The nearest integer is at most a half away, and even where it is just that.
pub proof fn lemma_nearest(n: int, d: int)
    requires
        d > 0,
    ensures
        (2 * nearest_even(n, d) - 1) * d <= 2 * n <= (2 * nearest_even(n, d) + 1) * d,
        2 * n == (2 * nearest_even(n, d) - 1) * d ==> nearest_even(n, d) % 2 == 0,
        2 * n == (2 * nearest_even(n, d) + 1) * d ==> nearest_even(n, d) % 2 == 0,
{
    lemma_fundamental_div_mod(n, d);
    lemma_mod_bound(n, d);
    let q = n / d;
    let r = n % d;
    let k = nearest_even(n, d);
    assert(2 * n == 2 * (q * d) + 2 * r) by (nonlinear_arith)
        requires
            n == d * q + r,
    ;
    assert((2 * k - 1) * d == 2 * (k * d) - d && (2 * k + 1) * d == 2 * (k * d) + d)
        by (nonlinear_arith);
    assert((q + 1) * d == q * d + d) by (nonlinear_arith);
}

/// The nearest integer does not fall when the fraction grows.
pub proof fn law_nearest_keeps_order(n1: int, d1: int, n2: int, d2: int)
    requires
        d1 > 0,
        d2 > 0,
        n1 * d2 <= n2 * d1,
    ensures
        nearest_even(n1, d1) <= nearest_even(n2, d2),
{
    lemma_nearest(n1, d1);
    lemma_nearest(n2, d2);
    let k1 = nearest_even(n1, d1);
    let k2 = nearest_even(n2, d2);
    let dd = d1 * d2;
    let a = 2 * k1 - 1;
    let b = 2 * k2 + 1;
    assert(dd > 0) by (nonlinear_arith)
        requires
            dd == d1 * d2,
            d1 > 0,
            d2 > 0,
    ;
    assert(a * dd <= 2 * (n1 * d2)) by (nonlinear_arith)
        requires
            a * d1 <= 2 * n1,
            dd == d1 * d2,
            d2 > 0,
    ;
    assert(2 * (n2 * d1) <= b * dd) by (nonlinear_arith)
        requires
            2 * n2 <= b * d2,
            dd == d1 * d2,
            d1 > 0,
    ;
    assert(a <= b) by (nonlinear_arith)
        requires
            a * dd <= b * dd,
            dd > 0,
    ;
    if k1 == k2 + 1 {
        assert(2 * n1 == a * d1) by (nonlinear_arith)
            requires
                a * d1 <= 2 * n1,
                2 * (n1 * d2) <= a * dd,
                dd == d1 * d2,
                d2 > 0,
        ;
        assert(2 * n2 == b * d2) by (nonlinear_arith)
            requires
                2 * n2 <= b * d2,
                b * dd <= 2 * (n2 * d1),
                dd == d1 * d2,
                d1 > 0,
        ;
    }
}

/// The integer nearest to the negative is the negative of the nearest.
pub proof fn law_nearest_of_negative(n: int, d: int)
    requires
        d > 0,
    ensures
        nearest_even(-n, d) == -nearest_even(n, d),
{
    lemma_nearest(n, d);
    lemma_nearest(-n, d);
    let k = nearest_even(n, d);
    let j = nearest_even(-n, d);
    assert((2 * k - 1) * d + (2 * j - 1) * d == (2 * (k + j) - 2) * d) by (nonlinear_arith);
    assert((2 * k + 1) * d + (2 * j + 1) * d == (2 * (k + j) + 2) * d) by (nonlinear_arith);
    let t = k + j;
    assert(-1 <= t <= 1) by (nonlinear_arith)
        requires
            (2 * t - 2) * d <= 0,
            (2 * t + 2) * d >= 0,
            d > 0,
    ;
    if t == 1 {
        assert((2 * t - 2) * d == 0) by (nonlinear_arith)
            requires
                t == 1,
        ;
        assert(2 * n == (2 * k - 1) * d);
        assert(2 * (-n) == (2 * j - 1) * d);
    }
    if t == -1 {
        assert((2 * t + 2) * d == 0) by (nonlinear_arith)
            requires
                t == -1,
        ;
        assert(2 * n == (2 * k + 1) * d);
        assert(2 * (-n) == (2 * j + 1) * d);
    }
}

/// The integer nearest to an integer is that integer.
pub proof fn lemma_nearest_of_multiple(k: int, d: int)
    requires
        d > 0,
    ensures
        nearest_even(k * d, d) == k,
{
    lemma_div_multiples_vanish(k, d);
    lemma_mod_multiples_basic(k, d);
    assert(d * k == k * d) by (nonlinear_arith);
}

/// Where there is room with more decimal places there is room with fewer.
proof fn lemma_fits_with_fewer(n: int, d: int, more: nat, fewer: nat)
    requires
        d > 0,
        fits_at(n, d, more),
        fewer <= more,
    ensures
        fits_at(n, d, fewer),
{
    let u = pow10((28 - more) as nat);
    let c = pow10((more - fewer) as nat);
    let w = pow10((28 - fewer) as nat);
    lemma_pow_positive(10, (28 - more) as nat);
    lemma_pow_positive(10, (more - fewer) as nat);
    lemma_pow_adds(10, (28 - more) as nat, (more - fewer) as nat);
    assert(w == u * c);
    let du = d * u;
    let dw = d * w;
    assert(0 < du <= dw) by (nonlinear_arith)
        requires
            du == d * u,
            dw == d * w,
            w == u * c,
            d > 0,
            u > 0,
            c >= 1,
    ;
    lemma_nearest_of_multiple(0, du);
    lemma_nearest_of_multiple(0, dw);
    if n >= 0 {
        assert(n * du <= n * dw && 0 * dw <= n * dw) by (nonlinear_arith)
            requires
                n >= 0,
                0 < du <= dw,
        ;
        law_nearest_keeps_order(n, dw, n, du);
        law_nearest_keeps_order(0, dw, n, dw);
    } else {
        assert(n * dw <= n * du && n * dw <= 0 * dw) by (nonlinear_arith)
            requires
                n < 0,
                0 < du <= dw,
        ;
        law_nearest_keeps_order(n, du, n, dw);
        law_nearest_keeps_order(n, dw, 0, dw);
    }
}

/// The negative of a fraction is rounded to the negative, with as many decimal places.
proof fn lemma_negative_rounds_at(n: int, d: int, v: int, s: nat)
    requires
        d > 0,
        rounds_at(n, d, v, s),
    ensures
        rounds_at(-n, d, -v, s),
{
    assert forall|t: nat| t <= 28 implies #[trigger] mantissa_at(-n, d, t) == -mantissa_at(n, d, t) by {
        lemma_pow_positive(10, (28 - t) as nat);
        assert(d * pow10((28 - t) as nat) > 0) by (nonlinear_arith)
            requires
                d > 0,
                pow10((28 - t) as nat) > 0,
        ;
        law_nearest_of_negative(n, d * pow10((28 - t) as nat));
    }
    let u = pow10((28 - s) as nat);
    let m = mantissa_at(n, d, s);
    assert((-m) * u == -(m * u)) by (nonlinear_arith);
}

/// The negative of a fraction is rounded to the negative.
pub proof fn law_rounding_of_negative(n: int, d: int, v: int)
    requires
        d > 0,
        rounds_to(n, d, v),
    ensures
        rounds_to(-n, d, -v),
{
    let s = choose|s: nat| rounds_at(n, d, v, s);
    lemma_negative_rounds_at(n, d, v, s);
}

/// Rounding keeps the order where the first has no more decimal places than the second.
proof fn lemma_coarse_below_fine(n1: int, d1: int, v1: int, s1: nat, n2: int, d2: int, v2: int, s2: nat)
    requires
        d1 > 0,
        d2 > 0,
        n1 * d2 <= n2 * d1,
        rounds_at(n1, d1, v1, s1),
        rounds_at(n2, d2, v2, s2),
        s1 <= s2,
    ensures
        v1 <= v2,
{
    let u1 = pow10((28 - s1) as nat);
    let u2 = pow10((28 - s2) as nat);
    lemma_pow_positive(10, (28 - s1) as nat);
    lemma_pow_positive(10, (28 - s2) as nat);
    let m1 = mantissa_at(n1, d1, s1);
    let m2 = mantissa_at(n2, d2, s2);
    if s1 == s2 {
        assert(d1 * u1 > 0 && d2 * u1 > 0 && n1 * (d2 * u1) <= n2 * (d1 * u1)) by (nonlinear_arith)
            requires
                d1 > 0,
                d2 > 0,
                u1 > 0,
                n1 * d2 <= n2 * d1,
        ;
        law_nearest_keeps_order(n1, d1 * u1, n2, d2 * u1);
        assert(m1 * u1 <= m2 * u1) by (nonlinear_arith)
            requires
                m1 <= m2,
                u1 > 0,
        ;
    } else {
        let w = pow10((28 - (s1 + 1)) as nat);
        let c = pow10((s2 - (s1 + 1)) as nat);
        lemma_pow_positive(10, (28 - (s1 + 1)) as nat);
        lemma_pow_positive(10, (s2 - (s1 + 1)) as nat);
        lemma_pow_adds(10, (28 - s2) as nat, (s2 - (s1 + 1)) as nat);
        lemma_pow_adds(10, 1, (28 - (s1 + 1)) as nat);
        lemma_pow1(10);
        assert(w == u2 * c && u1 == 10 * w);
        let a = mantissa_at(n1, d1, s1 + 1);
        lemma_fits_with_fewer(n2, d2, s2, s1 + 1);
        let b = mantissa_at(n2, d2, s1 + 1);
        assert(d1 * w > 0 && d2 * w > 0 && n1 * (d2 * w) <= n2 * (d1 * w)) by (nonlinear_arith)
            requires
                d1 > 0,
                d2 > 0,
                w > 0,
                n1 * d2 <= n2 * d1,
        ;
        law_nearest_keeps_order(n1, d1 * w, n2, d2 * w);
        assert(a <= b);
        // The first is so far below zero that it has no room for one place more.
        assert(a <= -MAX_MANTISSA - 1);
        let dw = d1 * w;
        lemma_nearest(n1, dw);
        assert(2 * n1 <= (-2 * MAX_MANTISSA - 1) * dw) by (nonlinear_arith)
            requires
                2 * n1 <= (2 * a + 1) * dw,
                a <= -MAX_MANTISSA - 1,
                dw > 0,
        ;
        assert(d1 * u1 == 10 * dw) by (nonlinear_arith)
            requires
                u1 == 10 * w,
                dw == d1 * w,
        ;
        lemma_nearest(n1, 10 * dw);
        assert(20 * m1 - 10 <= -2 * MAX_MANTISSA - 1) by (nonlinear_arith)
            requires
                (2 * m1 - 1) * (10 * dw) <= 2 * n1,
                2 * n1 <= (-2 * MAX_MANTISSA - 1) * dw,
                dw > 0,
        ;
        assert(10 * m1 <= -MAX_MANTISSA);
        assert(m1 * u1 <= m2 * u2) by (nonlinear_arith)
            requires
                10 * m1 <= -MAX_MANTISSA,
                -MAX_MANTISSA <= m2,
                u1 == 10 * w,
                w == u2 * c,
                c >= 1,
                u2 > 0,
                MAX_MANTISSA > 0,
        ;
    }
}

/// Rounding keeps the order: of two fractions the smaller is not rounded above the larger.
pub proof fn law_rounding_keeps_order(n1: int, d1: int, v1: int, n2: int, d2: int, v2: int)
    requires
        d1 > 0,
        d2 > 0,
        n1 * d2 <= n2 * d1,
        rounds_to(n1, d1, v1),
        rounds_to(n2, d2, v2),
    ensures
        v1 <= v2,
{
    let s1 = choose|s: nat| rounds_at(n1, d1, v1, s);
    let s2 = choose|s: nat| rounds_at(n2, d2, v2, s);
    if s1 <= s2 {
        lemma_coarse_below_fine(n1, d1, v1, s1, n2, d2, v2, s2);
    } else {
        lemma_negative_rounds_at(n1, d1, v1, s1);
        lemma_negative_rounds_at(n2, d2, v2, s2);
        assert((-n2) * d1 == -(n2 * d1) && (-n1) * d2 == -(n1 * d2)) by (nonlinear_arith);
        lemma_coarse_below_fine(-n2, d2, -v2, s2, -n1, d1, -v1, s1);
    }
}

/// What the operation on two numbers with the exact result `n / d` gives: `None` where
/// there is no room for that, even without decimal places.
pub open spec fn rounded(r: Option<int>, n: int, d: int) -> bool {
    match r {
        Some(v) => rounds_to(n, d, v),
        None => !fits_at(n, d, 0),
    }
}

/// An exact number is still exact with more decimal places, as long as there is room.
proof fn lemma_exact_from(v: int, d: int, s: nat)
    requires
        d > 0,
        fits_at(v * d, d, s),
        v == mantissa_at(v * d, d, s) * pow10((28 - s) as nat),
    ensures
        rounds_to(v * d, d, v),
    decreases 28 - s,
{
    if s < 28 && fits_at(v * d, d, s + 1) {
        let m = mantissa_at(v * d, d, s);
        let u = pow10((28 - s) as nat);
        let w = pow10((28 - (s + 1)) as nat);
        lemma_pow_positive(10, (28 - (s + 1)) as nat);
        lemma_pow_adds(10, 1, (28 - (s + 1)) as nat);
        lemma_pow1(10);
        assert(u == 10 * w);
        assert(v == (10 * m) * w) by (nonlinear_arith)
            requires
                v == m * u,
                u == 10 * w,
        ;
        assert(v * d == (10 * m) * (d * w) && d * w > 0) by (nonlinear_arith)
            requires
                v == (10 * m) * w,
                d > 0,
                w > 0,
        ;
        lemma_nearest_of_multiple(10 * m, d * w);
        lemma_exact_from(v, d, s + 1);
    } else {
        assert(rounds_at(v * d, d, v, s));
    }
}

/// A number with a mantissa `m` and `s` decimal places is rounded to itself.
pub proof fn lemma_exact(m: int, s: nat, d: int)
    requires
        d > 0,
        s <= 28,
        -MAX_MANTISSA <= m <= MAX_MANTISSA,
    ensures
        rounds_to((m * pow10((28 - s) as nat)) * d, d, m * pow10((28 - s) as nat)),
{
    let u = pow10((28 - s) as nat);
    let v = m * u;
    lemma_pow_positive(10, (28 - s) as nat);
    assert(v * d == m * (d * u) && d * u > 0) by (nonlinear_arith)
        requires
            v == m * u,
            d > 0,
            u > 0,
    ;
    lemma_nearest_of_multiple(m, d * u);
    lemma_exact_from(v, d, s);
}

/// Rounding a second time changes nothing.
pub proof fn law_rounding_twice(n: int, d: int, v: int)
    requires
        d > 0,
        rounds_to(n, d, v),
    ensures
        rounds_to(v, 1, v),
{
    let s = choose|s: nat| rounds_at(n, d, v, s);
    lemma_exact(mantissa_at(n, d, s), s, 1);
}

/// A fraction is rounded to one number only, however it is written.
pub proof fn law_rounding_is_unique(n1: int, d1: int, v1: int, n2: int, d2: int, v2: int)
    requires
        d1 > 0,
        d2 > 0,
        n1 * d2 == n2 * d1,
        rounds_to(n1, d1, v1),
        rounds_to(n2, d2, v2),
    ensures
        v1 == v2,
{
    law_rounding_keeps_order(n1, d1, v1, n2, d2, v2);
    law_rounding_keeps_order(n2, d2, v2, n1, d1, v1);
}

/// A fraction that is not above a number which can be held is not rounded above it.
pub proof fn law_rounding_below(n: int, d: int, v: int, bound: int)
    requires
        d > 0,
        rounds_to(n, d, v),
        rounds_to(bound, 1, bound),
        n <= bound * d,
    ensures
        v <= bound,
{
    assert(n * 1 <= bound * d);
    law_rounding_keeps_order(n, d, v, bound, 1, bound);
}

/// A fraction that is not below a number which can be held is not rounded below it.
pub proof fn law_rounding_above(n: int, d: int, v: int, bound: int)
    requires
        d > 0,
        rounds_to(n, d, v),
        rounds_to(bound, 1, bound),
        bound * d <= n,
    ensures
        bound <= v,
{
    assert(bound * d <= n * 1);
    law_rounding_keeps_order(bound, 1, bound, n, d, v);
}

/// A mantissa is the same when both parts of the fraction are multiplied.
proof fn lemma_mantissa_scales(n: int, d: int, k: int, s: nat)
    requires
        d > 0,
        k > 0,
        s <= 28,
    ensures
        mantissa_at(n * k, d * k, s) == mantissa_at(n, d, s),
{
    let u = pow10((28 - s) as nat);
    lemma_pow_positive(10, (28 - s) as nat);
    let x = d * u;
    let y = (d * k) * u;
    assert(x > 0 && y > 0 && (n * k) * x == n * y) by (nonlinear_arith)
        requires
            x == d * u,
            y == (d * k) * u,
            d > 0,
            k > 0,
            u > 0,
    ;
    law_nearest_keeps_order(n * k, y, n, x);
    law_nearest_keeps_order(n, x, n * k, y);
}

/// A fraction is rounded as it is when both its parts are multiplied.
pub proof fn law_rounding_scales(n: int, d: int, k: int, r: Option<int>)
    requires
        d > 0,
        k > 0,
        rounded(r, n * k, d * k),
    ensures
        rounded(r, n, d),
{
    assert forall|s: nat| s <= 28 implies #[trigger] mantissa_at(n, d, s) == mantissa_at(
        n * k,
        d * k,
        s,
    ) by {
        lemma_mantissa_scales(n, d, k, s);
    }
    let top = n * k;
    let bottom = d * k;
    if let Some(v) = r {
        let s = choose|s: nat| rounds_at(top, bottom, v, s);
        assert(rounds_at(n, d, v, s));
    }
}

/// What is rounded to a number has room without decimal places.
pub proof fn lemma_rounded_fits(n: int, d: int, v: int)
    requires
        d > 0,
        rounds_to(n, d, v),
    ensures
        fits_at(n, d, 0),
{
    let s = choose|s: nat| rounds_at(n, d, v, s);
    lemma_fits_with_fewer(n, d, s, 0);
}

/// A fraction that is a number which can be held is rounded to it.
pub proof fn law_exact_is_kept(n: int, d: int, v: int, exact: int)
    requires
        d > 0,
        rounds_to(n, d, v),
        n == exact * d,
        can_be_held(exact),
    ensures
        v == exact,
{
    law_rounding_is_unique(n, d, v, exact, 1, exact);
}

/// How many times larger a number is than what is lost of it where it has no room for all of
/// its 28 decimal places.
#[verifier::inline]
pub open spec fn precision() -> int {
    1_000_000_000_000_000_000_000_000_000
}

/// `v` units are `n / d` units, but for half a unit and one part in ten to the 27th.
pub open spec fn is_close(n: int, d: int, v: int) -> bool {
    let size = if n < 0 {
        -n
    } else {
        n
    };
    -(precision() * d + size) <= 2 * precision() * (v * d - n) <= precision() * d + size
}

/// Rounding changes a number by half a unit of the last of 28 decimal places at most, or by
/// one part in ten to the 27th where it has no room for them.
pub proof fn law_rounding_is_close(n: int, d: int, v: int)
    requires
        d > 0,
        rounds_to(n, d, v),
    ensures
        is_close(n, d, v),
{
    let s = choose|s: nat| rounds_at(n, d, v, s);
    let u = pow10((28 - s) as nat);
    let m = mantissa_at(n, d, s);
    lemma_pow_positive(10, (28 - s) as nat);
    let w = d * u;
    assert(w > 0) by (nonlinear_arith)
        requires
            w == d * u,
            d > 0,
            u > 0,
    ;
    lemma_nearest(n, w);
    assert(v * d == m * w) by (nonlinear_arith)
        requires
            v == m * u,
            w == d * u,
    ;
    assert((2 * m - 1) * w == 2 * (m * w) - w && (2 * m + 1) * w == 2 * (m * w) + w)
        by (nonlinear_arith);
    // 2 * (v * d - n) is between -w and w.
    let size = if n < 0 {
        -n
    } else {
        n
    };
    if s == 28 {
        lemma_pow0(10);
        assert(w == d) by (nonlinear_arith)
            requires
                w == d * u,
                u == 1,
        ;
    } else {
        let x = pow10((28 - (s + 1)) as nat);
        lemma_pow_positive(10, (28 - (s + 1)) as nat);
        lemma_pow_adds(10, 1, (28 - (s + 1)) as nat);
        lemma_pow1(10);
        let y = d * x;
        assert(y > 0 && w == 10 * y) by (nonlinear_arith)
            requires
                y == d * x,
                w == d * u,
                u == 10 * x,
                d > 0,
                x > 0,
        ;
        lemma_nearest(n, y);
        let k = mantissa_at(n, d, s + 1);
        assert(size >= 10 * precision() * y) by (nonlinear_arith)
            requires
                k > MAX_MANTISSA || k < -MAX_MANTISSA,
                (2 * k - 1) * y <= 2 * n <= (2 * k + 1) * y,
                size == if n < 0 {
                    -n
                } else {
                    n
                },
                y > 0,
                MAX_MANTISSA > 10 * precision(),
        ;
        assert(precision() * w <= size) by (nonlinear_arith)
            requires
                size >= 10 * precision() * y,
                w == 10 * y,
        ;
    }
    let z = v * d - n;
    let t = precision();
    assert(-(t * d + size) <= 2 * t * z <= t * d + size) by (nonlinear_arith)
        requires
            -w <= 2 * z <= w,
            t > 0,
            d > 0,
            size >= 0,
            w == d || t * w <= size,
    ;
}

/// A result that can be held is held.
pub proof fn lemma_held(v: int, r: Option<int>)
    requires
        rounded(r, v, 1),
    ensures
        can_be_held(v) ==> r == Some(v),
{
    if can_be_held(v) {
        lemma_rounded_fits(v, 1, v);
        law_rounding_is_unique(v, 1, r->0, v, 1, v);
    }
}

proof fn lemma_rounds_from(n: int, d: int, s: nat)
    requires
        d > 0,
        fits_at(n, d, s),
    ensures
        exists|v: int| rounds_to(n, d, v),
    decreases 28 - s,
{
    if s < 28 && fits_at(n, d, s + 1) {
        lemma_rounds_from(n, d, s + 1);
    } else {
        assert(rounds_at(n, d, mantissa_at(n, d, s) * pow10((28 - s) as nat), s));
        assert(rounds_to(n, d, mantissa_at(n, d, s) * pow10((28 - s) as nat)));
    }
}

/// A fraction that has room without decimal places is rounded to a number, which is within
/// the bounds of the type.
pub proof fn lemma_rounds(n: int, d: int)
    requires
        d > 0,
        fits_at(n, d, 0),
    ensures
        exists|v: int| rounds_to(n, d, v),
        forall|v: int| #[trigger]
            rounds_to(n, d, v) ==> -(MAX_MANTISSA * pow10(28)) <= v <= MAX_MANTISSA * pow10(28),
{
    lemma_rounds_from(n, d, 0);
    assert forall|v: int| #[trigger] rounds_to(n, d, v) implies -(MAX_MANTISSA * pow10(28)) <= v
        <= MAX_MANTISSA * pow10(28) by {
        let s = choose|s: nat| rounds_at(n, d, v, s);
        let u = pow10((28 - s) as nat);
        let c = pow10(s);
        let m = mantissa_at(n, d, s);
        lemma_pow_positive(10, (28 - s) as nat);
        lemma_pow_positive(10, s);
        lemma_pow_adds(10, (28 - s) as nat, s);
        assert(-(MAX_MANTISSA * (u * c)) <= m * u <= MAX_MANTISSA * (u * c)) by (nonlinear_arith)
            requires
                -MAX_MANTISSA <= m <= MAX_MANTISSA,
                MAX_MANTISSA > 0,
                u > 0,
                c >= 1,
        ;
    }
}

/// Where there is room for a fraction there is room for a smaller one.
pub proof fn lemma_smaller_fits(n1: int, d1: int, n2: int, d2: int)
    requires
        d1 > 0,
        d2 > 0,
        -(n2 * d1) <= n1 * d2 <= n2 * d1,
        fits_at(n2, d2, 0),
    ensures
        fits_at(n1, d1, 0),
{
    let u = pow10(28);
    lemma_pow_positive(10, 28);
    assert(d1 * u > 0 && d2 * u > 0 && n1 * (d2 * u) <= n2 * (d1 * u) && (-n2) * (d1 * u) <= n1 * (
    d2 * u)) by (nonlinear_arith)
        requires
            d1 > 0,
            d2 > 0,
            u > 0,
            -(n2 * d1) <= n1 * d2 <= n2 * d1,
    ;
    law_nearest_keeps_order(n1, d1 * u, n2, d2 * u);
    law_nearest_keeps_order(-n2, d2 * u, n1, d1 * u);
    law_nearest_of_negative(n2, d2 * u);
}

/// Zero and one can be held.
pub proof fn lemma_zero_and_one()
    ensures
        rounds_to(0, 1, 0),
        rounds_to(1, 1, 1),
        rounds_to(pow10(28), 1, pow10(28)),
        rounds_to(-pow10(28), 1, -pow10(28)),
        pow10(28) > 0,
{
    lemma_pow0(10);
    lemma_pow_positive(10, 28);
    lemma_exact(0, 0, 1);
    assert(0 * pow10(28) == 0);
    lemma_exact(1, 28, 1);
    lemma_exact(1, 0, 1);
    assert(1 * pow10(28) == pow10(28));
    law_rounding_of_negative(pow10(28), 1, pow10(28));
}

} // verus!
