//! Rounding prices and quantities to the steps of a symbol, and writing them out.
use vstd::prelude::*;

use vstd::arithmetic::div_mod::*;
use vstd::arithmetic::mul::*;
use vstd::arithmetic::power::*;

use crate::decimal::{
    ceiled, cut, dec_of, difference, floored, lemma_bounds, lemma_dec_of, pow10, product, quotient,
    value_of, Dec, MAX_MANTISSA,
};
use crate::numbers::{all_digits, digits_value, is_digit};
use crate::rounding::{
    can_be_held, fits_at, law_exact_is_kept, law_nearest_of_negative, law_rounding_above,
    law_rounding_below,
    law_rounding_is_unique, law_rounding_of_negative, law_rounding_scales, lemma_exact,
    lemma_nearest, lemma_held, lemma_nearest_of_multiple, lemma_rounds, lemma_zero_and_one,
    mantissa_at, rounded, rounds_at, rounds_to,
};
use crate::text::{digit_char, fixed_digits, nat_text, push_zeros, zeros};

verus! {

/// The largest multiple of `step` that is not above `v`.
pub open spec fn multiple_below(v: int, step: int) -> int {
    (v / step) * step
}

/// The smallest multiple of `step` that is not below `v`.
pub open spec fn multiple_above(v: int, step: int) -> int {
    -multiple_below(-v, step)
}

/// `floor(v / step) * step` as `rust_decimal` computes it; `None` where that overflows.
pub open spec fn floored_to_step(v: Dec, step: Dec) -> Option<Dec> {
    match quotient(v, step) {
        Some(q) => product(dec_of(floored(q), 0), step),
        None => None,
    }
}

/// `ceil(v / step) * step` as `rust_decimal` computes it; `None` where that overflows.
pub open spec fn ceiled_to_step(v: Dec, step: Dec) -> Option<Dec> {
    match quotient(v, step) {
        Some(q) => product(dec_of(ceiled(q), 0), step),
        None => None,
    }
}

/// What [`quantize_decimal`] returns; `None` where the arithmetic overflows.
pub open spec fn quantized(value: Dec, step: Dec) -> Option<Dec> {
    if step@ <= 0 {
        Some(value)
    } else {
        floored_to_step(value, step)
    }
}

/// The quotient of `v` by a positive `step` can be held, and where it is rounded it is not
/// rounded to an integer.
pub open spec fn count_kept(v: Dec, step: Dec) -> bool {
    &&& step@ > 0
    &&& fits_at(v@ * pow10(28), step@, 0)
    &&& forall|w: int| #[trigger]
        rounds_to(v@ * pow10(28), step@, w) && w % pow10(28) == 0 ==> w * step@ == v@ * pow10(28)
}

/// The steps of `v` can be counted, and `n` of them can be held.
pub open spec fn step_fits(v: Dec, step: Dec, n: int) -> bool {
    &&& count_kept(v, step)
    &&& can_be_held(n * step@)
}

/// A quotient that is not rounded to an integer stays between the integers next to it, and
/// these can be counted.
proof fn lemma_between(v: Dec, step: Dec, w: int)
    requires
        count_kept(v, step),
        rounds_to(v@ * pow10(28), step@, w),
    ensures
        v@ % step@ == 0 ==> w == (v@ / step@) * pow10(28),
        v@ % step@ != 0 ==> (v@ / step@) * pow10(28) < w < (v@ / step@ + 1) * pow10(28),
        v@ % step@ == 0 ==> -((-v@) / step@) == v@ / step@,
        v@ % step@ != 0 ==> -((-v@) / step@) == v@ / step@ + 1,
        -MAX_MANTISSA <= v@ / step@ <= MAX_MANTISSA,
        -MAX_MANTISSA <= -((-v@) / step@) <= MAX_MANTISSA,
{
    let t = pow10(28);
    let s = step@;
    let n = v@ * t;
    let k = v@ / s;
    let rest = v@ % s;
    lemma_pow_positive(10, 28);
    lemma_fundamental_div_mod(v@, s);
    lemma_mod_bound(v@, s);
    lemma_rounds(n, s);
    assert(s * t > 0 && n == (k * t) * s + rest * t && n == k * (s * t) + rest * t && (k + 1) * (
    s * t) == k * (s * t) + s * t && ((k + 1) * t) * s == (k * t) * s + s * t) by (nonlinear_arith)
        requires
            n == v@ * t,
            v@ == s * k + rest,
            s > 0,
            t > 0,
    ;
    assert(0 <= rest * t < s * t && (rest == 0 <==> rest * t == 0)) by (nonlinear_arith)
        requires
            0 <= rest < s,
            t > 0,
    ;
    // The quotient without decimal places is one of the integers next to it.
    let m = mantissa_at(n, s, 0);
    lemma_nearest(n, s * t);
    assert(k <= m <= k + 1) by (nonlinear_arith)
        requires
            (2 * m - 1) * (s * t) <= 2 * n <= (2 * m + 1) * (s * t),
            n == k * (s * t) + rest * t,
            0 <= rest * t < s * t,
            s * t > 0,
    ;
    lemma_quotient_of_negative(v@, s);
    if rest == 0 {
        lemma_nearest_of_multiple(k, s * t);
        lemma_exact(k, 0, s);
        law_rounding_is_unique(n, s, w, n, s, k * t);
    } else {
        lemma_not_next(v, step, w, k);
        lemma_not_next(v, step, w, k + 1);
        if k >= -MAX_MANTISSA {
            lemma_exact(k, 0, 1);
            law_rounding_above(n, s, w, k * t);
        } else {
            lemma_exact(k + 1, 0, 1);
            law_rounding_below(n, s, w, (k + 1) * t);
            assert((-MAX_MANTISSA) * t == -(MAX_MANTISSA * t)) by (nonlinear_arith);
        }
        if k + 1 <= MAX_MANTISSA {
            lemma_exact(k + 1, 0, 1);
            law_rounding_below(n, s, w, (k + 1) * t);
        }
    }
}

/// A quotient that is no integer is not rounded to `j`.
proof fn lemma_not_next(v: Dec, step: Dec, w: int, j: int)
    requires
        count_kept(v, step),
        rounds_to(v@ * pow10(28), step@, w),
        v@ % step@ != 0,
    ensures
        w != j * pow10(28),
{
    let t = pow10(28);
    let s = step@;
    lemma_pow_positive(10, 28);
    if w == j * t {
        lemma_mod_multiples_basic(j, t);
        assert(t * j == j * t) by (nonlinear_arith);
        assert(v@ == s * j) by (nonlinear_arith)
            requires
                w * s == v@ * t,
                w == j * t,
                t > 0,
        ;
        assert(v@ == j * s) by (nonlinear_arith)
            requires
                v@ == s * j,
        ;
        lemma_mod_multiples_basic(j, s);
    }
}

/// The integer part of the negative of a quotient.
proof fn lemma_quotient_of_negative(v: int, s: int)
    requires
        s > 0,
    ensures
        v % s == 0 ==> -((-v) / s) == v / s,
        v % s != 0 ==> -((-v) / s) == v / s + 1,
{
    lemma_fundamental_div_mod(v, s);
    lemma_mod_bound(v, s);
    let k = v / s;
    let rest = v % s;
    if rest == 0 {
        assert(-v == (-k) * s + 0) by (nonlinear_arith)
            requires
                v == s * k + 0,
        ;
        lemma_fundamental_div_mod_converse(-v, s, -k, 0);
    } else {
        assert(-v == (-k - 1) * s + (s - rest)) by (nonlinear_arith)
            requires
                v == s * k + rest,
        ;
        lemma_fundamental_div_mod_converse(-v, s, -k - 1, s - rest);
    }
}

/// A quotient that is not rounded to an integer keeps its integer part.
proof fn lemma_floor_of_quotient(v: Dec, step: Dec, q: Dec)
    requires
        q.wf(),
        count_kept(v, step),
        rounds_to(v@ * pow10(28), step@, q@),
    ensures
        floored(q) == v@ / step@,
        ceiled(q) == -((-v@) / step@),
{
    lemma_bounds(q);
    lemma_between(v, step, q@);
    let p = pow10(q.places());
    let c = pow10((28 - q.places()) as nat);
    let n = q.num();
    let k = v@ / step@;
    lemma_pow_positive(10, q.places());
    lemma_pow_positive(10, (28 - q.places()) as nat);
    lemma_pow_adds(10, q.places(), (28 - q.places()) as nat);
    lemma_quotient_of_negative(n, p);
    if v@ % step@ == 0 {
        assert(n == k * p + 0) by (nonlinear_arith)
            requires
                n * c == k * (p * c),
                c > 0,
        ;
        lemma_fundamental_div_mod_converse(n, p, k, 0);
    } else {
        assert(k * p < n < (k + 1) * p) by (nonlinear_arith)
            requires
                k * (p * c) < n * c < (k + 1) * (p * c),
                c > 0,
        ;
        assert((k + 1) * p == k * p + p) by (nonlinear_arith);
        lemma_fundamental_div_mod_converse(n, p, k, n - k * p);
    }
}

/// The value of an integer times a step, where it can be held.
proof fn lemma_value_of_multiple(n: int, whole: Dec, step: Dec, r: Option<Dec>)
    requires
        whole@ == n * pow10(28),
        can_be_held(n * step@),
        rounded(value_of(r), whole@ * step@, pow10(28)),
    ensures
        r is Some,
        r->0@ == n * step@,
{
    let one = pow10(28);
    let v = n * step@;
    lemma_pow_positive(10, 28);
    assert(whole@ * step@ == v * one && 1 * one == one) by (nonlinear_arith)
        requires
            whole@ == n * one,
            v == n * step@,
    ;
    law_rounding_scales(v, 1, one, value_of(r));
    lemma_held(v, value_of(r));
}

/// A multiple of a step below a value is at most one step away from it, and
/// taking it once more changes nothing.
pub proof fn law_multiple_below(v: int, step: int)
    requires
        step > 0,
    ensures
        multiple_below(v, step) <= v < multiple_below(v, step) + step,
        multiple_below(v, step) % step == 0,
        multiple_below(multiple_below(v, step), step) == multiple_below(v, step),
{
    lemma_fundamental_div_mod(v, step);
    lemma_mod_bound(v, step);
    let k = v / step;
    assert(k * step == step * k) by (nonlinear_arith);
    lemma_mod_multiples_basic(k, step);
    lemma_div_multiples_vanish(k, step);
}

/// A multiple of a step above a value is less than one step away from it, and
/// taking it once more changes nothing.
pub proof fn law_multiple_above(v: int, step: int)
    requires
        step > 0,
    ensures
        v <= multiple_above(v, step) < v + step,
        multiple_above(v, step) % step == 0,
        multiple_above(multiple_above(v, step), step) == multiple_above(v, step),
{
    law_multiple_below(-v, step);
    let k = (-v) / step;
    assert(-(k * step) == (-k) * step) by (nonlinear_arith);
    lemma_mod_multiples_basic(-k, step);
}

/// `floor(val / step) * step`; `None` where the arithmetic overflows or `step` is zero.
fn floor_multiple(val: Dec, step: Dec) -> (r: Option<Dec>)
    ensures
        r == floored_to_step(val, step),
        step_fits(val, step, val@ / step@) ==> r is Some && r->0@ == multiple_below(val@, step@),
{
    match val.checked_div(&step) {
        Some(q) => {
            let n = q.floor();
            let r = n.checked_mul(&step);
            proof {
                use_type_invariant(&q);
                use_type_invariant(&step);
                use_type_invariant(&n);
                lemma_bounds(q);
                lemma_bounds(step);
                lemma_floor_in_bounds(q);
                lemma_dec_of(floored(q), 0);
                if step_fits(val, step, val@ / step@) {
                    lemma_floor_of_quotient(val, step, q);
                    lemma_value_of_multiple(val@ / step@, n, step, r);
                }
            }
            r
        },
        None => None,
    }
}

/// `ceil(val / step) * step`; `None` where the arithmetic overflows or `step` is zero.
fn ceil_multiple(val: Dec, step: Dec) -> (r: Option<Dec>)
    ensures
        r == ceiled_to_step(val, step),
        step_fits(val, step, -((-val@) / step@)) ==> r is Some && r->0@ == multiple_above(
            val@,
            step@,
        ),
{
    match val.checked_div(&step) {
        Some(q) => {
            let n = q.ceil();
            let r = n.checked_mul(&step);
            proof {
                use_type_invariant(&q);
                use_type_invariant(&step);
                lemma_bounds(q);
                lemma_bounds(step);
                lemma_floor_in_bounds(q);
                lemma_dec_of(ceiled(q), 0);
                if step_fits(val, step, -((-val@) / step@)) {
                    lemma_floor_of_quotient(val, step, q);
                    lemma_value_of_multiple(-((-val@) / step@), n, step, r);
                    let k = (-val@) / step@;
                    assert(-(k * step@) == (-k) * step@) by (nonlinear_arith);
                }
            }
            r
        },
        None => None,
    }
}

/// Cutting off decimal places never makes a mantissa larger.
pub proof fn lemma_floor_in_bounds(q: Dec)
    requires
        q.wf(),
    ensures
        -MAX_MANTISSA <= floored(q) <= MAX_MANTISSA,
        -MAX_MANTISSA <= ceiled(q) <= MAX_MANTISSA,
{
    lemma_bounds(q);
    let p = pow10(q.places());
    lemma_pow_positive(10, q.places());
    lemma_quotient_in_bounds(q.num(), p);
    lemma_quotient_in_bounds(-q.num(), p);
}

pub proof fn lemma_quotient_in_bounds(n: int, p: int)
    requires
        p > 0,
        -MAX_MANTISSA <= n <= MAX_MANTISSA,
    ensures
        -MAX_MANTISSA <= n / p <= MAX_MANTISSA,
        n >= 0 ==> n / p >= 0,
{
    lemma_fundamental_div_mod(n, p);
    lemma_mod_bound(n, p);
    let k = n / p;
    let r = n % p;
    assert(-MAX_MANTISSA <= k <= MAX_MANTISSA && (n >= 0 ==> k >= 0)) by (nonlinear_arith)
        requires
            n == p * k + r,
            0 <= r < p,
            p > 0,
            -MAX_MANTISSA <= n <= MAX_MANTISSA,
    ;
}

/// `r` is what [`quantize_decimal`] returns: a multiple of the step below the value, where
/// its steps can be counted and the multiple can be held.
pub open spec fn is_quantized(value: Dec, step: Dec, r: Dec) -> bool {
    &&& Some(r) == quantized(value, step)
    &&& step_fits(value, step, value@ / step@) ==> r@ == multiple_below(value@, step@)
}

/// [`quantize_decimal`], or `None` where its arithmetic overflows.
pub fn checked_quantize_decimal(value: Dec, step: Dec) -> (r: Option<Dec>)
    ensures
        r == quantized(value, step),
        step_fits(value, step, value@ / step@) ==> r is Some && r->0@ == multiple_below(
            value@,
            step@,
        ),
{
    if !step.is_positive() {
        return Some(value);
    }
    floor_multiple(value, step)
}

/// The value rounded down to a multiple of the step; the value itself where the
/// step is not positive.
pub fn quantize_decimal(value: Dec, step: Dec) -> (r: Dec)
    requires
        quantized(value, step) is Some,
    ensures
        is_quantized(value, step, r),
{
    match checked_quantize_decimal(value, step) {
        Some(r) => r,
        None => value,
    }
}

/// What [`quant_utils_floor_to_step`] returns; `None` where the arithmetic overflows.
pub open spec fn floor_to_step(val: Dec, step: Dec) -> Option<Dec> {
    if step@ == 0 {
        Some(val)
    } else {
        floored_to_step(val, step)
    }
}

/// What [`quant_utils_ceil_to_step`] returns; `None` where the arithmetic overflows.
pub open spec fn ceil_to_step(val: Dec, step: Dec) -> Option<Dec> {
    if step@ == 0 {
        Some(val)
    } else {
        ceiled_to_step(val, step)
    }
}

/// What [`quant_utils_snap_price`] returns; `None` where the arithmetic overflows.
pub open spec fn snapped(raw: Dec, tick: Dec, is_buy: bool) -> Option<Dec> {
    if is_buy {
        floor_to_step(raw, tick)
    } else {
        ceil_to_step(raw, tick)
    }
}

/// `r` is what [`quant_utils_floor_to_step`] returns: the multiple of the step below the
/// value, where its steps can be counted and the multiple can be held.
pub open spec fn is_floored(val: Dec, step: Dec, r: Dec) -> bool {
    &&& Some(r) == floor_to_step(val, step)
    &&& step_fits(val, step, val@ / step@) ==> r@ == multiple_below(val@, step@)
}

/// `r` is what [`quant_utils_ceil_to_step`] returns: the multiple of the step above the
/// value, where its steps can be counted and the multiple can be held.
pub open spec fn is_ceiled(val: Dec, step: Dec, r: Dec) -> bool {
    &&& Some(r) == ceil_to_step(val, step)
    &&& step_fits(val, step, -((-val@) / step@)) ==> r@ == multiple_above(val@, step@)
}

/// `r` is what [`quant_utils_snap_price`] returns.
pub open spec fn is_snapped(raw: Dec, tick: Dec, is_buy: bool, r: Dec) -> bool {
    if is_buy {
        is_floored(raw, tick, r)
    } else {
        is_ceiled(raw, tick, r)
    }
}

/// What [`quant_utils_qty_from_quote`] returns; `None` where the arithmetic overflows.
pub open spec fn qty_of_quote(quote: Dec, price: Dec, lot_step: Dec) -> Option<Dec> {
    if price@ == 0 {
        Some(dec_of(0, 0))
    } else {
        match quotient(quote, price) {
            Some(q) => floor_to_step(q, lot_step),
            None => None,
        }
    }
}

/// [`quant_utils_floor_to_step`], or `None` where its arithmetic overflows.
pub fn checked_floor_to_step(val: Dec, step: Dec) -> (r: Option<Dec>)
    ensures
        r == floor_to_step(val, step),
        step_fits(val, step, val@ / step@) ==> r is Some && r->0@ == multiple_below(val@, step@),
{
    if step.is_zero() {
        return Some(val);
    }
    floor_multiple(val, step)
}

/// [`quant_utils_ceil_to_step`], or `None` where its arithmetic overflows.
pub fn checked_ceil_to_step(val: Dec, step: Dec) -> (r: Option<Dec>)
    ensures
        r == ceil_to_step(val, step),
        step_fits(val, step, -((-val@) / step@)) ==> r is Some && r->0@ == multiple_above(
            val@,
            step@,
        ),
{
    if step.is_zero() {
        return Some(val);
    }
    ceil_multiple(val, step)
}

/// The value rounded down to a multiple of the step; the value itself where the step is zero.
pub fn quant_utils_floor_to_step(val: Dec, step: Dec) -> (r: Dec)
    requires
        floor_to_step(val, step) is Some,
    ensures
        is_floored(val, step, r),
{
    match checked_floor_to_step(val, step) {
        Some(r) => r,
        None => val,
    }
}

/// The value rounded up to a multiple of the step; the value itself where the step is zero.
pub fn quant_utils_ceil_to_step(val: Dec, step: Dec) -> (r: Dec)
    requires
        ceil_to_step(val, step) is Some,
    ensures
        is_ceiled(val, step, r),
{
    match checked_ceil_to_step(val, step) {
        Some(r) => r,
        None => val,
    }
}

/// [`quant_utils_snap_price`], or `None` where its arithmetic overflows.
pub fn checked_snap_price(raw: Dec, tick: Dec, is_buy: bool) -> (r: Option<Dec>)
    ensures
        r == snapped(raw, tick, is_buy),
        r matches Some(p) ==> is_snapped(raw, tick, is_buy, p),
{
    if is_buy {
        checked_floor_to_step(raw, tick)
    } else {
        checked_ceil_to_step(raw, tick)
    }
}

/// A price on a tick: not above the raw price for a buyer, not below it for a seller.
pub fn quant_utils_snap_price(raw: Dec, tick: Dec, is_buy: bool) -> (r: Dec)
    requires
        snapped(raw, tick, is_buy) is Some,
    ensures
        Some(r) == snapped(raw, tick, is_buy),
        is_snapped(raw, tick, is_buy, r),
{
    if is_buy {
        quant_utils_floor_to_step(raw, tick)
    } else {
        quant_utils_ceil_to_step(raw, tick)
    }
}

/// `q` is the quote by the price, with so many decimal places that a lot needs no more; and
/// it was not rounded up to a lot.
pub open spec fn buys(quote: Dec, price: Dec, lot_step: Dec, q: Dec) -> bool {
    &&& exists|s: nat| #[trigger]
        rounds_at(quote@ * pow10(28), price@, q@, s) && lot_step@ % pow10((28 - s) as nat) == 0
    &&& q@ % lot_step@ == 0 ==> q@ * price@ <= quote@ * pow10(28)
}

/// The quote by the price is not rounded up to a lot, its lots can be counted, and so many
/// of them can be held.
pub open spec fn quote_fits(quote: Dec, price: Dec, lot_step: Dec) -> bool {
    &&& price@ > 0
    &&& quotient(quote, price) matches Some(q) && buys(quote, price, lot_step, q) && step_fits(
        q,
        lot_step,
        q@ / lot_step@,
    )
}

/// `r` costs no more than the quote, and one lot more would.
pub open spec fn spends(quote: Dec, price: Dec, lot_step: Dec, r: Dec) -> bool {
    &&& r@ % lot_step@ == 0
    &&& r@ * price@ <= quote@ * pow10(28) < (r@ + lot_step@) * price@
}

/// Whole lots below what a quote buys cost no more than the quote, and one more would.
proof fn lemma_lots_bought(quote: Dec, price: Dec, lot_step: Dec, q: Dec, r: Dec)
    requires
        price@ > 0,
        lot_step@ > 0,
        buys(quote, price, lot_step, q),
        r@ == multiple_below(q@, lot_step@),
    ensures
        spends(quote, price, lot_step, r),
{
    let p = price@;
    let l = lot_step@;
    let top = quote@ * pow10(28);
    let s = choose|s: nat| #[trigger]
        rounds_at(top, p, q@, s) && l % pow10((28 - s) as nat) == 0;
    let u = pow10((28 - s) as nat);
    let m = mantissa_at(top, p, s);
    let v = r@;
    let k = q@ / l;
    lemma_pow_positive(10, (28 - s) as nat);
    law_multiple_below(q@, l);
    lemma_fundamental_div_mod(l, u);
    let c = l / u;
    assert(p * u > 0) by (nonlinear_arith)
        requires
            p > 0,
            u > 0,
    ;
    lemma_nearest(top, p * u);
    // Both the number and its lots are whole units of the last decimal place.
    assert(v == (k * c) * u && l == c * u) by (nonlinear_arith)
        requires
            v == k * l,
            l == u * c + 0,
    ;
    let j = k * c;
    assert(m <= j + c - 1) by (nonlinear_arith)
        requires
            m * u < j * u + c * u,
            u > 0,
    ;
    assert(top < (v + l) * p) by (nonlinear_arith)
        requires
            2 * top <= (2 * m + 1) * (p * u),
            m <= j + c - 1,
            v == j * u,
            l == c * u,
            p > 0,
            u > 0,
    ;
    if q@ * p <= top {
        assert(v * p <= top) by (nonlinear_arith)
            requires
                v <= q@,
                q@ * p <= top,
                p > 0,
        ;
    } else {
        assert(v != q@) by {
            if v == q@ {
                assert(q@ % l == 0);
            }
        }
        assert(j <= m - 1) by (nonlinear_arith)
            requires
                j * u < m * u,
                u > 0,
        ;
        assert(v * p <= top) by (nonlinear_arith)
            requires
                (2 * m - 1) * (p * u) <= 2 * top,
                j <= m - 1,
                v == j * u,
                p > 0,
                u > 0,
        ;
    }
}

/// [`quant_utils_qty_from_quote`], or `None` where its arithmetic overflows.
pub fn checked_qty_from_quote(quote: Dec, price: Dec, lot_step: Dec) -> (r: Option<Dec>)
    ensures
        r == qty_of_quote(quote, price, lot_step),
        quote_fits(quote, price, lot_step) ==> r is Some && spends(quote, price, lot_step, r->0),
{
    if price.is_zero() {
        return Some(Dec::new(0, 0));
    }
    match quote.checked_div(&price) {
        Some(q) => {
            let r = checked_floor_to_step(q, lot_step);
            proof {
                if quote_fits(quote, price, lot_step) {
                    lemma_lots_bought(quote, price, lot_step, q, r->0);
                }
            }
            r
        },
        None => None,
    }
}

/// How much an amount of the quote asset buys, rounded down to a lot; nothing
/// where the price is zero.
pub fn quant_utils_qty_from_quote(quote: Dec, price: Dec, lot_step: Dec) -> (r: Dec)
    requires
        qty_of_quote(quote, price, lot_step) is Some,
    ensures
        Some(r) == qty_of_quote(quote, price, lot_step),
        quote_fits(quote, price, lot_step) ==> spends(quote, price, lot_step, r),
{
    match checked_qty_from_quote(quote, price, lot_step) {
        Some(r) => r,
        None => quote,
    }
}

/// A multiple of a step is divided by it without a rest, and is its own multiple below and
/// above.
pub proof fn lemma_multiple_fits(n: int, step: Dec, r: Dec)
    requires
        step@ > 0,
        r@ == n * step@,
        -MAX_MANTISSA <= n <= MAX_MANTISSA,
        can_be_held(n * step@),
    ensures
        step_fits(r, step, r@ / step@),
        step_fits(r, step, -((-r@) / step@)),
        multiple_below(r@, step@) == r@,
        multiple_above(r@, step@) == r@,
{
    let t = pow10(28);
    let s = step@;
    lemma_pow_positive(10, 28);
    lemma_div_multiples_vanish(n, s);
    lemma_div_multiples_vanish(-n, s);
    assert(s * n == n * s && (-n) * s == -(n * s) && s * (-n) == -(n * s)) by (nonlinear_arith);
    let top = r@ * t;
    assert(top == n * (s * t) && top == (n * t) * s && s * t > 0) by (nonlinear_arith)
        requires
            top == (n * s) * t,
            s > 0,
            t > 0,
    ;
    lemma_nearest_of_multiple(n, s * t);
    lemma_exact(n, 0, s);
    assert forall|w: int| #[trigger] rounds_to(top, s, w) implies w * s == top by {
        law_rounding_is_unique(top, s, w, top, s, n * t);
    }
}

/// The steps next to a value are not too many to count.
pub proof fn lemma_count_in_bounds(v: Dec, step: Dec)
    requires
        count_kept(v, step),
    ensures
        -MAX_MANTISSA <= v@ / step@ <= MAX_MANTISSA,
        -MAX_MANTISSA <= -((-v@) / step@) <= MAX_MANTISSA,
{
    let n = v@ * pow10(28);
    lemma_rounds(n, step@);
    let w = choose|w: int| rounds_to(n, step@, w);
    lemma_between(v, step, w);
}

/// The steps of the negative of a value can be counted where those of the value can.
proof fn lemma_negative_fits(val: Dec, negative: Dec, step: Dec)
    requires
        negative@ == -val@,
        step_fits(val, step, -((-val@) / step@)),
    ensures
        step_fits(negative, step, negative@ / step@),
{
    let t = pow10(28);
    let s = step@;
    let top = val@ * t;
    lemma_pow_positive(10, 28);
    assert((-val@) * t == -top && s * t > 0) by (nonlinear_arith)
        requires
            top == val@ * t,
            s > 0,
            t > 0,
    ;
    law_nearest_of_negative(top, s * t);
    assert forall|w: int| #[trigger] rounds_to(-top, s, w) && w % t == 0 implies w * s == -top by {
        law_rounding_of_negative(-top, s, w);
        lemma_fundamental_div_mod(w, t);
        let j = w / t;
        assert(-w == (-j) * t + 0) by (nonlinear_arith)
            requires
                w == t * j + 0,
        ;
        lemma_fundamental_div_mod_converse(-w, t, -j, 0);
        assert(--top == top);
        assert((-w) * s == -(w * s)) by (nonlinear_arith);
    }
    let n = (-val@) / s;
    assert((-n) * s == -(n * s)) by (nonlinear_arith);
    law_rounding_of_negative((-n) * s, 1, (-n) * s);
}

/// A number that is quantized is a multiple of the step, not above the value and less than
/// one step below it; where there is no step it is the value. Quantizing it once more
/// changes nothing.
pub proof fn law_quantizing(value: Dec, step: Dec, r: Dec, again: Dec)
    requires
        step@ > 0 ==> step_fits(value, step, value@ / step@),
        is_quantized(value, step, r),
        is_quantized(r, step, again),
    ensures
        step@ > 0 ==> r@ % step@ == 0 && r@ <= value@ < r@ + step@,
        step@ <= 0 ==> r == value,
        again@ == r@,
{
    if step@ > 0 {
        law_multiple_below(value@, step@);
        lemma_count_in_bounds(value, step);
        lemma_multiple_fits(value@ / step@, step, r);
    }
}

/// Of two values the smaller is not quantized above the larger.
pub proof fn law_quantizing_keeps_order(v1: Dec, v2: Dec, step: Dec, r1: Dec, r2: Dec)
    requires
        v1@ <= v2@,
        step@ > 0 ==> step_fits(v1, step, v1@ / step@) && step_fits(v2, step, v2@ / step@),
        is_quantized(v1, step, r1),
        is_quantized(v2, step, r2),
    ensures
        r1@ <= r2@,
{
    if step@ > 0 {
        lemma_div_is_ordered(v1@, v2@, step@);
        let a = v1@ / step@;
        let b = v2@ / step@;
        let s = step@;
        assert(a * s <= b * s) by (nonlinear_arith)
            requires
                a <= b,
                s > 0,
        ;
    }
}

/// The multiples of a step below and above a value: both are the value where it is one,
/// and else they are one step apart. The one above is the negative of the one below the
/// negative. Where there is no step both are the value.
pub proof fn law_floor_and_ceil(val: Dec, negative: Dec, step: Dec, f: Dec, c: Dec, g: Dec)
    requires
        step@ >= 0,
        negative@ == -val@,
        step@ > 0 ==> step_fits(val, step, val@ / step@) && step_fits(
            val,
            step,
            -((-val@) / step@),
        ),
        is_floored(val, step, f),
        is_ceiled(val, step, c),
        is_floored(negative, step, g),
    ensures
        step@ == 0 ==> f == val && c == val,
        step@ > 0 ==> f@ % step@ == 0 && c@ % step@ == 0 && f@ <= val@ <= c@,
        step@ > 0 && val@ % step@ == 0 ==> c@ == f@,
        step@ > 0 && val@ % step@ != 0 ==> c@ == f@ + step@,
        c@ == -g@,
{
    if step@ > 0 {
        let v = val@;
        let s = step@;
        lemma_negative_fits(val, negative, step);
        law_multiple_below(v, s);
        law_multiple_above(v, s);
        lemma_fundamental_div_mod(v, s);
        lemma_mod_bound(v, s);
        let k = v / s;
        let rest = v % s;
        if rest == 0 {
            assert(-v == (-k) * s + 0) by (nonlinear_arith)
                requires
                    v == s * k + 0,
            ;
            lemma_fundamental_div_mod_converse(-v, s, -k, 0);
            assert(-((-k) * s) == k * s) by (nonlinear_arith);
        } else {
            assert(-v == (-k - 1) * s + (s - rest)) by (nonlinear_arith)
                requires
                    v == s * k + rest,
            ;
            assert(s * (-k - 1) == (-k - 1) * s) by (nonlinear_arith);
            lemma_fundamental_div_mod_converse(-v, s, -k - 1, s - rest);
            assert(-((-k - 1) * s) == k * s + s) by (nonlinear_arith);
        }
    }
}

/// A price on a tick stays where it is when it is snapped once more, for a buyer and for a
/// seller.
pub proof fn law_snapping_twice(raw: Dec, tick: Dec, is_buy: bool, r: Dec, for_buyer: bool, again: Dec)
    requires
        tick@ >= 0,
        tick@ > 0 && is_buy ==> step_fits(raw, tick, raw@ / tick@),
        tick@ > 0 && !is_buy ==> step_fits(raw, tick, -((-raw@) / tick@)),
        is_snapped(raw, tick, is_buy, r),
        is_snapped(r, tick, for_buyer, again),
    ensures
        tick@ == 0 ==> r == raw,
        tick@ > 0 && is_buy ==> r@ == multiple_below(raw@, tick@),
        tick@ > 0 && !is_buy ==> r@ == multiple_above(raw@, tick@),
        again@ == r@,
{
    if tick@ > 0 {
        lemma_count_in_bounds(raw, tick);
        if is_buy {
            lemma_multiple_fits(raw@ / tick@, tick, r);
        } else {
            let k = (-raw@) / tick@;
            assert(-(k * tick@) == (-k) * tick@) by (nonlinear_arith);
            lemma_multiple_fits(-k, tick, r);
        }
    }
}

/// `d` without its sign.
pub open spec fn abs_of(d: Dec) -> Dec {
    dec_of(
        if d.num() < 0 {
            -d.num()
        } else {
            d.num()
        },
        d.places(),
    )
}

/// How far two prices are apart, in hundredths of a percent of the old one. Finite ones are
/// kept as a share of the old price, of which ten thousand times as many are counted, so
/// that none is too large to be held.
#[derive(Clone, Copy, Debug)]
pub enum BpsDiff {
    Infinite,
    Finite { share: Dec },
}

impl BpsDiff {
    /// The count, if it can be held; none where it is infinite.
    pub fn bps(&self) -> (r: Option<Dec>)
        ensures
            r == match *self {
                BpsDiff::Infinite => None,
                BpsDiff::Finite { share } => product(share, dec_of(10_000, 0)),
            },
            *self matches BpsDiff::Finite { share } ==> rounded(value_of(r), share@ * 10_000, 1),
    {
        match self {
            BpsDiff::Infinite => None,
            BpsDiff::Finite { share } => {
                let k = Dec::new(10_000, 0);
                let r = share.checked_mul(&k);
                proof {
                    let one = pow10(28);
                    lemma_pow_positive(10, 28);
                    assert(share@ * k@ == (share@ * 10_000) * one && 1 * one == one)
                        by (nonlinear_arith)
                        requires
                            k@ == 10_000 * one,
                    ;
                    law_rounding_scales(share@ * 10_000, 1, one, value_of(r));
                }
                r
            },
        }
    }
}

/// What [`quant_utils_bps_diff`] returns.
pub open spec fn bps_between(old_px: Dec, new_px: Dec) -> Option<BpsDiff> {
    if old_px@ == 0 {
        Some(BpsDiff::Infinite)
    } else {
        match difference(new_px, old_px) {
            Some(d) => match quotient(abs_of(d), old_px) {
                Some(share) => Some(BpsDiff::Finite { share }),
                None => None,
            },
            None => None,
        }
    }
}

/// How far two prices are apart: their difference without its sign by the old one.
pub open spec fn distance_told(old_px: int, new_px: int, r: BpsDiff) -> bool {
    old_px > 0 ==> (r matches BpsDiff::Finite { share } && exists|d: int| #[trigger]
        rounds_to(new_px - old_px, 1, d) && rounds_to(
            size_of_int(d) * pow10(28),
            old_px,
            share@,
        ))
}

pub open spec fn size_of_int(d: int) -> int {
    if d < 0 {
        -d
    } else {
        d
    }
}

/// Prices are never a negative way apart, none where they are the same, as far where the one is as
/// much above as the other is below, and by their difference where the steps can be held.
pub proof fn law_distance_of_prices(
    old_px: int,
    new_px: int,
    r: BpsDiff,
    mirrored: BpsDiff,
    share: int,
)
    requires
        old_px > 0,
        distance_told(old_px, new_px, r),
        distance_told(old_px, 2 * old_px - new_px, mirrored),
    ensures
        r matches BpsDiff::Finite { share: s } && s@ >= 0,
        r matches BpsDiff::Finite { share: s } && mirrored matches BpsDiff::Finite { share: t }
            && s@ == t@,
        new_px == old_px ==> (r matches BpsDiff::Finite { share: s } && s@ == 0),
        can_be_held(new_px - old_px) && can_be_held(share) && share * old_px == size_of_int(
            new_px - old_px,
        ) * pow10(28) ==> (r matches BpsDiff::Finite { share: s } && s@ == share),
{
    lemma_zero_and_one();
    lemma_pow_positive(10, 28);
    let s = r->share@;
    let t = mirrored->share@;
    let d = choose|d: int| #[trigger]
        rounds_to(new_px - old_px, 1, d) && rounds_to(size_of_int(d) * pow10(28), old_px, s);
    let e = choose|d: int| #[trigger]
        rounds_to((2 * old_px - new_px) - old_px, 1, d) && rounds_to(
            size_of_int(d) * pow10(28),
            old_px,
            t,
        );
    law_rounding_of_negative(new_px - old_px, 1, d);
    law_rounding_is_unique(-(new_px - old_px), 1, -d, (2 * old_px - new_px) - old_px, 1, e);
    law_rounding_is_unique(
        size_of_int(d) * pow10(28),
        old_px,
        s,
        size_of_int(e) * pow10(28),
        old_px,
        t,
    );
    let n = size_of_int(d) * pow10(28);
    assert(n >= 0 && 0 * pow10(28) == 0) by (nonlinear_arith)
        requires
            n == size_of_int(d) * pow10(28),
            size_of_int(d) >= 0,
            pow10(28) > 0,
    ;
    law_rounding_above(n, old_px, s, 0);
    if new_px == old_px {
        law_exact_is_kept(new_px - old_px, 1, d, 0);
        law_exact_is_kept(n, old_px, s, 0);
    }
    if can_be_held(new_px - old_px) && can_be_held(share) && share * old_px == size_of_int(
        new_px - old_px,
    ) * pow10(28) {
        law_exact_is_kept(new_px - old_px, 1, d, new_px - old_px);
        law_exact_is_kept(n, old_px, s, share);
    }
}

/// How far two prices are apart, in hundredths of a percent of the old one: infinitely far
/// where that is zero. `None` where the arithmetic overflows.
pub fn quant_utils_bps_diff(old_px: Dec, new_px: Dec) -> (r: Option<BpsDiff>)
    ensures
        r == bps_between(old_px, new_px),
        old_px@ == 0 ==> r == Some(BpsDiff::Infinite),
        r matches Some(d) ==> distance_told(old_px@, new_px@, d),
{
    if old_px.is_zero() {
        return Some(BpsDiff::Infinite);
    }
    match new_px.checked_sub(&old_px) {
        Some(d) => match abs_dec(d).checked_div(&old_px) {
            Some(share) => {
                assert(rounds_to(new_px@ - old_px@, 1, d@));
                Some(BpsDiff::Finite { share })
            },
            None => None,
        },
        None => None,
    }
}

/// The value of a number without its sign.
pub proof fn lemma_abs(d: Dec)
    requires
        d.wf(),
    ensures
        abs_of(d)@ == if d@ < 0 {
            -d@
        } else {
            d@
        },
{
    let n = if d.num() < 0 {
        -d.num()
    } else {
        d.num()
    };
    lemma_bounds(d);
    lemma_dec_of(n, d.places());
    let u = pow10((28 - d.places()) as nat);
    let m = d.num();
    assert((-m) * u == -(m * u)) by (nonlinear_arith);
}

/// `d` without its sign.
pub fn abs_dec(d: Dec) -> (r: Dec)
    ensures
        r == abs_of(d),
        r@ == if d@ < 0 {
            -d@
        } else {
            d@
        },
{
    let r = d.abs();
    proof {
        use_type_invariant(&d);
        lemma_bounds(d);
        lemma_dec_of(r.num(), r.places());
    }
    r
}

/// The precision that a step calls for.
pub open spec fn step_scale(step: Dec) -> nat {
    if step@ == 0 {
        8
    } else if step@ >= pow10(28) {
        0
    } else {
        step.places()
    }
}

/// The precision that a step calls for: its decimal places, none for a step of
/// one or more, and eight where there is no step.
pub fn scale_from_step(step: Dec) -> (r: usize)
    ensures
        r == step_scale(step),
        r <= 28,
{
    if step.is_zero() {
        return 8;
    }
    let one = Dec::new(1, 0);
    assert(one@ == pow10(28)) by {
        assert(1 * pow10(28) == pow10(28));
    }
    if one.le(&step) {
        return 0;
    }
    step.scale() as usize
}

/// A step can be written with `k` decimal places and not with fewer.
pub open spec fn fewest_places(step: Dec, k: nat) -> bool {
    &&& k <= 28
    &&& step@ % pow10((28 - k) as nat) == 0
    &&& k > 0 ==> step@ % pow10((29 - k) as nat) != 0
}

/// A step does not need more decimal places than it has.
pub proof fn lemma_fewest_not_above(step: Dec, k: nat)
    requires
        step.wf(),
        fewest_places(step, k),
    ensures
        k <= step.places(),
{
    lemma_bounds(step);
    let p = step.places();
    if k > p {
        let unit = pow10((29 - k) as nat);
        let more = pow10((k - p - 1) as nat);
        lemma_pow_positive(10, (29 - k) as nat);
        lemma_pow_adds(10, (29 - k) as nat, (k - p - 1) as nat);
        assert(pow10((28 - p) as nat) == unit * more);
        assert(step@ == (step.num() * more) * unit) by (nonlinear_arith)
            requires
                step@ == step.num() * (unit * more),
        ;
        lemma_mod_multiples_basic(step.num() * more, unit);
    }
}

/// `n` is the number `d` with the fewest decimal places.
pub open spec fn shortest(n: Dec, d: Dec) -> bool {
    n@ == d@ && fewest_places(d, n.places())
}

/// A number with the fewest decimal places.
pub fn shortest_form(d: Dec) -> (r: Dec)
    ensures
        shortest(r, d),
{
    let n = d.normalize();
    proof {
        use_type_invariant(&n);
        lemma_bounds(n);
        let k = n.places();
        let p = pow10((28 - k) as nat);
        lemma_pow_positive(10, (28 - k) as nat);
        lemma_mod_multiples_basic(n.num(), p);
        if k > 0 {
            lemma_pow_adds(10, 1, (28 - k) as nat);
            lemma_pow1(10);
            let q = pow10((29 - k) as nat);
            assert(q == 10 * p);
            lemma_truncate_middle_signed(n.num(), p, 10);
            assert((n.num() % 10) * p != 0) by (nonlinear_arith)
                requires
                    n.num() % 10 != 0,
                    p > 0,
            ;
        } else {
            assert(n@ == n.num() * pow10(28));
        }
    }
    n
}

/// The fewest decimal places that a step can be written with.
pub fn decimal_places(step: Dec) -> (r: usize)
    ensures
        fewest_places(step, r as nat),
{
    shortest_form(step).scale() as usize
}

/// Cancelling a factor from a remainder.
proof fn lemma_truncate_middle_signed(n: int, p: int, c: int)
    requires
        p > 0,
        c > 0,
    ensures
        (n * p) % (c * p) == (n % c) * p,
{
    lemma_fundamental_div_mod(n, c);
    lemma_mod_bound(n, c);
    let k = n / c;
    let r = n % c;
    assert(n * p == k * (c * p) + r * p) by (nonlinear_arith)
        requires
            n == c * k + r,
    ;
    assert(0 <= r * p < c * p) by (nonlinear_arith)
        requires
            0 <= r < c,
            p > 0,
    ;
    lemma_fundamental_div_mod_converse(n * p, c * p, k, r * p);
}

/// The size of `d`, cut to `p` decimal places, in units of the last of them.
pub open spec fn cut_units(d: Dec, p: nat) -> nat {
    let m = if d.num() < 0 { -d.num() } else { d.num() };
    if d.places() <= p {
        (m * pow10((p - d.places()) as nat)) as nat
    } else {
        (m / pow10((d.places() - p) as nat)) as nat
    }
}

/// At most 28 decimal places.
pub open spec fn capped(precision: nat) -> nat {
    if precision < 28 {
        precision
    } else {
        28
    }
}

/// A number with exactly `precision` decimal places, at most 28; what it has
/// beyond them is cut off. What is left of a negative number keeps its sign; nothing has none.
pub open spec fn fixed_text(value: Dec, precision: nat) -> Seq<char> {
    let p = capped(precision);
    let m = cut_units(value, p);
    let sign = if value.num() < 0 && m > 0 { seq!['-'] } else { Seq::empty() };
    let whole = nat_text((m as int / pow10(p)) as nat);
    if p == 0 {
        sign + whole
    } else {
        sign + whole + seq!['.'] + fixed_digits((m as int % pow10(p)) as nat, p)
    }
}

/// Zeros behind digits are the digits of a larger number.
proof fn lemma_digits_then_zeros(n: nat, k: nat, j: nat)
    ensures
        fixed_digits((n * pow10(j)) as nat, k + j) == fixed_digits(n, k) + zeros(j),
        n * pow10(j) >= 0,
    decreases j,
{
    lemma_pow_positive(10, j);
    assert(n * pow10(j) >= 0) by (nonlinear_arith)
        requires
            n >= 0,
            pow10(j) > 0,
    ;
    if j == 0 {
        lemma_pow0(10);
        assert(n * pow10(0) == n) by (nonlinear_arith)
            requires
                pow10(0) == 1,
        ;
        assert(fixed_digits(n, k) + zeros(0) =~= fixed_digits(n, k));
    } else {
        let i = (j - 1) as nat;
        lemma_digits_then_zeros(n, k, i);
        lemma_pow_adds(10, 1, i);
        lemma_pow1(10);
        let a = n * pow10(i);
        assert(n * pow10(j) == a * 10) by (nonlinear_arith)
            requires
                pow10(j) == 10 * pow10(i),
                a == n * pow10(i),
        ;
        assert((a * 10) / 10 == a && (a * 10) % 10 == 0);
        assert(digit_char(0) == '0');
        assert((fixed_digits(n, k) + zeros(i)).push('0') =~= fixed_digits(n, k) + zeros(j));
    }
}

/// Multiplying by a power of ten moves the point.
proof fn lemma_shift(t: nat, k: nat, j: nat)
    ensures
        (t * pow10(j)) / pow10(k + j) == t as int / pow10(k),
        (t * pow10(j)) % pow10(k + j) == (t as int % pow10(k)) * pow10(j),
        t as int % pow10(k) >= 0,
{
    lemma_pow_positive(10, j);
    lemma_pow_positive(10, k);
    lemma_pow_adds(10, k, j);
    let a = pow10(k);
    let b = pow10(j);
    lemma_truncate_middle_signed(t as int, b, a);
    lemma_mod_bound(t as int, a);
    lemma_fundamental_div_mod(t as int, a);
    let q = t as int / a;
    let r = t as int % a;
    assert(t * b == (a * b) * q + r * b) by (nonlinear_arith)
        requires
            t == a * q + r,
    ;
    assert(0 <= r * b < a * b) by (nonlinear_arith)
        requires
            0 <= r < a,
            b > 0,
    ;
    lemma_fundamental_div_mod_converse(t * b, a * b, q, r * b);
}

/// The number with exactly `precision` decimal places, at most 28; what it has
/// beyond them is cut off.
pub fn format_decimal_fixed(value: Dec, precision: usize) -> (r: String)
    ensures
        r@ == fixed_text(value, precision as nat),
{
    let scale: u32 = if precision < 28 {
        precision as u32
    } else {
        28
    };
    let truncated = value.cut_to_zero(scale);
    let mut s = truncated.to_text();
    let current: u32 = truncated.scale();
    proof {
        use_type_invariant(&value);
        lemma_bounds(value);
        let p = scale as nat;
        let m = if value.num() < 0 { -value.num() } else { value.num() };
        if value.places() > p {
            let q = pow10((value.places() - p) as nat);
            lemma_pow_positive(10, (value.places() - p) as nat);
            lemma_quotient_in_bounds(m, q);
            lemma_dec_of(cut(value, p), p);
        }
        let k = truncated.places();
        let t = (if truncated.num() < 0 { -truncated.num() } else { truncated.num() }) as nat;
        let j = (p - k) as nat;
        lemma_shift(t, k, j);
        lemma_pow_positive(10, j);
        lemma_pow0(10);
        assert(m * pow10(0) == m && t * pow10(0) == t) by (nonlinear_arith)
            requires
                pow10(0) == 1,
        ;
        assert(cut_units(value, p) == t * pow10(j));
        assert(t > 0 <==> t * pow10(j) > 0) by (nonlinear_arith)
            requires
                pow10(j) > 0,
                t >= 0,
        ;
        lemma_digits_then_zeros((t as int % pow10(k)) as nat, k, j);
    }
    if scale == 0 {
        assert(s@ =~= fixed_text(value, precision as nat));
        s
    } else {
        if current == 0 {
            s.push('.');
            proof {
                assert(fixed_digits(
                    (truncated.num() % pow10(0)) as nat,
                    0,
                ) =~= Seq::<char>::empty());
            }
        }
        push_zeros(&mut s, (scale - current) as usize);
        assert(s@ =~= fixed_text(value, precision as nat));
        s
    }
}

/// What digits in decimal stand for.
proof fn lemma_nat_text(n: nat)
    ensures
        all_digits(nat_text(n)),
        digits_value(nat_text(n)) == n,
    decreases n,
{
    if n >= 10 {
        lemma_nat_text(n / 10);
        let head = nat_text(n / 10);
        let last = digit_char((n % 10) as int);
        assert(nat_text(n).drop_last() =~= head);
        assert(nat_text(n).last() == last);
    } else {
        let t = nat_text(n);
        assert(t.drop_last() =~= Seq::<char>::empty());
        assert(digits_value(t.drop_last()) == 0);
        assert(t.last() == digit_char(n as int));
    }
}

/// What a fixed count of digits stands for.
proof fn lemma_fixed_digits(n: nat, k: nat)
    ensures
        fixed_digits(n, k).len() == k,
        forall|i: int| 0 <= i < k ==> is_digit(#[trigger] fixed_digits(n, k)[i]),
        digits_value(fixed_digits(n, k)) == n as int % pow10(k),
    decreases k,
{
    lemma_pow_positive(10, k);
    if k == 0 {
        lemma_pow0(10);
        assert(n as int % 1 == 0);
    } else {
        let j = (k - 1) as nat;
        lemma_fixed_digits(n / 10, j);
        lemma_pow_positive(10, j);
        lemma_pow_adds(10, 1, j);
        lemma_pow1(10);
        let p = pow10(j);
        let t = fixed_digits(n, k);
        assert(t.drop_last() =~= fixed_digits(n / 10, j));
        assert(t.last() == digit_char((n % 10) as int));
        let q = (n / 10) as int;
        lemma_fundamental_div_mod(q, p);
        lemma_mod_bound(q, p);
        let a = q / p;
        let b = q % p;
        let d = (n % 10) as int;
        assert(n == (10 * p) * a + (b * 10 + d)) by (nonlinear_arith)
            requires
                n == q * 10 + d,
                q == p * a + b,
        ;
        lemma_fundamental_div_mod_converse(n as int, 10 * p, a, b * 10 + d);
    }
}

/// The number that a text with `p` digits behind its point stands for, without its sign,
/// in units of the last of them.
pub open spec fn written_units(text: Seq<char>, p: nat) -> int {
    let t = if text.len() > 0 && text[0] == '-' {
        text.skip(1)
    } else {
        text
    };
    if p == 0 {
        digits_value(t) as int
    } else {
        digits_value(t.take(t.len() - p - 1)) * pow10(p) + digits_value(t.skip(t.len() - p))
    }
}

/// A number that is cut is not larger in size than it was, by less than a unit of the last
/// decimal place that is kept.
proof fn lemma_cut_units(d: Dec, p: nat)
    requires
        d.wf(),
        p <= 28,
    ensures
        cut_units(d, p) * pow10((28 - p) as nat) <= abs_of(d)@ < (cut_units(d, p) + 1) * pow10(
            (28 - p) as nat,
        ),
{
    lemma_bounds(d);
    let m = if d.num() < 0 { -d.num() } else { d.num() };
    lemma_dec_of(m, d.places());
    let u = pow10((28 - p) as nat);
    let v = pow10((28 - d.places()) as nat);
    lemma_pow_positive(10, (28 - p) as nat);
    lemma_pow_positive(10, (28 - d.places()) as nat);
    let k = cut_units(d, p) as int;
    if d.places() <= p {
        let c = pow10((p - d.places()) as nat);
        lemma_pow_positive(10, (p - d.places()) as nat);
        lemma_pow_adds(10, (p - d.places()) as nat, (28 - p) as nat);
        assert(k * u == m * v && k >= 0) by (nonlinear_arith)
            requires
                k == m * c || m * c < 0,
                v == c * u,
                m >= 0,
                c > 0,
        ;
    } else {
        let c = pow10((d.places() - p) as nat);
        lemma_pow_positive(10, (d.places() - p) as nat);
        lemma_pow_adds(10, (d.places() - p) as nat, (28 - d.places()) as nat);
        lemma_fundamental_div_mod(m, c);
        lemma_mod_bound(m, c);
        lemma_quotient_in_bounds(m, c);
        let rest = m % c;
        assert(k * u <= m * v && m * v < (k + 1) * u) by (nonlinear_arith)
            requires
                m == c * k + rest,
                0 <= rest < c,
                u == c * v,
                v > 0,
        ;
    }
    assert((k + 1) * u == k * u + u) by (nonlinear_arith);
}

/// A number written with a fixed count of decimal places, 28 at most, has just as many
/// digits behind its point, and no point where there are none. Read again, it is the number
/// cut towards zero: not larger in size, and by less than a unit of the last place.
pub proof fn law_fixed_text(value: Dec, precision: nat)
    requires
        value.wf(),
    ensures
        ({
            let p = capped(precision);
            let text = fixed_text(value, precision);
            let units = written_units(text, p);
            let unit = pow10((28 - p) as nat);
            let point = text.len() - p - 1;
            &&& p == 0 ==> forall|i: int| 0 <= i < text.len() ==> #[trigger] text[i] != '.'
            &&& p > 0 ==> 0 < point && text[point] == '.' && forall|i: int|
                0 <= i < text.len() && i != point ==> #[trigger] text[i] != '.'
            &&& forall|i: int| 0 < i < text.len() && text[i] != '.' ==> is_digit(#[trigger] text[i])
            &&& is_digit(text[0]) || text[0] == '-'
            &&& units * unit <= abs_of(value)@ < (units + 1) * unit
            &&& text[0] == '-' <==> value@ < 0 && units > 0
            &&& precision > 28 ==> text == fixed_text(value, 28)
        }),
{
    let p = capped(precision);
    let text = fixed_text(value, precision);
    let m = cut_units(value, p);
    lemma_bounds(value);
    lemma_pow_positive(10, p);
    let w = (m as int / pow10(p)) as nat;
    let f = (m as int % pow10(p)) as nat;
    lemma_fundamental_div_mod(m as int, pow10(p));
    lemma_mod_bound(m as int, pow10(p));
    lemma_div_pos_is_pos(m as int, pow10(p));
    lemma_nat_text(w);
    lemma_fixed_digits(f, p);
    lemma_cut_units(value, p);
    let whole = nat_text(w);
    let tail = fixed_digits(f, p);
    let negative = value.num() < 0 && m > 0;
    let sign = if negative { seq!['-'] } else { Seq::<char>::empty() };
    assert(whole.len() > 0 && is_digit(whole[0]));
    let t = if p == 0 {
        whole
    } else {
        whole + seq!['.'] + tail
    };
    assert(text =~= sign + t);
    let start: int = if negative {
        1
    } else {
        0
    };
    assert(forall|i: int| start <= i < text.len() ==> #[trigger] text[i] == t[i - start]);
    assert(text[0] == '-' <==> negative);
    if negative {
        assert(text.skip(1) =~= t);
    } else {
        assert(text =~= t);
    }
    assert(m == w * pow10(p) + f) by (nonlinear_arith)
        requires
            m == pow10(p) * w + f,
    ;
    if p == 0 {
        lemma_pow0(10);
        assert(w * 1 == w);
    } else {
        assert(t.take(t.len() - p - 1) =~= whole);
        assert(t.skip(t.len() - p) =~= tail);
        lemma_small_mod(f, pow10(p) as nat);
    }
    assert(written_units(text, p) == m);
}

} // verus!
