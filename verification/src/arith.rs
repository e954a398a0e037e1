//! Formulas over decimals: a formula has no value where one of its parts has none,
//! or where a result cannot be held.
use vstd::prelude::*;

use vstd::arithmetic::power::lemma_pow_positive;

use crate::decimal::{
    dec_of, difference, lemma_bounds, lemma_dec_of, lemma_powers, lemma_value, one, pow10, product,
    quotient, quotient_rounded, sum, value_of, Dec, MAX_MANTISSA,
};
use crate::quant::{abs_dec, abs_of};
use crate::rounding::{
    can_be_held, law_exact_is_kept, law_rounding_above, law_rounding_below, law_rounding_scales,
    lemma_held, lemma_zero_and_one, rounded, rounds_to,
};

verus! {

pub open spec fn plus(a: Option<Dec>, b: Option<Dec>) -> Option<Dec> {
    match (a, b) {
        (Some(x), Some(y)) => sum(x, y),
        _ => None,
    }
}

pub open spec fn minus(a: Option<Dec>, b: Option<Dec>) -> Option<Dec> {
    match (a, b) {
        (Some(x), Some(y)) => difference(x, y),
        _ => None,
    }
}

pub open spec fn times(a: Option<Dec>, b: Option<Dec>) -> Option<Dec> {
    match (a, b) {
        (Some(x), Some(y)) => product(x, y),
        _ => None,
    }
}

/// The quotient; none where `b` is zero.
pub open spec fn over(a: Option<Dec>, b: Option<Dec>) -> Option<Dec> {
    match (a, b) {
        (Some(x), Some(y)) => quotient(x, y),
        _ => None,
    }
}

/// The number without its sign.
pub open spec fn unsigned(a: Option<Dec>) -> Option<Dec> {
    match a {
        Some(x) => Some(abs_of(x)),
        None => None,
    }
}

/// The larger of the two; the first where they are the same.
pub open spec fn higher(a: Option<Dec>, b: Option<Dec>) -> Option<Dec> {
    match (a, b) {
        (Some(x), Some(y)) => Some(
            if x@ < y@ {
                y
            } else {
                x
            },
        ),
        _ => None,
    }
}

/// The smaller of the two; the first where they are the same.
pub open spec fn lower(a: Option<Dec>, b: Option<Dec>) -> Option<Dec> {
    match (a, b) {
        (Some(x), Some(y)) => Some(
            if y@ < x@ {
                y
            } else {
                x
            },
        ),
        _ => None,
    }
}

/// The number `num / 10^places`.
pub open spec fn lit(num: int, places: nat) -> Option<Dec> {
    Some(dec_of(num, places))
}

/// `a` in hundredths of a percent of `b`.
pub open spec fn in_bps(a: Option<Dec>, b: Option<Dec>) -> Option<Dec> {
    times(over(a, b), lit(10_000, 0))
}

/// How far `new` is from `old`, in hundredths of a percent of `old`.
pub open spec fn change_bps(old_px: Option<Dec>, new_px: Option<Dec>) -> Option<Dec> {
    in_bps(minus(new_px, old_px), old_px)
}

pub fn add_opt(a: Option<Dec>, b: Option<Dec>) -> (r: Option<Dec>)
    ensures
        r == plus(a, b),
        a is Some && b is Some ==> rounded(value_of(r), a->0@ + b->0@, 1),
{
    match (a, b) {
        (Some(x), Some(y)) => x.checked_add(&y),
        _ => None,
    }
}

pub fn sub_opt(a: Option<Dec>, b: Option<Dec>) -> (r: Option<Dec>)
    ensures
        r == minus(a, b),
        a is Some && b is Some ==> rounded(value_of(r), a->0@ - b->0@, 1),
{
    match (a, b) {
        (Some(x), Some(y)) => x.checked_sub(&y),
        _ => None,
    }
}

pub fn mul_opt(a: Option<Dec>, b: Option<Dec>) -> (r: Option<Dec>)
    ensures
        r == times(a, b),
        a is Some && b is Some ==> rounded(value_of(r), a->0@ * b->0@, pow10(28)),
{
    match (a, b) {
        (Some(x), Some(y)) => x.checked_mul(&y),
        _ => None,
    }
}

pub fn div_opt(a: Option<Dec>, b: Option<Dec>) -> (r: Option<Dec>)
    ensures
        r == over(a, b),
        a is Some && b is Some && b->0@ != 0 ==> quotient_rounded(r, a->0, b->0),
        b is Some && b->0@ == 0 ==> r is None,
{
    match (a, b) {
        (Some(x), Some(y)) => x.checked_div(&y),
        _ => None,
    }
}

pub fn abs_opt(a: Option<Dec>) -> (r: Option<Dec>)
    ensures
        r == unsigned(a),
{
    match a {
        Some(x) => Some(abs_dec(x)),
        None => None,
    }
}

pub fn max_opt(a: Option<Dec>, b: Option<Dec>) -> (r: Option<Dec>)
    ensures
        r == higher(a, b),
{
    match (a, b) {
        (Some(x), Some(y)) => Some(x.max(&y)),
        _ => None,
    }
}

pub fn min_opt(a: Option<Dec>, b: Option<Dec>) -> (r: Option<Dec>)
    ensures
        r == lower(a, b),
{
    match (a, b) {
        (Some(x), Some(y)) => Some(x.min(&y)),
        _ => None,
    }
}

/// The number `num / 10^scale`.
pub fn number(num: i64, scale: u32) -> (r: Option<Dec>)
    requires
        scale <= 28,
    ensures
        r == lit(num as int, scale as nat),
{
    Some(Dec::new(num, scale))
}

/// A product with a whole number.
pub proof fn lemma_times_whole(a: int, k: int, r: Option<int>)
    requires
        -MAX_MANTISSA <= k <= MAX_MANTISSA,
        rounded(r, a * dec_of(k, 0)@, pow10(28)),
    ensures
        rounded(r, a * k, 1),
{
    let t = pow10(28);
    lemma_dec_of(k, 0);
    lemma_pow_positive(10, 28);
    assert(a * (k * t) == (a * k) * t && 1 * t == t) by (nonlinear_arith);
    law_rounding_scales(a * k, 1, t, r);
}

/// A quotient by a whole number above zero.
pub proof fn lemma_over_whole(a: int, k: int, r: Option<int>)
    requires
        0 < k <= MAX_MANTISSA,
        rounded(r, a * pow10(28), dec_of(k, 0)@),
    ensures
        rounded(r, a, k),
{
    let t = pow10(28);
    lemma_dec_of(k, 0);
    lemma_pow_positive(10, 28);
    law_rounding_scales(a, k, t, r);
}

/// `a` times a whole number.
pub fn mul_by(a: Option<Dec>, k: i64) -> (r: Option<Dec>)
    ensures
        r == times(a, lit(k as int, 0)),
        a is Some ==> rounded(value_of(r), a->0@ * k, 1),
{
    let r = mul_opt(a, number(k, 0));
    proof {
        if a is Some {
            lemma_times_whole(a->0@, k as int, value_of(r));
        }
    }
    r
}

/// `a` by a whole number above zero.
pub fn div_by(a: Option<Dec>, k: i64) -> (r: Option<Dec>)
    requires
        k > 0,
    ensures
        r == over(a, lit(k as int, 0)),
        a is Some ==> rounded(value_of(r), a->0@, k as int),
{
    let r = div_opt(a, number(k, 0));
    proof {
        if a is Some {
            lemma_dec_of(k as int, 0);
            lemma_pow_positive(10, 28);
            assert(k * pow10(28) > 0) by (nonlinear_arith)
                requires
                    k > 0,
                    pow10(28) > 0,
            ;
            lemma_over_whole(a->0@, k as int, value_of(r));
        }
    }
    r
}

/// `v` is `a` in basis points of `b`: their quotient, ten thousand times.
pub open spec fn is_bps(a: int, b: int, v: int) -> bool {
    exists|q: int| #[trigger] rounds_to(a * one(), b, q) && rounds_to(q * 10_000, 1, v)
}

/// `v` is the change from `old` to `new` in basis points of `old`.
pub open spec fn changes_by_bps(from: int, to: int, v: int) -> bool {
    exists|c: int| #[trigger] rounds_to(to - from, 1, c) && is_bps(c, from, v)
}

pub fn bps_opt(a: Option<Dec>, b: Option<Dec>) -> (r: Option<Dec>)
    ensures
        r == in_bps(a, b),
        a is Some && b is Some && b->0@ > 0 && r is Some ==> is_bps(a->0@, b->0@, r->0@),
{
    let q = div_opt(a, b);
    let r = mul_by(q, 10_000);
    proof {
        lemma_powers();
        if a is Some && b is Some && b->0@ > 0 && r is Some {
            assert(rounds_to(a->0@ * one(), b->0@, q->0@));
        }
    }
    r
}

pub fn change_bps_opt(old_px: Option<Dec>, new_px: Option<Dec>) -> (r: Option<Dec>)
    ensures
        r == change_bps(old_px, new_px),
        old_px is Some && new_px is Some && old_px->0@ > 0 && r is Some ==> changes_by_bps(
            old_px->0@,
            new_px->0@,
            r->0@,
        ),
{
    let c = sub_opt(new_px, old_px);
    let r = bps_opt(c, old_px);
    proof {
        if old_px is Some && new_px is Some && old_px->0@ > 0 && r is Some {
            assert(rounds_to(new_px->0@ - old_px->0@, 1, c->0@));
        }
    }
    r
}

/// A change in basis points has the sign of the change, and is ten thousand times the change by
/// the old value where the steps can be held; no change is none.
pub proof fn law_change_in_bps(from: int, to: int, v: int, share: int)
    requires
        from > 0,
        changes_by_bps(from, to, v),
    ensures
        to >= from ==> v >= 0,
        to <= from ==> v <= 0,
        can_be_held(to - from) && can_be_held(share) && can_be_held(10_000 * share) && share * from
            == (to - from) * one() ==> v == 10_000 * share,
{
    let c = choose|c: int| #[trigger] rounds_to(to - from, 1, c) && is_bps(c, from, v);
    let q = choose|q: int| #[trigger] rounds_to(c * one(), from, q) && rounds_to(q * 10_000, 1, v);
    lemma_zero_and_one();
    if to >= from {
        law_rounding_above(to - from, 1, c, 0);
        law_rounding_above(c * one(), from, q, 0);
        law_rounding_above(q * 10_000, 1, v, 0);
    }
    if to <= from {
        law_rounding_below(to - from, 1, c, 0);
        law_rounding_below(c * one(), from, q, 0);
        law_rounding_below(q * 10_000, 1, v, 0);
    }
    if can_be_held(to - from) && can_be_held(share) && can_be_held(10_000 * share) && share * from
        == (to - from) * one() {
        law_exact_is_kept(to - from, 1, c, to - from);
        law_exact_is_kept(c * one(), from, q, share);
        law_exact_is_kept(q * 10_000, 1, v, 10_000 * share);
    }
}

/// What the `n` numbers before `end` come to.
pub open spec fn sum_before(list: Seq<Dec>, end: int, n: nat) -> int
    decreases n,
{
    if n == 0 {
        0
    } else {
        sum_before(list, end, (n - 1) as nat) + list[end - n]@
    }
}

/// What they come to can be held, for the last of them and for all.
pub open spec fn sums_held(list: Seq<Dec>, end: int, n: nat) -> bool {
    forall|k: nat| k <= n ==> can_be_held(#[trigger] sum_before(list, end, k))
}

/// `v` is the average of the `n` numbers before `end`: what they come to by how many they are.
pub open spec fn is_average(list: Seq<Dec>, end: int, n: nat, v: int) -> bool {
    sums_held(list, end, n) ==> rounds_to(sum_before(list, end, n), n as int, v)
}

/// The sum of the `n` numbers before `end`, from the last to the first.
pub open spec fn total_before(list: Seq<Dec>, end: int, n: nat) -> Option<Dec>
    decreases n,
{
    if n == 0 {
        lit(0, 0)
    } else {
        plus(total_before(list, end, (n - 1) as nat), Some(list[end - n]))
    }
}

/// The average of the `n` numbers before `end`.
pub open spec fn average_before(list: Seq<Dec>, end: int, n: nat) -> Option<Dec> {
    over(total_before(list, end, n), lit(n as int, 0))
}

pub fn average_opt(list: &Vec<Dec>, end: usize, n: usize) -> (r: Option<Dec>)
    requires
        0 < n <= end <= list@.len(),
        n <= i64::MAX,
    ensures
        r == average_before(list@, end as int, n as nat),
        r matches Some(v) ==> is_average(list@, end as int, n as nat, v@),
{
    let mut total = number(0, 0);
    let mut i: usize = 0;
    proof {
        lemma_value(0, 0);
    }
    while i < n
        invariant
            i <= n,
            n <= end <= list@.len(),
            total == total_before(list@, end as int, i as nat),
            sums_held(list@, end as int, n as nat) ==> value_of(total) == Some(
                sum_before(list@, end as int, i as nat),
            ),
        decreases n - i,
    {
        total = add_opt(total, Some(list[end - i - 1]));
        proof {
            if sums_held(list@, end as int, n as nat) {
                let after = sum_before(list@, end as int, (i + 1) as nat);
                assert(can_be_held(after));
                lemma_held(after, value_of(total));
            }
        }
        i += 1;
    }
    div_by(total, n as i64)
}

/// `r` is the square root of `n`, without its fraction.
pub open spec fn is_floor_root(r: nat, n: nat) -> bool {
    r * r <= n && n < (r + 1) * (r + 1)
}

/// The square root of `n`, without its fraction.
pub open spec fn floor_root(n: nat) -> nat {
    choose|r: nat| is_floor_root(r, n)
}

/// There is only one such root.
proof fn lemma_floor_root(r: nat, n: nat)
    requires
        is_floor_root(r, n),
    ensures
        floor_root(n) == r,
{
    let s = floor_root(n);
    assert(is_floor_root(s, n));
    assert(s == r) by (nonlinear_arith)
        requires
            r * r <= n,
            n < (r + 1) * (r + 1),
            s * s <= n,
            n < (s + 1) * (s + 1),
            r >= 0,
            s >= 0,
    ;
}

/// The square root of a number that is counted in units.
fn root_of_units(n: u128) -> (r: u64)
    ensures
        r == floor_root(n as nat),
{
    let mut low: u128 = 0;
    let mut high: u128 = 0x1_0000_0000_0000_0000;
    assert((0x1_0000_0000_0000_0000int) * (0x1_0000_0000_0000_0000int) > n);
    while high - low > 1
        invariant
            low < high <= 0x1_0000_0000_0000_0000,
            low * low <= n,
            n < high * high,
        decreases high - low,
    {
        let middle: u128 = low + (high - low) / 2;
        assert(middle * middle <= 0xffff_ffff_ffff_ffffint * 0xffff_ffff_ffff_ffffint)
            by (nonlinear_arith)
            requires
                0 <= middle <= 0xffff_ffff_ffff_ffff,
        ;
        if middle * middle <= n {
            low = middle;
        } else {
            high = middle;
        }
    }
    proof {
        assert(high == low + 1);
        lemma_floor_root(low as nat, n as nat);
    }
    low as u64
}

/// The largest number of units that a root is taken of.
pub const MAX_ROOT_UNITS: u128 = 0xffff_ffff_ffff_ffff_ffff_ffff_ffff_ffff;

/// The square root of a number, cut after fourteen decimal places; zero of a
/// negative one, and none of one that is too large.
pub open spec fn root(v: Dec) -> Option<Dec> {
    if v@ <= 0 {
        lit(0, 0)
    } else if v@ <= MAX_ROOT_UNITS {
        lit(floor_root(v@ as nat) as int, 14)
    } else {
        None
    }
}

/// The square root of a value, cut after fourteen decimal places; zero of a negative one.
pub open spec fn root_units(v: int) -> int {
    if v <= 0 {
        0
    } else {
        floor_root(v as nat) * pow10(14)
    }
}

/// The value of a positive number in units of 10^-28.
fn units_of(v: Dec) -> (r: Option<u128>)
    requires
        v@ > 0,
    ensures
        match r {
            Some(u) => v@ == u,
            None => v@ > MAX_ROOT_UNITS,
        },
{
    proof {
        use_type_invariant(&v);
        lemma_bounds(v);
    }
    let mut left: u32 = 28 - v.scale();
    let mut u: u128 = v.mantissa() as u128;
    assert(pow10(0) == 1) by {
        reveal(vstd::arithmetic::power::pow);
    }
    while left > 0
        invariant
            left <= 28,
            v@ == u * pow10(left as nat),
            u > 0,
            pow10(0) == 1,
        decreases left,
    {
        proof {
            reveal(vstd::arithmetic::power::pow);
            let rest = pow10((left - 1) as nat);
            lemma_pow_positive(10, (left - 1) as nat);
            assert(pow10(left as nat) == 10 * rest);
            assert(u * (10 * rest) == (u * 10) * rest) by (nonlinear_arith);
            assert((u * 10) * rest >= u * 10) by (nonlinear_arith)
                requires
                    rest >= 1,
                    u > 0,
            ;
        }
        match u.checked_mul(10) {
            Some(x) => {
                u = x;
            },
            None => {
                return None;
            },
        }
        left -= 1;
    }
    assert(u * 1 == u);
    Some(u)
}

/// The square root of a number.
pub fn root_opt(v: Dec) -> (r: Option<Dec>)
    ensures
        r == root(v),
        r matches Some(d) ==> d@ == root_units(v@),
{
    if !v.is_positive() {
        proof {
            lemma_dec_of(0, 0);
        }
        return number(0, 0);
    }
    match units_of(v) {
        None => None,
        Some(u) => {
            let r: u64 = root_of_units(u);
            let d = Dec::from_parts(r as i128, 14);
            proof {
                if d is Some {
                    lemma_dec_of(r as int, 14);
                    assert(d->0 == dec_of(d->0.num(), d->0.places()));
                }
            }
            d
        },
    }
}

/// The square of the root is not above the number, and that of the next one is.
pub proof fn law_root(n: nat)
    ensures
        is_floor_root(floor_root(n), n),
    decreases n,
{
    if n == 0 {
        assert(0int * 0int == 0 && (0int + 1) * (0int + 1) == 1);
        assert(is_floor_root(0, 0));
    } else {
        let before = (n - 1) as nat;
        law_root(before);
        let r = floor_root(before);
        assert((r + 1) * (r + 1) <= n || is_floor_root(r, n));
        if (r + 1) * (r + 1) <= n {
            assert((r + 2) * (r + 2) > n) by (nonlinear_arith)
                requires
                    n - 1 < (r + 1) * (r + 1),
                    r >= 0,
            ;
            assert(is_floor_root((r + 1) as nat, n));
        }
    }
}

} // verus!
