//! Decimal numbers.
//!
//! A [`Dec`] is a signed mantissa of at most 96 bits and a count of decimal
//! places from 0 to 28. Its arithmetic is that of `rust_decimal`, called behind
//! the wrappers at the end of this file.
use vstd::prelude::*;

use vstd::arithmetic::power::*;

use crate::rounding::rounded;
use crate::text::{fixed_digits, nat_text};

verus! {

/// The largest mantissa, 2^96 - 1.
pub const MAX_MANTISSA: i128 = 79_228_162_514_264_337_593_543_950_335;

/// The largest count of decimal places.
pub const MAX_SCALE: u32 = 28;

/// Ten to the power of `n`.
pub open spec fn pow10(n: nat) -> int {
    pow(10, n)
}

/// A decimal number: `num() / 10^places()`.
#[derive(Clone, Copy, Debug)]
pub struct Dec {
    mantissa: i128,
    scale: u32,
}

impl Dec {
    #[verifier::type_invariant]
    pub closed spec fn wf(self) -> bool {
        &&& -MAX_MANTISSA <= self.mantissa <= MAX_MANTISSA
        &&& self.scale <= MAX_SCALE
    }

    /// The signed mantissa.
    pub closed spec fn num(self) -> int {
        self.mantissa as int
    }

    /// The count of decimal places.
    pub closed spec fn places(self) -> nat {
        self.scale as nat
    }
}

impl View for Dec {
    type V = int;

    /// The value of the number, counted in units of 10^-28.
    open spec fn view(&self) -> int {
        self.num() * pow10((28 - self.places()) as nat)
    }
}

/// The number `num / 10^places`.
pub closed spec fn dec_of(num: int, places: nat) -> Dec {
    Dec { mantissa: num as i128, scale: places as u32 }
}

/// `dec_of` has the parts it was given, within the bounds of the type, and two
/// numbers with the same parts are the same.
pub proof fn lemma_dec_of(num: int, places: nat)
    requires
        -MAX_MANTISSA <= num <= MAX_MANTISSA,
        places <= 28,
    ensures
        dec_of(num, places).num() == num,
        dec_of(num, places).places() == places,
        forall|d: Dec| d.num() == num && d.places() == places ==> d == #[trigger] dec_of(d.num(), d.places()),
{
}

/// One, in units of 10^-28.
#[verifier::inline]
pub open spec fn one() -> int {
    10_000_000_000_000_000_000_000_000_000
}

/// The powers of ten, written out.
pub proof fn lemma_powers()
    ensures
        pow10(28) == one(),
        pow10(0) == 1,
        pow10(1) == 10,
        pow10(2) == 100,
        pow10(3) == 1000,
        pow10(4) == 10000,
        pow10(5) == 100000,
        pow10(6) == 1000000,
        pow10(7) == 10000000,
        pow10(8) == 100000000,
        pow10(9) == 1000000000,
        pow10(10) == 10000000000,
        pow10(11) == 100000000000,
        pow10(12) == 1000000000000,
        pow10(13) == 10000000000000,
        pow10(14) == 100000000000000,
        pow10(15) == 1000000000000000,
        pow10(16) == 10000000000000000,
        pow10(17) == 100000000000000000,
        pow10(18) == 1000000000000000000,
        pow10(19) == 10000000000000000000,
        pow10(20) == 100000000000000000000,
        pow10(21) == 1000000000000000000000,
        pow10(22) == 10000000000000000000000,
        pow10(23) == 100000000000000000000000,
        pow10(24) == 1000000000000000000000000,
        pow10(25) == 10000000000000000000000000,
        pow10(26) == 100000000000000000000000000,
        pow10(27) == 1000000000000000000000000000,
        pow10(28) == 10000000000000000000000000000,
{
    reveal_with_fuel(pow, 30);
}

/// The value of a number with few decimal places, in units of 10^-28.
pub proof fn lemma_value(num: int, places: nat)
    requires
        -MAX_MANTISSA <= num <= MAX_MANTISSA,
        places <= 28,
    ensures
        dec_of(num, places)@ == num * pow10((28 - places) as nat),
{
    lemma_dec_of(num, places);
}

/// What a `Dec` holds is within the bounds of the type.
pub proof fn lemma_bounds(d: Dec)
    requires
        d.wf(),
    ensures
        -MAX_MANTISSA <= d.num() <= MAX_MANTISSA,
        d.places() <= 28,
        d.num() == 0 <==> d@ == 0,
        d.num() < 0 <==> d@ < 0,
{
    lemma_pow_positive(10, (28 - d.places()) as nat);
    let p: int = pow10((28 - d.places()) as nat);
    let n: int = d.num();
    assert((n == 0 <==> n * p == 0) && (n < 0 <==> n * p < 0)) by (nonlinear_arith)
        requires
            p > 0,
    ;
}

impl Dec {
    /// `num / 10^scale`.
    pub fn new(num: i64, scale: u32) -> (r: Dec)
        requires
            scale <= 28,
        ensures
            r.num() == num,
            r.places() == scale,
            r == dec_of(num as int, scale as nat),
    {
        Dec { mantissa: num as i128, scale }
    }

    /// `mantissa / 10^scale`, where the parts are within the bounds of the type.
    pub fn from_parts(mantissa: i128, scale: u32) -> (r: Option<Dec>)
        ensures
            r is Some <==> -MAX_MANTISSA <= mantissa <= MAX_MANTISSA && scale <= 28,
            r matches Some(d) ==> d.num() == mantissa && d.places() == scale && d == dec_of(
                mantissa as int,
                scale as nat,
            ),
    {
        if scale <= MAX_SCALE && -MAX_MANTISSA <= mantissa && mantissa <= MAX_MANTISSA {
            Some(Dec { mantissa, scale })
        } else {
            None
        }
    }

    /// Zero, without decimal places.
    pub fn zero() -> (r: Dec)
        ensures
            r.num() == 0,
            r.places() == 0,
            r@ == 0,
    {
        Dec { mantissa: 0, scale: 0 }
    }

    /// The signed mantissa.
    pub fn mantissa(&self) -> (r: i128)
        ensures
            r == self.num(),
    {
        self.mantissa
    }

    /// The count of decimal places.
    pub fn scale(&self) -> (r: u32)
        ensures
            r == self.places(),
            r <= 28,
    {
        proof {
            use_type_invariant(self);
        }
        self.scale
    }

    pub fn is_zero(&self) -> (r: bool)
        ensures
            r == (self.num() == 0),
            r == (self@ == 0),
    {
        proof {
            use_type_invariant(self);
            lemma_bounds(*self);
        }
        self.mantissa == 0
    }

    /// Whether the number is below zero.
    pub fn is_sign_negative(&self) -> (r: bool)
        ensures
            r == (self@ < 0),
            r == (self.num() < 0),
    {
        proof {
            use_type_invariant(self);
            lemma_bounds(*self);
        }
        self.mantissa < 0
    }

    pub fn abs(&self) -> (r: Dec)
        ensures
            r.places() == self.places(),
            r.num() == if self.num() < 0 { -self.num() } else { self.num() },
            r@ == if self@ < 0 { -self@ } else { self@ },
    {
        proof {
            use_type_invariant(self);
            lemma_bounds(*self);
        }
        if self.mantissa < 0 {
            proof {
                let p: int = pow10((28 - self.places()) as nat);
                assert((-self.num()) * p == -(self.num() * p)) by (nonlinear_arith);
            }
            Dec { mantissa: -self.mantissa, scale: self.scale }
        } else {
            *self
        }
    }

    pub fn neg(&self) -> (r: Dec)
        ensures
            r.places() == self.places(),
            r.num() == -self.num(),
            r@ == -self@,
    {
        proof {
            use_type_invariant(self);
            let p: int = pow10((28 - self.places()) as nat);
            assert((-self.num()) * p == -(self.num() * p)) by (nonlinear_arith);
        }
        Dec { mantissa: -self.mantissa, scale: self.scale }
    }

    pub fn le(&self, other: &Dec) -> (r: bool)
        ensures
            r == (self@ <= other@),
    {
        !other.lt(self)
    }

    /// Whether the two have the same value, whatever their scales.
    pub fn same(&self, other: &Dec) -> (r: bool)
        ensures
            r == (self@ == other@),
    {
        !self.lt(other) && !other.lt(self)
    }

    /// The smaller of the two; `self` where they have the same value.
    pub fn min(&self, other: &Dec) -> (r: Dec)
        ensures
            r == if other@ < self@ { *other } else { *self },
    {
        if other.lt(self) {
            *other
        } else {
            *self
        }
    }

    /// The larger of the two; `self` where they have the same value.
    pub fn max(&self, other: &Dec) -> (r: Dec)
        ensures
            r == if self@ < other@ { *other } else { *self },
    {
        if self.lt(other) {
            *other
        } else {
            *self
        }
    }

    /// Whether the number is above zero.
    pub fn is_positive(&self) -> (r: bool)
        ensures
            r == (self@ > 0),
    {
        !self.is_zero() && !self.is_sign_negative()
    }
}

/// The largest integer not above `d`.
pub open spec fn floored(d: Dec) -> int {
    d.num() / pow10(d.places())
}

/// The smallest integer not below `d`.
pub open spec fn ceiled(d: Dec) -> int {
    -((-d.num()) / pow10(d.places()))
}

/// The mantissa of `d` after all but its first `places` decimal places were cut off.
pub open spec fn cut(d: Dec, places: nat) -> int {
    let p = pow10((d.places() - places) as nat);
    if d.num() < 0 {
        -((-d.num()) / p)
    } else {
        d.num() / p
    }
}

/// A number as text.
pub open spec fn dec_text(d: Dec) -> Seq<char> {
    let m = if d.num() < 0 { -d.num() } else { d.num() };
    let p = pow10(d.places());
    let sign = if d.num() < 0 { seq!['-'] } else { Seq::empty() };
    let whole = nat_text((m / p) as nat);
    if d.places() == 0 {
        sign + whole
    } else {
        sign + whole + seq!['.'] + fixed_digits((m % p) as nat, d.places())
    }
}

/// The number that `rust_decimal` reads from a text.
pub uninterp spec fn parsed(text: Seq<char>) -> Option<Dec>;

/// What `rust_decimal` makes of the sum of two numbers; `None` where it overflows.
pub uninterp spec fn sum(a: Dec, b: Dec) -> Option<Dec>;

/// What `rust_decimal` makes of the difference of two numbers; `None` where it overflows.
pub uninterp spec fn difference(a: Dec, b: Dec) -> Option<Dec>;

/// What `rust_decimal` makes of the product of two numbers; `None` where it overflows.
pub uninterp spec fn product(a: Dec, b: Dec) -> Option<Dec>;

/// What `rust_decimal` makes of the quotient of two numbers; `None` where it
/// overflows and where the divisor is zero.
pub uninterp spec fn quotient(a: Dec, b: Dec) -> Option<Dec>;

/// The product of the mantissas and the sum of the scales are those of a `Dec`.
pub open spec fn product_fits(a: Dec, b: Dec) -> bool {
    &&& a.num() * b.num() != 0
    &&& -MAX_MANTISSA <= a.num() * b.num() <= MAX_MANTISSA
    &&& a.places() + b.places() <= 28
}

/// The value of a result, where there is one.
pub open spec fn value_of(r: Option<Dec>) -> Option<int> {
    match r {
        Some(d) => Some(d@),
        None => None,
    }
}

/// A result is the exact quotient of two numbers, rounded.
pub open spec fn quotient_rounded(r: Option<Dec>, a: Dec, b: Dec) -> bool {
    if b@ > 0 {
        rounded(value_of(r), a@ * pow10(28), b@)
    } else {
        rounded(value_of(r), -(a@ * pow10(28)), -b@)
    }
}

impl Dec {
    /// `Decimal::lt` of `rust_decimal`, which orders numbers by value.
    #[verifier::external_body]
    pub(crate) fn lt(&self, other: &Dec) -> (r: bool)
        ensures
            r == (self@ < other@),
    {
        let a = rust_decimal::Decimal::from_i128_with_scale(self.mantissa, self.scale);
        let b = rust_decimal::Decimal::from_i128_with_scale(other.mantissa, other.scale);
        a < b
    }

    /// `Decimal::checked_add` of `rust_decimal`. Where the exact sum is a value that a
    /// decimal number can have, the result has that value. Else it is rounded: digits are
    /// dropped from its end until the mantissa fits, to the nearest number and, of two as
    /// near, to the one with an even last digit. There is none where even the integer part
    /// does not fit.
    #[verifier::external_body]
    pub(crate) fn checked_add(&self, other: &Dec) -> (r: Option<Dec>)
        ensures
            r == sum(*self, *other),
            rounded(value_of(r), self@ + other@, 1),
    {
        let a = rust_decimal::Decimal::from_i128_with_scale(self.mantissa, self.scale);
        let b = rust_decimal::Decimal::from_i128_with_scale(other.mantissa, other.scale);
        a.checked_add(b).map(|d| Dec { mantissa: d.mantissa(), scale: d.scale() })
    }

    /// `Decimal::checked_sub` of `rust_decimal`. Where the exact difference is a value that a
    /// decimal number can have, the result has that value. Else it is rounded as a sum is.
    #[verifier::external_body]
    pub(crate) fn checked_sub(&self, other: &Dec) -> (r: Option<Dec>)
        ensures
            r == difference(*self, *other),
            rounded(value_of(r), self@ - other@, 1),
    {
        let a = rust_decimal::Decimal::from_i128_with_scale(self.mantissa, self.scale);
        let b = rust_decimal::Decimal::from_i128_with_scale(other.mantissa, other.scale);
        a.checked_sub(b).map(|d| Dec { mantissa: d.mantissa(), scale: d.scale() })
    }

    /// `Decimal::checked_mul` of `rust_decimal`. A product with zero is zero
    /// without decimal places. Otherwise the mantissas are multiplied and the
    /// scales added, and nothing is rounded while both results fit. Where one does not,
    /// digits are dropped from the end of the product until both do, to the nearest
    /// number and, of two as near, to the one with an even last digit. There is no product
    /// where even its integer part does not fit.
    #[verifier::external_body]
    pub(crate) fn checked_mul(&self, other: &Dec) -> (r: Option<Dec>)
        ensures
            r == product(*self, *other),
            self.num() * other.num() == 0 ==> r is Some && r->0.num() == 0 && r->0.places() == 0,
            product_fits(*self, *other) ==> r is Some && r->0.num() == self.num() * other.num()
                && r->0.places() == self.places() + other.places(),
            rounded(value_of(r), self@ * other@, pow10(28)),
    {
        let a = rust_decimal::Decimal::from_i128_with_scale(self.mantissa, self.scale);
        let b = rust_decimal::Decimal::from_i128_with_scale(other.mantissa, other.scale);
        a.checked_mul(b).map(|d| Dec { mantissa: d.mantissa(), scale: d.scale() })
    }

    /// `Decimal::checked_div` of `rust_decimal`. There is no quotient by zero.
    /// Where the exact quotient is a value that a decimal number can have, the
    /// result has that value. Else it has as many decimal places, 28 at most, as the
    /// mantissa has room for, and is the nearest such number; of two as near it is the one
    /// with an even last digit. There is none where even the integer part does not fit.
    #[verifier::external_body]
    pub(crate) fn checked_div(&self, other: &Dec) -> (r: Option<Dec>)
        ensures
            r == quotient(*self, *other),
            other@ == 0 ==> r is None,
            other@ != 0 ==> quotient_rounded(r, *self, *other),
    {
        let a = rust_decimal::Decimal::from_i128_with_scale(self.mantissa, self.scale);
        let b = rust_decimal::Decimal::from_i128_with_scale(other.mantissa, other.scale);
        a.checked_div(b).map(|d| Dec { mantissa: d.mantissa(), scale: d.scale() })
    }

    /// `Decimal::floor` of `rust_decimal`: the largest integer not above the
    /// number, without decimal places.
    #[verifier::external_body]
    pub(crate) fn floor(&self) -> (r: Dec)
        ensures
            r == dec_of(floored(*self), 0),
    {
        let d = rust_decimal::Decimal::from_i128_with_scale(self.mantissa, self.scale).floor();
        Dec { mantissa: d.mantissa(), scale: d.scale() }
    }

    /// `Decimal::ceil` of `rust_decimal`: the smallest integer not below the
    /// number, without decimal places.
    #[verifier::external_body]
    pub(crate) fn ceil(&self) -> (r: Dec)
        ensures
            r == dec_of(ceiled(*self), 0),
    {
        let d = rust_decimal::Decimal::from_i128_with_scale(self.mantissa, self.scale).ceil();
        Dec { mantissa: d.mantissa(), scale: d.scale() }
    }

    /// `Decimal::round_dp_with_strategy` of `rust_decimal` with the strategy
    /// `ToZero`: the digits behind the first `places` decimal places are cut off.
    #[verifier::external_body]
    pub(crate) fn cut_to_zero(&self, places: u32) -> (r: Dec)
        ensures
            self.places() <= places ==> r == *self,
            self.places() > places ==> r == dec_of(cut(*self, places as nat), places as nat),
    {
        let d = rust_decimal::Decimal::from_i128_with_scale(
            self.mantissa,
            self.scale,
        ).round_dp_with_strategy(places, rust_decimal::RoundingStrategy::ToZero);
        Dec { mantissa: d.mantissa(), scale: d.scale() }
    }

    /// `Decimal::round_dp_with_strategy` of `rust_decimal` with the strategy
    /// `ToNegativeInfinity`: the largest number with `places` decimal places that
    /// is not above this one.
    #[verifier::external_body]
    pub(crate) fn cut_down(&self, places: u32) -> (r: Dec)
        ensures
            self.places() <= places ==> r == *self,
            self.places() > places ==> r == dec_of(
                self.num() / pow10((self.places() - places) as nat),
                places as nat,
            ),
    {
        let d = rust_decimal::Decimal::from_i128_with_scale(
            self.mantissa,
            self.scale,
        ).round_dp_with_strategy(places, rust_decimal::RoundingStrategy::ToNegativeInfinity);
        Dec { mantissa: d.mantissa(), scale: d.scale() }
    }

    /// `Decimal::normalize` of `rust_decimal`: the same value with the fewest
    /// decimal places.
    #[verifier::external_body]
    pub(crate) fn normalize(&self) -> (r: Dec)
        ensures
            r@ == self@,
            r.places() <= self.places(),
            r.places() == 0 || r.num() % 10 != 0,
            self.num() == 0 ==> r.places() == 0,
    {
        let d = rust_decimal::Decimal::from_i128_with_scale(self.mantissa, self.scale).normalize();
        Dec { mantissa: d.mantissa(), scale: d.scale() }
    }

    /// The `Display` of `rust_decimal`: a minus sign for a negative number, the
    /// integer part without leading zeros and, where there are decimal places, a
    /// point and all of them.
    #[verifier::external_body]
    pub(crate) fn to_text(&self) -> (r: String)
        ensures
            r@ == dec_text(*self),
    {
        rust_decimal::Decimal::from_i128_with_scale(self.mantissa, self.scale).to_string()
    }

    /// `Decimal::from_str` of `rust_decimal`: the number that a text stands for,
    /// if it stands for one. The contract names the result and does not say which
    /// texts are accepted.
    #[verifier::external_body]
    pub(crate) fn parse(text: &str) -> (r: Option<Dec>)
        ensures
            r == parsed(text@),
    {
        <rust_decimal::Decimal as std::str::FromStr>::from_str(text).ok().map(
            |d| Dec { mantissa: d.mantissa(), scale: d.scale() },
        )
    }
}

} // verus!
