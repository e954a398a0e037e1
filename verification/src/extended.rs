//! Numbers and what a division by zero leaves: the two infinities, and no number at all.
use vstd::prelude::*;

use crate::decimal::{pow10, product, quotient, sum, Dec};
use crate::figures::{money, money_text};
use crate::quant::{abs_dec, abs_of};
use crate::rounding::rounds_to;
use crate::text::copy_of;

verus! {

/// A number, an infinity, or no number.
#[derive(Clone, Copy, Debug)]
pub enum Extended {
    MinusInfinity,
    Finite(Dec),
    Infinity,
    NotANumber,
}

/// What is held of a number, if it can be held.
pub open spec fn finite(d: Option<Dec>) -> Option<Extended> {
    match d {
        Some(x) => Some(Extended::Finite(x)),
        None => None,
    }
}

fn as_finite(d: Option<Dec>) -> (r: Option<Extended>)
    ensures
        r == finite(d),
{
    match d {
        Some(x) => Some(Extended::Finite(x)),
        None => None,
    }
}

/// An infinity with the sign of `s`; no number where `s` is zero.
pub open spec fn infinity_of(s: int) -> Extended {
    if s > 0 {
        Extended::Infinity
    } else if s < 0 {
        Extended::MinusInfinity
    } else {
        Extended::NotANumber
    }
}

/// `a / b`. None where the number cannot be held.
pub open spec fn extended_over(a: Extended, b: Dec) -> Option<Extended> {
    match a {
        Extended::Finite(x) => if b@ == 0 {
            Some(infinity_of(x@))
        } else {
            finite(quotient(x, b))
        },
        Extended::Infinity => Some(infinity_of(if b@ < 0 { -1 } else { 1 })),
        Extended::MinusInfinity => Some(infinity_of(if b@ < 0 { 1 } else { -1 })),
        Extended::NotANumber => Some(Extended::NotANumber),
    }
}

/// `a * b`. None where the number cannot be held.
pub open spec fn extended_times(a: Extended, b: Dec) -> Option<Extended> {
    match a {
        Extended::Finite(x) => finite(product(x, b)),
        Extended::Infinity => Some(infinity_of(b@)),
        Extended::MinusInfinity => Some(infinity_of(-b@)),
        Extended::NotANumber => Some(Extended::NotANumber),
    }
}

/// `a + b`. None where the number cannot be held.
pub open spec fn extended_sum(a: Extended, b: Extended) -> Option<Extended> {
    match (a, b) {
        (Extended::Finite(x), Extended::Finite(y)) => finite(sum(x, y)),
        (Extended::NotANumber, _) => Some(Extended::NotANumber),
        (_, Extended::NotANumber) => Some(Extended::NotANumber),
        (Extended::Infinity, Extended::MinusInfinity) => Some(Extended::NotANumber),
        (Extended::MinusInfinity, Extended::Infinity) => Some(Extended::NotANumber),
        (Extended::Finite(_), _) => Some(b),
        _ => Some(a),
    }
}

/// `a` without its sign.
pub open spec fn extended_abs(a: Extended) -> Extended {
    match a {
        Extended::Finite(x) => Extended::Finite(abs_of(x)),
        Extended::NotANumber => Extended::NotANumber,
        _ => Extended::Infinity,
    }
}

/// `a > b`. Nothing is above or below what is no number.
pub open spec fn above(a: Extended, b: Extended) -> bool {
    match (a, b) {
        (Extended::NotANumber, _) => false,
        (_, Extended::NotANumber) => false,
        (Extended::Finite(x), Extended::Finite(y)) => x@ > y@,
        (Extended::Finite(_), Extended::MinusInfinity) => true,
        (Extended::Infinity, Extended::Infinity) => false,
        (Extended::Infinity, _) => true,
        _ => false,
    }
}

/// `a >= b`.
pub open spec fn not_below(a: Extended, b: Extended) -> bool {
    !(a is NotANumber) && !(b is NotANumber) && !above(b, a)
}

/// The larger of the two; what is no number is passed over.
pub open spec fn larger(a: Extended, b: Extended) -> Extended {
    if above(b, a) || a is NotANumber {
        b
    } else {
        a
    }
}

/// The smaller of the two; what is no number is passed over.
pub open spec fn smaller(a: Extended, b: Extended) -> Extended {
    if above(a, b) || a is NotANumber {
        b
    } else {
        a
    }
}

/// An amount with two decimal places.
pub open spec fn extended_money(a: Extended) -> Seq<char> {
    match a {
        Extended::Finite(x) => money(x),
        Extended::Infinity => "inf"@,
        Extended::MinusInfinity => "-inf"@,
        Extended::NotANumber => "NaN"@,
    }
}

fn make_infinity(positive: bool, negative: bool) -> (r: Extended)
    requires
        !(positive && negative),
    ensures
        r == infinity_of(
            if positive {
                1
            } else if negative {
                -1
            } else {
                0
            },
        ),
{
    if positive {
        Extended::Infinity
    } else if negative {
        Extended::MinusInfinity
    } else {
        Extended::NotANumber
    }
}

impl Extended {
    /// `self / b`.
    pub fn over(&self, b: &Dec) -> (r: Option<Extended>)
        ensures
            r == extended_over(*self, *b),
            *self is Finite && b@ > 0 && r is Some ==> r->0 is Finite && rounds_to(
                self->Finite_0@ * pow10(28),
                b@,
                r->0->Finite_0@,
            ),
    {
        match self {
            Extended::Finite(x) => if b.is_zero() {
                Some(make_infinity(x.is_positive(), x.is_sign_negative()))
            } else {
                as_finite(x.checked_div(b))
            },
            Extended::Infinity => Some(
                make_infinity(!b.is_sign_negative(), b.is_sign_negative()),
            ),
            Extended::MinusInfinity => Some(
                make_infinity(b.is_sign_negative(), !b.is_sign_negative()),
            ),
            Extended::NotANumber => Some(Extended::NotANumber),
        }
    }

    /// `self * b`.
    pub fn times(&self, b: &Dec) -> (r: Option<Extended>)
        ensures
            r == extended_times(*self, *b),
            *self is Finite && r is Some ==> r->0 is Finite && rounds_to(
                self->Finite_0@ * b@,
                pow10(28),
                r->0->Finite_0@,
            ),
    {
        match self {
            Extended::Finite(x) => as_finite(x.checked_mul(b)),
            Extended::Infinity => Some(make_infinity(b.is_positive(), b.is_sign_negative())),
            Extended::MinusInfinity => Some(make_infinity(b.is_sign_negative(), b.is_positive())),
            Extended::NotANumber => Some(Extended::NotANumber),
        }
    }

    /// `self + b`.
    pub fn plus(&self, b: &Extended) -> (r: Option<Extended>)
        ensures
            r == extended_sum(*self, *b),
            *self is Finite && *b is Finite && r is Some ==> r->0 is Finite && rounds_to(
                self->Finite_0@ + b->Finite_0@,
                1,
                r->0->Finite_0@,
            ),
    {
        match (self, b) {
            (Extended::Finite(x), Extended::Finite(y)) => as_finite(x.checked_add(y)),
            (Extended::NotANumber, _) => Some(Extended::NotANumber),
            (_, Extended::NotANumber) => Some(Extended::NotANumber),
            (Extended::Infinity, Extended::MinusInfinity) => Some(Extended::NotANumber),
            (Extended::MinusInfinity, Extended::Infinity) => Some(Extended::NotANumber),
            (Extended::Finite(_), _) => Some(*b),
            _ => Some(*self),
        }
    }

    /// The value without its sign.
    pub fn abs(&self) -> (r: Extended)
        ensures
            r == extended_abs(*self),
            *self is Finite ==> r is Finite && r->Finite_0@ == if self->Finite_0@ < 0 {
                -self->Finite_0@
            } else {
                self->Finite_0@
            },
    {
        match self {
            Extended::Finite(x) => Extended::Finite(abs_dec(*x)),
            Extended::NotANumber => Extended::NotANumber,
            _ => Extended::Infinity,
        }
    }

    /// Whether `self > b`.
    pub fn is_above(&self, b: &Extended) -> (r: bool)
        ensures
            r == above(*self, *b),
    {
        match (self, b) {
            (Extended::NotANumber, _) => false,
            (_, Extended::NotANumber) => false,
            (Extended::Finite(x), Extended::Finite(y)) => y.lt(x),
            (Extended::Finite(_), Extended::MinusInfinity) => true,
            (Extended::Infinity, Extended::Infinity) => false,
            (Extended::Infinity, _) => true,
            _ => false,
        }
    }

    /// Whether there is a number or an infinity.
    fn is_number(&self) -> (r: bool)
        ensures
            r == !(*self is NotANumber),
    {
        match self {
            Extended::NotANumber => false,
            _ => true,
        }
    }

    /// Whether `self >= b`.
    pub fn is_not_below(&self, b: &Extended) -> (r: bool)
        ensures
            r == not_below(*self, *b),
    {
        self.is_number() && b.is_number() && !b.is_above(self)
    }

    /// The larger of the two; what is no number is passed over.
    pub fn or_larger(&self, b: &Extended) -> (r: Extended)
        ensures
            r == larger(*self, *b),
    {
        if b.is_above(self) || !self.is_number() {
            *b
        } else {
            *self
        }
    }

    /// The smaller of the two; what is no number is passed over.
    pub fn or_smaller(&self, b: &Extended) -> (r: Extended)
        ensures
            r == smaller(*self, *b),
    {
        if self.is_above(b) || !self.is_number() {
            *b
        } else {
            *self
        }
    }

    /// The amount with two decimal places.
    pub fn money_text(&self) -> (r: String)
        ensures
            r@ == extended_money(*self),
    {
        match self {
            Extended::Finite(x) => money_text(*x),
            Extended::Infinity => copy_of("inf"),
            Extended::MinusInfinity => copy_of("-inf"),
            Extended::NotANumber => copy_of("NaN"),
        }
    }
}

/// The larger of two is not below either, unless one is no number.
pub proof fn law_larger_and_smaller(a: Extended, b: Extended)
    requires
        !(a is NotANumber),
        !(b is NotANumber),
    ensures
        not_below(larger(a, b), a) && not_below(larger(a, b), b),
        not_below(a, smaller(a, b)) && not_below(b, smaller(a, b)),
        larger(a, b) == a || larger(a, b) == b,
        smaller(a, b) == a || smaller(a, b) == b,
{
}

} // verus!
