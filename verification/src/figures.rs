//! Figures for people to read: shares in percent and amounts of money.
use vstd::prelude::*;

use vstd::arithmetic::power::lemma_pow_positive;

use crate::decimal::{lemma_bounds, pow10, value_of, Dec};
use crate::rounding::{
    law_rounding_scales, lemma_exact, lemma_rounded_fits, lemma_smaller_fits, rounds_to,
};
use crate::text::{digit_char, fixed_digits, joined, nat_text, u128_text};

verus! {

/// `n / d`, rounded to the nearest integer; to an even one where it is in the middle.
pub open spec fn nearest(n: nat, d: nat) -> nat {
    let q = n / d;
    let r = n % d;
    if 2 * r < d || (2 * r == d && q % 2 == 0) {
        q
    } else {
        (q + 1) as nat
    }
}

pub(crate) fn find_nearest(n: u128, d: u128) -> (r: u128)
    requires
        0 < d <= 0x1_0000_0000_0000_0000_0000_0000_0000,
        n < 0x1000_0000_0000_0000_0000_0000_0000_0000,
    ensures
        r == nearest(n as nat, d as nat),
        r <= n + 1,
{
    let q: u128 = n / d;
    let rest: u128 = n % d;
    assert(q <= n) by (nonlinear_arith)
        requires
            q == n / d,
            d > 0,
            n >= 0,
    ;
    if 2 * rest < d || (2 * rest == d && q % 2 == 0) {
        q
    } else {
        q + 1
    }
}

/// The last `k` digits of `n`.
fn digits_text(n: u128, k: u32) -> (r: String)
    ensures
        r@ == fixed_digits(n as nat, k as nat),
    decreases k,
{
    if k == 0 {
        String::new()
    } else {
        let mut s = digits_text(n / 10, k - 1);
        let last = u128_text(n % 10);
        assert(nat_text((n % 10) as nat) =~= seq![digit_char((n % 10) as int)]);
        let r = joined(s.as_str(), last.as_str());
        assert(r@ =~= s@.push(digit_char((n % 10) as int)));
        r
    }
}

/// `n` with its last `k` digits behind a point.
pub open spec fn pointed(n: nat, k: nat) -> Seq<char> {
    nat_text((n as int / pow10(k)) as nat) + "."@ + fixed_digits(n, k)
}

/// A share in percent.
#[derive(Clone, Copy, Debug)]
pub struct Rate {
    pub part: u64,
    pub whole: u64,
}

impl Rate {
    /// The share is above so many percent. A share of nothing is nothing.
    pub open spec fn above(self, percent: int) -> bool {
        self.whole > 0 && self.part * 100 > percent * self.whole
    }

    /// The share is below so many percent.
    pub open spec fn below(self, percent: int) -> bool {
        if self.whole == 0 {
            0 < percent
        } else {
            self.part * 100 < percent * self.whole
        }
    }

    /// The share in percent, with one decimal place.
    pub open spec fn shown(self) -> Seq<char> {
        if self.whole == 0 {
            pointed(0, 1)
        } else {
            pointed(nearest((self.part * 1000) as nat, self.whole as nat), 1)
        }
    }

    /// The share in percent, with two decimal places.
    pub open spec fn shown_finely(self) -> Seq<char> {
        if self.whole == 0 {
            pointed(0, 2)
        } else {
            pointed(nearest((self.part * 10_000) as nat, self.whole as nat), 2)
        }
    }

    pub fn is_above(&self, percent: u8) -> (r: bool)
        ensures
            r == self.above(percent as int),
    {
        assert(percent * self.whole <= 255 * 0xffff_ffff_ffff_ffffint) by (nonlinear_arith)
            requires
                0 <= percent <= 255,
                0 <= self.whole <= 0xffff_ffff_ffff_ffff,
        ;
        self.whole > 0 && (self.part as u128) * 100 > (percent as u128) * (self.whole as u128)
    }

    pub fn is_below(&self, percent: u8) -> (r: bool)
        ensures
            r == self.below(percent as int),
    {
        assert(percent * self.whole <= 255 * 0xffff_ffff_ffff_ffffint) by (nonlinear_arith)
            requires
                0 <= percent <= 255,
                0 <= self.whole <= 0xffff_ffff_ffff_ffff,
        ;
        if self.whole == 0 {
            percent > 0
        } else {
            (self.part as u128) * 100 < (percent as u128) * (self.whole as u128)
        }
    }

    /// The share in percent, as a number: a hundred times the part, by the whole, with as
    /// many decimal places as there is room for. A share of nothing is nothing.
    pub fn percent(&self) -> (r: Dec)
        ensures
            self.whole == 0 ==> r@ == 0,
            self.whole > 0 ==> rounds_to((100 * self.part) * pow10(28), self.whole as int, r@),
    {
        let zero = Dec::zero();
        if self.whole == 0 {
            return zero;
        }
        let hundreds: i128 = self.part as i128 * 100;
        match (Dec::from_parts(hundreds, 0), Dec::from_parts(self.whole as i128, 0)) {
            (Some(a), Some(b)) => {
                let r = a.checked_div(&b);
                proof {
                    let one = pow10(28);
                    lemma_pow_positive(10, 28);
                    let n = (100 * self.part) * one;
                    let d = self.whole as int;
                    assert(b@ > 0) by (nonlinear_arith)
                        requires
                            b@ == self.whole * one,
                            self.whole > 0,
                            one > 0,
                    ;
                    law_rounding_scales(n, d, one, value_of(r));
                    lemma_exact(hundreds as int, 0, 1);
                    lemma_rounded_fits(a@ * 1, 1, a@);
                    assert(-(a@ * d) <= n * 1 <= a@ * d) by (nonlinear_arith)
                        requires
                            n == a@,
                            a@ >= 0,
                            d >= 1,
                    ;
                    lemma_smaller_fits(n, d, a@, 1);
                }
                match r {
                    Some(share) => share,
                    None => zero,
                }
            },
            _ => zero,
        }
    }

    pub fn text(&self) -> (r: String)
        ensures
            r@ == self.shown(),
    {
        let tenths: u128 = if self.whole == 0 {
            0
        } else {
            find_nearest((self.part as u128) * 1000, self.whole as u128)
        };
        proof {
            reveal(vstd::arithmetic::power::pow);
            assert(pow10(1) == 10 * pow10(0));
        }
        pointed_text(tenths, 1, 10)
    }

    pub fn fine_text(&self) -> (r: String)
        ensures
            r@ == self.shown_finely(),
    {
        let hundredths: u128 = if self.whole == 0 {
            0
        } else {
            find_nearest((self.part as u128) * 10_000, self.whole as u128)
        };
        proof {
            reveal(vstd::arithmetic::power::pow);
            assert(pow10(1) == 10 * pow10(0));
            assert(pow10(2) == 10 * pow10(1));
        }
        pointed_text(hundredths, 2, 100)
    }
}

/// `n` with its last `k` digits behind a point.
fn pointed_text(n: u128, k: u32, power: u128) -> (r: String)
    requires
        power == pow10(k as nat),
        power > 0,
    ensures
        r@ == pointed(n as nat, k as nat),
{
    let whole = u128_text(n / power);
    let head = joined(whole.as_str(), ".");
    let tail = digits_text(n, k);
    joined(head.as_str(), tail.as_str())
}

/// The number without its sign, in units of its `k`th decimal place, rounded.
pub open spec fn rounded_units(d: Dec, k: nat) -> nat {
    nearest(
        ((if d.num() < 0 {
            -d.num()
        } else {
            d.num()
        }) * pow10(k)) as nat,
        pow10(d.places()) as nat,
    )
}

/// The number with `k` decimal places; with none there is no point either.
pub open spec fn rounded(d: Dec, k: nat) -> Seq<char> {
    let units = rounded_units(d, k);
    let text = if k == 0 {
        nat_text(units)
    } else {
        pointed(units, k)
    };
    if d@ < 0 {
        "-"@ + text
    } else {
        text
    }
}

/// An amount with two decimal places.
pub open spec fn money(d: Dec) -> Seq<char> {
    rounded(d, 2)
}

/// Ten to the power of `n`.
pub(crate) fn power_of_ten(n: u32) -> (r: u128)
    requires
        n <= 28,
    ensures
        r == pow10(n as nat),
        0 < r <= 10_000_000_000_000_000_000_000_000_000,
{
    let mut p: u128 = 1;
    let mut i: u32 = 0;
    proof {
        reveal(vstd::arithmetic::power::pow);
        lemma_powers();
    }
    while i < n
        invariant
            i <= n <= 28,
            p == pow10(i as nat),
            p > 0,
            forall|k: nat| k <= 28 ==> #[trigger] pow10(k) <= 10_000_000_000_000_000_000_000_000_000,
        decreases n - i,
    {
        proof {
            reveal(vstd::arithmetic::power::pow);
            assert(pow10((i + 1) as nat) == 10 * pow10(i as nat));
            assert(pow10((i + 1) as nat) <= 10_000_000_000_000_000_000_000_000_000);
        }
        p = p * 10;
        i += 1;
    }
    p
}

/// No power of ten up to the 28th is above it.
proof fn lemma_powers()
    ensures
        forall|k: nat| k <= 28 ==> #[trigger] pow10(k) <= 10_000_000_000_000_000_000_000_000_000,
{
    vstd::arithmetic::power::lemma_pow0(10);
    lemma_power_28();
    assert forall|k: nat| k <= 28 implies #[trigger] pow10(k)
        <= 10_000_000_000_000_000_000_000_000_000 by {
        vstd::arithmetic::power::lemma_pow_increases(10, k, 28);
    }
}

proof fn lemma_power_28()
    ensures
        pow10(28) == 10_000_000_000_000_000_000_000_000_000,
{
    reveal(vstd::arithmetic::power::pow);
    reveal_with_fuel(vstd::arithmetic::power::pow, 29);
}

/// The number with `k` decimal places.
pub fn rounded_text(d: Dec, k: u32) -> (r: String)
    requires
        k <= 8,
    ensures
        r@ == rounded(d, k as nat),
{
    proof {
        use_type_invariant(&d);
        lemma_bounds(d);
    }
    let m: i128 = d.mantissa();
    let size: u128 = if m < 0 {
        (-m) as u128
    } else {
        m as u128
    };
    let power: u128 = power_of_ten(k);
    proof {
        lemma_small_powers();
        assert(size * power <= 79_228_162_514_264_337_593_543_950_335int * 100_000_000int)
            by (nonlinear_arith)
            requires
                0 <= size <= 79_228_162_514_264_337_593_543_950_335,
                0 <= power <= 100_000_000,
        ;
    }
    let unit: u128 = power_of_ten(d.scale());
    let units: u128 = find_nearest(size * power, unit);
    let t = if k == 0 {
        u128_text(units)
    } else {
        pointed_text(units, k, power)
    };
    if d.is_sign_negative() {
        joined("-", t.as_str())
    } else {
        t
    }
}

/// No power of ten up to the eighth is above it.
proof fn lemma_small_powers()
    ensures
        forall|k: nat| k <= 8 ==> #[trigger] pow10(k) <= 100_000_000,
{
    reveal_with_fuel(vstd::arithmetic::power::pow, 9);
    assert(pow10(8) == 100_000_000);
    assert forall|k: nat| k <= 8 implies #[trigger] pow10(k) <= 100_000_000 by {
        vstd::arithmetic::power::lemma_pow_increases(10, k, 8);
    }
}

/// An amount with two decimal places.
pub fn money_text(d: Dec) -> (r: String)
    ensures
        r@ == money(d),
{
    rounded_text(d, 2)
}

/// The nearest whole number is at most a half away, and even where it is just that.
pub proof fn law_nearest(n: nat, d: nat)
    requires
        d > 0,
    ensures
        -(d as int) <= 2 * (nearest(n, d) * d - n) <= d,
        2 * (nearest(n, d) * d - n) == d || 2 * (nearest(n, d) * d - n) == -(d as int) ==> nearest(
            n,
            d,
        ) % 2 == 0,
{
    let q = n / d;
    let r = n % d;
    vstd::arithmetic::div_mod::lemma_fundamental_div_mod(n as int, d as int);
    vstd::arithmetic::div_mod::lemma_mod_bound(n as int, d as int);
    assert(q * d == d * q && (q + 1) * d == q * d + d) by (nonlinear_arith);
}

/// A share is above or below so many percent by its parts alone, and never both.
pub proof fn law_rates(r: Rate, percent: int)
    requires
        percent >= 0,
    ensures
        r.whole > 0 ==> (r.above(percent) <==> 100 * r.part > percent * r.whole),
        r.whole > 0 ==> (r.below(percent) <==> 100 * r.part < percent * r.whole),
        r.whole == 0 ==> !r.above(percent) && (r.below(percent) <==> percent > 0),
        !(r.above(percent) && r.below(percent)),
{
}

} // verus!
