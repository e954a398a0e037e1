//! Numbers read from text: integers, as `FromStr` of the integer types of std reads them,
//! and decimals.
use vstd::prelude::*;

use crate::decimal::{dec_of, parsed, Dec};
use crate::text::chars_of;

verus! {

pub open spec fn is_digit(c: char) -> bool {
    '0' <= c && c <= '9'
}

/// At least one character, and all of them digits.
pub open spec fn all_digits(s: Seq<char>) -> bool {
    s.len() > 0 && forall|i: int| 0 <= i < s.len() ==> is_digit(#[trigger] s[i])
}

/// The number that digits stand for.
pub open spec fn digits_value(s: Seq<char>) -> nat
    decreases s.len(),
{
    if s.len() == 0 {
        0
    } else {
        digits_value(s.drop_last()) * 10 + (s.last() as nat - '0' as nat) as nat
    }
}

/// The number that digits, with a plus sign in front or without, stand for.
pub open spec fn unsigned_value(s: Seq<char>) -> Option<nat> {
    let body = if s.len() > 0 && s[0] == '+' { s.skip(1) } else { s };
    if all_digits(body) {
        Some(digits_value(body))
    } else {
        None
    }
}

/// The number that digits, with a sign in front or without, stand for.
pub open spec fn signed_value(s: Seq<char>) -> Option<int> {
    if s.len() > 0 && s[0] == '-' {
        if all_digits(s.skip(1)) {
            Some(-digits_value(s.skip(1)))
        } else {
            None
        }
    } else {
        match unsigned_value(s) {
            Some(n) => Some(n as int),
            None => None,
        }
    }
}

/// An unsigned number up to `max`.
pub open spec fn unsigned_up_to(s: Seq<char>, max: nat) -> Option<nat> {
    match unsigned_value(s) {
        Some(n) => if n <= max {
            Some(n)
        } else {
            None
        },
        None => None,
    }
}

/// The digits of a longer text stand for at least as much as those of its head.
proof fn lemma_value_grows(s: Seq<char>, k: int)
    requires
        0 <= k <= s.len(),
    ensures
        digits_value(s.take(k)) <= digits_value(s),
    decreases s.len(),
{
    if k == s.len() {
        assert(s.take(k) =~= s);
    } else {
        lemma_value_grows(s.drop_last(), k);
        assert(s.drop_last().take(k) =~= s.take(k));
    }
}

/// The number that the digits from `from` on stand for, if it is at most `max`.
fn read_digits(v: &Vec<char>, from: usize, max: u64) -> (r: Option<u64>)
    requires
        from <= v.len(),
    ensures
        r is Some <==> all_digits(v@.skip(from as int)) && digits_value(v@.skip(from as int))
            <= max,
        r matches Some(n) ==> n == digits_value(v@.skip(from as int)),
{
    let ghost body = v@.skip(from as int);
    if from == v.len() {
        return None;
    }
    let mut i: usize = from;
    let mut n: u64 = 0;
    while i < v.len()
        invariant
            from <= i <= v.len(),
            body == v@.skip(from as int),
            n == digits_value(body.take(i - from)),
            n <= max,
            forall|k: int| 0 <= k < i - from ==> is_digit(#[trigger] body[k]),
        decreases v.len() - i,
    {
        let c = v[i];
        proof {
            assert(body[i - from] == c);
            assert(body.take(i - from + 1).drop_last() =~= body.take(i - from));
            lemma_value_grows(body, i - from + 1);
        }
        if !('0' <= c && c <= '9') {
            return None;
        }
        let d: u64 = (c as u32 - 48u32) as u64;
        if n > (u64::MAX - d) / 10 {
            return None;
        }
        n = n * 10 + d;
        if n > max {
            return None;
        }
        i += 1;
    }
    assert(body.take(body.len() as int) =~= body);
    Some(n)
}

/// An unsigned integer of at most `max`.
fn parse_unsigned(s: &str, max: u64) -> (r: Option<u64>)
    ensures
        r is Some <==> unsigned_up_to(s@, max as nat) is Some,
        r matches Some(n) ==> unsigned_up_to(s@, max as nat) == Some(n as nat),
{
    let v = chars_of(s);
    if v.len() > 0 && v[0] == '+' {
        read_digits(&v, 1, max)
    } else {
        assert(v@.skip(0) =~= v@);
        read_digits(&v, 0, max)
    }
}

pub fn parse_u64(s: &str) -> (r: Option<u64>)
    ensures
        r is Some <==> unsigned_up_to(s@, u64::MAX as nat) is Some,
        r matches Some(n) ==> unsigned_up_to(s@, u64::MAX as nat) == Some(n as nat),
{
    parse_unsigned(s, u64::MAX)
}

pub fn parse_u32(s: &str) -> (r: Option<u32>)
    ensures
        r is Some <==> unsigned_up_to(s@, u32::MAX as nat) is Some,
        r matches Some(n) ==> unsigned_up_to(s@, u32::MAX as nat) == Some(n as nat),
{
    match parse_unsigned(s, u32::MAX as u64) {
        Some(n) => Some(n as u32),
        None => None,
    }
}

pub fn parse_usize(s: &str) -> (r: Option<usize>)
    ensures
        r is Some <==> unsigned_up_to(s@, usize::MAX as nat) is Some,
        r matches Some(n) ==> unsigned_up_to(s@, usize::MAX as nat) == Some(n as nat),
{
    match parse_unsigned(s, usize::MAX as u64) {
        Some(n) => Some(n as usize),
        None => None,
    }
}

/// A signed number that fits an `i64`.
pub open spec fn signed_i64(s: Seq<char>) -> Option<int> {
    match signed_value(s) {
        Some(n) => if i64::MIN <= n <= i64::MAX {
            Some(n)
        } else {
            None
        },
        None => None,
    }
}

pub fn parse_i64(s: &str) -> (r: Option<i64>)
    ensures
        r is Some <==> signed_i64(s@) is Some,
        r matches Some(n) ==> signed_i64(s@) == Some(n as int),
{
    let v = chars_of(s);
    if v.len() > 0 && v[0] == '-' {
        match read_digits(&v, 1, 0x8000_0000_0000_0000) {
            Some(n) => if n == 0x8000_0000_0000_0000 {
                Some(i64::MIN)
            } else {
                Some(-(n as i64))
            },
            None => None,
        }
    } else {
        match parse_unsigned(s, i64::MAX as u64) {
            Some(n) => Some(n as i64),
            None => None,
        }
    }
}

/// The number that a text stands for, if it stands for one; underscores between digits are
/// not accepted.
pub open spec fn plain_number(s: Seq<char>) -> Option<Dec> {
    if s.contains('_') {
        None
    } else {
        parsed(s)
    }
}

/// The number that a text stands for.
pub fn read_plain(text: &str) -> (r: Option<Dec>)
    ensures
        r == plain_number(text@),
{
    let v = chars_of(text);
    let mut i: usize = 0;
    while i < v.len()
        invariant
            i <= v@.len(),
            v@ == text@,
            forall|k: int| 0 <= k < i ==> #[trigger] text@[k] != '_',
        decreases v.len() - i,
    {
        if v[i] == '_' {
            assert(text@[i as int] == '_');
            return None;
        }
        i += 1;
    }
    Dec::parse(text)
}

/// The number that a text stands for; zero where it stands for none.
pub open spec fn plain_or_zero(s: Seq<char>) -> Dec {
    match plain_number(s) {
        Some(d) => d,
        None => dec_of(0, 0),
    }
}

/// The number that a text stands for; zero where it stands for none.
pub fn plain_dec(text: &str) -> (r: Dec)
    ensures
        r == plain_or_zero(text@),
{
    match read_plain(text) {
        Some(d) => d,
        None => Dec::new(0, 0),
    }
}

} // verus!
