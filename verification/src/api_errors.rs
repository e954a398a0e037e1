//! What the answers of the exchange mean: which failures pass, which stay, and
//! which are none.
use vstd::prelude::*;

use crate::text::{contains_text, lowercase, occurs_in};

verus! {

/// A request with this status may succeed when it is sent again.
pub open spec fn transient(status: u16) -> bool {
    status == 408 || status == 429 || 500 <= status <= 599
}

/// A request with this status may succeed when it is sent again.
pub fn is_transient_error(status: u16) -> (r: bool)
    ensures
        r == transient(status),
{
    status == 408 || status == 429 || (500 <= status && status <= 599)
}

/// A lower-case answer speaks of the precision of a price or quantity.
pub open spec fn names_precision(body_lower: Seq<char>) -> bool {
    occurs_in(body_lower, "precision is over"@) || occurs_in(body_lower, "-1111"@)
}

/// A lower-case answer speaks of the smallest notional value.
pub open spec fn names_min_notional(body_lower: Seq<char>) -> bool {
    occurs_in(body_lower, "min notional"@) || occurs_in(body_lower, "min_notional"@) || occurs_in(
        body_lower,
        "-1013"@,
    )
}

/// A lower-case answer speaks of the smallest notional value.
pub fn contains_min_notional(body_lower: &str) -> (r: bool)
    ensures
        r == names_min_notional(body_lower@),
{
    contains_text(body_lower, "min notional") || contains_text(body_lower, "min_notional")
        || contains_text(body_lower, "-1013")
}

fn contains_precision(body_lower: &str) -> (r: bool)
    ensures
        r == names_precision(body_lower@),
{
    contains_text(body_lower, "precision is over") || contains_text(body_lower, "-1111")
}

/// A request that was answered so fails however often it is sent.
pub open spec fn permanent(status: u16, body: Seq<char>) -> bool {
    let l = lowercase(body);
    &&& status == 400
    &&& !names_precision(l)
    &&& !names_min_notional(l)
    &&& occurs_in(l, "invalid"@) || occurs_in(l, "margin"@) || occurs_in(
        l,
        "insufficient balance"@,
    )
}

/// A request that was answered so fails however often it is sent.
pub fn is_permanent_error(status: u16, body: &str) -> (r: bool)
    ensures
        r == permanent(status, body@),
{
    if status == 400 {
        let l = body.to_lowercase();
        if contains_precision(l.as_str()) {
            return false;
        }
        if contains_min_notional(l.as_str()) {
            return false;
        }
        contains_text(l.as_str(), "invalid") || contains_text(l.as_str(), "margin")
            || contains_text(l.as_str(), "insufficient balance")
    } else {
        false
    }
}

/// No failure is both worth another try and hopeless.
pub proof fn law_not_both_transient_and_permanent(status: u16, body: Seq<char>)
    ensures
        !(transient(status) && permanent(status, body)),
{
}

/// Which rule of a symbol an order broke.
#[derive(Clone, Copy, Debug, PartialEq, Eq, Structural)]
pub enum RuleBreach {
    Precision,
    MinNotional,
}

/// The rule of a symbol that an answer says was broken.
pub open spec fn breach_of(body: Seq<char>) -> Option<RuleBreach> {
    let l = lowercase(body);
    if names_precision(l) {
        Some(RuleBreach::Precision)
    } else if names_min_notional(l) {
        Some(RuleBreach::MinNotional)
    } else {
        None
    }
}

/// The rule of a symbol that an answer says was broken.
pub fn rule_breach(body: &str) -> (r: Option<RuleBreach>)
    ensures
        r == breach_of(body@),
{
    let l = body.to_lowercase();
    if contains_precision(l.as_str()) {
        Some(RuleBreach::Precision)
    } else if contains_min_notional(l.as_str()) {
        Some(RuleBreach::MinNotional)
    } else {
        None
    }
}

/// An error that says that a leverage is too high for the symbol.
pub open spec fn leverage_refused(error: Seq<char>) -> bool {
    let l = lowercase(error);
    occurs_in(l, "leverage"@) && (occurs_in(l, "not valid"@) || occurs_in(l, "-4028"@))
}

/// An error that says that a leverage is too high for the symbol.
pub fn is_leverage_refused(error: &str) -> (r: bool)
    ensures
        r == leverage_refused(error@),
{
    let l = error.to_lowercase();
    contains_text(l.as_str(), "leverage") && (contains_text(l.as_str(), "not valid")
        || contains_text(l.as_str(), "-4028"))
}

/// An error that says that the position mode is what it was asked to be.
pub fn is_position_mode_unchanged(error: &str) -> (r: bool)
    ensures
        r == (occurs_in(error@, "-4059"@) || occurs_in(
            error@,
            "No need to change position side"@,
        )),
{
    contains_text(error, "-4059") || contains_text(error, "No need to change position side")
}

/// An error that says that margin is held as it was asked to be.
pub fn is_margin_type_unchanged(error: &str) -> (r: bool)
    ensures
        r == (occurs_in(error@, "-4046"@) || occurs_in(error@, "No need to change margin type"@)),
{
    contains_text(error, "-4046") || contains_text(error, "No need to change margin type")
}

/// An answer that says that there is no such order.
pub fn is_order_unknown(body: &str) -> (r: bool)
    ensures
        r == (occurs_in(lowercase(body@), "-2013"@) || occurs_in(
            lowercase(body@),
            "order does not exist"@,
        )),
{
    let l = body.to_lowercase();
    contains_text(l.as_str(), "-2013") || contains_text(l.as_str(), "order does not exist")
}

/// An error that says that there is no position.
pub fn is_position_not_found_error(error: &str) -> (r: bool)
    ensures
        r == occurs_in(lowercase(error@), "position not found"@),
{
    let l = error.to_lowercase();
    contains_text(l.as_str(), "position not found")
}

/// An error that says that a position that was to be closed is closed.
pub fn is_position_already_closed_error(error: &str) -> (r: bool)
    ensures
        r == (occurs_in(lowercase(error@), "position not found"@) || occurs_in(
            lowercase(error@),
            "-2022"@,
        )),
{
    let l = error.to_lowercase();
    contains_text(l.as_str(), "position not found") || contains_text(l.as_str(), "-2022")
}

/// An error that speaks of the smallest notional value.
pub fn is_min_notional_error(error: &str) -> (r: bool)
    ensures
        r == names_min_notional(lowercase(error@)),
{
    let l = error.to_lowercase();
    contains_min_notional(l.as_str())
}

/// How many seconds to wait after an answer: as long as the exchange asks, or a
/// second, where it said that there were too many requests.
pub fn rate_limit_wait(status: u16, retry_after: Option<u64>) -> (r: u64)
    ensures
        r == if status == 429 {
            match retry_after {
                Some(s) => s,
                None => 1,
            }
        } else {
            0
        },
{
    if status == 429 {
        match retry_after {
            Some(s) => s,
            None => 1,
        }
    } else {
        0
    }
}

/// How loud a failed answer is reported.
#[derive(Clone, Copy, Debug, PartialEq, Eq, Structural)]
pub enum ReportLevel {
    Silent,
    Debug,
    Warn,
    Error,
}

/// Answers that say that nothing had to be changed.
pub open spec fn benign(body: Seq<char>) -> bool {
    occurs_in(body, "-4046"@) || occurs_in(body, "-4059"@) || occurs_in(
        body,
        "No need to change margin type"@,
    ) || occurs_in(body, "No need to change position side"@)
}

/// How loud a failed answer is reported: what is already set and what is tried
/// again with less leverage is no error, and the request limit was reported before.
pub fn report_level(status: u16, body: &str) -> (r: ReportLevel)
    ensures
        r == if benign(body@) {
            ReportLevel::Debug
        } else if occurs_in(body@, "-4028"@) || (occurs_in(body@, "Leverage"@) && occurs_in(
            body@,
            "not valid"@,
        )) {
            ReportLevel::Warn
        } else if status == 429 {
            ReportLevel::Silent
        } else {
            ReportLevel::Error
        },
{
    if is_margin_type_unchanged(body) || is_position_mode_unchanged(body) {
        ReportLevel::Debug
    } else if contains_text(body, "-4028") || (contains_text(body, "Leverage") && contains_text(
        body,
        "not valid",
    )) {
        ReportLevel::Warn
    } else if status == 429 {
        ReportLevel::Silent
    } else {
        ReportLevel::Error
    }
}

/// `factor` to the power of `n`.
pub open spec fn power(factor: nat, n: nat) -> nat
    decreases n,
{
    if n == 0 {
        1
    } else {
        factor * power(factor, (n - 1) as nat)
    }
}

/// The pause before attempt `attempt + 1`, in milliseconds: the first pause, times
/// the factor for each attempt before it.
pub fn exponential_backoff(attempt: u32, initial_ms: u64, factor: u64) -> (r: u64)
    requires
        initial_ms * power(factor as nat, attempt as nat) <= u64::MAX,
        factor > 0,
    ensures
        r == initial_ms * power(factor as nat, attempt as nat),
{
    let mut r: u64 = initial_ms;
    let mut i: u32 = 0;
    assert(initial_ms * power(factor as nat, 0) == initial_ms) by (nonlinear_arith)
        requires
            power(factor as nat, 0) == 1,
    ;
    while i < attempt
        invariant
            i <= attempt,
            factor > 0,
            r == initial_ms * power(factor as nat, i as nat),
            initial_ms * power(factor as nat, attempt as nat) <= u64::MAX,
        decreases attempt - i,
    {
        proof {
            let f = factor as nat;
            let a = power(f, i as nat);
            assert(power(f, (i + 1) as nat) == f * a);
            assert(initial_ms * (f * a) == (initial_ms * a) * f) by (nonlinear_arith);
            lemma_power_grows(f, (i + 1) as nat, attempt as nat);
            assert(initial_ms * (f * a) <= initial_ms * power(f, attempt as nat))
                by (nonlinear_arith)
                requires
                    f * a <= power(f, attempt as nat),
                    initial_ms >= 0,
            ;
        }
        r = r * factor;
        i += 1;
    }
    r
}

proof fn lemma_power_grows(f: nat, a: nat, b: nat)
    requires
        f > 0,
        a <= b,
    ensures
        power(f, a) <= power(f, b),
    decreases b,
{
    if a < b {
        lemma_power_grows(f, a, (b - 1) as nat);
        assert(power(f, (b - 1) as nat) <= f * power(f, (b - 1) as nat)) by (nonlinear_arith)
            requires
                f > 0,
        ;
    }
}

/// The answers after which a request is sent again are that it took too long, that there were too
/// many, and those of the server's own; and only a bad request can be refused for good.
pub proof fn law_statuses(status: u16, body: Seq<char>)
    ensures
        transient(status) <==> (status == 408 || status == 429 || status / 100 == 5),
        permanent(status, body) ==> status == 400 && breach_of(body) is None,
        permanent(status, body) <==> status == 400 && breach_of(body) is None && (occurs_in(
            lowercase(body),
            "invalid"@,
        ) || occurs_in(lowercase(body), "margin"@) || occurs_in(
            lowercase(body),
            "insufficient balance"@,
        )),
{
}

/// Which rule an answer says was broken: that on decimal places where it names them, and else that
/// on the smallest value where it names that.
pub proof fn law_breaches(body: Seq<char>)
    ensures
        ({
            let l = lowercase(body);
            let places = occurs_in(l, "precision is over"@) || occurs_in(l, "-1111"@);
            let value = occurs_in(l, "min notional"@) || occurs_in(l, "min_notional"@) || occurs_in(
                l,
                "-1013"@,
            );
            &&& breach_of(body) == Some(RuleBreach::Precision) <==> places
            &&& breach_of(body) == Some(RuleBreach::MinNotional) <==> value && !places
            &&& breach_of(body) is None <==> !places && !value
        }),
{
}

/// A power is multiplied by its factor from each exponent to the next.
pub proof fn law_power(factor: nat, n: nat)
    ensures
        power(factor, 0) == 1,
        power(factor, 1) == factor,
        power(factor, n + 1) == factor * power(factor, n),
{
    reveal_with_fuel(power, 3);
    assert(factor * 1 == factor) by (nonlinear_arith);
}

} // verus!
