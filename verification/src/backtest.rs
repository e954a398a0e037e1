//! Backtests over many symbols: which part of the past is used, how symbols are ranked,
//! and whether what was learned holds on what was not seen.
use vstd::prelude::*;

use crate::arith::{add_opt, div_by, lit, mul_opt, number, over, plus, times};
use crate::decimal::{lemma_powers, lemma_value, one, value_of, Dec};
use crate::numbers::{parse_u32, unsigned_up_to};
use crate::rounding::{
    can_be_held, is_close, law_exact_is_kept, law_rounding_below, law_rounding_is_close,
    lemma_held, lemma_zero_and_one, rounds_to,
};
use crate::text::{glue5, i64_text, joined, nat_text, signed_text, u64_text};

verus! {

/// How many symbols are taken from the top.
pub const TOP_SYMBOLS: usize = 10;

/// The least past that is split for learning and testing, in candles.
pub const MIN_WALK_FORWARD: u32 = 200;

/// The part of the past that is used: from the one candle up to the other. None where
/// nothing is left.
pub open spec fn slice_of(skip_first: usize, take_count: usize, len: usize) -> Option<(int, int)> {
    if skip_first >= len || take_count == 0 {
        None
    } else if skip_first + take_count < len {
        Some((skip_first as int, skip_first + take_count))
    } else {
        Some((skip_first as int, len as int))
    }
}

/// The part of the past that is used.
pub fn slice_bounds(skip_first: usize, take_count: usize, len: usize) -> (r: Option<(usize, usize)>)
    ensures
        match slice_of(skip_first, take_count, len) {
            Some((from, to)) => r matches Some(b) && b.0 == from && b.1 == to && from < to <= len,
            None => r is None,
        },
{
    if skip_first >= len || take_count == 0 {
        return None;
    }
    if take_count < len - skip_first {
        Some((skip_first, skip_first + take_count))
    } else {
        Some((skip_first, len))
    }
}

/// The candles to learn from and those to test with: half of them each.
pub fn walk_forward_split(limit: u32) -> (r: (usize, usize))
    ensures
        r.0 == limit / 2,
        r.1 == limit / 2,
{
    ((limit / 2) as usize, (limit / 2) as usize)
}

/// Learning and testing never use the same candle.
pub proof fn law_walk_forward_halves_are_apart(limit: u32, len: usize)
    ensures
        slice_of(0, (limit / 2) as usize, len) matches Some(train) ==> slice_of(
            (limit / 2) as usize,
            (limit / 2) as usize,
            len,
        ) matches Some(test) ==> train.1 <= test.0,
{
}

/// Whether what was learned is tested: it is asked for, and there is enough.
pub fn walk_forward_enabled(asked: bool, results: usize, limit: u32) -> (r: bool)
    ensures
        r == (asked && results >= TOP_SYMBOLS && limit >= MIN_WALK_FORWARD),
{
    asked && results >= TOP_SYMBOLS && limit >= MIN_WALK_FORWARD
}

/// Where a result belongs among those that are ranked: before the first that is lower.
pub open spec fn rank_place(ranked: Seq<usize>, pnl: Seq<Dec>, x: int) -> int
    decreases ranked.len(),
{
    if ranked.len() == 0 || pnl[ranked[0] as int]@ < pnl[x]@ {
        0
    } else {
        1 + rank_place(ranked.skip(1), pnl, x)
    }
}

/// The first `n` results from the highest to the lowest; equal ones stay in their order.
pub open spec fn ranking(pnl: Seq<Dec>, n: nat) -> Seq<usize>
    decreases n,
{
    if n == 0 {
        Seq::empty()
    } else {
        let head = ranking(pnl, (n - 1) as nat);
        head.insert(rank_place(head, pnl, n - 1), (n - 1) as usize)
    }
}

proof fn lemma_rank_place(ranked: Seq<usize>, pnl: Seq<Dec>, x: int)
    ensures
        0 <= rank_place(ranked, pnl, x) <= ranked.len(),
        forall|i: int|
            0 <= i < rank_place(ranked, pnl, x) ==> pnl[(#[trigger] ranked[i]) as int]@ >= pnl[x]@,
        rank_place(ranked, pnl, x) < ranked.len() ==> pnl[ranked[rank_place(
            ranked,
            pnl,
            x,
        )] as int]@ < pnl[x]@,
    decreases ranked.len(),
{
    if ranked.len() > 0 && !(pnl[ranked[0] as int]@ < pnl[x]@) {
        let rest = ranked.skip(1);
        lemma_rank_place(rest, pnl, x);
        assert forall|i: int| 0 <= i < rank_place(ranked, pnl, x) implies pnl[(
        #[trigger] ranked[i]) as int]@ >= pnl[x]@ by {
            if i > 0 {
                assert(rest[i - 1] == ranked[i]);
            }
        }
    }
}

/// A ranking falls, names each result once and leaves none out.
pub proof fn law_ranking(pnl: Seq<Dec>, n: nat)
    requires
        n <= pnl.len() <= usize::MAX,
    ensures
        ranking(pnl, n).len() == n,
        forall|i: int, j: int|
            0 <= i < j < n ==> pnl[(#[trigger] ranking(pnl, n)[i]) as int]@ >= pnl[(
            #[trigger] ranking(pnl, n)[j]) as int]@,
        forall|i: int| 0 <= i < n ==> (#[trigger] ranking(pnl, n)[i]) < n,
        ranking(pnl, n).no_duplicates(),
    decreases n,
{
    if n > 0 {
        let head = ranking(pnl, (n - 1) as nat);
        law_ranking(pnl, (n - 1) as nat);
        lemma_rank_place(head, pnl, n - 1);
        let k = rank_place(head, pnl, n - 1);
        let all = ranking(pnl, n);
        assert forall|i: int| 0 <= i < n implies (#[trigger] all[i]) < n by {
            if i < k {
                assert(all[i] == head[i]);
            } else if i > k {
                assert(all[i] == head[i - 1]);
            }
        }
        assert forall|i: int, j: int| 0 <= i < j < n implies pnl[(#[trigger] all[i]) as int]@
            >= pnl[(#[trigger] all[j]) as int]@ by {
            let a = if i < k { head[i] } else if i == k { (n - 1) as usize } else { head[i - 1] };
            let b = if j < k { head[j] } else if j == k { (n - 1) as usize } else { head[j - 1] };
            assert(all[i] == a && all[j] == b);
            if i == k && j - 1 > k {
                assert(pnl[head[k] as int]@ >= pnl[head[j - 1] as int]@);
            }
        }
        assert forall|i: int, j: int| 0 <= i < n && 0 <= j < n && i != j implies all[i] != all[j] by {
            let a = if i < k { head[i] } else if i == k { (n - 1) as usize } else { head[i - 1] };
            let b = if j < k { head[j] } else if j == k { (n - 1) as usize } else { head[j - 1] };
            assert(all[i] == a && all[j] == b);
        }
    }
}

/// The results from the highest to the lowest.
pub fn rank_by_pnl(pnl: &Vec<Dec>) -> (r: Vec<usize>)
    ensures
        r@ == ranking(pnl@, pnl@.len()),
{
    let mut ranked: Vec<usize> = Vec::new();
    let mut i: usize = 0;
    let count: usize = pnl.len();
    while i < count
        invariant
            i <= count == pnl@.len(),
            ranked@ == ranking(pnl@, i as nat),
            forall|j: int| 0 <= j < ranked@.len() ==> (#[trigger] ranked@[j]) < i,
        decreases count - i,
    {
        let mut k: usize = 0;
        assert(ranked@.skip(0) =~= ranked@);
        while k < ranked.len() && !pnl[ranked[k]].lt(&pnl[i])
            invariant
                k <= ranked@.len(),
                i < pnl@.len(),
                forall|j: int| 0 <= j < ranked@.len() ==> (#[trigger] ranked@[j]) < i,
                rank_place(ranked@, pnl@, i as int) == k + rank_place(
                    ranked@.skip(k as int),
                    pnl@,
                    i as int,
                ),
            decreases ranked.len() - k,
        {
            assert(ranked@.skip(k as int)[0] == ranked@[k as int]);
            assert(ranked@.skip(k as int).skip(1) =~= ranked@.skip(k as int + 1));
            k += 1;
        }
        proof {
            if k < ranked@.len() {
                assert(ranked@.skip(k as int)[0] == ranked@[k as int]);
            }
            law_ranking(pnl@, (i + 1) as nat);
        }
        ranked.insert(k, i);
        i += 1;
    }
    ranked
}

/// The total of the first `n` results.
pub open spec fn total_of(pnl: Seq<Dec>, n: nat) -> Option<Dec>
    decreases n,
{
    if n == 0 {
        lit(0, 0)
    } else {
        plus(total_of(pnl, (n - 1) as nat), Some(pnl[n - 1]))
    }
}

/// What the first `n` results come to.
pub open spec fn results_total(pnl: Seq<Dec>, n: nat) -> int
    decreases n,
{
    if n == 0 {
        0
    } else {
        results_total(pnl, (n - 1) as nat) + pnl[n - 1]@
    }
}

/// What the first results come to, however many of the first `n`, can be held.
pub open spec fn results_held(pnl: Seq<Dec>, n: nat) -> bool {
    forall|k: nat| k <= n ==> can_be_held(#[trigger] results_total(pnl, k))
}

fn find_total(pnl: &Vec<Dec>, n: usize) -> (r: Option<Dec>)
    requires
        n <= pnl@.len(),
    ensures
        r == total_of(pnl@, n as nat),
        results_held(pnl@, n as nat) ==> value_of(r) == Some(results_total(pnl@, n as nat)),
{
    let mut total = number(0, 0);
    let mut i: usize = 0;
    proof {
        lemma_value(0, 0);
    }
    while i < n
        invariant
            i <= n <= pnl@.len(),
            total == total_of(pnl@, i as nat),
            results_held(pnl@, n as nat) ==> value_of(total) == Some(
                results_total(pnl@, i as nat),
            ),
        decreases n - i,
    {
        total = add_opt(total, Some(pnl[i]));
        proof {
            if results_held(pnl@, n as nat) {
                let after = results_total(pnl@, (i + 1) as nat);
                assert(can_be_held(after));
                lemma_held(after, value_of(total));
            }
        }
        i += 1;
    }
    total
}

/// How many of the first `n` results are above zero.
pub open spec fn profitable(pnl: Seq<Dec>, n: nat) -> nat
    decreases n,
{
    if n == 0 {
        0
    } else {
        profitable(pnl, (n - 1) as nat) + if pnl[n - 1]@ > 0 {
            1nat
        } else {
            0
        }
    }
}

/// The total of the results, where it can be held, and how many are above zero.
pub fn portfolio(pnl: &Vec<Dec>) -> (r: (Option<Dec>, usize))
    ensures
        r.0 == total_of(pnl@, pnl@.len()),
        r.1 == profitable(pnl@, pnl@.len()),
        results_held(pnl@, pnl@.len()) ==> value_of(r.0) == Some(
            results_total(pnl@, pnl@.len()),
        ),
{
    let mut count: usize = 0;
    let mut i: usize = 0;
    while i < pnl.len()
        invariant
            i <= pnl@.len(),
            count == profitable(pnl@, i as nat),
            count <= i,
        decreases pnl.len() - i,
    {
        if pnl[i].is_positive() {
            count += 1;
        }
        i += 1;
    }
    (find_total(pnl, pnl.len()), count)
}

/// What testing says of what was learned.
#[derive(Clone, Copy, Debug, PartialEq, Eq, Structural)]
pub enum WalkForwardVerdict {
    /// It holds: testing won, at least half as much as learning.
    Validated,
    /// It does not hold: testing lost.
    Harmful,
    /// It is doubtful.
    Doubtful,
}

/// The average of the best results of learning, by their number at the top.
pub open spec fn training_average(best: Seq<Dec>) -> Option<Dec> {
    over(
        total_of(
            best,
            if best.len() < TOP_SYMBOLS {
                best.len()
            } else {
                TOP_SYMBOLS as nat
            },
        ),
        lit(10, 0),
    )
}

/// The average of the results of testing.
pub open spec fn testing_average(results: Seq<Dec>) -> Option<Dec> {
    over(
        total_of(results, results.len()),
        lit(
            if results.len() == 0 {
                1
            } else {
                results.len() as int
            },
            0,
        ),
    )
}

/// What testing says of what was learned.
pub open spec fn verdict_of(training: Dec, testing: Dec, half: Dec) -> WalkForwardVerdict {
    if testing@ > 0 && testing@ >= half@ {
        WalkForwardVerdict::Validated
    } else if testing@ < 0 {
        WalkForwardVerdict::Harmful
    } else {
        WalkForwardVerdict::Doubtful
    }
}

/// The averages that are compared: a tenth of what the ten best results of training come to, what
/// those of testing come to by how many they are, and half of the former.
pub open spec fn verdict_by(
    best: Seq<Dec>,
    results: Seq<Dec>,
    training: int,
    testing: int,
    half: int,
) -> bool {
    let top: nat = if best.len() < 10 {
        best.len()
    } else {
        10
    };
    &&& results_held(best, top) ==> rounds_to(results_total(best, top), 10, training)
    &&& results_held(results, results.len()) ==> rounds_to(
        results_total(results, results.len()),
        if results.len() == 0 {
            1
        } else {
            results.len() as int
        },
        testing,
    )
    &&& rounds_to(training * 5_000_000_000_000_000_000_000_000_000, one(), half)
}

pub open spec fn verdict_told(best: Seq<Dec>, results: Seq<Dec>, v: WalkForwardVerdict) -> bool {
    exists|training: int, testing: int, half: int| #[trigger]
        verdict_by(best, results, training, testing, half) && (v is Validated <==> testing > 0
            && testing >= half) && (v is Harmful <==> testing < 0)
}

/// What is harmful lost in testing, and what is validated did not. With ten results of training and
/// what both averages come to held, it is validated only where testing made half as much as
/// training on average, up to rounding, and always where it made more than that.
pub proof fn law_walk_forward(
    best: Seq<Dec>,
    results: Seq<Dec>,
    v: WalkForwardVerdict,
    training: int,
    testing: int,
)
    requires
        verdict_told(best, results, v),
        best.len() >= 10,
        results.len() > 0,
        results_held(best, 10),
        results_held(results, results.len()),
        can_be_held(training),
        can_be_held(testing),
        10 * training == results_total(best, 10),
        results.len() * testing == results_total(results, results.len()),
    ensures
        v is Harmful <==> testing < 0,
        v is Validated ==> testing > 0,
        v is Validated ==> exists|half: int|
            testing >= half && #[trigger] is_close(training, 2, half),
        testing > 0 && 2 * testing >= training + 1 && can_be_held(testing) ==> v is Validated,
{
    lemma_zero_and_one();
    let (a, b, half) = choose|a: int, b: int, half: int| #[trigger]
        verdict_by(best, results, a, b, half) && (v is Validated <==> b > 0 && b >= half) && (
        v is Harmful <==> b < 0);
    law_exact_is_kept(results_total(best, 10), 10, a, training);
    let n = results.len() as int;
    assert(results.len() * testing == testing * n) by (nonlinear_arith)
        requires
            n == results.len(),
    ;
    law_exact_is_kept(results_total(results, results.len()), n, b, testing);
    if testing > 0 && 2 * testing >= training + 1 {
        law_rounding_below(
            training * 5_000_000_000_000_000_000_000_000_000,
            one(),
            half,
            testing,
        );
    }
    law_rounding_is_close(training * 5_000_000_000_000_000_000_000_000_000, one(), half);
    assert(is_close(training, 2, half));
}

/// Compares the best results of learning with those of testing. `None` where a number
/// cannot be held.
pub fn walk_forward_verdict(best: &Vec<Dec>, results: &Vec<Dec>) -> (r: Option<WalkForwardVerdict>)
    requires
        results@.len() <= i64::MAX,
    ensures
        match (
            training_average(best@),
            testing_average(results@),
            times(training_average(best@), lit(5, 1)),
        ) {
            (Some(training), Some(testing), Some(half)) => r == Some(
                verdict_of(training, testing, half),
            ),
            _ => r is None,
        },
        r matches Some(v) ==> verdict_told(best@, results@, v),
{
    let n: usize = if best.len() < TOP_SYMBOLS {
        best.len()
    } else {
        TOP_SYMBOLS
    };
    let training = div_by(find_total(best, n), 10);
    let count: i64 = if results.len() == 0 {
        1
    } else {
        results.len() as i64
    };
    let testing = div_by(find_total(results, results.len()), count);
    let half = mul_opt(training, number(5, 1));
    proof {
        lemma_powers();
        lemma_value(5, 1);
        if training is Some && testing is Some && half is Some {
            assert(verdict_by(best@, results@, training->0@, testing->0@, half->0@));
        }
    }
    match (training, testing, half) {
        (Some(_), Some(t), Some(half)) => Some(
            if t.is_positive() && half.le(&t) {
                WalkForwardVerdict::Validated
            } else if t.is_sign_negative() {
                WalkForwardVerdict::Harmful
            } else {
                WalkForwardVerdict::Doubtful
            },
        ),
        _ => None,
    }
}

/// The name of the file that candles are kept in.
pub fn klines_file_name(symbol: &str, interval: &str, limit: u32) -> (r: String)
    ensures
        r@ == symbol@ + "_"@ + interval@ + "_"@ + nat_text(limit as nat) + ".json"@,
{
    let count = u64_text(limit as u64);
    let head = glue5(symbol, "_", interval, "_", count.as_str());
    joined(head.as_str(), ".json")
}

/// The name of the file that forced orders are kept in. A time that is not known is zero.
pub fn force_orders_file_name(symbol: &str, start: Option<i64>, end: Option<i64>, limit: u32) -> (r:
    String)
    ensures
        r@ == symbol@ + "_"@ + signed_text(time_or_zero(start)) + "_"@ + signed_text(
            time_or_zero(end),
        ) + "_"@ + nat_text(limit as nat) + "_force_orders.json"@,
{
    let from = i64_text(match start {
        Some(t) => t,
        None => 0,
    });
    let to = i64_text(match end {
        Some(t) => t,
        None => 0,
    });
    let count = u64_text(limit as u64);
    let head = glue5(symbol, "_", from.as_str(), "_", to.as_str());
    let tail = joined(joined(head.as_str(), "_").as_str(), count.as_str());
    joined(tail.as_str(), "_force_orders.json")
}

/// A time, or zero where it is not known.
pub open spec fn time_or_zero(t: Option<i64>) -> int {
    match t {
        Some(x) => x as int,
        None => 0,
    }
}

/// A count that was set as a text, or the one that holds otherwise.
pub fn count_setting(text: Option<&str>, default: u32) -> (r: u32)
    ensures
        r == match text {
            Some(t) => match unsigned_up_to(t@, u32::MAX as nat) {
                Some(n) => n as int,
                None => default as int,
            },
            None => default as int,
        },
{
    match text {
        Some(t) => match parse_u32(t) {
            Some(n) => n,
            None => default,
        },
        None => default,
    }
}

/// The part of the candles that is used: none where the first of them is past the end or none is
/// asked for; otherwise as many as asked for, or as many as there are, from where it starts.
pub proof fn law_slices(skip_first: usize, take_count: usize, len: usize)
    ensures
        slice_of(skip_first, take_count, len) is None <==> skip_first >= len || take_count == 0,
        slice_of(skip_first, take_count, len) matches Some((from, to)) ==> from == skip_first
            && from < to <= len && to - from <= take_count && (to == len || to - from
            == take_count),
{
}

/// A setting is validated only where it made something in testing, and half as much as in
/// training at least; it is harmful exactly where it lost.
pub proof fn law_verdicts(training: Dec, testing: Dec, half: Dec)
    ensures
        verdict_of(training, testing, half) is Validated <==> testing@ > 0 && testing@ >= half@,
        verdict_of(training, testing, half) is Harmful <==> testing@ < 0,
        verdict_of(training, testing, half) is Doubtful <==> testing@ >= 0 && (testing@ == 0
            || testing@ < half@),
{
}

/// Each result above zero counts once, and no other does.
pub proof fn law_profitable(pnl: Seq<Dec>, n: nat)
    requires
        n < pnl.len(),
    ensures
        profitable(pnl, 0) == 0,
        profitable(pnl, n + 1) - profitable(pnl, n) == if pnl[n as int]@ > 0 {
            1int
        } else {
            0
        },
{
}

} // verus!
