//! Leverage: what a symbol allows, and which values are tried.
use vstd::prelude::*;

use crate::api_errors::{is_leverage_refused, leverage_refused};
use crate::connection::push_param;
use crate::json::Json;
use crate::numbers::{parse_u64, unsigned_up_to};
use crate::query::{clocked, push_clock};
use crate::signing::pairs;
use crate::text::{
    ascii_lowered, copy_of, nat_text, same_ignoring_ascii_case, same_text, u64_text,
};

verus! {

/// The leverages that a symbol allows, one for each bracket of position sizes.
#[derive(Clone, Debug)]
pub struct LeverageBrackets {
    pub symbol: String,
    pub leverages: Vec<u32>,
}

/// A symbol with the leverages it allows.
pub struct BracketsView {
    pub symbol: Seq<char>,
    pub leverages: Seq<u32>,
}

impl View for LeverageBrackets {
    type V = BracketsView;

    open spec fn view(&self) -> BracketsView {
        BracketsView { symbol: self.symbol@, leverages: self.leverages@ }
    }
}

/// The views of a list.
pub open spec fn views(v: Seq<LeverageBrackets>) -> Seq<BracketsView> {
    v.map_values(|b: LeverageBrackets| b@)
}

/// A whole number, written as a number or as a text.
pub open spec fn flexible_u64(v: Json) -> Option<u64> {
    match v.unsigned() {
        Some(n) => Some(n),
        None => match v.text() {
            Some(s) => match unsigned_up_to(s, u64::MAX as nat) {
                Some(n) => Some(n as u64),
                None => None,
            },
            None => None,
        },
    }
}

/// A whole number, written as a number or as a text.
fn read_flexible_u64(v: &Json) -> (r: Option<u64>)
    ensures
        r == flexible_u64(*v),
{
    match v.as_u64() {
        Some(n) => Some(n),
        None => match v.as_str() {
            Some(s) => parse_u64(s),
            None => None,
        },
    }
}

/// The leverage of a bracket, in 32 bits.
pub open spec fn bracket_leverage(bracket: Json) -> Option<u32> {
    match bracket.field("initialLeverage"@) {
        Some(v) => match flexible_u64(v) {
            Some(n) => Some((n % 0x1_0000_0000) as u32),
            None => None,
        },
        None => None,
    }
}

/// The leverages of the brackets that have one.
pub open spec fn bracket_leverages(brackets: Seq<Json>) -> Seq<u32>
    decreases brackets.len(),
{
    if brackets.len() == 0 {
        Seq::empty()
    } else {
        let head = bracket_leverages(brackets.drop_last());
        match bracket_leverage(brackets.last()) {
            Some(l) => head.push(l),
            None => head,
        }
    }
}

/// The brackets of one entry of an answer; none where it lacks a symbol, a list
/// or any leverage.
pub open spec fn entry_brackets(entry: Json) -> Option<BracketsView> {
    match (entry.field("symbol"@), entry.field("brackets"@)) {
        (Some(s), Some(Json::List(b))) => match s.text() {
            Some(symbol) => if bracket_leverages(b@).len() > 0 {
                Some(BracketsView { symbol, leverages: bracket_leverages(b@) })
            } else {
                None
            },
            None => None,
        },
        _ => None,
    }
}

/// The brackets of the entries of an answer.
pub open spec fn all_brackets(entries: Seq<Json>) -> Seq<BracketsView>
    decreases entries.len(),
{
    if entries.len() == 0 {
        Seq::empty()
    } else {
        let head = all_brackets(entries.drop_last());
        match entry_brackets(entries.last()) {
            Some(b) => head.push(b),
            None => head,
        }
    }
}

fn read_bracket_leverages(brackets: &Vec<Json>) -> (r: Vec<u32>)
    ensures
        r@ == bracket_leverages(brackets@),
{
    let mut v: Vec<u32> = Vec::new();
    let mut i: usize = 0;
    while i < brackets.len()
        invariant
            i <= brackets.len(),
            v@ == bracket_leverages(brackets@.take(i as int)),
        decreases brackets.len() - i,
    {
        proof {
            let t = brackets@.take(i as int + 1);
            assert(t.drop_last() =~= brackets@.take(i as int));
            assert(t.last() == brackets@[i as int]);
        }
        if let Some(f) = brackets[i].get("initialLeverage") {
            if let Some(n) = read_flexible_u64(f) {
                v.push((n % 0x1_0000_0000) as u32);
            }
        }
        i += 1;
    }
    assert(brackets@.take(brackets@.len() as int) =~= brackets@);
    v
}

fn read_entry(entry: &Json) -> (r: Option<LeverageBrackets>)
    ensures
        match r {
            Some(b) => entry_brackets(*entry) == Some(b@),
            None => entry_brackets(*entry) is None,
        },
{
    let symbol = match entry.get("symbol") {
        Some(s) => s,
        None => return None,
    };
    match entry.get("brackets") {
        Some(Json::List(b)) => match symbol.as_str() {
            Some(symbol) => {
                let leverages = read_bracket_leverages(b);
                if leverages.len() > 0 {
                    Some(LeverageBrackets { symbol: copy_of(symbol), leverages })
                } else {
                    None
                }
            },
            None => None,
        },
        _ => None,
    }
}

/// The brackets of the entries of an answer. Entries that are not understood are left out.
pub fn read_brackets(entries: &Vec<Json>) -> (r: Vec<LeverageBrackets>)
    ensures
        views(r@) == all_brackets(entries@),
{
    let mut v: Vec<LeverageBrackets> = Vec::new();
    let mut i: usize = 0;
    assert(views(v@) =~= Seq::<BracketsView>::empty());
    while i < entries.len()
        invariant
            i <= entries.len(),
            views(v@) == all_brackets(entries@.take(i as int)),
        decreases entries.len() - i,
    {
        proof {
            let t = entries@.take(i as int + 1);
            assert(t.drop_last() =~= entries@.take(i as int));
            assert(t.last() == entries@[i as int]);
        }
        if let Some(b) = read_entry(&entries[i]) {
            let ghost before = v@;
            v.push(b);
            assert(views(v@) =~= views(before).push(b@));
        }
        i += 1;
    }
    assert(entries@.take(entries@.len() as int) =~= entries@);
    v
}

/// The largest of some leverages; one where there are none.
pub open spec fn largest(l: Seq<u32>) -> u32
    decreases l.len(),
{
    if l.len() == 0 {
        1
    } else if l.len() == 1 {
        l[0]
    } else if largest(l.drop_last()) < l.last() {
        l.last()
    } else {
        largest(l.drop_last())
    }
}

/// The first entry of a symbol, in whatever case it is written; `-1` without one.
pub open spec fn entry_index(b: Seq<BracketsView>, symbol: Seq<char>) -> int
    decreases b.len(),
{
    if b.len() == 0 {
        -1
    } else {
        let k = entry_index(b.drop_last(), symbol);
        if k >= 0 {
            k
        } else if ascii_lowered(b.last().symbol) == ascii_lowered(symbol) {
            b.len() - 1
        } else {
            -1
        }
    }
}

/// The leverage that a symbol allows: the largest of its entry, or of the first
/// entry where it has none of its own.
pub open spec fn allowed_leverage(b: Seq<BracketsView>, symbol: Seq<char>) -> Option<u32> {
    if b.len() == 0 {
        None
    } else if entry_index(b, symbol) >= 0 {
        Some(largest(b[entry_index(b, symbol)].leverages))
    } else {
        Some(largest(b[0].leverages))
    }
}

fn find_largest(l: &Vec<u32>) -> (r: u32)
    ensures
        r == largest(l@),
{
    if l.len() == 0 {
        return 1;
    }
    let mut best: u32 = l[0];
    let mut i: usize = 1;
    assert(l@.take(1) =~= seq![l@[0]]);
    while i < l.len()
        invariant
            1 <= i <= l.len(),
            best == largest(l@.take(i as int)),
        decreases l.len() - i,
    {
        proof {
            let t = l@.take(i as int + 1);
            assert(t.drop_last() =~= l@.take(i as int));
            assert(t.last() == l@[i as int]);
        }
        if best < l[i] {
            best = l[i];
        }
        i += 1;
    }
    assert(l@.take(l@.len() as int) =~= l@);
    best
}

/// The index of a head stays what it is in the whole.
proof fn lemma_entry_found(b: Seq<BracketsView>, symbol: Seq<char>, n: int)
    requires
        0 <= n <= b.len(),
        entry_index(b.take(n), symbol) >= 0,
    ensures
        entry_index(b, symbol) == entry_index(b.take(n), symbol),
        entry_index(b, symbol) < n,
    decreases b.len(),
{
    lemma_entry_in_range(b.take(n), symbol);
    if n == b.len() {
        assert(b.take(n) =~= b);
    } else {
        assert(b.drop_last().take(n) =~= b.take(n));
        lemma_entry_found(b.drop_last(), symbol, n);
    }
}

proof fn lemma_entry_in_range(b: Seq<BracketsView>, symbol: Seq<char>)
    ensures
        -1 <= entry_index(b, symbol) < b.len() as int,
    decreases b.len(),
{
    if b.len() > 0 {
        lemma_entry_in_range(b.drop_last(), symbol);
    }
}

/// The leverage that a symbol allows: the largest of its entry, or of the first
/// entry where it has none of its own.
pub fn select_max_leverage(brackets: &Vec<LeverageBrackets>, symbol: &str) -> (r: Option<u32>)
    ensures
        r == allowed_leverage(views(brackets@), symbol@),
{
    if brackets.len() == 0 {
        return None;
    }
    let mut i: usize = 0;
    while i < brackets.len()
        invariant
            i <= brackets.len(),
            brackets@.len() > 0,
            entry_index(views(brackets@).take(i as int), symbol@) < 0,
        decreases brackets.len() - i,
    {
        proof {
            let t = views(brackets@).take(i as int + 1);
            assert(t.drop_last() =~= views(brackets@).take(i as int));
            assert(t.last() == brackets@[i as int]@);
        }
        if same_ignoring_ascii_case(brackets[i].symbol.as_str(), symbol) {
            proof {
                lemma_entry_found(views(brackets@), symbol@, i as int + 1);
            }
            return Some(find_largest(&brackets[i].leverages));
        }
        i += 1;
    }
    assert(views(brackets@).take(brackets@.len() as int) =~= views(brackets@));
    Some(find_largest(&brackets[0].leverages))
}

/// The leverage that a symbol allows, from an answer. `strict` is what the answer
/// holds where all of it is as documented; otherwise a list is read entry by entry.
pub fn fetch_max_leverage(
    answer: &Json,
    strict: Option<Vec<LeverageBrackets>>,
    symbol: &str,
) -> (r: Option<u32>)
    ensures
        r == match strict {
            Some(b) => allowed_leverage(views(b@), symbol@),
            None => match *answer {
                Json::List(entries) => allowed_leverage(all_brackets(entries@), symbol@),
                _ => None,
            },
        },
{
    match strict {
        Some(b) => select_max_leverage(&b, symbol),
        None => match answer {
            Json::List(entries) => {
                let b = read_brackets(entries);
                select_max_leverage(&b, symbol)
            },
            _ => None,
        },
    }
}

/// Why there is no largest leverage.
#[derive(Clone, Copy, Debug, PartialEq, Eq, Structural)]
pub enum LeverageError {
    SymbolMissing,
    NoBrackets,
}

/// The first entry that is named exactly so; `-1` without one.
pub open spec fn exact_index(b: Seq<BracketsView>, symbol: Seq<char>) -> int
    decreases b.len(),
{
    if b.len() == 0 {
        -1
    } else if b[0].symbol == symbol {
        0
    } else {
        let k = exact_index(b.skip(1), symbol);
        if k >= 0 {
            k + 1
        } else {
            -1
        }
    }
}

/// The largest leverage of the entry that is named exactly so.
pub fn symbol_max_leverage(brackets: &Vec<LeverageBrackets>, symbol: &str) -> (r: Result<
    u32,
    LeverageError,
>)
    ensures
        ({
            let b = views(brackets@);
            let k = exact_index(b, symbol@);
            r == if k < 0 {
                Err::<u32, LeverageError>(LeverageError::SymbolMissing)
            } else if b[k].leverages.len() == 0 {
                Err(LeverageError::NoBrackets)
            } else {
                Ok(largest(b[k].leverages))
            }
        }),
{
    let mut i: usize = 0;
    let ghost b = views(brackets@);
    assert(b.skip(0) =~= b);
    while i < brackets.len()
        invariant
            i <= brackets.len(),
            b == views(brackets@),
            ({
                let rest = exact_index(b.skip(i as int), symbol@);
                exact_index(b, symbol@) == if rest >= 0 {
                    rest + i
                } else {
                    -1
                }
            }),
        decreases brackets.len() - i,
    {
        proof {
            assert(b.skip(i as int)[0] == brackets@[i as int]@);
            assert(b.skip(i as int).skip(1) =~= b.skip(i as int + 1));
        }
        if same_text(brackets[i].symbol.as_str(), symbol) {
            if brackets[i].leverages.len() == 0 {
                return Err(LeverageError::NoBrackets);
            }
            return Ok(find_largest(&brackets[i].leverages));
        }
        i += 1;
    }
    Err(LeverageError::SymbolMissing)
}

/// The leverages that are tried, one after the other.
pub open spec fn candidates_for(leverage: u32) -> Seq<u32> {
    if leverage > 100 {
        seq![100, 75, 50, 25, 20, 10, 5, 1]
    } else if leverage > 50 {
        seq![leverage, 50, 25, 20, 10, 5, 1]
    } else if leverage > 25 {
        seq![leverage, 25, 20, 10, 5, 1]
    } else if leverage > 10 {
        seq![leverage, 20, 10, 5, 1]
    } else {
        seq![leverage, 5, 1]
    }
}

/// The leverages that are tried, one after the other.
pub fn leverage_candidates(leverage: u32) -> (r: Vec<u32>)
    ensures
        r@ == candidates_for(leverage),
{
    let r: Vec<u32> = if leverage > 100 {
        vec![100, 75, 50, 25, 20, 10, 5, 1]
    } else if leverage > 50 {
        vec![leverage, 50, 25, 20, 10, 5, 1]
    } else if leverage > 25 {
        vec![leverage, 25, 20, 10, 5, 1]
    } else if leverage > 10 {
        vec![leverage, 20, 10, 5, 1]
    } else {
        vec![leverage, 5, 1]
    };
    assert(r@ =~= candidates_for(leverage));
    r
}

/// The first leverage that is tried is the one asked for, up to a hundred; the
/// last is one.
pub proof fn law_candidates_start_and_end(leverage: u32)
    ensures
        candidates_for(leverage).len() >= 3,
        candidates_for(leverage)[0] == if leverage > 100 {
            100
        } else {
            leverage
        },
        candidates_for(leverage).last() == 1,
{
}

/// From five to ten and from twenty on, no leverage is tried that is above the one
/// asked for or above the one before it.
pub proof fn law_candidates_fall(leverage: u32)
    requires
        leverage >= 20 || 5 <= leverage <= 10,
    ensures
        forall|i: int, j: int|
            0 <= i <= j < candidates_for(leverage).len() ==> #[trigger] candidates_for(
                leverage,
            )[j] <= #[trigger] candidates_for(leverage)[i],
        forall|i: int|
            0 <= i < candidates_for(leverage).len() ==> #[trigger] candidates_for(leverage)[i]
                <= leverage,
{
}

/// Where setting a leverage stands.
#[derive(Clone, Copy, Debug, PartialEq, Eq, Structural)]
pub enum LeverageState {
    /// The candidate with this index is to be tried.
    Trying { index: usize },
    Accepted { leverage: u32 },
    Failed,
}

/// What follows from the answer to a candidate: `None` where it was accepted, else the error.
pub open spec fn leverage_next(
    candidates: Seq<u32>,
    index: usize,
    error: Option<Seq<char>>,
) -> LeverageState {
    match error {
        None => LeverageState::Accepted { leverage: candidates[index as int] },
        Some(e) => if leverage_refused(e) && index + 1 < candidates.len() {
            LeverageState::Trying { index: (index + 1) as usize }
        } else {
            LeverageState::Failed
        },
    }
}

/// What follows from the answer to a candidate. A lower one is tried only where
/// the exchange said that this one is too high.
pub fn leverage_step(candidates: &Vec<u32>, index: usize, error: Option<&str>) -> (r:
    LeverageState)
    requires
        index < candidates@.len(),
    ensures
        r == leverage_next(candidates@, index, crate::connection::optional(error)),
        r matches LeverageState::Trying { index: i } ==> i == index + 1 && i < candidates@.len(),
{
    let last: usize = candidates.len() - 1;
    match error {
        None => LeverageState::Accepted { leverage: candidates[index] },
        Some(e) => if is_leverage_refused(e) && index < last {
            LeverageState::Trying { index: index + 1 }
        } else {
            LeverageState::Failed
        },
    }
}

/// The parameters for setting a leverage.
pub fn leverage_params(symbol: &str, leverage: u32, timestamp: u64, recv_window_ms: u64) -> (r:
    Vec<(String, String)>)
    ensures
        pairs(r@) == clocked(
            seq![("symbol"@, symbol@), ("leverage"@, nat_text(leverage as nat))],
            timestamp as nat,
            recv_window_ms as nat,
        ),
{
    let mut v: Vec<(String, String)> = Vec::new();
    assert(pairs(v@) =~= Seq::<(Seq<char>, Seq<char>)>::empty());
    let l = u64_text(leverage as u64);
    push_param(&mut v, "symbol", symbol);
    push_param(&mut v, "leverage", l.as_str());
    assert(pairs(v@) =~= seq![
        ("symbol"@, symbol@),
        ("leverage"@, nat_text(leverage as nat)),
    ]);
    push_clock(&mut v, timestamp, recv_window_ms);
    v
}

/// The largest of some leverages is one of them, and none is above it.
pub proof fn law_largest(l: Seq<u32>)
    requires
        l.len() > 0,
    ensures
        l.contains(largest(l)),
        forall|i: int| 0 <= i < l.len() ==> #[trigger] l[i] <= largest(l),
    decreases l.len(),
{
    if l.len() == 1 {
        assert(l[0] == largest(l));
    } else {
        let head = l.drop_last();
        law_largest(head);
        let k = head.index_of(largest(head));
        assert(l[k] == largest(head));
        assert(l[l.len() - 1] == l.last());
        assert forall|i: int| 0 <= i < l.len() implies #[trigger] l[i] <= largest(l) by {
            if i < head.len() {
                assert(head[i] == l[i]);
            }
        }
    }
}

/// A symbol is allowed what the first entry of its name allows, in whatever case that is
/// written; without such an entry, what the first entry of all allows. It is never more than
/// the largest leverage of that entry, and one of them.
pub proof fn law_allowed_leverage(b: Seq<BracketsView>, symbol: Seq<char>, i: int)
    requires
        0 <= i < b.len(),
        forall|j: int| 0 <= j < b.len() ==> (#[trigger] b[j]).leverages.len() > 0,
        forall|j: int|
            0 <= j < i ==> ascii_lowered((#[trigger] b[j]).symbol) != ascii_lowered(symbol),
        ascii_lowered(b[i].symbol) == ascii_lowered(symbol) || (i == 0 && forall|j: int|
            0 <= j < b.len() ==> ascii_lowered((#[trigger] b[j]).symbol) != ascii_lowered(symbol)),
    ensures
        allowed_leverage(b, symbol) matches Some(l) && b[i].leverages.contains(l) && forall|k: int|
            0 <= k < b[i].leverages.len() ==> #[trigger] b[i].leverages[k] <= l,
{
    law_largest(b[i].leverages);
    lemma_first_entry(b, symbol);
    let k = entry_index(b, symbol);
    if k >= 0 {
        assert(ascii_lowered(b[k].symbol) == ascii_lowered(symbol));
        if ascii_lowered(b[i].symbol) == ascii_lowered(symbol) {
            assert(i == k);
        }
    }
}

/// The index of an entry is that of the first with the name.
proof fn lemma_first_entry(b: Seq<BracketsView>, symbol: Seq<char>)
    ensures
        ({
            let k = entry_index(b, symbol);
            &&& -1 <= k < b.len() as int
            &&& k >= 0 ==> ascii_lowered(b[k].symbol) == ascii_lowered(symbol)
            &&& forall|j: int|
                0 <= j < (if k >= 0 {
                    k
                } else {
                    b.len() as int
                }) ==> ascii_lowered((#[trigger] b[j]).symbol) != ascii_lowered(symbol)
        }),
    decreases b.len(),
{
    if b.len() > 0 {
        let head = b.drop_last();
        lemma_first_entry(head, symbol);
        assert forall|j: int|
            0 <= j < b.len() - 1 && ascii_lowered((#[trigger] b[j]).symbol) == ascii_lowered(
                symbol,
            ) implies entry_index(head, symbol) >= 0 && entry_index(head, symbol) <= j by {
            assert(head[j] == b[j]);
        }
        let k = entry_index(head, symbol);
        if k >= 0 {
            assert(head[k] == b[k]);
        }
    }
}

/// Above ten, every step of 50, 25, 20, 10, 5 and 1 below the leverage asked for is tried, with
/// 75 only where it is above a hundred; up to ten, only 5 and 1 are. Nothing else is tried.
pub proof fn law_steps_of_candidates(leverage: u32, step: u32)
    ensures
        ({
            let c = candidates_for(leverage);
            let lower = c.skip(1);
            &&& lower.contains(step) ==> step == 75 || step == 50 || step == 25 || step == 20
                || step == 10 || step == 5 || step == 1
            &&& leverage > 10 && step < leverage && (step == 50 || step == 25 || step == 20 || step
                == 10 || step == 5 || step == 1) ==> lower.contains(step)
            &&& lower.contains(75) <==> leverage > 100
            &&& leverage <= 10 ==> c == seq![leverage, 5, 1]
            &&& lower.no_duplicates()
        }),
{
    let c = candidates_for(leverage);
    let lower = c.skip(1);
    assert(lower[0] == c[1]);
    assert(lower[1] == c[2]);
    if leverage > 10 {
        assert(lower[2] == c[3]);
        assert(lower[3] == c[4]);
    }
    if leverage > 25 {
        assert(lower[4] == c[5]);
    }
    if leverage > 50 {
        assert(lower[5] == c[6]);
    }
    if leverage > 100 {
        assert(lower[6] == c[7]);
    }
    if leverage > 10 && leverage <= 25 {
        assert(lower.contains(20) && lower.contains(10) && lower.contains(5) && lower.contains(1));
    }
}

/// A leverage that the exchange takes is the one that was tried. The next one is tried exactly
/// where there is one and the exchange said that this one is too high; otherwise setting a
/// leverage has failed.
pub proof fn law_leverage_is_lowered(candidates: Seq<u32>, index: usize, error: Option<Seq<char>>)
    requires
        index < candidates.len() <= usize::MAX,
    ensures
        ({
            let next = leverage_next(candidates, index, error);
            &&& error is None ==> next == (LeverageState::Accepted {
                leverage: candidates[index as int],
            })
            &&& (next matches LeverageState::Trying { index: i } && i == index + 1) <==> error
                is Some && leverage_refused(error->0) && index + 1 < candidates.len()
            &&& next is Trying || next is Accepted || next is Failed
            &&& next is Accepted <==> error is None
        }),
{
}

} // verus!
