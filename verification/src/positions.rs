//! Positions, balances and open orders, read from what the exchange answers.
use vstd::prelude::*;

use crate::decimal::{dec_of, parsed, sum, Dec};
use crate::numbers::{parse_u32, plain_number, read_plain, unsigned_up_to};
use crate::rules::{dec_or_zero, str_dec};
use crate::text::{
    ascii_lowered, copy_of, nat_text, same_ignoring_ascii_case, same_text, u64_text,
};
use crate::types::{Position, Px, Qty, Side, VenueOrder};

verus! {

/// A position as the exchange lists it.
#[derive(Clone, Debug)]
pub struct FutPosition {
    pub symbol: String,
    pub position_amt: String,
    pub entry_price: String,
    pub leverage: String,
    pub liquidation_price: String,
    pub position_side: Option<String>,
}

/// Why an answer gives no position.
#[derive(Clone, Copy, Debug, PartialEq, Eq, Structural)]
pub enum PositionError {
    NotFound,
    /// A number cannot be read.
    BadNumber,
    /// A sum cannot be held.
    Overflow,
    /// There is a long and a short position, and one symbol has one position.
    BothSides,
}

/// The positions of a symbol, in whatever case it is written.
pub open spec fn matching(positions: Seq<FutPosition>, symbol: Seq<char>) -> Seq<FutPosition>
    decreases positions.len(),
{
    if positions.len() == 0 {
        Seq::empty()
    } else {
        let head = matching(positions.drop_last(), symbol);
        if ascii_lowered(positions.last().symbol@) == ascii_lowered(symbol) {
            head.push(positions.last())
        } else {
            head
        }
    }
}

/// The sum of the quantities, from the first to the last; `None` where it overflows.
pub open spec fn net_qty(positions: Seq<FutPosition>) -> Option<Dec>
    decreases positions.len(),
{
    if positions.len() == 0 {
        Some(dec_of(0, 0))
    } else {
        match net_qty(positions.drop_last()) {
            Some(t) => sum(t, dec_or_zero(positions.last().position_amt@)),
            None => None,
        }
    }
}

/// The leverage that a text stands for; one where it stands for none.
pub open spec fn leverage_of(text: Seq<char>) -> u32 {
    match unsigned_up_to(text, u32::MAX as nat) {
        Some(n) => n as u32,
        None => 1,
    }
}

/// The leverage that a text stands for; one where it stands for none.
fn read_leverage(text: &str) -> (r: u32)
    ensures
        r == leverage_of(text@),
{
    match parse_u32(text) {
        Some(n) => n,
        None => 1,
    }
}

/// A liquidation price; none where the text stands for nothing above zero.
pub open spec fn liq_of(text: Seq<char>) -> Option<Px> {
    if dec_or_zero(text)@ > 0 {
        Some(Px(dec_or_zero(text)))
    } else {
        None
    }
}

fn read_liq(text: &str) -> (r: Option<Px>)
    ensures
        r == liq_of(text@),
{
    let liq = str_dec(text);
    if liq.is_positive() {
        Some(Px(liq))
    } else {
        None
    }
}

/// What a position is made of, without its symbol.
#[derive(Clone, Copy, Debug)]
pub struct PositionParts {
    pub qty: Dec,
    pub entry: Dec,
    pub leverage: u32,
    pub liq_px: Option<Px>,
}

/// The position of a symbol that has one position: the first one listed, with the
/// sum of the quantities where there are several.
pub open spec fn one_way_position(m: Seq<FutPosition>) -> Result<PositionParts, PositionError> {
    match net_qty(m) {
        None => Err(PositionError::Overflow),
        Some(net) => match (parsed(m[0].position_amt@), parsed(m[0].entry_price@)) {
            (Some(qty), Some(entry)) => Ok(
                PositionParts {
                    qty: if m.len() > 1 {
                        net
                    } else {
                        qty
                    },
                    entry,
                    leverage: leverage_of(m[0].leverage@),
                    liq_px: liq_of(m[0].liquidation_price@),
                },
            ),
            _ => Err(PositionError::BadNumber),
        },
    }
}

/// The two sides of a symbol in hedge mode.
#[derive(Clone, Copy, Debug)]
pub struct HedgeSides {
    pub long: PositionParts,
    pub short: PositionParts,
}

/// No position.
pub open spec fn no_parts() -> PositionParts {
    PositionParts { qty: dec_of(0, 0), entry: dec_of(0, 0), leverage: 1, liq_px: None }
}

/// `d`, or zero where it is below.
pub open spec fn at_least_zero(d: Dec) -> Dec {
    if d@ < 0 {
        dec_of(0, 0)
    } else {
        d
    }
}

/// `d` with the other sign.
pub open spec fn negated(d: Dec) -> Dec {
    dec_of(-d.num(), d.places())
}

/// The side `before`, with what a listed position says of it. A liquidation price
/// that is missing leaves the one before.
pub open spec fn side_from(p: FutPosition, before: PositionParts, qty: Dec) -> PositionParts {
    PositionParts {
        qty,
        entry: dec_or_zero(p.entry_price@),
        leverage: leverage_of(p.leverage@),
        liq_px: match liq_of(p.liquidation_price@) {
            Some(l) => Some(l),
            None => before.liq_px,
        },
    }
}

/// The sides after one more listed position. One that names no side is a long
/// one where its quantity is positive and a short one where it is negative; one
/// that names an unknown side is left out.
pub open spec fn hedge_step(s: HedgeSides, p: FutPosition) -> HedgeSides {
    let qty = dec_or_zero(p.position_amt@);
    match p.position_side {
        Some(side) => if side@ == "LONG"@ {
            HedgeSides { long: side_from(p, s.long, qty), short: s.short }
        } else if side@ == "SHORT"@ {
            HedgeSides {
                long: s.long,
                short: side_from(p, s.short, crate::quant::abs_of(qty)),
            }
        } else if side@ == "BOTH"@ {
            both_sides(s, p, qty)
        } else {
            s
        },
        None => both_sides(s, p, qty),
    }
}

/// The sides after a listed position that names neither.
pub open spec fn both_sides(s: HedgeSides, p: FutPosition, qty: Dec) -> HedgeSides {
    HedgeSides {
        long: side_from(p, s.long, at_least_zero(qty)),
        short: side_from(p, s.short, at_least_zero(negated(qty))),
    }
}

/// The sides after all listed positions.
pub open spec fn hedge_sides(m: Seq<FutPosition>) -> HedgeSides
    decreases m.len(),
{
    if m.len() == 0 {
        HedgeSides { long: no_parts(), short: no_parts() }
    } else {
        hedge_step(hedge_sides(m.drop_last()), m.last())
    }
}

/// The one position of a symbol in hedge mode: the side that there is.
pub open spec fn hedge_position(m: Seq<FutPosition>) -> Result<PositionParts, PositionError> {
    let s = hedge_sides(m);
    if s.long.qty@ > 0 && s.short.qty@ > 0 {
        Err(PositionError::BothSides)
    } else if s.long.qty@ > 0 {
        Ok(s.long)
    } else if s.short.qty@ > 0 {
        Ok(s.short)
    } else {
        Ok(no_parts())
    }
}

/// The position of a symbol among those that the exchange lists.
pub open spec fn position_among(
    positions: Seq<FutPosition>,
    symbol: Seq<char>,
    hedge_mode: bool,
) -> Result<PositionParts, PositionError> {
    let m = matching(positions, symbol);
    if m.len() == 0 {
        Err(PositionError::NotFound)
    } else if hedge_mode {
        hedge_position(m)
    } else {
        one_way_position(m)
    }
}

/// Indices of the positions of a symbol.
fn matching_indices(positions: &Vec<FutPosition>, symbol: &str) -> (r: Vec<usize>)
    ensures
        r@.len() == matching(positions@, symbol@).len(),
        forall|k: int|
            0 <= k < r@.len() ==> (#[trigger] r@[k]) < positions@.len() && positions@[r@[k] as int]
                == matching(positions@, symbol@)[k],
{
    let mut v: Vec<usize> = Vec::new();
    let mut i: usize = 0;
    while i < positions.len()
        invariant
            i <= positions.len(),
            v@.len() == matching(positions@.take(i as int), symbol@).len(),
            forall|k: int|
                0 <= k < v@.len() ==> (#[trigger] v@[k]) < positions@.len()
                    && positions@[v@[k] as int] == matching(
                    positions@.take(i as int),
                    symbol@,
                )[k],
        decreases positions.len() - i,
    {
        proof {
            let t = positions@.take(i as int + 1);
            assert(t.drop_last() =~= positions@.take(i as int));
            assert(t.last() == positions@[i as int]);
        }
        if same_ignoring_ascii_case(positions[i].symbol.as_str(), symbol) {
            v.push(i);
        }
        i += 1;
    }
    assert(positions@.take(positions@.len() as int) =~= positions@);
    v
}

/// The side `before`, with what a listed position says of it.
fn read_side(p: &FutPosition, before: PositionParts, qty: Dec) -> (r: PositionParts)
    ensures
        r == side_from(*p, before, qty),
{
    PositionParts {
        qty,
        entry: str_dec(p.entry_price.as_str()),
        leverage: read_leverage(p.leverage.as_str()),
        liq_px: match read_liq(p.liquidation_price.as_str()) {
            Some(l) => Some(l),
            None => before.liq_px,
        },
    }
}

fn clamp_to_zero(d: Dec) -> (r: Dec)
    ensures
        r == at_least_zero(d),
{
    if d.is_sign_negative() {
        Dec::new(0, 0)
    } else {
        d
    }
}

fn negate(d: Dec) -> (r: Dec)
    ensures
        r == negated(d),
{
    let r = d.neg();
    proof {
        use_type_invariant(&r);
        crate::decimal::lemma_bounds(r);
        crate::decimal::lemma_dec_of(r.num(), r.places());
    }
    r
}

/// The sides after a listed position that names neither.
fn read_both(s: HedgeSides, p: &FutPosition, qty: Dec) -> (r: HedgeSides)
    ensures
        r == both_sides(s, *p, qty),
{
    HedgeSides {
        long: read_side(p, s.long, clamp_to_zero(qty)),
        short: read_side(p, s.short, clamp_to_zero(negate(qty))),
    }
}

/// The sides after one more listed position.
fn read_hedge_step(s: HedgeSides, p: &FutPosition) -> (r: HedgeSides)
    ensures
        r == hedge_step(s, *p),
{
    let qty = str_dec(p.position_amt.as_str());
    match &p.position_side {
        Some(side) => {
            if same_text(side.as_str(), "LONG") {
                HedgeSides { long: read_side(p, s.long, qty), short: s.short }
            } else if same_text(side.as_str(), "SHORT") {
                HedgeSides {
                    long: s.long,
                    short: read_side(p, s.short, crate::quant::abs_dec(qty)),
                }
            } else if same_text(side.as_str(), "BOTH") {
                read_both(s, p, qty)
            } else {
                s
            }
        },
        None => read_both(s, p, qty),
    }
}

fn empty_parts() -> (r: PositionParts)
    ensures
        r == no_parts(),
{
    PositionParts { qty: Dec::new(0, 0), entry: Dec::new(0, 0), leverage: 1, liq_px: None }
}

/// `r` is the position of a symbol among those that the exchange lists, or says why there
/// is none.
pub open spec fn is_position_of(
    positions: Seq<FutPosition>,
    symbol: Seq<char>,
    hedge_mode: bool,
    r: Result<Position, PositionError>,
) -> bool {
    match position_among(positions, symbol, hedge_mode) {
        Ok(p) => r matches Ok(pos) && pos.symbol@ == symbol && pos.qty == Qty(p.qty) && pos.entry
            == Px(p.entry) && pos.leverage == p.leverage && pos.liq_px == p.liq_px,
        Err(e) => r == Err::<Position, PositionError>(e),
    }
}

/// The position of a symbol among those that the exchange lists. A symbol has one
/// position; in hedge mode it must not have one on both sides.
pub fn fetch_position(positions: &Vec<FutPosition>, symbol: &str, hedge_mode: bool) -> (r: Result<
    Position,
    PositionError,
>)
    ensures
        is_position_of(positions@, symbol@, hedge_mode, r),
{
    let found = matching_indices(positions, symbol);
    let ghost m = matching(positions@, symbol@);
    if found.len() == 0 {
        return Err(PositionError::NotFound);
    }
    let parts = if !hedge_mode {
        let mut total = Dec::new(0, 0);
        let mut i: usize = 0;
        while i < found.len()
            invariant
                i <= found.len(),
                found@.len() == m.len(),
                forall|k: int|
                    0 <= k < found@.len() ==> (#[trigger] found@[k]) < positions@.len()
                        && positions@[found@[k] as int] == m[k],
                m == matching(positions@, symbol@),
                m.len() > 0,
                !hedge_mode,
                net_qty(m.take(i as int)) == Some(total),
            decreases found.len() - i,
        {
            proof {
                let t = m.take(i as int + 1);
                assert(t.drop_last() =~= m.take(i as int));
                assert(t.last() == m[i as int]);
            }
            let amount = str_dec(positions[found[i]].position_amt.as_str());
            match total.checked_add(&amount) {
                Some(t) => {
                    total = t;
                },
                None => {
                    proof {
                        lemma_overflow_stays(m, i as int + 1);
                    }
                    return Err(PositionError::Overflow);
                },
            }
            i += 1;
        }
        assert(m.take(m.len() as int) =~= m);
        let first = &positions[found[0]];
        let qty = match Dec::parse(first.position_amt.as_str()) {
            Some(q) => q,
            None => return Err(PositionError::BadNumber),
        };
        let entry = match Dec::parse(first.entry_price.as_str()) {
            Some(e) => e,
            None => return Err(PositionError::BadNumber),
        };
        PositionParts {
            qty: if found.len() > 1 {
                total
            } else {
                qty
            },
            entry,
            leverage: read_leverage(first.leverage.as_str()),
            liq_px: read_liq(first.liquidation_price.as_str()),
        }
    } else {
        let mut s = HedgeSides { long: empty_parts(), short: empty_parts() };
        let mut i: usize = 0;
        while i < found.len()
            invariant
                i <= found.len(),
                found@.len() == m.len(),
                forall|k: int|
                    0 <= k < found@.len() ==> (#[trigger] found@[k]) < positions@.len()
                        && positions@[found@[k] as int] == m[k],
                s == hedge_sides(m.take(i as int)),
            decreases found.len() - i,
        {
            proof {
                let t = m.take(i as int + 1);
                assert(t.drop_last() =~= m.take(i as int));
                assert(t.last() == m[i as int]);
            }
            s = read_hedge_step(s, &positions[found[i]]);
            i += 1;
        }
        assert(m.take(m.len() as int) =~= m);
        if s.long.qty.is_positive() && s.short.qty.is_positive() {
            return Err(PositionError::BothSides);
        }
        if s.long.qty.is_positive() {
            s.long
        } else if s.short.qty.is_positive() {
            s.short
        } else {
            empty_parts()
        }
    };
    Ok(
        Position {
            symbol: copy_of(symbol),
            qty: Qty(parts.qty),
            entry: Px(parts.entry),
            leverage: parts.leverage,
            liq_px: parts.liq_px,
        },
    )
}

/// A sum that overflowed on the way has no value at the end.
proof fn lemma_overflow_stays(m: Seq<FutPosition>, k: int)
    requires
        0 <= k <= m.len(),
        net_qty(m.take(k)) is None,
    ensures
        net_qty(m) is None,
    decreases m.len(),
{
    if k == m.len() {
        assert(m.take(k) =~= m);
    } else {
        assert(m.drop_last().take(k) =~= m.take(k));
        lemma_overflow_stays(m.drop_last(), k);
    }
}

/// A position is missing exactly where the exchange lists none of that symbol.
pub proof fn law_no_position_without_listing(
    positions: Seq<FutPosition>,
    symbol: Seq<char>,
    hedge_mode: bool,
)
    ensures
        position_among(positions, symbol, hedge_mode) == Err::<PositionParts, PositionError>(
            PositionError::NotFound,
        ) <==> forall|i: int|
            0 <= i < positions.len() ==> ascii_lowered((#[trigger] positions[i]).symbol@)
                != ascii_lowered(symbol),
{
    lemma_matching_empty(positions, symbol);
}

proof fn lemma_matching_empty(positions: Seq<FutPosition>, symbol: Seq<char>)
    ensures
        matching(positions, symbol).len() == 0 <==> forall|i: int|
            0 <= i < positions.len() ==> ascii_lowered((#[trigger] positions[i]).symbol@)
                != ascii_lowered(symbol),
    decreases positions.len(),
{
    if positions.len() > 0 {
        let head = positions.drop_last();
        lemma_matching_empty(head, symbol);
        if matching(head, symbol).len() == 0 {
            assert forall|i: int|
                0 <= i < positions.len() && i < positions.len() - 1 implies ascii_lowered(
                (#[trigger] positions[i]).symbol@,
            ) != ascii_lowered(symbol) by {
                assert(head[i] == positions[i]);
            }
        } else {
            let i = choose|i: int|
                0 <= i < head.len() && ascii_lowered((#[trigger] head[i]).symbol@)
                    == ascii_lowered(symbol);
            assert(positions[i] == head[i]);
        }
    }
}

/// The positions of a symbol are those that are listed for it, in whatever case, and no
/// others.
pub proof fn law_positions_of_a_symbol(positions: Seq<FutPosition>, symbol: Seq<char>, p: FutPosition)
    ensures
        matching(positions, symbol).contains(p) <==> positions.contains(p) && ascii_lowered(
            p.symbol@,
        ) == ascii_lowered(symbol),
        matching(positions, symbol).len() <= positions.len(),
    decreases positions.len(),
{
    if positions.len() > 0 {
        let head = positions.drop_last();
        let last = positions.last();
        let found = matching(head, symbol);
        law_positions_of_a_symbol(head, symbol, p);
        assert(positions =~= head.push(last));
        assert(positions.contains(p) <==> head.contains(p) || p == last) by {
            if head.contains(p) {
                let i = choose|i: int| 0 <= i < head.len() && head[i] == p;
                assert(positions[i] == p);
            }
            if p == last {
                assert(positions[positions.len() - 1] == p);
            }
        }
        assert(found.push(last).contains(p) <==> found.contains(p) || p == last) by {
            if found.contains(p) {
                let i = choose|i: int| 0 <= i < found.len() && found[i] == p;
                assert(found.push(last)[i] == p);
            }
            if p == last {
                assert(found.push(last)[found.len() as int] == p);
            }
        }
    }
}

/// What the exchange says of a position stands in the position: the entry price, the leverage
/// and the liquidation price are those of its texts. A leverage that cannot be read is one, and
/// a liquidation price that is not above zero is none.
pub open spec fn tells(p: FutPosition, pos: Position) -> bool {
    &&& parsed(p.entry_price@) matches Some(entry) ==> pos.entry.0 == entry
    &&& unsigned_up_to(p.leverage@, 4_294_967_295) matches Some(n) ==> pos.leverage == n
    &&& unsigned_up_to(p.leverage@, 4_294_967_295) is None ==> pos.leverage == 1
    &&& parsed(p.liquidation_price@) matches Some(liq) ==> (if liq@ > 0 {
        pos.liq_px == Some(Px(liq))
    } else {
        pos.liq_px is None
    })
    &&& parsed(p.liquidation_price@) is None ==> pos.liq_px is None
}

/// In hedge mode a symbol with one listed position, which names its side and has a quantity
/// there, has that position: the quantity is that of its text, without a sign for a short one,
/// and the rest is what the exchange says of it.
pub proof fn law_one_side_in_hedge_mode(
    positions: Seq<FutPosition>,
    symbol: Seq<char>,
    r: Result<Position, PositionError>,
    p: FutPosition,
    qty: Dec,
)
    requires
        is_position_of(positions, symbol, true, r),
        matching(positions, symbol) == seq![p],
        p.position_side matches Some(side) && (side@ == "LONG"@ || side@ == "SHORT"@),
        parsed(p.position_amt@) == Some(qty),
        qty.wf(),
        p.position_side->0@ == "LONG"@ ==> qty@ > 0,
        p.position_side->0@ == "SHORT"@ ==> qty@ != 0,
    ensures
        r matches Ok(pos) && pos.symbol@ == symbol && tells(p, pos) && if p.position_side->0@
            == "LONG"@ {
            pos.qty.0 == qty
        } else {
            pos.qty.0@ == if qty@ < 0 {
                -qty@
            } else {
                qty@
            }
        },
{
    let m = matching(positions, symbol);
    reveal_strlit("LONG");
    reveal_strlit("SHORT");
    assert("LONG"@.len() == 4 && "SHORT"@.len() == 5);
    assert(m.drop_last() =~= Seq::<FutPosition>::empty());
    assert(m.last() == p);
    assert(hedge_sides(m.drop_last()) == (HedgeSides { long: no_parts(), short: no_parts() }));
    crate::quant::lemma_abs(qty);
    crate::decimal::lemma_dec_of(0, 0);
}

/// A symbol that is listed as a long and as a short position, both with a quantity, has no
/// one position.
pub proof fn law_both_sides_are_refused(
    positions: Seq<FutPosition>,
    symbol: Seq<char>,
    r: Result<Position, PositionError>,
    long: FutPosition,
    short: FutPosition,
    long_qty: Dec,
    short_qty: Dec,
)
    requires
        is_position_of(positions, symbol, true, r),
        matching(positions, symbol) == seq![long, short] || matching(positions, symbol) == seq![
            short,
            long,
        ],
        long.position_side matches Some(side) && side@ == "LONG"@,
        short.position_side matches Some(side) && side@ == "SHORT"@,
        parsed(long.position_amt@) == Some(long_qty),
        parsed(short.position_amt@) == Some(short_qty),
        short_qty.wf(),
    ensures
        long_qty@ > 0 && short_qty@ != 0 ==> r == Err::<Position, PositionError>(
            PositionError::BothSides,
        ),
        long_qty@ > 0 && short_qty@ == 0 ==> (r matches Ok(pos) && pos.qty.0 == long_qty
            && (parsed(long.entry_price@) matches Some(entry) ==> pos.entry.0 == entry)),
{
    let m = matching(positions, symbol);
    reveal_strlit("LONG");
    reveal_strlit("SHORT");
    assert("LONG"@.len() == 4 && "SHORT"@.len() == 5);
    let first = m.drop_last();
    assert(first =~= seq![m[0]]);
    assert(first.drop_last() =~= Seq::<FutPosition>::empty());
    assert(first.last() == m[0] && m.last() == m[1]);
    assert(hedge_sides(first.drop_last()) == (HedgeSides { long: no_parts(), short: no_parts() }));
    assert(hedge_sides(first) == hedge_step(hedge_sides(first.drop_last()), m[0]));
    crate::quant::lemma_abs(short_qty);
    crate::decimal::lemma_dec_of(0, 0);
}

/// In one-way mode the first listed position of a symbol is its position; its quantity is the
/// sum of all of them where there are several.
pub proof fn law_one_way_position(
    positions: Seq<FutPosition>,
    symbol: Seq<char>,
    r: Result<Position, PositionError>,
)
    requires
        is_position_of(positions, symbol, false, r),
        matching(positions, symbol).len() > 0,
    ensures
        r matches Ok(pos) ==> {
            let first = matching(positions, symbol)[0];
            &&& pos.symbol@ == symbol
            &&& parsed(first.entry_price@) == Some(pos.entry.0)
            &&& tells(first, pos)
            &&& matching(positions, symbol).len() == 1 ==> parsed(first.position_amt@) == Some(
                pos.qty.0,
            )
            &&& matching(positions, symbol).len() > 1 ==> net_qty(matching(positions, symbol))
                == Some(pos.qty.0)
        },
        r matches Err(e) ==> e is BadNumber || e is Overflow,
{
    crate::decimal::lemma_value(0, 0);
}

/// A listed position has what the exchange says of it.
pub proof fn law_listed_position(p: Position, f: FutPosition)
    requires
        position_is(p, f),
    ensures
        p.symbol@ == f.symbol@,
        parsed(f.position_amt@) matches Some(qty) ==> p.qty.0 == qty,
        parsed(f.entry_price@) == Some(p.entry.0),
        tells(f, p),
{
    crate::decimal::lemma_value(0, 0);
}

/// The open positions are the listed ones that have a quantity.
pub proof fn law_open_positions(positions: Seq<FutPosition>, p: FutPosition, qty: Dec)
    requires
        parsed(p.position_amt@) == Some(qty),
    ensures
        open_positions(positions).contains(p) <==> positions.contains(p) && qty@ != 0,
    decreases positions.len(),
{
    if positions.len() > 0 {
        let head = positions.drop_last();
        let last = positions.last();
        let found = open_positions(head);
        law_open_positions(head, p, qty);
        assert(positions =~= head.push(last));
        assert(positions.contains(p) <==> head.contains(p) || p == last) by {
            if head.contains(p) {
                let i = choose|i: int| 0 <= i < head.len() && head[i] == p;
                assert(positions[i] == p);
            }
            if p == last {
                assert(positions[positions.len() - 1] == p);
            }
        }
        assert(found.push(last).contains(p) <==> found.contains(p) || p == last) by {
            if found.contains(p) {
                let i = choose|i: int| 0 <= i < found.len() && found[i] == p;
                assert(found.push(last)[i] == p);
            }
            if p == last {
                assert(found.push(last)[found.len() as int] == p);
            }
        }
    }
}

/// An open order has the number, the price and the quantity that are listed; it is to buy
/// where the exchange says so, in whatever case, and else to sell.
pub proof fn law_listed_order(o: VenueOrder, f: FutOpenOrder)
    requires
        order_is(o, f),
    ensures
        o.order_id@ == nat_text(f.order_id as nat),
        parsed(f.price@) == Some(o.price.0),
        parsed(f.orig_qty@) == Some(o.qty.0),
        o.side is Buy <==> ascii_lowered(f.side@) == ascii_lowered("buy"@),
{
}

/// What is available of an asset is the balance that is listed first for it.
pub proof fn law_first_balance_counts(balances: Seq<FutBalance>, asset: Seq<char>, i: int)
    requires
        0 <= i < balances.len(),
        balances[i].asset@ == asset,
        forall|k: int| 0 <= k < i ==> (#[trigger] balances[k]).asset@ != asset,
    ensures
        balance_text(balances, asset) == Some(balances[i].available_balance@),
    decreases balances.len(),
{
    if i > 0 {
        let rest = balances.skip(1);
        assert(balances[0].asset@ != asset);
        assert(rest[i - 1] == balances[i]);
        assert forall|k: int| 0 <= k < i - 1 implies (#[trigger] rest[k]).asset@ != asset by {
            assert(rest[k] == balances[k + 1]);
        }
        law_first_balance_counts(rest, asset, i - 1);
    }
}

/// The positions that there are: those with a quantity.
pub open spec fn open_positions(positions: Seq<FutPosition>) -> Seq<FutPosition>
    decreases positions.len(),
{
    if positions.len() == 0 {
        Seq::empty()
    } else {
        let head = open_positions(positions.drop_last());
        if dec_or_zero(positions.last().position_amt@)@ != 0 {
            head.push(positions.last())
        } else {
            head
        }
    }
}

/// `p` is the position that the exchange lists as `f`.
pub open spec fn position_is(p: Position, f: FutPosition) -> bool {
    &&& p.symbol@ == f.symbol@
    &&& p.qty == Qty(dec_or_zero(f.position_amt@))
    &&& Some(p.entry.0) == parsed(f.entry_price@)
    &&& p.leverage == leverage_of(f.leverage@)
    &&& p.liq_px == liq_of(f.liquidation_price@)
}

/// Some open position has an entry price that cannot be read.
pub open spec fn unreadable_entry(positions: Seq<FutPosition>) -> bool {
    exists|k: int|
        0 <= k < open_positions(positions).len() && parsed(
            (#[trigger] open_positions(positions)[k]).entry_price@,
        ) is None
}

/// All positions with a quantity, in the order listed.
pub fn fetch_all_positions(positions: &Vec<FutPosition>) -> (r: Result<
    Vec<Position>,
    PositionError,
>)
    ensures
        unreadable_entry(positions@) <==> r is Err,
        r matches Err(e) ==> e == PositionError::BadNumber,
        r matches Ok(v) ==> v@.len() == open_positions(positions@).len() && forall|k: int|
            0 <= k < v@.len() ==> position_is(
                #[trigger] v@[k],
                open_positions(positions@)[k],
            ),
{
    let mut v: Vec<Position> = Vec::new();
    let mut i: usize = 0;
    while i < positions.len()
        invariant
            i <= positions.len(),
            v@.len() == open_positions(positions@.take(i as int)).len(),
            forall|k: int|
                0 <= k < v@.len() ==> position_is(
                    #[trigger] v@[k],
                    open_positions(positions@.take(i as int))[k],
                ),
        decreases positions.len() - i,
    {
        let ghost before = open_positions(positions@.take(i as int));
        proof {
            let t = positions@.take(i as int + 1);
            assert(t.drop_last() =~= positions@.take(i as int));
            assert(t.last() == positions@[i as int]);
            lemma_open_prefix(positions@, i as int + 1);
        }
        let qty = str_dec(positions[i].position_amt.as_str());
        if !qty.is_zero() {
            let entry = match Dec::parse(positions[i].entry_price.as_str()) {
                Some(e) => e,
                None => {
                    proof {
                        let k = before.len() as int;
                        assert(open_positions(positions@.take(i as int + 1))[k]
                            == positions@[i as int]);
                        assert(open_positions(positions@)[k] == positions@[i as int]);
                    }
                    return Err(PositionError::BadNumber);
                },
            };
            v.push(
                Position {
                    symbol: copy_of(positions[i].symbol.as_str()),
                    qty: Qty(qty),
                    entry: Px(entry),
                    leverage: read_leverage(positions[i].leverage.as_str()),
                    liq_px: read_liq(positions[i].liquidation_price.as_str()),
                },
            );
        }
        i += 1;
    }
    proof {
        assert(positions@.take(positions@.len() as int) =~= positions@);
        if unreadable_entry(positions@) {
            let k = choose|k: int|
                0 <= k < open_positions(positions@).len() && parsed(
                    (#[trigger] open_positions(positions@)[k]).entry_price@,
                ) is None;
            assert(position_is(v@[k], open_positions(positions@)[k]));
        }
    }
    Ok(v)
}

/// The open positions of a head of a list come first among those of the list.
proof fn lemma_open_prefix(positions: Seq<FutPosition>, n: int)
    requires
        0 <= n <= positions.len(),
    ensures
        open_positions(positions.take(n)).len() <= open_positions(positions).len(),
        forall|k: int|
            0 <= k < open_positions(positions.take(n)).len() ==> #[trigger] open_positions(
                positions,
            )[k] == open_positions(positions.take(n))[k],
    decreases positions.len(),
{
    if n == positions.len() {
        assert(positions.take(n) =~= positions);
    } else {
        let head = positions.drop_last();
        assert(head.take(n) =~= positions.take(n));
        lemma_open_prefix(head, n);
        assert forall|k: int|
            0 <= k < open_positions(positions.take(n)).len() implies #[trigger] open_positions(
            positions,
        )[k] == open_positions(positions.take(n))[k] by {
            assert(open_positions(positions)[k] == open_positions(head)[k]);
        }
    }
}

/// A balance as the exchange lists it.
#[derive(Clone, Debug)]
pub struct FutBalance {
    pub asset: String,
    pub available_balance: String,
}

/// The text of the first balance of an asset.
pub open spec fn balance_text(balances: Seq<FutBalance>, asset: Seq<char>) -> Option<Seq<char>>
    decreases balances.len(),
{
    if balances.len() == 0 {
        None
    } else if balances[0].asset@ == asset {
        Some(balances[0].available_balance@)
    } else {
        balance_text(balances.skip(1), asset)
    }
}

/// What is available of an asset: the first balance of that name, nothing where
/// there is none. `None` where the balance cannot be read.
pub fn available_balance(balances: &Vec<FutBalance>, asset: &str) -> (r: Option<Dec>)
    ensures
        r == match balance_text(balances@, asset@) {
            Some(t) => parsed(t),
            None => Some(dec_of(0, 0)),
        },
{
    let mut i: usize = 0;
    assert(balances@.skip(0) =~= balances@);
    while i < balances.len()
        invariant
            i <= balances.len(),
            balance_text(balances@, asset@) == balance_text(balances@.skip(i as int), asset@),
        decreases balances.len() - i,
    {
        assert(balances@.skip(i as int)[0] == balances@[i as int]);
        assert(balances@.skip(i as int).skip(1) =~= balances@.skip(i as int + 1));
        if same_text(balances[i].asset.as_str(), asset) {
            return Dec::parse(balances[i].available_balance.as_str());
        }
        i += 1;
    }
    Some(Dec::new(0, 0))
}

/// An open order as the exchange lists it.
#[derive(Clone, Debug)]
pub struct FutOpenOrder {
    pub order_id: u64,
    pub price: String,
    pub orig_qty: String,
    pub side: String,
}

/// `o` is the order that the exchange lists as `f`.
pub open spec fn order_is(o: VenueOrder, f: FutOpenOrder) -> bool {
    &&& o.order_id@ == nat_text(f.order_id as nat)
    &&& o.side == if ascii_lowered(f.side@) == ascii_lowered("buy"@) {
        Side::Buy
    } else {
        Side::Sell
    }
    &&& Some(o.price.0) == parsed(f.price@)
    &&& Some(o.qty.0) == parsed(f.orig_qty@)
}

/// The price and the quantity of an order can be read.
pub open spec fn order_readable(f: FutOpenOrder) -> bool {
    parsed(f.price@) is Some && parsed(f.orig_qty@) is Some
}

/// The open orders, in the order listed. `None` where a price or a quantity
/// cannot be read.
pub fn fetch_open_orders(orders: &Vec<FutOpenOrder>) -> (r: Option<Vec<VenueOrder>>)
    ensures
        r is Some <==> forall|i: int|
            0 <= i < orders@.len() ==> order_readable(#[trigger] orders@[i]),
        r matches Some(v) ==> v@.len() == orders@.len() && forall|i: int|
            0 <= i < v@.len() ==> order_is(#[trigger] v@[i], orders@[i]),
{
    let mut v: Vec<VenueOrder> = Vec::new();
    let mut i: usize = 0;
    while i < orders.len()
        invariant
            i <= orders.len(),
            v@.len() == i,
            forall|k: int| 0 <= k < i ==> order_is(#[trigger] v@[k], orders@[k]),
            forall|k: int| 0 <= k < i ==> order_readable(#[trigger] orders@[k]),
        decreases orders.len() - i,
    {
        let o = &orders[i];
        let price = match Dec::parse(o.price.as_str()) {
            Some(p) => p,
            None => {
                assert(!order_readable(orders@[i as int]));
                return None;
            },
        };
        let qty = match Dec::parse(o.orig_qty.as_str()) {
            Some(q) => q,
            None => {
                assert(!order_readable(orders@[i as int]));
                return None;
            },
        };
        let side = if same_ignoring_ascii_case(o.side.as_str(), "buy") {
            Side::Buy
        } else {
            Side::Sell
        };
        v.push(
            VenueOrder { order_id: u64_text(o.order_id), side, price: Px(price), qty: Qty(qty) },
        );
        i += 1;
    }
    Some(v)
}

/// Why there are no best prices.
#[derive(Clone, Copy, Debug, PartialEq, Eq, Structural)]
pub enum PriceError {
    NoBid,
    NoAsk,
    BadNumber,
}

/// The best prices of a book whose levels are a price and a quantity.
pub fn best_prices(bids: &Vec<(String, String)>, asks: &Vec<(String, String)>) -> (r: Result<
    (Px, Px),
    PriceError,
>)
    ensures
        r == if bids@.len() == 0 {
            Err::<(Px, Px), PriceError>(PriceError::NoBid)
        } else if asks@.len() == 0 {
            Err(PriceError::NoAsk)
        } else {
            match (parsed(bids@[0].0@), parsed(asks@[0].0@)) {
                (Some(b), Some(a)) => Ok((Px(b), Px(a))),
                _ => Err(PriceError::BadNumber),
            }
        },
{
    if bids.len() == 0 {
        return Err(PriceError::NoBid);
    }
    if asks.len() == 0 {
        return Err(PriceError::NoAsk);
    }
    match (Dec::parse(bids[0].0.as_str()), Dec::parse(asks[0].0.as_str())) {
        (Some(b), Some(a)) => Ok((Px(b), Px(a))),
        _ => Err(PriceError::BadNumber),
    }
}

/// An asset that the bot cannot do without.
pub open spec fn critical_asset(asset: Seq<char>, quote_asset: Seq<char>) -> bool {
    ascii_lowered(asset) == ascii_lowered("USDT"@) || ascii_lowered(asset) == ascii_lowered(
        "USDC"@,
    ) || ascii_lowered(asset) == ascii_lowered(quote_asset)
}

/// Whether a balance can be read.
pub open spec fn balance_readable(b: FutBalance) -> bool {
    plain_number(b.available_balance@) is Some
}

/// The balances that can be read.
pub open spec fn readable_balances(balances: Seq<FutBalance>) -> Seq<FutBalance>
    decreases balances.len(),
{
    if balances.len() == 0 {
        Seq::empty()
    } else {
        let head = readable_balances(balances.drop_last());
        if balance_readable(balances.last()) {
            head.push(balances.last())
        } else {
            head
        }
    }
}

/// The balances that can be read, in the order listed. `None` where one that the
/// bot cannot do without cannot be read.
pub fn fetch_balance(balances: &Vec<FutBalance>, quote_asset: &str) -> (r: Option<
    Vec<crate::initialization::BalanceSnapshot>,
>)
    ensures
        r is None <==> exists|i: int|
            0 <= i < balances@.len() && !balance_readable(#[trigger] balances@[i])
                && critical_asset(balances@[i].asset@, quote_asset@),
        r matches Some(v) ==> v@.len() == readable_balances(balances@).len() && forall|k: int|
            0 <= k < v@.len() ==> (#[trigger] v@[k]).asset@ == readable_balances(
                balances@,
            )[k].asset@ && Some(v@[k].free) == plain_number(
                readable_balances(balances@)[k].available_balance@,
            ),
{
    let mut v: Vec<crate::initialization::BalanceSnapshot> = Vec::new();
    let mut failed = false;
    let mut i: usize = 0;
    while i < balances.len()
        invariant
            i <= balances.len(),
            failed <==> exists|k: int|
                0 <= k < i && !balance_readable(#[trigger] balances@[k]) && critical_asset(
                    balances@[k].asset@,
                    quote_asset@,
                ),
            v@.len() == readable_balances(balances@.take(i as int)).len(),
            forall|k: int|
                0 <= k < v@.len() ==> (#[trigger] v@[k]).asset@ == readable_balances(
                    balances@.take(i as int),
                )[k].asset@ && Some(v@[k].free) == plain_number(
                    readable_balances(balances@.take(i as int))[k].available_balance@,
                ),
        decreases balances.len() - i,
    {
        proof {
            let t = balances@.take(i as int + 1);
            assert(t.drop_last() =~= balances@.take(i as int));
            assert(t.last() == balances@[i as int]);
        }
        let asset = balances[i].asset.as_str();
        let critical = same_ignoring_ascii_case(asset, "USDT") || same_ignoring_ascii_case(
            asset,
            "USDC",
        ) || same_ignoring_ascii_case(asset, quote_asset);
        match read_plain(balances[i].available_balance.as_str()) {
            Some(free) => {
                v.push(crate::initialization::BalanceSnapshot { asset: copy_of(asset), free });
            },
            None => {
                if critical {
                    assert(!balance_readable(balances@[i as int]));
                    failed = true;
                }
            },
        }
        i += 1;
    }
    assert(balances@.take(balances@.len() as int) =~= balances@);
    if failed {
        None
    } else {
        Some(v)
    }
}

} // verus!
