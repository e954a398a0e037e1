//! A simple venue: orders without retries, and positions closed by market orders.
use vstd::prelude::*;

use crate::decimal::{
    cut, dec_of, lemma_bounds, lemma_powers, lemma_value, parsed, product, Dec,
};
use crate::flatten::CloseOrder;
use crate::numbers::{parse_u32, unsigned_up_to};
use crate::positions::FutPosition;
use crate::quant::{
    abs_dec, abs_of, checked_quantize_decimal, fixed_text, format_decimal_fixed, quantized,
    scale_from_step, step_scale,
};
use crate::rules::{dec_or_zero, rules_from_fut_symbol, rules_of, str_dec, FutExchangeSymbol, SymbolRules};
use crate::text::{ascii_lowered, copy_of, same_ignoring_ascii_case};
use crate::types::{Position, Px, Qty, Side};

verus! {

/// How often a position is closed before it counts as not closed.
pub const CLOSE_ATTEMPTS: u32 = 3;

/// The pause after an order, in milliseconds.
pub const CLOSE_PAUSE_MS: u64 = 500;

/// The rules of a symbol: those that the exchange told, or fixed ones where it could
/// not be asked.
pub open spec fn rules_known(told: Option<Seq<FutExchangeSymbol>>, fallback: SymbolRules) -> Option<
    SymbolRules,
> {
    match told {
        None => Some(
            SymbolRules { min_notional: dec_of(0, 0), max_leverage: None, ..fallback },
        ),
        Some(symbols) => if symbols.len() == 0 {
            None
        } else {
            Some(rules_of(symbols[0]))
        },
    }
}

/// The rules of a symbol; none where the exchange told nothing of it.
pub fn rules_for(told: &Option<Vec<FutExchangeSymbol>>, fallback: &SymbolRules) -> (r: Option<
    SymbolRules,
>)
    ensures
        r == rules_known(
            match *told {
                Some(v) => Some(v@),
                None => None,
            },
            *fallback,
        ),
{
    match told {
        None => Some(
            SymbolRules {
                tick_size: fallback.tick_size,
                step_size: fallback.step_size,
                price_precision: fallback.price_precision,
                qty_precision: fallback.qty_precision,
                min_notional: Dec::new(0, 0),
                max_leverage: None,
            },
        ),
        Some(symbols) => if symbols.len() == 0 {
            None
        } else {
            Some(rules_from_fut_symbol(&symbols[0]))
        },
    }
}

/// The position at `i` is the first of this symbol, whatever the case of its letters.
pub open spec fn first_position(list: Seq<FutPosition>, symbol: Seq<char>, i: int) -> bool {
    &&& 0 <= i < list.len()
    &&& ascii_lowered(list[i].symbol@) == ascii_lowered(symbol)
    &&& forall|j: int| 0 <= j < i ==> ascii_lowered(#[trigger] list[j].symbol@) != ascii_lowered(symbol)
}

/// Why there is no position.
#[derive(Clone, Copy, Debug, PartialEq, Eq, Structural)]
pub enum ReadError {
    NotFound,
    Unreadable,
}

/// The position that a record tells.
pub open spec fn position_told(r: Result<Position, ReadError>, p: FutPosition, symbol: Seq<char>) ->
    bool {
    match (parsed(p.position_amt@), parsed(p.entry_price@)) {
        (Some(qty), Some(entry)) => r matches Ok(pos) && {
            &&& pos.symbol@ == symbol
            &&& pos.qty == Qty(qty)
            &&& pos.entry == Px(entry)
            &&& pos.leverage == match unsigned_up_to(p.leverage@, u32::MAX as nat) {
                Some(n) => n,
                None => 1,
            }
            &&& pos.liq_px == if dec_or_zero(p.liquidation_price@)@ > 0 {
                Some(Px(dec_or_zero(p.liquidation_price@)))
            } else {
                None
            }
        },
        _ => r == Err::<Position, ReadError>(ReadError::Unreadable),
    }
}

/// The first position of a symbol.
pub fn fetch_position(list: &Vec<FutPosition>, symbol: &str) -> (r: Result<Position, ReadError>)
    ensures
        (exists|i: int| #[trigger]
            first_position(list@, symbol@, i) && position_told(r, list@[i], symbol@)) || (r == Err::<
            Position,
            ReadError,
        >(ReadError::NotFound) && forall|j: int|
            0 <= j < list@.len() ==> ascii_lowered(#[trigger] list@[j].symbol@) != ascii_lowered(
                symbol@,
            )),
{
    let mut i: usize = 0;
    while i < list.len()
        invariant
            i <= list@.len(),
            forall|j: int|
                0 <= j < i ==> ascii_lowered(#[trigger] list@[j].symbol@) != ascii_lowered(symbol@),
        decreases list.len() - i,
    {
        let p = &list[i];
        if same_ignoring_ascii_case(p.symbol.as_str(), symbol) {
            let r = match (
                Dec::parse(p.position_amt.as_str()),
                Dec::parse(p.entry_price.as_str()),
            ) {
                (Some(qty), Some(entry)) => {
                    let leverage: u32 = match parse_u32(p.leverage.as_str()) {
                        Some(n) => n,
                        None => 1,
                    };
                    let liq = str_dec(p.liquidation_price.as_str());
                    Ok(
                        Position {
                            symbol: copy_of(symbol),
                            qty: Qty(qty),
                            entry: Px(entry),
                            leverage,
                            liq_px: if liq.is_positive() {
                                Some(Px(liq))
                            } else {
                                None
                            },
                        },
                    )
                },
                _ => Err(ReadError::Unreadable),
            };
            assert(first_position(list@, symbol@, i as int) && position_told(
                r,
                list@[i as int],
                symbol@,
            ));
            return r;
        }
        i += 1;
    }
    Err(ReadError::NotFound)
}

/// The mark price, the funding rate and the time of the next funding.
pub struct Premium {
    pub mark: Px,
    pub funding_rate: Option<Dec>,
    pub next_funding_time: Option<u64>,
}

/// What the exchange tells of the premium of a symbol; none where the mark price cannot
/// be read. A time of zero is no time.
pub fn fetch_premium_index(
    mark_price: &str,
    last_funding_rate: Option<&str>,
    next_funding_time: Option<u64>,
) -> (r: Option<Premium>)
    ensures
        match parsed(mark_price@) {
            None => r is None,
            Some(mark) => r == Some(
                Premium {
                    mark: Px(mark),
                    funding_rate: match last_funding_rate {
                        Some(t) => parsed(t@),
                        None => None,
                    },
                    next_funding_time: match next_funding_time {
                        Some(t) => if t > 0 {
                            Some(t)
                        } else {
                            None
                        },
                        None => None,
                    },
                },
            ),
        },
{
    match Dec::parse(mark_price) {
        None => None,
        Some(mark) => Some(
            Premium {
                mark: Px(mark),
                funding_rate: match last_funding_rate {
                    Some(t) => Dec::parse(t),
                    None => None,
                },
                next_funding_time: match next_funding_time {
                    Some(t) => if t > 0 {
                        Some(t)
                    } else {
                        None
                    },
                    None => None,
                },
            },
        ),
    }
}

/// The decimal places that are written: those of the step, and not more than the rules say.
pub open spec fn clamped_precision(step: Dec, precision: usize) -> nat {
    if step_scale(step) < precision {
        step_scale(step)
    } else {
        precision as nat
    }
}

/// The number with the digits behind `p` decimal places cut off.
pub open spec fn cut_at(d: Dec, p: nat) -> Dec {
    if d.places() <= p {
        d
    } else {
        dec_of(cut(d, p), p)
    }
}

fn clamp(value: Dec, step: Dec, precision: usize) -> (r: Option<(Dec, usize)>)
    ensures
        match quantized(value, step) {
            Some(q) => r == Some(
                (
                    cut_at(q, clamped_precision(step, precision)),
                    clamped_precision(step, precision) as usize,
                ),
            ),
            None => r is None,
        },
{
    let places: usize = scale_from_step(step);
    let p: usize = if places < precision {
        places
    } else {
        precision
    };
    match checked_quantize_decimal(value, step) {
        Some(q) => {
            proof {
                use_type_invariant(&q);
                lemma_bounds(q);
            }
            let digits: u32 = if p < 28 {
                p as u32
            } else {
                28
            };
            Some((q.cut_to_zero(digits), p))
        },
        None => None,
    }
}

/// Why an order is not placed.
#[derive(Clone, Copy, Debug, PartialEq, Eq, Structural)]
pub enum PlaceError {
    BelowMinNotional,
    /// A number cannot be held.
    Overflow,
}

/// The price and the quantity of an order: on a tick and on a step, and cut to what is
/// written.
pub open spec fn clamped_order(px: Px, qty: Qty, rules: SymbolRules) -> Result<
    (Dec, Dec),
    PlaceError,
> {
    match (quantized(px.0, rules.tick_size), quantized(abs_of(qty.0), rules.step_size)) {
        (Some(p), Some(q)) => {
            let price = cut_at(p, clamped_precision(rules.tick_size, rules.price_precision));
            let amount = cut_at(q, clamped_precision(rules.step_size, rules.qty_precision));
            match product(price, amount) {
                None => Err(PlaceError::Overflow),
                Some(n) => if rules.min_notional@ != 0 && n@ < rules.min_notional@ {
                    Err(PlaceError::BelowMinNotional)
                } else {
                    Ok((price, amount))
                },
            }
        },
        _ => Err(PlaceError::Overflow),
    }
}

/// The texts of the price and the quantity of a limit order.
pub fn place_limit(px: Px, qty: Qty, rules: &SymbolRules) -> (r: Result<(String, String), PlaceError>)
    ensures
        match clamped_order(px, qty, *rules) {
            Ok((price, amount)) => r matches Ok(t) && t.0@ == fixed_text(
                price,
                clamped_precision(rules.tick_size, rules.price_precision),
            ) && t.1@ == fixed_text(
                amount,
                clamped_precision(rules.step_size, rules.qty_precision),
            ),
            Err(e) => r == Err::<(String, String), PlaceError>(e),
        },
{
    match (
        clamp(px.0, rules.tick_size, rules.price_precision),
        clamp(abs_dec(qty.0), rules.step_size, rules.qty_precision),
    ) {
        (Some((price, price_places)), Some((amount, qty_places))) => match price.checked_mul(
            &amount,
        ) {
            None => Err(PlaceError::Overflow),
            Some(n) => {
                if !rules.min_notional.is_zero() && n.lt(&rules.min_notional) {
                    return Err(PlaceError::BelowMinNotional);
                }
                Ok(
                    (
                        format_decimal_fixed(price, price_places),
                        format_decimal_fixed(amount, qty_places),
                    ),
                )
            },
        },
        _ => Err(PlaceError::Overflow),
    }
}

/// The order that closes so much at the market, written as the rules say.
pub fn market_close_order(side: Side, qty: Dec, rules: &SymbolRules) -> (r: CloseOrder)
    ensures
        r.side == side,
        r.qty_text@ == fixed_text(qty, rules.qty_precision as nat),
        r.position_side is None,
        r.limit_price is None,
{
    CloseOrder {
        side,
        qty_text: format_decimal_fixed(qty, rules.qty_precision),
        position_side: None,
        limit_price: None,
    }
}

/// How far the closing of a position is.
#[derive(Clone, Copy, Debug)]
pub enum CloseState {
    /// To be asked for the position for the first time.
    Initial,
    /// To be asked for the position again, after a pause.
    Checking { attempt: u32, pause_ms: u64 },
    /// An order is to be sent.
    Sending { attempt: u32, side: Side, qty: Dec },
    /// To be asked, after a pause, whether the order closed the position.
    Verifying { attempt: u32 },
    /// Nothing is left to close.
    Done,
    /// Something is left after the last attempt.
    PartlyClosed,
    /// The exchange refused.
    Failed,
    /// A number cannot be held.
    Overflow,
}

/// What came back from the exchange.
#[derive(Clone, Copy, Debug)]
pub enum CloseEvent {
    Position(Dec),
    NoPosition,
    Sent,
    Refused,
}

/// The order that closes a position, where something is left to close.
pub open spec fn closing_order(qty: Dec, step: Dec) -> Option<Option<(Side, Dec)>> {
    if qty@ == 0 {
        Some(None)
    } else {
        match quantized(abs_of(qty), step) {
            None => None,
            Some(q) => if q@ <= 0 {
                Some(None)
            } else if qty@ > 0 {
                Some(Some((Side::Sell, q)))
            } else {
                Some(Some((Side::Buy, q)))
            },
        }
    }
}

fn find_closing_order(qty: Dec, step: Dec) -> (r: Option<Option<(Side, Dec)>>)
    ensures
        r == closing_order(qty, step),
{
    if qty.is_zero() {
        return Some(None);
    }
    match checked_quantize_decimal(abs_dec(qty), step) {
        None => None,
        Some(q) => if !q.is_positive() {
            Some(None)
        } else if qty.is_positive() {
            Some(Some((Side::Sell, q)))
        } else {
            Some(Some((Side::Buy, q)))
        },
    }
}

/// The next attempt, or the end.
pub open spec fn next_attempt(attempt: u32, pause_ms: u64, end: CloseState) -> CloseState {
    if attempt < CLOSE_ATTEMPTS - 1 {
        CloseState::Checking { attempt: (attempt + 1) as u32, pause_ms }
    } else {
        end
    }
}

/// What comes after an answer of the exchange.
pub open spec fn close_next(state: CloseState, event: CloseEvent, step: Dec) -> CloseState {
    match (state, event) {
        (CloseState::Initial, CloseEvent::Position(qty)) => match closing_order(qty, step) {
            None => CloseState::Overflow,
            Some(None) => CloseState::Done,
            Some(Some(_)) => CloseState::Checking { attempt: 0, pause_ms: 0 },
        },
        (CloseState::Checking { attempt, .. }, CloseEvent::Position(qty)) => match closing_order(
            qty,
            step,
        ) {
            None => CloseState::Overflow,
            Some(None) => CloseState::Done,
            Some(Some((side, q))) => CloseState::Sending { attempt, side, qty: q },
        },
        (CloseState::Sending { attempt, .. }, CloseEvent::Sent) => CloseState::Verifying {
            attempt,
        },
        (CloseState::Sending { attempt, .. }, CloseEvent::Refused) => next_attempt(
            attempt,
            CLOSE_PAUSE_MS,
            CloseState::Failed,
        ),
        (CloseState::Verifying { attempt }, CloseEvent::Position(qty)) => if qty@ == 0 {
            CloseState::Done
        } else {
            next_attempt(attempt, 0, CloseState::PartlyClosed)
        },
        (CloseState::Initial, CloseEvent::NoPosition) => CloseState::Failed,
        (CloseState::Checking { .. }, CloseEvent::NoPosition) => CloseState::Failed,
        (CloseState::Verifying { .. }, CloseEvent::NoPosition) => CloseState::Failed,
        _ => state,
    }
}

fn go_on(attempt: u32, pause_ms: u64, end: CloseState) -> (r: CloseState)
    ensures
        r == next_attempt(attempt, pause_ms, end),
{
    if attempt < CLOSE_ATTEMPTS - 1 {
        CloseState::Checking { attempt: attempt + 1, pause_ms }
    } else {
        end
    }
}

/// What comes after an answer of the exchange.
pub fn close_step(state: CloseState, event: CloseEvent, step: Dec) -> (r: CloseState)
    ensures
        r == close_next(state, event, step),
{
    match (state, event) {
        (CloseState::Initial, CloseEvent::Position(qty)) => match find_closing_order(qty, step) {
            None => CloseState::Overflow,
            Some(None) => CloseState::Done,
            Some(Some(_)) => CloseState::Checking { attempt: 0, pause_ms: 0 },
        },
        (CloseState::Checking { attempt, .. }, CloseEvent::Position(qty)) => {
            match find_closing_order(qty, step) {
                None => CloseState::Overflow,
                Some(None) => CloseState::Done,
                Some(Some((side, q))) => CloseState::Sending { attempt, side, qty: q },
            }
        },
        (CloseState::Sending { attempt, .. }, CloseEvent::Sent) => CloseState::Verifying {
            attempt,
        },
        (CloseState::Sending { attempt, .. }, CloseEvent::Refused) => go_on(
            attempt,
            CLOSE_PAUSE_MS,
            CloseState::Failed,
        ),
        (CloseState::Verifying { attempt }, CloseEvent::Position(qty)) => {
            if qty.is_zero() {
                CloseState::Done
            } else {
                go_on(attempt, 0, CloseState::PartlyClosed)
            }
        },
        (CloseState::Initial, CloseEvent::NoPosition) => CloseState::Failed,
        (CloseState::Checking { .. }, CloseEvent::NoPosition) => CloseState::Failed,
        (CloseState::Verifying { .. }, CloseEvent::NoPosition) => CloseState::Failed,
        _ => state,
    }
}

/// The attempts are not more than are allowed.
pub open spec fn close_wf(state: CloseState) -> bool {
    match state {
        CloseState::Checking { attempt, .. } => attempt < CLOSE_ATTEMPTS,
        CloseState::Sending { attempt, .. } => attempt < CLOSE_ATTEMPTS,
        CloseState::Verifying { attempt } => attempt < CLOSE_ATTEMPTS,
        _ => true,
    }
}

/// How many steps the closing takes at most.
pub open spec fn steps_left(state: CloseState) -> int {
    match state {
        CloseState::Initial => 3 * CLOSE_ATTEMPTS + 1,
        CloseState::Checking { attempt, .. } => 3 * (CLOSE_ATTEMPTS - attempt),
        CloseState::Sending { attempt, .. } => 3 * (CLOSE_ATTEMPTS - attempt) - 1,
        CloseState::Verifying { attempt } => 3 * (CLOSE_ATTEMPTS - attempt) - 2,
        _ => 0,
    }
}

/// Each answer brings the closing nearer to its end, so that it ends; and not more
/// attempts are made than are allowed.
pub proof fn law_closing_ends(state: CloseState, event: CloseEvent, step: Dec)
    requires
        close_wf(state),
    ensures
        close_wf(close_next(state, event, step)),
        close_next(state, event, step) == state || 0 <= steps_left(close_next(state, event, step))
            < steps_left(state),
{
}

/// An order is only sent for what is there: on the side against the position, and for
/// a positive quantity.
pub proof fn law_closing_orders(state: CloseState, qty: Dec, step: Dec)
    ensures
        !(state is Sending) ==> (close_next(state, CloseEvent::Position(qty), step) matches
            CloseState::Sending { side, qty: q, .. } ==> q@ > 0 && (side == Side::Sell <==> qty@
            > 0)),
{
}

/// The position of a symbol is told by its entry: the amount and the entry price are what their
/// texts read as, and without either there is no position; the leverage is one where its text is
/// no number; and the price of liquidation is there only above zero.
pub proof fn law_told_position(r: Result<Position, ReadError>, p: FutPosition, symbol: Seq<char>)
    requires
        position_told(r, p, symbol),
    ensures
        r is Ok <==> parsed(p.position_amt@) is Some && parsed(p.entry_price@) is Some,
        r matches Ok(pos) ==> {
            &&& parsed(p.position_amt@) == Some(pos.qty.0)
            &&& parsed(p.entry_price@) == Some(pos.entry.0)
            &&& unsigned_up_to(p.leverage@, u32::MAX as nat) is None ==> pos.leverage == 1
            &&& unsigned_up_to(p.leverage@, u32::MAX as nat) matches Some(n) ==> pos.leverage == n
            &&& pos.liq_px is None ==> !(parsed(p.liquidation_price@) matches Some(l) && l@ > 0)
            &&& pos.liq_px matches Some(l) ==> parsed(p.liquidation_price@) == Some(l.0) && l.0@
                > 0
            &&& pos.symbol@ == symbol
        },
{
    lemma_value(0, 0);
    lemma_powers();
}

/// Without an answer of the exchange the rules are those that were kept, with no smallest value
/// and no limit to the leverage; with one they are those of the first symbol in it.
pub proof fn law_known_rules(told: Option<Seq<FutExchangeSymbol>>, fallback: SymbolRules)
    ensures
        ({
            let r = rules_known(told, fallback);
            &&& told is None ==> (r matches Some(k) && k.tick_size == fallback.tick_size
                && k.step_size == fallback.step_size && k.price_precision
                == fallback.price_precision && k.qty_precision == fallback.qty_precision
                && k.min_notional@ == 0 && k.max_leverage is None)
            &&& told matches Some(s) ==> (r is Some <==> s.len() > 0)
            &&& told matches Some(s) ==> (s.len() > 0 ==> r == Some(rules_of(s[0])))
        }),
{
    lemma_value(0, 0);
    lemma_powers();
}

/// A close order undoes the position: nothing is sent for no position, a long one is sold and a
/// short one bought, in whole steps of its size.
pub proof fn law_order_that_closes(qty: Dec, step: Dec)
    ensures
        qty@ == 0 ==> closing_order(qty, step) == Some(None::<(Side, Dec)>),
        closing_order(qty, step) matches Some(Some((side, q))) ==> qty@ != 0 && (qty@ > 0 ==> side
            is Sell) && (qty@ < 0 ==> side is Buy) && quantized(abs_of(qty), step) == Some(q) && q@
            > 0,
        qty@ != 0 && quantized(abs_of(qty), step) is None ==> closing_order(qty, step) is None,
        qty@ != 0 ==> (quantized(abs_of(qty), step) matches Some(q) ==> (q@ > 0 ==> closing_order(
            qty,
            step,
        ) is Some && closing_order(qty, step)->0 is Some)),
{
}

/// How closing goes on: it is done after an order exactly where no position is left; an order
/// that was refused or did not close everything is followed by another check, up to the third,
/// half a second later where it was refused; an order that was sent is verified; and a position
/// that cannot be told ends it.
pub proof fn law_how_closing_goes_on(attempt: u32, pause_ms: u64, side: Side, q: Dec, qty: Dec, step: Dec)
    requires
        attempt < 3,
    ensures
        ({
            let verifying = CloseState::Verifying { attempt };
            let sending = CloseState::Sending { attempt, side, qty: q };
            let checking = CloseState::Checking { attempt, pause_ms };
            let at = CloseEvent::Position(qty);
            &&& close_next(verifying, at, step) is Done <==> qty@ == 0
            &&& qty@ != 0 && attempt == 2 ==> close_next(verifying, at, step) is PartlyClosed
            &&& qty@ != 0 && attempt < 2 ==> (close_next(verifying, at, step) matches
                CloseState::Checking { attempt: a, pause_ms: p } && a == attempt + 1 && p == 0)
            &&& close_next(sending, CloseEvent::Sent, step) == verifying
            &&& attempt == 2 ==> close_next(sending, CloseEvent::Refused, step) is Failed
            &&& attempt < 2 ==> (close_next(sending, CloseEvent::Refused, step) matches
                CloseState::Checking { attempt: a, pause_ms: p } && a == attempt + 1 && p == 500)
            &&& close_next(checking, at, step) is Sending <==> closing_order(qty, step) is Some && closing_order(
                qty,
                step,
            )->0 is Some
            &&& close_next(checking, at, step) is Done <==> closing_order(qty, step) == Some(
                None::<(Side, Dec)>,
            )
            &&& close_next(checking, at, step) matches CloseState::Sending {
                attempt: a,
                side: s,
                qty: x,
            } ==> a == attempt && closing_order(qty, step) == Some(Some((s, x)))
            &&& close_next(checking, CloseEvent::NoPosition, step) is Failed
            &&& close_next(verifying, CloseEvent::NoPosition, step) is Failed
            &&& close_next(CloseState::Initial, CloseEvent::NoPosition, step) is Failed
            &&& close_next(CloseState::Initial, at, step) is Done <==> closing_order(qty, step)
                == Some(None::<(Side, Dec)>)
            &&& close_next(CloseState::Initial, at, step) matches CloseState::Checking {
                attempt: a,
                pause_ms: p,
            } ==> a == 0 && p == 0
        }),
{
}

/// A limit order is written with no more decimal places than its step has and than the symbol
/// allows, whichever are fewer; and where a smallest value is asked for, it is worth as much.
pub proof fn law_clamped_orders(px: Px, qty: Qty, rules: SymbolRules)
    ensures
        clamped_precision(rules.tick_size, rules.price_precision) <= rules.price_precision,
        clamped_precision(rules.tick_size, rules.price_precision) <= step_scale(rules.tick_size),
        clamped_precision(rules.tick_size, rules.price_precision) == rules.price_precision
            || clamped_precision(rules.tick_size, rules.price_precision) == step_scale(
            rules.tick_size,
        ),
        clamped_order(px, qty, rules) matches Ok((p, q)) ==> (product(p, q) matches Some(n) && (
        rules.min_notional@ == 0 || n@ >= rules.min_notional@)),
        clamped_order(px, qty, rules) matches Ok((p, q)) ==> (quantized(px.0, rules.tick_size)
            matches Some(whole) && (whole.places() <= clamped_precision(
            rules.tick_size,
            rules.price_precision,
        ) ==> p == whole)),
        clamped_order(px, qty, rules) matches Ok((p, q)) ==> (quantized(
            abs_of(qty.0),
            rules.step_size,
        ) matches Some(whole) && (whole.places() <= clamped_precision(
            rules.step_size,
            rules.qty_precision,
        ) ==> q == whole)),
{
}

} // verus!
