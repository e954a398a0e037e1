//! Closing a position.
//!
//! A position is closed with market orders that can only reduce it, three at
//! most. Where the exchange finds what is left too small for one, a limit order
//! is tried once. Closing is given up where the position grows out of hand.
//!
//! [`FlattenState`] says where a closing stands, [`flatten_action`] what has to be
//! done next, and [`flatten_step`] what follows from how that went.
use vstd::prelude::*;

use crate::arith::mul_by;
use crate::connection::push_param;
use crate::decimal::{
    dec_of, difference, lemma_powers, lemma_value, one, product, quotient, sum, Dec,
};
use crate::quant::{
    abs_dec, abs_of, checked_quantize_decimal, fixed_text, format_decimal_fixed, quantized,
};
use crate::query::{clocked, push_clock};
use crate::rules::{effective_precision, hedge_word, written_precision, SymbolRules};
use crate::rounding::{
    can_be_held, is_close, law_exact_is_kept, law_rounding_above, law_rounding_below,
    law_rounding_is_close, lemma_exact, lemma_zero_and_one, rounds_to,
};
use crate::signing::pairs;
use crate::types::{Px, Side};

verus! {

/// How many market orders a closing may take.
pub const MAX_CLOSE_ATTEMPTS: u32 = 3;

/// How often a position may grow by more than a tenth while it is closed.
pub const MAX_RETRIES_ON_GROWTH: u32 = 8;

/// The pause after an order before the position is looked at again, in milliseconds.
pub const VERIFY_PAUSE_MS: u64 = 1000;

/// The pause after an order that failed, in milliseconds.
pub const RETRY_PAUSE_MS: u64 = 500;

/// Why a position was not closed.
#[derive(Clone, Copy, Debug, PartialEq, Eq, Structural)]
pub enum FlattenError {
    PositionUnavailable,
    RulesUnavailable,
    PricesUnavailable,
    /// The position is more than one and a half times what it was at first.
    ControlLost,
    /// The position grew too often.
    GrowthAbort,
    /// Something is left after the last attempt.
    NotFullyClosed,
    /// The last market order failed, and nothing else was to be tried.
    MarketFailed,
    /// The last market order failed.
    SendFailed,
    LimitFallbackFailed,
    /// The limit order behind the last market order failed.
    Unexpected,
    /// A number on the way cannot be held.
    Overflow,
}

#[derive(Clone, Copy, Debug, PartialEq, Eq, Structural)]
pub enum FlattenOutcome {
    Closed,
    Failed(FlattenError),
}

/// A closing under way.
#[derive(Clone, Copy, Debug)]
pub struct Closing {
    /// The quantity at first; negative for a short position.
    pub initial_qty: Dec,
    pub rules: SymbolRules,
    /// How many attempts were made before this one.
    pub attempt: u32,
    pub growth_events: u32,
}

/// An attempt: the quantity that was found, and what is to be closed of it.
#[derive(Clone, Copy, Debug)]
pub struct Attempt {
    pub closing: Closing,
    pub current_qty: Dec,
    pub remaining: Dec,
}

/// Where a closing stands.
#[derive(Clone, Copy, Debug)]
pub enum FlattenState {
    Start,
    NeedRules { initial_qty: Dec },
    NeedPosition { closing: Closing, pause_ms: u64 },
    MarketSent { at: Attempt },
    Verifying { at: Attempt },
    RefreshingRules { at: Attempt },
    NeedPrices { at: Attempt, fresh: SymbolRules },
    LimitSent { at: Attempt, fresh: SymbolRules, price: Dec },
    Finished { outcome: FlattenOutcome },
}

/// How outside work went.
#[derive(Clone, Copy, Debug)]
pub enum FlattenEvent {
    /// The quantity of the position.
    Position { qty: Dec },
    /// There is no such position.
    PositionMissing,
    PositionFailed,
    Rules { rules: SymbolRules },
    RulesFailed,
    OrderAccepted,
    /// The order was refused, as the position is closed.
    OrderRefusedClosed,
    /// The order was refused, as it is worth too little.
    OrderRefusedMinNotional,
    OrderFailed,
    Prices { bid: Px, ask: Px },
    PricesFailed,
}

/// How positions are held, and whether only market orders may be sent.
#[derive(Clone, Copy, Debug)]
pub struct FlattenMode {
    pub hedge_mode: bool,
    pub use_market_only: bool,
}

pub open spec fn closed() -> FlattenState {
    FlattenState::Finished { outcome: FlattenOutcome::Closed }
}

pub open spec fn failed(e: FlattenError) -> FlattenState {
    FlattenState::Finished { outcome: FlattenOutcome::Failed(e) }
}

/// Whether an event answers what the state asked for.
pub open spec fn answers(s: FlattenState, e: FlattenEvent) -> bool {
    match s {
        FlattenState::Start => e is Position || e is PositionMissing || e is PositionFailed,
        FlattenState::NeedRules { .. } => e is Rules || e is RulesFailed,
        FlattenState::NeedPosition { .. } => e is Position || e is PositionMissing
            || e is PositionFailed,
        FlattenState::MarketSent { .. } => e is OrderAccepted || e is OrderRefusedClosed
            || e is OrderRefusedMinNotional || e is OrderFailed,
        FlattenState::Verifying { .. } => e is Position || e is PositionMissing
            || e is PositionFailed,
        FlattenState::RefreshingRules { .. } => e is Rules || e is RulesFailed,
        FlattenState::NeedPrices { .. } => e is Prices || e is PricesFailed,
        FlattenState::LimitSent { .. } => e is OrderAccepted || e is OrderRefusedClosed
            || e is OrderRefusedMinNotional || e is OrderFailed,
        FlattenState::Finished { .. } => false,
    }
}

/// How large a position is, measured by what it was at first.
pub open spec fn growth(qty: Dec, initial_qty: Dec) -> Option<Dec> {
    quotient(abs_of(qty), abs_of(initial_qty))
}

/// By how many percent a position is larger than at first.
pub open spec fn growth_pct(qty: Dec, initial_qty: Dec) -> Option<Dec> {
    match difference(abs_of(qty), abs_of(initial_qty)) {
        Some(d) => match quotient(d, abs_of(initial_qty)) {
            Some(q) => product(q, dec_of(100, 0)),
            None => None,
        },
        None => None,
    }
}

/// The quantity below which a rest is not worth an order, at a price that is
/// taken to be a hundredth where there is none.
pub open spec fn dust_threshold(min_notional: Dec, price: Dec) -> Option<Dec> {
    if price@ == 0 {
        quotient(min_notional, dec_of(1, 2))
    } else {
        quotient(min_notional, price)
    }
}

/// `v` is the quantity that is worth the smallest value at a price; at a hundredth where there is
/// no price.
pub open spec fn dust_told(min_notional: int, price: int, v: int) -> bool {
    &&& price > 0 ==> rounds_to(min_notional * one(), price, v)
    &&& price == 0 ==> rounds_to(
        min_notional * one(),
        100_000_000_000_000_000_000_000_000,
        v,
    )
}

/// A rest is dust exactly where it is worth less than the smallest value at the price, up to
/// rounding.
pub proof fn law_dust(min_notional: int, price: int, v: int, rest: int)
    requires
        dust_told(min_notional, price, v),
        price > 0,
        min_notional > 0,
        can_be_held(rest),
    ensures
        rest < v ==> rest * price < min_notional * one(),
        v >= 0,
        is_close(min_notional * one(), price, v),
{
    lemma_zero_and_one();
    law_rounding_above(min_notional * one(), price, v, 0);
    law_rounding_is_close(min_notional * one(), price, v);
    if rest * price >= min_notional * one() {
        law_rounding_below(min_notional * one(), price, v, rest);
    }
}

/// The price that a rest is closed at: the ask for a short position, and the bid for a long one.
pub open spec fn closing_price(at: Attempt, bid: Px, ask: Px) -> int {
    if at.current_qty@ < 0 {
        ask.0@
    } else {
        bid.0@
    }
}

/// A rest is left where it is dust, and only there.
pub open spec fn rest_told(at: Attempt, min_notional: int, price: int, r: FlattenState) -> bool {
    r == failed(FlattenError::Overflow) || exists|dust: int| #[trigger]
        dust_told(min_notional, price, dust) && (r == closed() <==> at.remaining@ < dust)
}

/// What the prices say of a rest that was found too small.
pub open spec fn rests_told(s: FlattenState, e: FlattenEvent, r: FlattenState) -> bool {
    match (s, e) {
        (FlattenState::NeedPrices { at, fresh }, FlattenEvent::Prices { bid, ask }) => rest_told(
            at,
            fresh.min_notional@,
            closing_price(at, bid, ask),
            r,
        ),
        _ => true,
    }
}

/// The quantity below which a rest is not worth an order.
pub fn calculate_dust_threshold(min_notional: Dec, price: Dec) -> (r: Option<Dec>)
    ensures
        r == dust_threshold(min_notional, price),
        r matches Some(v) ==> dust_told(min_notional@, price@, v@),
{
    proof {
        lemma_powers();
        lemma_value(1, 2);
    }
    if price.is_zero() {
        min_notional.checked_div(&Dec::new(1, 2))
    } else {
        min_notional.checked_div(&price)
    }
}

/// The side of the order that closes a position.
pub open spec fn closing_side(qty: Dec) -> Side {
    if qty@ < 0 {
        Side::Buy
    } else {
        Side::Sell
    }
}

/// The next attempt after a pause, if there is one left.
pub open spec fn again(c: Closing, pause_ms: u64, otherwise: FlattenError) -> FlattenState {
    if c.attempt + 1 < MAX_CLOSE_ATTEMPTS {
        FlattenState::NeedPosition {
            closing: Closing { attempt: (c.attempt + 1) as u32, ..c },
            pause_ms,
        }
    } else {
        failed(otherwise)
    }
}

/// From the quantity at first and the rules of the symbol.
pub open spec fn after_rules(initial_qty: Dec, rules: SymbolRules) -> FlattenState {
    match quantized(abs_of(initial_qty), rules.step_size) {
        None => failed(FlattenError::Overflow),
        Some(q) => if q@ <= 0 {
            closed()
        } else {
            FlattenState::NeedPosition {
                closing: Closing { initial_qty, rules, attempt: 0, growth_events: 0 },
                pause_ms: 0,
            }
        },
    }
}

/// From the quantity that is found before an attempt.
pub open spec fn after_position(c: Closing, qty: Dec) -> FlattenState {
    match growth(qty, c.initial_qty) {
        None => failed(FlattenError::Overflow),
        Some(m) => if m@ > dec_of(15, 1)@ {
            failed(FlattenError::ControlLost)
        } else if qty@ == 0 {
            closed()
        } else {
            match quantized(abs_of(qty), c.rules.step_size) {
                None => failed(FlattenError::Overflow),
                Some(remaining) => if remaining@ <= 0 {
                    closed()
                } else {
                    FlattenState::MarketSent {
                        at: Attempt { closing: c, current_qty: qty, remaining },
                    }
                },
            }
        },
    }
}

/// How often the position has grown by more than a tenth, with the quantity that
/// is found after an attempt.
pub open spec fn growth_count(at: Attempt, qty: Dec) -> Option<int> {
    if abs_of(qty)@ > abs_of(at.current_qty)@ || abs_of(qty)@ > abs_of(at.closing.initial_qty)@ {
        match growth_pct(qty, at.closing.initial_qty) {
            None => None,
            Some(g) => if g@ > dec_of(10, 0)@ {
                Some(at.closing.growth_events + 1)
            } else {
                Some(at.closing.growth_events as int)
            },
        }
    } else {
        Some(at.closing.growth_events as int)
    }
}

/// From the quantity that is found after an attempt.
pub open spec fn after_verification(at: Attempt, qty: Dec) -> FlattenState {
    if qty@ == 0 {
        closed()
    } else {
        match growth(qty, at.closing.initial_qty) {
            None => failed(FlattenError::Overflow),
            Some(m) => if m@ > dec_of(15, 1)@ {
                failed(FlattenError::ControlLost)
            } else {
                match growth_count(at, qty) {
                    None => failed(FlattenError::Overflow),
                    Some(n) => if n > MAX_RETRIES_ON_GROWTH {
                        failed(FlattenError::GrowthAbort)
                    } else {
                        again(
                            Closing { growth_events: n as u32, ..at.closing },
                            0,
                            FlattenError::NotFullyClosed,
                        )
                    },
                }
            },
        }
    }
}

/// From a market order that failed.
pub open spec fn after_failed_order(mode: FlattenMode, at: Attempt, min_notional: bool) ->
    FlattenState {
    if mode.use_market_only {
        again(at.closing, RETRY_PAUSE_MS, FlattenError::MarketFailed)
    } else if min_notional {
        FlattenState::RefreshingRules { at }
    } else {
        again(at.closing, RETRY_PAUSE_MS, FlattenError::SendFailed)
    }
}

/// From a rest that was found too small, where there are no prices.
pub open spec fn after_no_prices(at: Attempt, fresh: SymbolRules) -> FlattenState {
    match quotient(fresh.min_notional, dec_of(1, 2)) {
        None => failed(FlattenError::Overflow),
        Some(dust) => if at.remaining@ < dust@ {
            closed()
        } else {
            failed(FlattenError::PricesUnavailable)
        },
    }
}

/// The price of the limit order: one tick inside the spread.
pub open spec fn limit_price(at: Attempt, fresh: SymbolRules, bid: Px, ask: Px) -> Option<Dec> {
    let raw = match closing_side(at.current_qty) {
        Side::Buy => sum(bid.0, fresh.tick_size),
        Side::Sell => difference(ask.0, fresh.tick_size),
    };
    match raw {
        Some(p) => quantized(p, fresh.tick_size),
        None => None,
    }
}

/// From a rest that was found too small, with the best prices.
pub open spec fn after_prices(at: Attempt, fresh: SymbolRules, bid: Px, ask: Px) -> FlattenState {
    let price = match closing_side(at.current_qty) {
        Side::Buy => ask.0,
        Side::Sell => bid.0,
    };
    match dust_threshold(fresh.min_notional, price) {
        None => failed(FlattenError::Overflow),
        Some(dust) => if at.remaining@ < dust@ {
            closed()
        } else {
            match limit_price(at, fresh, bid, ask) {
                None => failed(FlattenError::Overflow),
                Some(price) => FlattenState::LimitSent { at, fresh, price },
            }
        },
    }
}

/// What follows from how the outside work of a state went.
pub open spec fn flatten_next(mode: FlattenMode, s: FlattenState, e: FlattenEvent) ->
    FlattenState {
    match (s, e) {
        (FlattenState::Start, FlattenEvent::Position { qty }) => if qty@ == 0 {
            closed()
        } else {
            FlattenState::NeedRules { initial_qty: qty }
        },
        (FlattenState::Start, FlattenEvent::PositionMissing) => closed(),
        (FlattenState::Start, _) => failed(FlattenError::PositionUnavailable),
        (FlattenState::NeedRules { initial_qty }, FlattenEvent::Rules { rules }) => after_rules(
            initial_qty,
            rules,
        ),
        (FlattenState::NeedRules { .. }, _) => failed(FlattenError::RulesUnavailable),
        (FlattenState::NeedPosition { closing, .. }, FlattenEvent::Position { qty }) =>
            after_position(closing, qty),
        (FlattenState::NeedPosition { .. }, FlattenEvent::PositionMissing) => closed(),
        (FlattenState::NeedPosition { .. }, _) => failed(FlattenError::PositionUnavailable),
        (FlattenState::MarketSent { at }, FlattenEvent::OrderAccepted) =>
            FlattenState::Verifying { at },
        (FlattenState::MarketSent { .. }, FlattenEvent::OrderRefusedClosed) => closed(),
        (FlattenState::MarketSent { at }, e) => after_failed_order(
            mode,
            at,
            e is OrderRefusedMinNotional,
        ),
        (FlattenState::Verifying { at }, FlattenEvent::Position { qty }) => after_verification(
            at,
            qty,
        ),
        (FlattenState::Verifying { .. }, _) => failed(FlattenError::PositionUnavailable),
        (FlattenState::RefreshingRules { at }, FlattenEvent::Rules { rules }) =>
            FlattenState::NeedPrices { at, fresh: rules },
        (FlattenState::RefreshingRules { at }, _) => FlattenState::NeedPrices {
            at,
            fresh: at.closing.rules,
        },
        (FlattenState::NeedPrices { at, fresh }, FlattenEvent::Prices { bid, ask }) =>
            after_prices(at, fresh, bid, ask),
        (FlattenState::NeedPrices { at, fresh }, _) => after_no_prices(at, fresh),
        (FlattenState::LimitSent { .. }, FlattenEvent::OrderAccepted) => closed(),
        (FlattenState::LimitSent { at, .. }, _) => if at.closing.attempt + 1
            < MAX_CLOSE_ATTEMPTS {
            failed(FlattenError::LimitFallbackFailed)
        } else {
            failed(FlattenError::Unexpected)
        },
        (FlattenState::Finished { .. }, _) => s,
    }
}

fn exec_closed() -> (r: FlattenState)
    ensures
        r == closed(),
{
    FlattenState::Finished { outcome: FlattenOutcome::Closed }
}

fn exec_failed(e: FlattenError) -> (r: FlattenState)
    ensures
        r == failed(e),
{
    FlattenState::Finished { outcome: FlattenOutcome::Failed(e) }
}

/// The next attempt after a pause, if there is one left.
fn try_again(c: Closing, pause_ms: u64, otherwise: FlattenError) -> (r: FlattenState)
    requires
        c.attempt < MAX_CLOSE_ATTEMPTS,
    ensures
        r == again(c, pause_ms, otherwise),
{
    if c.attempt + 1 < MAX_CLOSE_ATTEMPTS {
        FlattenState::NeedPosition {
            closing: Closing {
                initial_qty: c.initial_qty,
                rules: c.rules,
                attempt: c.attempt + 1,
                growth_events: c.growth_events,
            },
            pause_ms,
        }
    } else {
        exec_failed(otherwise)
    }
}

fn step_after_rules(initial_qty: Dec, rules: SymbolRules) -> (r: FlattenState)
    ensures
        r == after_rules(initial_qty, rules),
{
    match checked_quantize_decimal(abs_dec(initial_qty), rules.step_size) {
        None => exec_failed(FlattenError::Overflow),
        Some(q) => if !q.is_positive() {
            exec_closed()
        } else {
            FlattenState::NeedPosition {
                closing: Closing { initial_qty, rules, attempt: 0, growth_events: 0 },
                pause_ms: 0,
            }
        },
    }
}

fn step_after_position(c: Closing, qty: Dec) -> (r: FlattenState)
    ensures
        r == after_position(c, qty),
        multiple_told(size_of_amount(c.initial_qty), size_of_amount(qty), r),
{
    proof {
        lemma_powers();
        lemma_value(15, 1);
    }
    match abs_dec(qty).checked_div(&abs_dec(c.initial_qty)) {
        None => exec_failed(FlattenError::Overflow),
        Some(m) => {
            proof {
                if c.initial_qty@ != 0 {
                    assert(rounds_to(
                        size_of_amount(qty) * one(),
                        size_of_amount(c.initial_qty),
                        m@,
                    ));
                }
            }
            if Dec::new(15, 1).lt(&m) {
                return exec_failed(FlattenError::ControlLost);
            }
            if qty.is_zero() {
                return exec_closed();
            }
            match checked_quantize_decimal(abs_dec(qty), c.rules.step_size) {
                None => exec_failed(FlattenError::Overflow),
                Some(remaining) => if !remaining.is_positive() {
                    exec_closed()
                } else {
                    FlattenState::MarketSent {
                        at: Attempt { closing: c, current_qty: qty, remaining },
                    }
                },
            }
        },
    }
}

/// By how many percent a position is larger than at first.
fn read_growth_pct(qty: Dec, initial_qty: Dec) -> (r: Option<Dec>)
    ensures
        r == growth_pct(qty, initial_qty),
        initial_qty@ != 0 && r is Some ==> exists|d: int, q: int| #[trigger]
            grows_by(size_of_amount(initial_qty), size_of_amount(qty), d, q, r->0@),
{
    match abs_dec(qty).checked_sub(&abs_dec(initial_qty)) {
        Some(d) => match d.checked_div(&abs_dec(initial_qty)) {
            Some(q) => {
                let r = mul_by(Some(q), 100);
                proof {
                    lemma_powers();
                    if initial_qty@ != 0 && r is Some {
                        assert(grows_by(
                            size_of_amount(initial_qty),
                            size_of_amount(qty),
                            d@,
                            q@,
                            r->0@,
                        ));
                    }
                }
                r
            },
            None => None,
        },
        None => None,
    }
}

fn read_growth_count(at: &Attempt, qty: Dec) -> (r: Option<u32>)
    requires
        at.closing.growth_events <= MAX_RETRIES_ON_GROWTH,
    ensures
        match growth_count(*at, qty) {
            Some(n) => r is Some && r->0 == n,
            None => r is None,
        },
        r matches Some(n) ==> growth_told(*at, qty, n as int),
{
    proof {
        lemma_powers();
        lemma_value(10, 0);
    }
    let size = abs_dec(qty);
    if abs_dec(at.current_qty).lt(&size) || abs_dec(at.closing.initial_qty).lt(&size) {
        match read_growth_pct(qty, at.closing.initial_qty) {
            None => None,
            Some(g) => if Dec::new(10, 0).lt(&g) {
                Some(at.closing.growth_events + 1)
            } else {
                Some(at.closing.growth_events)
            },
        }
    } else {
        Some(at.closing.growth_events)
    }
}

fn step_after_verification(at: Attempt, qty: Dec) -> (r: FlattenState)
    requires
        at.closing.attempt < MAX_CLOSE_ATTEMPTS,
        at.closing.growth_events <= MAX_RETRIES_ON_GROWTH,
    ensures
        r == after_verification(at, qty),
        qty@ != 0 ==> multiple_told(
            size_of_amount(at.closing.initial_qty),
            size_of_amount(qty),
            r,
        ),
        qty@ != 0 ==> (r matches FlattenState::NeedPosition { closing, .. } ==> growth_told(
            at,
            qty,
            closing.growth_events as int,
        )),
{
    proof {
        lemma_powers();
        lemma_value(15, 1);
    }
    if qty.is_zero() {
        return exec_closed();
    }
    match abs_dec(qty).checked_div(&abs_dec(at.closing.initial_qty)) {
        None => exec_failed(FlattenError::Overflow),
        Some(m) => {
            proof {
                if at.closing.initial_qty@ != 0 {
                    assert(rounds_to(
                        size_of_amount(qty) * one(),
                        size_of_amount(at.closing.initial_qty),
                        m@,
                    ));
                }
            }
            if Dec::new(15, 1).lt(&m) {
                return exec_failed(FlattenError::ControlLost);
            }
            match read_growth_count(&at, qty) {
                None => exec_failed(FlattenError::Overflow),
                Some(n) => if n > MAX_RETRIES_ON_GROWTH {
                    exec_failed(FlattenError::GrowthAbort)
                } else {
                    try_again(
                        Closing {
                            initial_qty: at.closing.initial_qty,
                            rules: at.closing.rules,
                            attempt: at.closing.attempt,
                            growth_events: n,
                        },
                        0,
                        FlattenError::NotFullyClosed,
                    )
                },
            }
        },
    }
}

fn step_after_failed_order(mode: FlattenMode, at: Attempt, min_notional: bool) -> (r: FlattenState)
    requires
        at.closing.attempt < MAX_CLOSE_ATTEMPTS,
    ensures
        r == after_failed_order(mode, at, min_notional),
{
    if mode.use_market_only {
        try_again(at.closing, RETRY_PAUSE_MS, FlattenError::MarketFailed)
    } else if min_notional {
        FlattenState::RefreshingRules { at }
    } else {
        try_again(at.closing, RETRY_PAUSE_MS, FlattenError::SendFailed)
    }
}

fn step_after_no_prices(at: Attempt, fresh: SymbolRules) -> (r: FlattenState)
    ensures
        r == after_no_prices(at, fresh),
{
    match fresh.min_notional.checked_div(&Dec::new(1, 2)) {
        None => exec_failed(FlattenError::Overflow),
        Some(dust) => if at.remaining.lt(&dust) {
            exec_closed()
        } else {
            exec_failed(FlattenError::PricesUnavailable)
        },
    }
}

fn side_to_close(qty: Dec) -> (r: Side)
    ensures
        r == closing_side(qty),
{
    if qty.is_sign_negative() {
        Side::Buy
    } else {
        Side::Sell
    }
}

fn find_limit_price(at: &Attempt, fresh: &SymbolRules, bid: Px, ask: Px) -> (r: Option<Dec>)
    ensures
        r == limit_price(*at, *fresh, bid, ask),
{
    let raw = match side_to_close(at.current_qty) {
        Side::Buy => bid.0.checked_add(&fresh.tick_size),
        Side::Sell => ask.0.checked_sub(&fresh.tick_size),
    };
    match raw {
        Some(p) => checked_quantize_decimal(p, fresh.tick_size),
        None => None,
    }
}

fn step_after_prices(at: Attempt, fresh: SymbolRules, bid: Px, ask: Px) -> (r: FlattenState)
    ensures
        r == after_prices(at, fresh, bid, ask),
        rest_told(at, fresh.min_notional@, closing_price(at, bid, ask), r),
{
    let price = match side_to_close(at.current_qty) {
        Side::Buy => ask.0,
        Side::Sell => bid.0,
    };
    match calculate_dust_threshold(fresh.min_notional, price) {
        None => exec_failed(FlattenError::Overflow),
        Some(dust) => {
            assert(dust_told(fresh.min_notional@, closing_price(at, bid, ask), dust@));
            if at.remaining.lt(&dust) {
                return exec_closed();
            }
            match find_limit_price(&at, &fresh, bid, ask) {
                None => exec_failed(FlattenError::Overflow),
                Some(price) => FlattenState::LimitSent { at, fresh, price },
            }
        },
    }
}

/// The size of an amount, on either side.
pub open spec fn size_of_amount(qty: Dec) -> int {
    if qty@ < 0 {
        -qty@
    } else {
        qty@
    }
}

/// What a position that is there says of closing it: control is lost where it is more than one and a
/// half times as large as at first, and not otherwise.
pub open spec fn multiple_told(first: int, size: int, r: FlattenState) -> bool {
    first > 0 ==> r == failed(FlattenError::Overflow) || exists|m: int| #[trigger]
        rounds_to(size * one(), first, m) && (r == failed(FlattenError::ControlLost) <==> m
            > 15_000_000_000_000_000_000_000_000_000)
}

/// The steps to a growth in percent.
pub open spec fn grows_by(first: int, size: int, d: int, q: int, g: int) -> bool {
    rounds_to(size - first, 1, d) && rounds_to(d * one(), first, q) && rounds_to(q * 100, 1, g)
}

/// What is counted of a position that grew while it was closed: once where it is larger than at the
/// last look or at first, and by more than ten percent of what it was at first.
pub open spec fn growth_told(at: Attempt, qty: Dec, events: int) -> bool {
    let first = size_of_amount(at.closing.initial_qty);
    let last = size_of_amount(at.current_qty);
    let size = size_of_amount(qty);
    &&& size <= last && size <= first ==> events == at.closing.growth_events
    &&& first > 0 && (size > last || size > first) ==> exists|d: int, q: int, g: int| #[trigger]
        grows_by(first, size, d, q, g) && events == at.closing.growth_events + (if g > 10 * one() {
            1int
        } else {
            0
        })
}

/// What the size of a position says of the step that follows.
pub open spec fn sizes_told(s: FlattenState, e: FlattenEvent, r: FlattenState) -> bool {
    match (s, e) {
        (FlattenState::NeedPosition { closing, .. }, FlattenEvent::Position { qty }) =>
            multiple_told(size_of_amount(closing.initial_qty), size_of_amount(qty), r),
        (FlattenState::Verifying { at }, FlattenEvent::Position { qty }) => qty@ != 0 ==> {
            &&& multiple_told(size_of_amount(at.closing.initial_qty), size_of_amount(qty), r)
            &&& r matches FlattenState::NeedPosition { closing, .. } ==> growth_told(
                at,
                qty,
                closing.growth_events as int,
            )
        },
        _ => true,
    }
}

/// Control is lost only of a position that is more than one and a half times as large as at first,
/// and of every one that is more than 1.55 times as large. A growth is counted only of one that is
/// more than a tenth larger than at first, and of every one that is eleven hundredths larger.
pub proof fn law_growth(mode: FlattenMode, at: Attempt, qty: Dec, next: FlattenState)
    requires
        sizes_told(FlattenState::Verifying { at }, FlattenEvent::Position { qty }, next),
        qty@ != 0,
        at.closing.initial_qty@ != 0,
        next != failed(FlattenError::Overflow),
    ensures
        ({
            let first = size_of_amount(at.closing.initial_qty);
            let size = size_of_amount(qty);
            &&& next == failed(FlattenError::ControlLost) ==> 2 * size > 3 * first
            &&& 100 * size >= 155 * first ==> next == failed(FlattenError::ControlLost)
            &&& next matches FlattenState::NeedPosition { closing, .. } ==> (can_be_held(
                size - first,
            ) ==> {
                let more = closing.growth_events - at.closing.growth_events;
                &&& more == 0 || more == 1
                &&& more == 1 ==> 10 * (size - first) > first
                &&& 100 * (size - first) >= 11 * first ==> more == 1
            })
        }),
{
    lemma_powers();
    lemma_zero_and_one();
    let first = size_of_amount(at.closing.initial_qty);
    let size = size_of_amount(qty);
    let m = choose|m: int| #[trigger]
        rounds_to(size * one(), first, m) && (next == failed(FlattenError::ControlLost) <==> m
            > 15_000_000_000_000_000_000_000_000_000);
    lemma_exact(15, 1, 1);
    lemma_exact(155, 2, 1);
    if 2 * size <= 3 * first {
        assert(size * one() <= 15_000_000_000_000_000_000_000_000_000 * first);
        law_rounding_below(size * one(), first, m, 15_000_000_000_000_000_000_000_000_000);
    }
    if 100 * size >= 155 * first {
        assert(15_500_000_000_000_000_000_000_000_000 * first <= size * one());
        law_rounding_above(size * one(), first, m, 15_500_000_000_000_000_000_000_000_000);
    }
    if next is NeedPosition && can_be_held(size - first) {
        let last = size_of_amount(at.current_qty);
        if size > last || size > first {
            let events = next->closing.growth_events as int;
            let (d, q, g) = choose|d: int, q: int, g: int| #[trigger]
                grows_by(first, size, d, q, g) && events == at.closing.growth_events + (if g > 10
                    * one() {
                    1int
                } else {
                    0
                });
            law_exact_is_kept(size - first, 1, d, size - first);
            lemma_exact(1, 1, 1);
            lemma_exact(11, 2, 1);
            lemma_exact(10, 0, 1);
            lemma_exact(11, 0, 1);
            if 10 * (size - first) <= first {
                assert(d * one() <= 1_000_000_000_000_000_000_000_000_000 * first);
                law_rounding_below(
                    d * one(),
                    first,
                    q,
                    1_000_000_000_000_000_000_000_000_000,
                );
                law_rounding_below(q * 100, 1, g, 10 * one());
            }
            if 100 * (size - first) >= 11 * first {
                assert(1_100_000_000_000_000_000_000_000_000 * first <= d * one());
                law_rounding_above(
                    d * one(),
                    first,
                    q,
                    1_100_000_000_000_000_000_000_000_000,
                );
                law_rounding_above(q * 100, 1, g, 11 * one());
            }
        }
    }
}

/// The attempt that a state belongs to.
pub open spec fn closing_of(s: FlattenState) -> Option<Closing> {
    match s {
        FlattenState::NeedPosition { closing, .. } => Some(closing),
        FlattenState::MarketSent { at } => Some(at.closing),
        FlattenState::Verifying { at } => Some(at.closing),
        FlattenState::RefreshingRules { at } => Some(at.closing),
        FlattenState::NeedPrices { at, .. } => Some(at.closing),
        FlattenState::LimitSent { at, .. } => Some(at.closing),
        _ => None,
    }
}

/// No more than the allowed attempts were made, and the position grew at most
/// once in each.
pub open spec fn within_limits(s: FlattenState) -> bool {
    match closing_of(s) {
        Some(c) => c.growth_events <= c.attempt < MAX_CLOSE_ATTEMPTS,
        None => true,
    }
}

/// What follows from how the outside work of a state went.
pub fn flatten_step(mode: FlattenMode, state: FlattenState, event: FlattenEvent) -> (r:
    FlattenState)
    requires
        within_limits(state),
        answers(state, event),
    ensures
        r == flatten_next(mode, state, event),
        within_limits(r),
        sizes_told(state, event, r),
        rests_told(state, event, r),
{
    proof {
        law_limits_are_kept(mode, state, event);
    }
    match (state, event) {
        (FlattenState::Start, FlattenEvent::Position { qty }) => if qty.is_zero() {
            exec_closed()
        } else {
            FlattenState::NeedRules { initial_qty: qty }
        },
        (FlattenState::Start, FlattenEvent::PositionMissing) => exec_closed(),
        (FlattenState::Start, _) => exec_failed(FlattenError::PositionUnavailable),
        (FlattenState::NeedRules { initial_qty }, FlattenEvent::Rules { rules }) =>
            step_after_rules(initial_qty, rules),
        (FlattenState::NeedRules { .. }, _) => exec_failed(FlattenError::RulesUnavailable),
        (FlattenState::NeedPosition { closing, .. }, FlattenEvent::Position { qty }) =>
            step_after_position(closing, qty),
        (FlattenState::NeedPosition { .. }, FlattenEvent::PositionMissing) => exec_closed(),
        (FlattenState::NeedPosition { .. }, _) => exec_failed(FlattenError::PositionUnavailable),
        (FlattenState::MarketSent { at }, FlattenEvent::OrderAccepted) =>
            FlattenState::Verifying { at },
        (FlattenState::MarketSent { .. }, FlattenEvent::OrderRefusedClosed) => exec_closed(),
        (FlattenState::MarketSent { at }, FlattenEvent::OrderRefusedMinNotional) =>
            step_after_failed_order(mode, at, true),
        (FlattenState::MarketSent { at }, _) => step_after_failed_order(mode, at, false),
        (FlattenState::Verifying { at }, FlattenEvent::Position { qty }) =>
            step_after_verification(at, qty),
        (FlattenState::Verifying { .. }, _) => exec_failed(FlattenError::PositionUnavailable),
        (FlattenState::RefreshingRules { at }, FlattenEvent::Rules { rules }) =>
            FlattenState::NeedPrices { at, fresh: rules },
        (FlattenState::RefreshingRules { at }, _) => FlattenState::NeedPrices {
            at,
            fresh: at.closing.rules,
        },
        (FlattenState::NeedPrices { at, fresh }, FlattenEvent::Prices { bid, ask }) =>
            step_after_prices(at, fresh, bid, ask),
        (FlattenState::NeedPrices { at, fresh }, _) => step_after_no_prices(at, fresh),
        (FlattenState::LimitSent { .. }, FlattenEvent::OrderAccepted) => exec_closed(),
        (FlattenState::LimitSent { at, .. }, _) => if at.closing.attempt + 1
            < MAX_CLOSE_ATTEMPTS {
            exec_failed(FlattenError::LimitFallbackFailed)
        } else {
            exec_failed(FlattenError::Unexpected)
        },
        (FlattenState::Finished { .. }, _) => state,
    }
}

/// A closing never makes more than the allowed attempts, and within them it never
/// stops for growth alone.
pub proof fn law_limits_are_kept(mode: FlattenMode, s: FlattenState, e: FlattenEvent)
    requires
        within_limits(s),
        answers(s, e),
    ensures
        within_limits(flatten_next(mode, s, e)),
        flatten_next(mode, s, e) != failed(FlattenError::GrowthAbort),
{
}

/// How far a closing is from its end.
pub open spec fn steps_left(s: FlattenState) -> int {
    match s {
        FlattenState::Start => 22,
        FlattenState::NeedRules { .. } => 21,
        FlattenState::NeedPosition { closing, .. } => (MAX_CLOSE_ATTEMPTS - closing.attempt) * 6
            + 1,
        FlattenState::MarketSent { at } => (MAX_CLOSE_ATTEMPTS - at.closing.attempt) * 6,
        FlattenState::Verifying { at } => (MAX_CLOSE_ATTEMPTS - at.closing.attempt) * 6 - 1,
        FlattenState::RefreshingRules { at } => (MAX_CLOSE_ATTEMPTS - at.closing.attempt) * 6 - 1,
        FlattenState::NeedPrices { at, .. } => (MAX_CLOSE_ATTEMPTS - at.closing.attempt) * 6 - 2,
        FlattenState::LimitSent { at, .. } => (MAX_CLOSE_ATTEMPTS - at.closing.attempt) * 6 - 3,
        FlattenState::Finished { .. } => 0,
    }
}

/// Every step brings a closing nearer to its end: it ends after 22 steps at most,
/// whatever the exchange answers.
pub proof fn law_closing_ends(mode: FlattenMode, s: FlattenState, e: FlattenEvent)
    requires
        within_limits(s),
        answers(s, e),
    ensures
        0 <= steps_left(flatten_next(mode, s, e)) < steps_left(s) <= 22,
{
}

/// A limit order is tried once at most: whatever becomes of it, the closing ends.
pub proof fn law_one_limit_order(mode: FlattenMode, s: FlattenState, e: FlattenEvent)
    requires
        s is LimitSent,
        answers(s, e),
    ensures
        flatten_next(mode, s, e) is Finished,
{
}

/// Where only market orders may be sent, no limit order is.
pub proof fn law_market_only(mode: FlattenMode, s: FlattenState, e: FlattenEvent)
    requires
        mode.use_market_only,
        answers(s, e),
        !(s is RefreshingRules || s is NeedPrices || s is LimitSent),
    ensures
        !(flatten_next(mode, s, e) is RefreshingRules || flatten_next(mode, s, e) is NeedPrices
            || flatten_next(mode, s, e) is LimitSent),
{
}

/// An order is sent only for a position that is not more than one and a half
/// times what it was at first, and for what the step of the symbol leaves of it.
pub proof fn law_orders_are_for_what_is_there(
    mode: FlattenMode,
    s: FlattenState,
    e: FlattenEvent,
)
    requires
        answers(s, e),
        flatten_next(mode, s, e) is MarketSent,
    ensures
        ({
            let at = flatten_next(mode, s, e)->MarketSent_at;
            &&& e == FlattenEvent::Position { qty: at.current_qty }
            &&& at.current_qty@ != 0
            &&& at.remaining@ > 0
            &&& quantized(abs_of(at.current_qty), at.closing.rules.step_size) == Some(
                at.remaining,
            )
            &&& growth(at.current_qty, at.closing.initial_qty) matches Some(m) && m@ <= dec_of(
                15,
                1,
            )@
        }),
{
}

/// A closing ends as closed only where nothing is left that could be closed: no position is
/// found, or none that a step of the symbol leaves something of; the exchange says that it is
/// closed; the rest is worth too little, at a hundredth for each unit where there is no price;
/// or the limit order for it was accepted.
pub proof fn law_closed_means_nothing_is_left(
    mode: FlattenMode,
    s: FlattenState,
    e: FlattenEvent,
)
    requires
        answers(s, e),
        flatten_next(mode, s, e) is Finished,
    ensures
        flatten_next(mode, s, e)->outcome is Closed <==> match s {
            FlattenState::Start => match e {
                FlattenEvent::Position { qty } => qty@ == 0,
                _ => e is PositionMissing,
            },
            FlattenState::NeedRules { initial_qty } => e matches FlattenEvent::Rules { rules }
                && quantized(abs_of(initial_qty), rules.step_size) matches Some(q) && q@ <= 0,
            FlattenState::NeedPosition { closing, .. } => match e {
                FlattenEvent::Position { qty } => {
                    &&& quotient(abs_of(qty), abs_of(closing.initial_qty)) matches Some(m) && 2
                        * m@ <= 3 * one()
                    &&& qty@ == 0 || (quantized(abs_of(qty), closing.rules.step_size) matches Some(
                        q,
                    ) && q@ <= 0)
                },
                _ => e is PositionMissing,
            },
            FlattenState::MarketSent { .. } => e is OrderRefusedClosed,
            FlattenState::Verifying { .. } => e matches FlattenEvent::Position { qty } && qty@ == 0,
            FlattenState::RefreshingRules { .. } => false,
            FlattenState::NeedPrices { at, fresh } => {
                let price = match e {
                    FlattenEvent::Prices { bid, ask } => if at.current_qty@ < 0 {
                        ask.0
                    } else {
                        bid.0
                    },
                    _ => dec_of(1, 2),
                };
                quotient(
                    fresh.min_notional,
                    if price@ == 0 {
                        dec_of(1, 2)
                    } else {
                        price
                    },
                ) matches Some(dust) && at.remaining@ < dust@
            },
            FlattenState::LimitSent { .. } => e is OrderAccepted,
            FlattenState::Finished { .. } => false,
        },
{
    lemma_powers();
    lemma_value(15, 1);
    lemma_value(1, 2);
}

/// What a closing goes on with. After rules and before each attempt the position is looked
/// at; an order that was accepted is verified; anything that is then left is tried again with
/// the next attempt, three in all, at once; an order that failed is tried again after half a
/// second.
pub proof fn law_how_a_closing_goes_on(mode: FlattenMode, s: FlattenState, e: FlattenEvent)
    requires
        answers(s, e),
        within_limits(s),
        !(flatten_next(mode, s, e) is Finished),
    ensures
        ({
            let next = flatten_next(mode, s, e);
            match s {
                FlattenState::Start => e matches FlattenEvent::Position { qty } && next == (
                FlattenState::NeedRules { initial_qty: qty }),
                FlattenState::NeedRules { initial_qty } => e matches FlattenEvent::Rules { rules }
                    && next matches FlattenState::NeedPosition { closing, pause_ms } && {
                    &&& pause_ms == 0
                    &&& closing.initial_qty == initial_qty
                    &&& closing.rules == rules
                    &&& closing.attempt == 0
                    &&& closing.growth_events == 0
                },
                FlattenState::NeedPosition { closing, .. } => e matches FlattenEvent::Position {
                    qty,
                } && next matches FlattenState::MarketSent { at } && at.closing == closing
                    && at.current_qty == qty && at.remaining@ > 0,
                FlattenState::MarketSent { at } => if e is OrderAccepted {
                    next == (FlattenState::Verifying { at })
                } else if e is OrderRefusedMinNotional && !mode.use_market_only {
                    next == (FlattenState::RefreshingRules { at })
                } else {
                    next matches FlattenState::NeedPosition { closing, pause_ms } && {
                        &&& pause_ms == 500
                        &&& closing.attempt == at.closing.attempt + 1
                        &&& closing.attempt < 3
                        &&& closing.initial_qty == at.closing.initial_qty
                        &&& closing.rules == at.closing.rules
                        &&& closing.growth_events == at.closing.growth_events
                    }
                },
                FlattenState::Verifying { at } => next matches FlattenState::NeedPosition {
                    closing,
                    pause_ms,
                } && {
                    &&& pause_ms == 0
                    &&& closing.attempt == at.closing.attempt + 1
                    &&& closing.attempt < 3
                    &&& closing.initial_qty == at.closing.initial_qty
                    &&& closing.rules == at.closing.rules
                    &&& at.closing.growth_events <= closing.growth_events
                        <= at.closing.growth_events + 1
                },
                FlattenState::RefreshingRules { at } => next == (FlattenState::NeedPrices {
                    at,
                    fresh: match e {
                        FlattenEvent::Rules { rules } => rules,
                        _ => at.closing.rules,
                    },
                }),
                FlattenState::NeedPrices { at, fresh } => next matches FlattenState::LimitSent {
                    at: then,
                    fresh: with,
                    price,
                } && {
                    &&& then == at
                    &&& with == fresh
                    &&& e is Prices
                    &&& if at.current_qty@ < 0 {
                        sum(e->bid.0, fresh.tick_size) matches Some(raw) && quantized(
                            raw,
                            fresh.tick_size,
                        ) == Some(price)
                    } else {
                        difference(e->ask.0, fresh.tick_size) matches Some(raw) && quantized(
                            raw,
                            fresh.tick_size,
                        ) == Some(price)
                    }
                },
                _ => false,
            }
        }),
{
}

/// What is left after an attempt is tried again while an attempt is left and the position is
/// not out of hand; it is out of hand above one and a half times what it was at first.
pub proof fn law_when_a_closing_is_given_up(
    mode: FlattenMode,
    at: Attempt,
    qty: Dec,
    multiple: Dec,
)
    requires
        within_limits(FlattenState::Verifying { at }),
        qty@ != 0,
        quotient(abs_of(qty), abs_of(at.closing.initial_qty)) == Some(multiple),
        abs_of(qty)@ <= abs_of(at.current_qty)@,
        abs_of(qty)@ <= abs_of(at.closing.initial_qty)@,
    ensures
        ({
            let next = flatten_next(
                mode,
                FlattenState::Verifying { at },
                FlattenEvent::Position { qty },
            );
            if 2 * multiple@ > 3 * one() {
                next == failed(FlattenError::ControlLost)
            } else if at.closing.attempt == 2 {
                next == failed(FlattenError::NotFullyClosed)
            } else {
                next matches FlattenState::NeedPosition { closing, pause_ms } && closing
                    == (Closing { attempt: (at.closing.attempt + 1) as u32, ..at.closing })
                    && pause_ms == 0
            }
        }),
{
    lemma_powers();
    lemma_value(15, 1);
}

/// An order that closes a position.
#[derive(Debug)]
pub struct CloseOrder {
    pub side: Side,
    pub qty_text: String,
    /// The side of the position in hedge mode, long or not.
    pub position_side: Option<bool>,
    /// The price of a limit order; none for a market order.
    pub limit_price: Option<String>,
}

/// What has to be done next.
#[derive(Debug)]
pub enum FlattenAction {
    FetchPosition { pause_ms: u64 },
    FetchRules,
    SendOrder { order: CloseOrder },
    /// Forget the rules of the symbol and fetch them again.
    RefreshRules,
    FetchPrices,
    Finish { outcome: FlattenOutcome },
}

/// `order` closes what the attempt found, with a limit where a price is given.
pub open spec fn closes(
    order: CloseOrder,
    mode: FlattenMode,
    at: Attempt,
    limit: Option<(SymbolRules, Dec)>,
) -> bool {
    &&& order.side == closing_side(at.current_qty)
    &&& order.qty_text@ == fixed_text(
        at.remaining,
        effective_precision(at.closing.rules.step_size, at.closing.rules.qty_precision),
    )
    &&& order.position_side == if mode.hedge_mode {
        Some(at.current_qty@ >= 0)
    } else {
        None
    }
    &&& match limit {
        Some((fresh, price)) => order.limit_price matches Some(t) && t@ == fixed_text(
            price,
            effective_precision(fresh.tick_size, fresh.price_precision),
        ),
        None => order.limit_price is None,
    }
}

fn close_order(mode: FlattenMode, at: &Attempt, limit_price: Option<String>) -> (r: CloseOrder)
    ensures
        closes(
            CloseOrder {
                side: r.side,
                qty_text: r.qty_text,
                position_side: r.position_side,
                limit_price: None,
            },
            mode,
            *at,
            None,
        ),
        r.limit_price == limit_price,
{
    let precision = written_precision(
        at.closing.rules.step_size,
        at.closing.rules.qty_precision,
    );
    CloseOrder {
        side: side_to_close(at.current_qty),
        qty_text: format_decimal_fixed(at.remaining, precision),
        position_side: if mode.hedge_mode {
            Some(!at.current_qty.is_sign_negative())
        } else {
            None
        },
        limit_price,
    }
}

/// What has to be done next.
pub fn flatten_action(mode: FlattenMode, state: &FlattenState) -> (r: FlattenAction)
    ensures
        match *state {
            FlattenState::Start => r == (FlattenAction::FetchPosition { pause_ms: 0 }),
            FlattenState::NeedRules { .. } => r == FlattenAction::FetchRules,
            FlattenState::NeedPosition { pause_ms, .. } => r == (FlattenAction::FetchPosition {
                pause_ms,
            }),
            FlattenState::MarketSent { at } => r matches FlattenAction::SendOrder { order }
                && closes(order, mode, at, None),
            FlattenState::Verifying { .. } => r == (FlattenAction::FetchPosition {
                pause_ms: VERIFY_PAUSE_MS,
            }),
            FlattenState::RefreshingRules { .. } => r == FlattenAction::RefreshRules,
            FlattenState::NeedPrices { .. } => r == FlattenAction::FetchPrices,
            FlattenState::LimitSent { at, fresh, price } => r matches FlattenAction::SendOrder {
                order,
            } && closes(order, mode, at, Some((fresh, price))),
            FlattenState::Finished { outcome } => r == (FlattenAction::Finish { outcome }),
        },
{
    match state {
        FlattenState::Start => FlattenAction::FetchPosition { pause_ms: 0 },
        FlattenState::NeedRules { .. } => FlattenAction::FetchRules,
        FlattenState::NeedPosition { pause_ms, .. } => FlattenAction::FetchPosition {
            pause_ms: *pause_ms,
        },
        FlattenState::MarketSent { at } => FlattenAction::SendOrder {
            order: close_order(mode, at, None),
        },
        FlattenState::Verifying { .. } => FlattenAction::FetchPosition {
            pause_ms: VERIFY_PAUSE_MS,
        },
        FlattenState::RefreshingRules { .. } => FlattenAction::RefreshRules,
        FlattenState::NeedPrices { .. } => FlattenAction::FetchPrices,
        FlattenState::LimitSent { at, fresh, price } => {
            let precision = written_precision(fresh.tick_size, fresh.price_precision);
            let text = format_decimal_fixed(*price, precision);
            FlattenAction::SendOrder { order: close_order(mode, at, Some(text)) }
        },
        FlattenState::Finished { outcome } => FlattenAction::Finish { outcome: *outcome },
    }
}

/// The word of the exchange for the side of an order.
pub open spec fn order_side_word(side: Side) -> Seq<char> {
    match side {
        Side::Buy => "BUY"@,
        Side::Sell => "SELL"@,
    }
}

/// The parameters of an order that closes a position.
pub open spec fn close_order_pairs(
    order: CloseOrder,
    symbol: Seq<char>,
    timestamp: nat,
    recv_window_ms: nat,
) -> Seq<(Seq<char>, Seq<char>)> {
    let head = seq![("symbol"@, symbol), ("side"@, order_side_word(order.side))];
    let kind = match order.limit_price {
        Some(p) => head.push(("type"@, "LIMIT"@)).push(("timeInForce"@, "GTC"@)).push(
            ("price"@, p@),
        ),
        None => head.push(("type"@, "MARKET"@)),
    };
    let p = clocked(
        kind.push(("quantity"@, order.qty_text@)).push(("reduceOnly"@, "true"@)),
        timestamp,
        recv_window_ms,
    );
    match order.position_side {
        Some(long) => p.push(("positionSide"@, hedge_word(long))),
        None => p,
    }
}

/// The parameters of an order that closes a position. It can only reduce it.
pub fn close_order_params(
    order: &CloseOrder,
    symbol: &str,
    timestamp: u64,
    recv_window_ms: u64,
) -> (r: Vec<(String, String)>)
    ensures
        pairs(r@) == close_order_pairs(
            *order,
            symbol@,
            timestamp as nat,
            recv_window_ms as nat,
        ),
        pairs(r@).contains(("reduceOnly"@, "true"@)),
{
    let mut v: Vec<(String, String)> = Vec::new();
    assert(pairs(v@) =~= Seq::<(Seq<char>, Seq<char>)>::empty());
    push_param(&mut v, "symbol", symbol);
    match order.side {
        Side::Buy => push_param(&mut v, "side", "BUY"),
        Side::Sell => push_param(&mut v, "side", "SELL"),
    }
    assert(pairs(v@) =~= seq![("symbol"@, symbol@), ("side"@, order_side_word(order.side))]);
    match &order.limit_price {
        Some(p) => {
            push_param(&mut v, "type", "LIMIT");
            push_param(&mut v, "timeInForce", "GTC");
            push_param(&mut v, "price", p.as_str());
        },
        None => {
            push_param(&mut v, "type", "MARKET");
        },
    }
    push_param(&mut v, "quantity", order.qty_text.as_str());
    let ghost at = pairs(v@).len();
    push_param(&mut v, "reduceOnly", "true");
    assert(pairs(v@)[at as int] == ("reduceOnly"@, "true"@));
    push_clock(&mut v, timestamp, recv_window_ms);
    if let Some(long) = order.position_side {
        if long {
            push_param(&mut v, "positionSide", "LONG");
        } else {
            push_param(&mut v, "positionSide", "SHORT");
        }
    }
    assert(pairs(v@)[at as int] == ("reduceOnly"@, "true"@));
    v
}

} // verus!
