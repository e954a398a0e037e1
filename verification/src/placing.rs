//! Placing a limit order.
//!
//! An order is sent four times at most. Before it is sent again, the exchange is
//! asked whether it has the order already, so that none is placed twice. Where the
//! exchange says that the order broke a rule of the symbol, the rules are forgotten;
//! while attempts are left they are fetched again and the order is rounded anew.
//!
//! [`PlaceState`] says where a placement stands and what has to be done next,
//! [`place_step`] what follows from how that went.
use vstd::prelude::*;

use crate::api_errors::{
    breach_of, exponential_backoff, is_permanent_error, is_transient_error, permanent, power,
    rule_breach, transient, RuleBreach,
};
use crate::connection::push_param;
use crate::decimal::Dec;
use crate::flatten::order_side_word;
use crate::quant::{fixed_text, format_decimal_fixed};
use crate::query::{clocked, push_clock};
use crate::rules::{
    effective_precision, hedge_word, order_numbers, validate_and_format_order_params,
    written_precision, OrderParamError, SymbolRules,
};
use crate::signing::pairs;
use crate::text::{chars_of, copy_of, nat_text, u64_text};
use crate::types::{Px, Qty, Side, Tif};

verus! {

/// How often an order may be sent again.
pub const MAX_RETRIES: u32 = 3;

/// The first pause before an order is sent again, in milliseconds.
pub const INITIAL_BACKOFF_MS: u64 = 100;

/// The longest client order id, in bytes.
pub const MAX_CLIENT_ID_LEN: usize = 36;

/// What std holds for a letter or a digit.
pub uninterp spec fn alphanumeric(c: char) -> bool;

/// A letter or a digit of ASCII.
pub open spec fn ascii_alphanumeric(c: char) -> bool {
    ('0' <= c && c <= '9') || ('A' <= c && c <= 'Z') || ('a' <= c && c <= 'z')
}

/// `char::is_alphanumeric` of std, which follows the tables of Unicode; of ASCII
/// it holds for letters and digits.
pub assume_specification[ char::is_alphanumeric ](c: char) -> (r: bool)
    ensures
        r == alphanumeric(c),
        (c as int) < 128 ==> r == ascii_alphanumeric(c),
;

/// A client order id that the exchange accepts.
pub open spec fn valid_client_id(id: Seq<char>) -> bool {
    &&& id.len() > 0
    &&& vstd::utf8::encode_utf8(id).len() <= MAX_CLIENT_ID_LEN
    &&& forall|i: int|
        0 <= i < id.len() ==> alphanumeric(#[trigger] id[i]) || id[i] == '-' || id[i] == '_'
}

/// Whether the exchange accepts a client order id.
pub fn is_valid_client_id(id: &str) -> (r: bool)
    ensures
        r == valid_client_id(id@),
{
    if id.is_empty() || id.as_bytes().len() > MAX_CLIENT_ID_LEN {
        return false;
    }
    let v = chars_of(id);
    let mut i: usize = 0;
    while i < v.len()
        invariant
            i <= v.len(),
            v@ == id@,
            forall|k: int|
                0 <= k < i ==> alphanumeric(#[trigger] id@[k]) || id@[k] == '-' || id@[k] == '_',
        decreases v.len() - i,
    {
        let c = v[i];
        if !(c.is_alphanumeric() || c == '-' || c == '_') {
            assert(!(alphanumeric(id@[i as int]) || id@[i as int] == '-' || id@[i as int]
                == '_'));
            return false;
        }
        i += 1;
    }
    true
}

/// The id that an order keeps over all attempts: the one given, or the time.
pub fn base_client_id(client_order_id: &str, timestamp: u64) -> (r: String)
    ensures
        r@ == if client_order_id@.len() > 0 {
            client_order_id@
        } else {
            nat_text(timestamp as nat)
        },
{
    if !client_order_id.is_empty() {
        copy_of(client_order_id)
    } else {
        u64_text(timestamp)
    }
}

/// The id of an attempt.
pub open spec fn attempt_id(base: Seq<char>, attempt: u32, timestamp: nat) -> Seq<char> {
    if attempt == 0 {
        base
    } else {
        base + "-"@ + nat_text(timestamp) + "-"@ + nat_text(timestamp % 1_000_000)
    }
}

/// The id of an attempt: the base, and for later attempts the time behind it.
pub fn attempt_client_id(base: &str, attempt: u32, timestamp: u64) -> (r: String)
    ensures
        r@ == attempt_id(base@, attempt, timestamp as nat),
{
    let mut id = copy_of(base);
    if attempt > 0 {
        let t = u64_text(timestamp);
        let s = u64_text(timestamp % 1_000_000);
        id.append("-");
        id.append(t.as_str());
        id.append("-");
        id.append(s.as_str());
    }
    id
}

/// The word of the exchange for how long an order rests.
pub open spec fn tif_word(tif: Tif) -> Seq<char> {
    match tif {
        Tif::PostOnly => "GTX"@,
        Tif::Gtc => "GTC"@,
        Tif::Ioc => "IOC"@,
    }
}

pub fn tif_text(tif: Tif) -> (r: &'static str)
    ensures
        r@ == tif_word(tif),
{
    match tif {
        Tif::PostOnly => "GTX",
        Tif::Gtc => "GTC",
        Tif::Ioc => "IOC",
    }
}

/// The parameters of a limit order.
pub open spec fn limit_order_pairs(
    symbol: Seq<char>,
    side: Side,
    tif: Tif,
    price: Seq<char>,
    qty: Seq<char>,
    client_id: Seq<char>,
    hedge_mode: bool,
    timestamp: nat,
    recv_window_ms: nat,
) -> Seq<(Seq<char>, Seq<char>)> {
    let head = clocked(
        seq![
            ("symbol"@, symbol),
            ("side"@, order_side_word(side)),
            ("type"@, "LIMIT"@),
            ("timeInForce"@, tif_word(tif)),
            ("price"@, price),
            ("quantity"@, qty),
        ],
        timestamp,
        recv_window_ms,
    ).push(("newOrderRespType"@, "RESULT"@));
    let sided = if hedge_mode {
        head.push(("positionSide"@, hedge_word(side == Side::Buy)))
    } else {
        head
    };
    if valid_client_id(client_id) {
        sided.push(("newClientOrderId"@, client_id))
    } else {
        sided
    }
}

/// The parameters of a limit order. A client order id that the exchange would not
/// accept is left out.
pub fn limit_order_params(
    symbol: &str,
    side: Side,
    tif: Tif,
    price: &str,
    qty: &str,
    client_id: &str,
    hedge_mode: bool,
    timestamp: u64,
    recv_window_ms: u64,
) -> (r: Vec<(String, String)>)
    ensures
        pairs(r@) == limit_order_pairs(
            symbol@,
            side,
            tif,
            price@,
            qty@,
            client_id@,
            hedge_mode,
            timestamp as nat,
            recv_window_ms as nat,
        ),
{
    let mut v: Vec<(String, String)> = Vec::new();
    assert(pairs(v@) =~= Seq::<(Seq<char>, Seq<char>)>::empty());
    push_param(&mut v, "symbol", symbol);
    match side {
        Side::Buy => push_param(&mut v, "side", "BUY"),
        Side::Sell => push_param(&mut v, "side", "SELL"),
    }
    push_param(&mut v, "type", "LIMIT");
    push_param(&mut v, "timeInForce", tif_text(tif));
    push_param(&mut v, "price", price);
    push_param(&mut v, "quantity", qty);
    assert(pairs(v@) =~= seq![
        ("symbol"@, symbol@),
        ("side"@, order_side_word(side)),
        ("type"@, "LIMIT"@),
        ("timeInForce"@, tif_word(tif)),
        ("price"@, price@),
        ("quantity"@, qty@),
    ]);
    push_clock(&mut v, timestamp, recv_window_ms);
    push_param(&mut v, "newOrderRespType", "RESULT");
    if hedge_mode {
        match side {
            Side::Buy => push_param(&mut v, "positionSide", "LONG"),
            Side::Sell => push_param(&mut v, "positionSide", "SHORT"),
        }
    }
    if is_valid_client_id(client_id) {
        push_param(&mut v, "newClientOrderId", client_id);
    }
    v
}

/// Why an order was not placed.
#[derive(Clone, Copy, Debug, PartialEq, Eq, Structural)]
pub enum PlaceError {
    RulesUnavailable,
    /// The order cannot be rounded to the rules.
    Invalid(OrderParamError),
    /// The order broke a rule, and the rules could not be fetched again.
    RefreshFailed(RuleBreach),
    /// The order broke a rule, and cannot be rounded to the rules fetched again.
    InvalidAfterRefresh(RuleBreach),
    /// The last attempt broke a rule.
    RuleBroken(RuleBreach),
    Permanent,
    Refused,
    BadAnswer,
    Network,
}

#[derive(Clone, Debug, PartialEq, Eq)]
pub enum PlaceOutcome {
    /// The ids of the order that the exchange has: its own, and the client's where it told one.
    Placed { order_id: u64, client_order_id: Option<String> },
    Failed(PlaceError),
}

/// An order rounded to the rules, and the precision with which it is written.
#[derive(Clone, Copy, Debug)]
pub struct RoundedOrder {
    pub price: Dec,
    pub qty: Dec,
    pub price_precision: usize,
    pub qty_precision: usize,
}

/// Where a placement stands.
#[derive(Clone, Debug)]
pub enum PlaceState {
    /// The rules of the symbol are needed.
    NeedRules,
    /// After a pause the exchange is to be asked whether it has the order.
    Querying { attempt: u32, order: RoundedOrder, pause_ms: u64 },
    /// The order is to be sent.
    Sending { attempt: u32, order: RoundedOrder },
    /// The rules are to be forgotten and fetched again.
    RefreshingRules { attempt: u32, breach: RuleBreach },
    /// The rules are to be forgotten; no attempt is left.
    ForgettingRules { breach: RuleBreach },
    Finished { outcome: PlaceOutcome },
}

/// How outside work went.
#[derive(Debug)]
pub enum PlaceEvent {
    Rules { rules: SymbolRules },
    RulesFailed,
    RulesForgotten,
    OrderFound { order_id: u64, client_order_id: Option<String> },
    /// The exchange does not have the order, or could not be asked.
    OrderUnknown,
    Placed { order_id: u64, client_order_id: Option<String> },
    /// The order was accepted and the answer cannot be read.
    BadAnswer,
    Refused { status: u16, body: String },
    NetworkFailed,
}

/// The order to place.
#[derive(Clone, Copy, Debug)]
pub struct PlaceRequest {
    pub px: Px,
    pub qty: Qty,
}

pub open spec fn place_failed(e: PlaceError) -> PlaceState {
    PlaceState::Finished { outcome: PlaceOutcome::Failed(e) }
}

/// Whether an event answers what the state asked for.
pub open spec fn place_answers(s: PlaceState, e: PlaceEvent) -> bool {
    match s {
        PlaceState::NeedRules => e is Rules || e is RulesFailed,
        PlaceState::Querying { .. } => e is OrderFound || e is OrderUnknown,
        PlaceState::Sending { .. } => e is Placed || e is BadAnswer || e is Refused
            || e is NetworkFailed,
        PlaceState::RefreshingRules { .. } => e is Rules || e is RulesFailed,
        PlaceState::ForgettingRules { .. } => e is RulesForgotten,
        PlaceState::Finished { .. } => false,
    }
}

/// An order rounded to rules.
pub open spec fn rounded_order(px: Px, qty: Qty, rules: SymbolRules) -> Result<
    RoundedOrder,
    OrderParamError,
> {
    match order_numbers(px, qty, rules) {
        Ok((price, q)) => Ok(
            RoundedOrder {
                price,
                qty: q,
                price_precision: effective_precision(
                    rules.tick_size,
                    rules.price_precision,
                ) as usize,
                qty_precision: effective_precision(rules.step_size, rules.qty_precision) as usize,
            },
        ),
        Err(e) => Err(e),
    }
}

/// The pause after an attempt.
pub open spec fn pause_after(attempt: u32) -> u64 {
    (INITIAL_BACKOFF_MS * power(3, attempt as nat)) as u64
}

/// The next attempt, if there is one left.
pub open spec fn retry(attempt: u32, order: RoundedOrder, otherwise: PlaceError) -> PlaceState {
    if attempt < MAX_RETRIES {
        PlaceState::Querying {
            attempt: (attempt + 1) as u32,
            order,
            pause_ms: pause_after(attempt),
        }
    } else {
        place_failed(otherwise)
    }
}

/// From an order that was refused.
pub open spec fn after_refusal(
    attempt: u32,
    order: RoundedOrder,
    status: u16,
    body: Seq<char>,
) -> PlaceState {
    match breach_of(body) {
        Some(breach) => if attempt < MAX_RETRIES {
            PlaceState::RefreshingRules { attempt, breach }
        } else {
            PlaceState::ForgettingRules { breach }
        },
        None => if permanent(status, body) {
            place_failed(PlaceError::Permanent)
        } else if transient(status) {
            retry(attempt, order, PlaceError::Refused)
        } else {
            place_failed(PlaceError::Refused)
        },
    }
}

/// What follows from how the outside work of a state went.
pub open spec fn place_next(req: PlaceRequest, s: PlaceState, e: PlaceEvent) -> PlaceState {
    match (s, e) {
        (PlaceState::NeedRules, PlaceEvent::Rules { rules }) => match rounded_order(
            req.px,
            req.qty,
            rules,
        ) {
            Ok(order) => PlaceState::Sending { attempt: 0, order },
            Err(e) => place_failed(PlaceError::Invalid(e)),
        },
        (PlaceState::NeedRules, _) => place_failed(PlaceError::RulesUnavailable),
        (PlaceState::Querying { .. }, PlaceEvent::OrderFound { order_id, client_order_id }) =>
            PlaceState::Finished { outcome: PlaceOutcome::Placed { order_id, client_order_id } },
        (PlaceState::Querying { attempt, order, .. }, _) => PlaceState::Sending {
            attempt,
            order,
        },
        (PlaceState::Sending { .. }, PlaceEvent::Placed { order_id, client_order_id }) =>
            PlaceState::Finished { outcome: PlaceOutcome::Placed { order_id, client_order_id } },
        (PlaceState::Sending { attempt, order }, PlaceEvent::BadAnswer) => retry(
            attempt,
            order,
            PlaceError::BadAnswer,
        ),
        (PlaceState::Sending { attempt, order }, PlaceEvent::Refused { status, body }) =>
            after_refusal(attempt, order, status, body@),
        (PlaceState::Sending { attempt, order }, _) => retry(
            attempt,
            order,
            PlaceError::Network,
        ),
        (PlaceState::RefreshingRules { attempt, breach }, PlaceEvent::Rules { rules }) => {
            match rounded_order(req.px, req.qty, rules) {
                Ok(order) => retry(attempt, order, PlaceError::RuleBroken(breach)),
                Err(_) => place_failed(PlaceError::InvalidAfterRefresh(breach)),
            }
        },
        (PlaceState::RefreshingRules { breach, .. }, _) => place_failed(
            PlaceError::RefreshFailed(breach),
        ),
        (PlaceState::ForgettingRules { breach }, _) => place_failed(
            PlaceError::RuleBroken(breach),
        ),
        (PlaceState::Finished { .. }, _) => s,
    }
}

/// How often the order was sent before.
pub open spec fn attempts_before(s: PlaceState) -> int {
    match s {
        PlaceState::NeedRules => 0,
        PlaceState::Querying { attempt, .. } => attempt as int,
        PlaceState::Sending { attempt, .. } => attempt as int,
        PlaceState::RefreshingRules { attempt, .. } => attempt + 1,
        PlaceState::ForgettingRules { .. } => MAX_RETRIES + 1,
        PlaceState::Finished { .. } => 0,
    }
}

/// No more than the allowed attempts were made.
pub open spec fn place_within_limits(s: PlaceState) -> bool {
    match s {
        PlaceState::Querying { attempt, .. } => 0 < attempt <= MAX_RETRIES,
        PlaceState::Sending { attempt, .. } => attempt <= MAX_RETRIES,
        PlaceState::RefreshingRules { attempt, .. } => attempt < MAX_RETRIES,
        _ => true,
    }
}

fn exec_place_failed(e: PlaceError) -> (r: PlaceState)
    ensures
        r == place_failed(e),
{
    PlaceState::Finished { outcome: PlaceOutcome::Failed(e) }
}

fn exec_retry(attempt: u32, order: RoundedOrder, otherwise: PlaceError) -> (r: PlaceState)
    requires
        attempt <= MAX_RETRIES,
    ensures
        r == retry(attempt, order, otherwise),
{
    if attempt < MAX_RETRIES {
        proof {
            reveal_with_fuel(power, 4);
        }
        let pause_ms: u64 = exponential_backoff(attempt, INITIAL_BACKOFF_MS, 3);
        PlaceState::Querying { attempt: attempt + 1, order, pause_ms }
    } else {
        exec_place_failed(otherwise)
    }
}

fn round_order(px: Px, qty: Qty, rules: &SymbolRules) -> (r: Result<
    RoundedOrder,
    OrderParamError,
>)
    ensures
        r == rounded_order(px, qty, *rules),
{
    match validate_and_format_order_params(px, qty, rules) {
        Ok(o) => Ok(
            RoundedOrder {
                price: o.price,
                qty: o.qty,
                price_precision: written_precision(rules.tick_size, rules.price_precision),
                qty_precision: written_precision(rules.step_size, rules.qty_precision),
            },
        ),
        Err(e) => Err(e),
    }
}

fn step_after_refusal(attempt: u32, order: RoundedOrder, status: u16, body: &str) -> (r: PlaceState)
    requires
        attempt <= MAX_RETRIES,
    ensures
        r == after_refusal(attempt, order, status, body@),
{
    match rule_breach(body) {
        Some(breach) => if attempt < MAX_RETRIES {
            PlaceState::RefreshingRules { attempt, breach }
        } else {
            PlaceState::ForgettingRules { breach }
        },
        None => if is_permanent_error(status, body) {
            exec_place_failed(PlaceError::Permanent)
        } else if is_transient_error(status) {
            exec_retry(attempt, order, PlaceError::Refused)
        } else {
            exec_place_failed(PlaceError::Refused)
        },
    }
}

/// What follows from how the outside work of a state went.
pub fn place_step(req: PlaceRequest, state: PlaceState, event: PlaceEvent) -> (r: PlaceState)
    requires
        place_within_limits(state),
        place_answers(state, event),
    ensures
        r == place_next(req, state, event),
        place_within_limits(r),
{
    proof {
        law_sent_four_times_at_most(req, state, event);
    }
    match state {
        PlaceState::NeedRules => match event {
            PlaceEvent::Rules { rules } => match round_order(req.px, req.qty, &rules) {
                Ok(order) => PlaceState::Sending { attempt: 0, order },
                Err(e) => exec_place_failed(PlaceError::Invalid(e)),
            },
            _ => exec_place_failed(PlaceError::RulesUnavailable),
        },
        PlaceState::Querying { attempt, order, .. } => match event {
            PlaceEvent::OrderFound { order_id, client_order_id } => PlaceState::Finished {
                outcome: PlaceOutcome::Placed { order_id, client_order_id },
            },
            _ => PlaceState::Sending { attempt, order },
        },
        PlaceState::Sending { attempt, order } => match event {
            PlaceEvent::Placed { order_id, client_order_id } => PlaceState::Finished {
                outcome: PlaceOutcome::Placed { order_id, client_order_id },
            },
            PlaceEvent::BadAnswer => exec_retry(attempt, order, PlaceError::BadAnswer),
            PlaceEvent::Refused { status, body } => step_after_refusal(
                attempt,
                order,
                status,
                body.as_str(),
            ),
            _ => exec_retry(attempt, order, PlaceError::Network),
        },
        PlaceState::RefreshingRules { attempt, breach } => match event {
            PlaceEvent::Rules { rules } => match round_order(req.px, req.qty, &rules) {
                Ok(order) => exec_retry(attempt, order, PlaceError::RuleBroken(breach)),
                Err(_) => exec_place_failed(PlaceError::InvalidAfterRefresh(breach)),
            },
            _ => exec_place_failed(PlaceError::RefreshFailed(breach)),
        },
        PlaceState::ForgettingRules { breach } => exec_place_failed(
            PlaceError::RuleBroken(breach),
        ),
        PlaceState::Finished { outcome } => PlaceState::Finished { outcome },
    }
}

/// The price and the quantity of an order as they are sent.
pub fn order_texts(order: &RoundedOrder) -> (r: (String, String))
    ensures
        r.0@ == fixed_text(order.price, order.price_precision as nat),
        r.1@ == fixed_text(order.qty, order.qty_precision as nat),
{
    (
        format_decimal_fixed(order.price, order.price_precision),
        format_decimal_fixed(order.qty, order.qty_precision),
    )
}

/// The attempts are numbered from 0 to 3: an order is sent four times at most.
pub proof fn law_sent_four_times_at_most(req: PlaceRequest, s: PlaceState, e: PlaceEvent)
    requires
        place_within_limits(s),
        place_answers(s, e),
    ensures
        place_within_limits(place_next(req, s, e)),
        place_next(req, s, e) matches PlaceState::Sending { attempt, .. } ==> attempt
            == attempts_before(s) <= MAX_RETRIES,
{
}

/// An order is sent again only right after the exchange was asked for it and named none.
pub proof fn law_asked_before_sent_again(req: PlaceRequest, s: PlaceState, e: PlaceEvent)
    requires
        place_within_limits(s),
        place_answers(s, e),
        place_next(req, s, e) matches PlaceState::Sending { attempt, .. } && attempt > 0,
    ensures
        s is Querying,
        e is OrderUnknown,
{
}

/// An order that the exchange has is not sent again: its ids are returned as the
/// exchange told them.
pub proof fn law_found_order_is_returned(
    req: PlaceRequest,
    attempt: u32,
    order: RoundedOrder,
    pause_ms: u64,
    order_id: u64,
    client_order_id: Option<String>,
)
    ensures
        place_next(
            req,
            PlaceState::Querying { attempt, order, pause_ms },
            PlaceEvent::OrderFound { order_id, client_order_id },
        ) == (PlaceState::Finished {
            outcome: PlaceOutcome::Placed { order_id, client_order_id },
        }),
{
}

/// The ids that a placement returns are those that the exchange told of an order found
/// or placed.
pub proof fn law_ids_come_from_the_exchange(
    req: PlaceRequest,
    s: PlaceState,
    e: PlaceEvent,
    order_id: u64,
    client_order_id: Option<String>,
)
    requires
        place_answers(s, e),
        place_next(req, s, e) == (PlaceState::Finished {
            outcome: PlaceOutcome::Placed { order_id, client_order_id },
        }),
    ensures
        e == (PlaceEvent::OrderFound { order_id, client_order_id }) || e == (PlaceEvent::Placed {
            order_id,
            client_order_id,
        }),
{
}

/// Rules that an order broke are forgotten, after the last attempt too: no placement
/// goes on or ends with them.
pub proof fn law_broken_rules_are_forgotten(
    req: PlaceRequest,
    attempt: u32,
    order: RoundedOrder,
    status: u16,
    body: String,
)
    requires
        breach_of(body@) is Some,
    ensures
        ({
            let next = place_next(
                req,
                PlaceState::Sending { attempt, order },
                PlaceEvent::Refused { status, body },
            );
            next is RefreshingRules || next is ForgettingRules
        }),
{
}

/// How far a placement is from its end.
pub open spec fn place_steps_left(s: PlaceState) -> int {
    match s {
        PlaceState::NeedRules => 13,
        PlaceState::Querying { attempt, .. } => (MAX_RETRIES - attempt) * 3 + 3,
        PlaceState::Sending { attempt, .. } => (MAX_RETRIES - attempt) * 3 + 2,
        PlaceState::RefreshingRules { attempt, .. } => (MAX_RETRIES - attempt) * 3 + 1,
        PlaceState::ForgettingRules { .. } => 1,
        PlaceState::Finished { .. } => 0,
    }
}

/// Every step brings a placement nearer to its end: it ends after 13 steps at
/// most, whatever the exchange answers.
pub proof fn law_placement_ends(req: PlaceRequest, s: PlaceState, e: PlaceEvent)
    requires
        place_within_limits(s),
        place_answers(s, e),
    ensures
        0 <= place_steps_left(place_next(req, s, e)) < place_steps_left(s) <= 13,
{
}

/// The pauses before an order is asked for: a tenth of a second, then each three times as long.
pub proof fn law_pauses(attempt: u32)
    requires
        attempt < 2,
    ensures
        pause_after(0) == 100,
        pause_after((attempt + 1) as u32) == 3 * pause_after(attempt),
{
    reveal_with_fuel(power, 4);
}

/// How an order that was sent goes on. It is placed where the exchange took it; one that broke no
/// rule is asked for and sent again, the same, after a failure that may pass, three times at
/// most; and it is given up at once after one that cannot pass.
pub proof fn law_how_a_placement_goes_on(
    req: PlaceRequest,
    attempt: u32,
    order: RoundedOrder,
    status: u16,
    body: String,
)
    requires
        attempt <= 3,
    ensures
        ({
            let s = PlaceState::Sending { attempt, order };
            let refused = place_next(req, s, PlaceEvent::Refused { status, body });
            let lost = place_next(req, s, PlaceEvent::NetworkFailed);
            let unread = place_next(req, s, PlaceEvent::BadAnswer);
            let passes = status == 408 || status == 429 || (status >= 500 && status < 600);
            let again = PlaceState::Querying {
                attempt: (attempt + 1) as u32,
                order,
                pause_ms: pause_after(attempt),
            };
            &&& attempt < 3 ==> lost == again && unread == again
            &&& attempt == 3 ==> lost == place_failed(PlaceError::Network) && unread
                == place_failed(PlaceError::BadAnswer)
            &&& breach_of(body@) is None && passes && attempt < 3 ==> refused == again
            &&& breach_of(body@) is None && (!passes || attempt == 3) ==> refused == place_failed(
                PlaceError::Refused,
            ) || (refused == place_failed(PlaceError::Permanent) && status == 400)
            &&& breach_of(body@) is None && permanent(status, body@) ==> refused == place_failed(
                PlaceError::Permanent,
            )
            &&& breach_of(body@) matches Some(b) ==> (attempt < 3 ==> refused == (
            PlaceState::RefreshingRules { attempt, breach: b })) && (attempt == 3 ==> refused == (
            PlaceState::ForgettingRules { breach: b }))
        }),
{
}

/// An order is rounded to the rules before it is sent, and again to those fetched after it broke
/// one; where it cannot be, or there are no rules, it is not sent.
pub proof fn law_orders_follow_the_rules(
    req: PlaceRequest,
    rules: SymbolRules,
    attempt: u32,
    breach: RuleBreach,
)
    requires
        attempt < 3,
    ensures
        ({
            let first = place_next(req, PlaceState::NeedRules, PlaceEvent::Rules { rules });
            let refreshing = PlaceState::RefreshingRules { attempt, breach };
            let later = place_next(req, refreshing, PlaceEvent::Rules { rules });
            let numbers = order_numbers(req.px, req.qty, rules);
            &&& numbers is Err ==> first == place_failed(PlaceError::Invalid(numbers->Err_0))
                && later == place_failed(PlaceError::InvalidAfterRefresh(breach))
            &&& numbers is Ok ==> (first matches PlaceState::Sending { attempt: a, order } && a == 0
                && (order.price, order.qty) == numbers->Ok_0)
            &&& numbers is Ok ==> (later matches PlaceState::Querying {
                attempt: a,
                order,
                pause_ms,
            } && a == attempt + 1 && (order.price, order.qty) == numbers->Ok_0 && pause_ms
                == pause_after(attempt))
            &&& place_next(req, PlaceState::NeedRules, PlaceEvent::RulesFailed) == place_failed(
                PlaceError::RulesUnavailable,
            )
            &&& place_next(req, refreshing, PlaceEvent::RulesFailed) == place_failed(
                PlaceError::RefreshFailed(breach),
            )
        }),
{
}

/// What a limit order says: its symbol, its side, its price and its quantity, and for how long it
/// is good; the side of the position in hedge mode only, long for a buyer; and the client's id
/// only where the exchange would take it.
pub proof fn law_limit_orders(
    symbol: Seq<char>,
    side: Side,
    tif: Tif,
    price: Seq<char>,
    qty: Seq<char>,
    client_id: Seq<char>,
    hedge_mode: bool,
    timestamp: nat,
    recv_window_ms: nat,
)
    ensures
        ({
            let p = limit_order_pairs(
                symbol,
                side,
                tif,
                price,
                qty,
                client_id,
                hedge_mode,
                timestamp,
                recv_window_ms,
            );
            let with_id = valid_client_id(client_id);
            &&& p.len() == 9 + (if hedge_mode {
                1int
            } else {
                0
            }) + (if with_id {
                1int
            } else {
                0
            })
            &&& p[0] == ("symbol"@, symbol)
            &&& side is Buy ==> p[1] == ("side"@, "BUY"@)
            &&& side is Sell ==> p[1] == ("side"@, "SELL"@)
            &&& p[2] == ("type"@, "LIMIT"@)
            &&& tif is PostOnly ==> p[3] == ("timeInForce"@, "GTX"@)
            &&& tif is Gtc ==> p[3] == ("timeInForce"@, "GTC"@)
            &&& tif is Ioc ==> p[3] == ("timeInForce"@, "IOC"@)
            &&& p[4] == ("price"@, price)
            &&& p[5] == ("quantity"@, qty)
            &&& p[6] == ("timestamp"@, nat_text(timestamp))
            &&& p[7] == ("recvWindow"@, nat_text(recv_window_ms))
            &&& p[8] == ("newOrderRespType"@, "RESULT"@)
            &&& hedge_mode && side is Buy ==> p[9] == ("positionSide"@, "LONG"@)
            &&& hedge_mode && side is Sell ==> p[9] == ("positionSide"@, "SHORT"@)
            &&& with_id ==> p.last() == ("newClientOrderId"@, client_id)
        }),
{
}

/// The first attempt has the client's own id, and each later one an id that begins with it. An id
/// that the exchange takes has between one and 36 bytes.
pub proof fn law_client_ids(base: Seq<char>, attempt: u32, timestamp: nat)
    ensures
        attempt_id(base, 0, timestamp) == base,
        attempt > 0 ==> attempt_id(base, attempt, timestamp).len() > base.len() && attempt_id(
            base,
            attempt,
            timestamp,
        ).take(base.len() as int) == base,
        valid_client_id(base) ==> base.len() > 0 && vstd::utf8::encode_utf8(base).len() <= 36,
{
    reveal_strlit("-");
    if attempt > 0 {
        let id = attempt_id(base, attempt, timestamp);
        assert(id.take(base.len() as int) =~= base);
    }
}

} // verus!
