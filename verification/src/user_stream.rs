//! The stream of the account: what happens to orders, balances and positions.
use vstd::prelude::*;

use crate::connection::{trim_slashes, trimmed_end, PositionSide};
use crate::decimal::{dec_of, Dec};
use crate::json::{read_text, text_at, Json};
use crate::numbers::{plain_dec, plain_number, plain_or_zero, read_plain};
use crate::quant::{abs_dec, abs_of, lemma_abs};
use crate::rules::{dec_or_zero, str_dec};
use crate::text::{
    ascii_lowered, copy_of, i64_text, joined, same_ignoring_ascii_case, same_text, signed_text,
};
use crate::types::{Px, Qty, Side};

verus! {

/// How long a listen key is used before it is refreshed, in seconds.
pub const KEEP_ALIVE_SECS: u64 = 1500;

#[derive(Clone, Copy, Debug, PartialEq, Eq, Structural)]
pub enum UserStreamKind {
    Futures,
}

/// What happened on an account.
#[derive(Debug)]
pub enum UserEvent {
    OrderFill {
        symbol: String,
        order_id: String,
        client_order_id: Option<String>,
        side: Side,
        /// What this fill executed.
        qty: Qty,
        /// What was executed in all.
        cumulative_filled_qty: Qty,
        price: Px,
        is_maker: bool,
        order_status: String,
        commission: Dec,
    },
    OrderCanceled { symbol: String, order_id: String, client_order_id: Option<String> },
    Heartbeat,
}

#[derive(Clone, Copy, Debug, PartialEq, Eq, Structural)]
pub enum UserStreamError {
    /// An order update without an order.
    MissingPayload,
    Closed,
    Terminated,
    Unreadable,
    Failed,
}

/// The address of the stream of an account.
pub fn ws_url_for(_kind: UserStreamKind, listen_key: &str) -> (r: String)
    ensures
        r@ == "wss://fstream.binance.com/ws/"@ + listen_key@,
{
    joined("wss://fstream.binance.com/ws/", listen_key)
}

/// The address under which a listen key is asked for.
pub fn listen_key_url(base: &str) -> (r: String)
    ensures
        r@ == trimmed_end(base@, '/') + "/fapi/v1/listenKey"@,
{
    let b = trim_slashes(base);
    joined(b.as_str(), "/fapi/v1/listenKey")
}

/// The address under which a listen key is refreshed.
pub fn keep_alive_url(base: &str, listen_key: &str) -> (r: String)
    ensures
        r@ == trimmed_end(base@, '/') + "/fapi/v1/listenKey?listenKey="@ + listen_key@,
{
    let b = trim_slashes(base);
    let mut url = joined(b.as_str(), "/fapi/v1/listenKey?listenKey=");
    url.append(listen_key);
    url
}

/// Whether a listen key has to be refreshed.
pub fn keep_alive_due(elapsed_secs: u64) -> (r: bool)
    ensures
        r == (elapsed_secs >= KEEP_ALIVE_SECS),
{
    elapsed_secs >= KEEP_ALIVE_SECS
}

/// The side that a word stands for: anything but `buy` is a sale.
pub open spec fn side_of(word: Seq<char>) -> Side {
    if ascii_lowered(word) == ascii_lowered("buy"@) {
        Side::Buy
    } else {
        Side::Sell
    }
}

/// The side that a word stands for: anything but `buy` is a sale.
pub fn parse_side(side: &str) -> (r: Side)
    ensures
        r == side_of(side@),
{
    if same_ignoring_ascii_case(side, "buy") {
        Side::Buy
    } else {
        Side::Sell
    }
}

/// The text of a field; an empty one where there is none.
pub open spec fn text_or_empty(v: Json, key: Seq<char>) -> Seq<char> {
    match text_at(v, key) {
        Some(s) => s,
        None => Seq::empty(),
    }
}

fn read_text_or_empty(v: &Json, key: &str) -> (r: String)
    ensures
        r@ == text_or_empty(*v, key@),
{
    match read_text(v, key) {
        Some(s) => copy_of(s),
        None => String::new(),
    }
}

/// The number that a field holds as text; zero where it holds none.
pub open spec fn decimal_at(v: Json, key: Seq<char>) -> Dec {
    match text_at(v, key) {
        Some(s) => dec_or_zero(s),
        None => dec_of(0, 0),
    }
}

/// The number that a field holds as text; zero where it holds none.
pub fn parse_decimal(value: &Json, key: &str) -> (r: Dec)
    ensures
        r == decimal_at(*value, key@),
{
    match read_text(value, key) {
        Some(s) => str_dec(s),
        None => Dec::new(0, 0),
    }
}

/// The number of an order; zero where there is none.
pub open spec fn order_number(v: Json) -> int {
    match v.field("i"@) {
        Some(f) => match f.signed() {
            Some(n) => n as int,
            None => 0,
        },
        None => 0,
    }
}

fn read_order_number(v: &Json) -> (r: String)
    ensures
        r@ == signed_text(order_number(*v)),
{
    let n: i64 = match v.get("i") {
        Some(f) => match f.as_i64() {
            Some(n) => n,
            None => 0,
        },
        None => 0,
    };
    i64_text(n)
}

/// Whether a fill made the market.
pub open spec fn maker_flag(v: Json) -> bool {
    match v.field("m"@) {
        Some(f) => f.truth() == Some(true),
        None => false,
    }
}

fn read_maker_flag(v: &Json) -> (r: bool)
    ensures
        r == maker_flag(*v),
{
    match v.get("m") {
        Some(f) => match f.as_bool() {
            Some(b) => b,
            None => false,
        },
        None => false,
    }
}

/// `copy` is what `text` says.
pub open spec fn same_optional(copy: Option<String>, text: Option<Seq<char>>) -> bool {
    match text {
        Some(t) => copy matches Some(c) && c@ == t,
        None => copy is None,
    }
}

/// The event is what an order says: cancelled where its status is, filled where
/// the execution is a trade, and otherwise nothing of interest.
pub open spec fn order_event(ev: UserEvent, o: Json) -> bool {
    if text_or_empty(o, "X"@) == "CANCELED"@ {
        ev matches UserEvent::OrderCanceled { symbol, order_id, client_order_id } && {
            &&& symbol@ == text_or_empty(o, "s"@)
            &&& order_id@ == signed_text(order_number(o))
            &&& same_optional(client_order_id, text_at(o, "c"@))
        }
    } else if text_or_empty(o, "x"@) != "TRADE"@ {
        ev is Heartbeat
    } else {
        ev matches UserEvent::OrderFill {
            symbol,
            order_id,
            client_order_id,
            side,
            qty,
            cumulative_filled_qty,
            price,
            is_maker,
            order_status,
            commission,
        } && {
            &&& symbol@ == text_or_empty(o, "s"@)
            &&& order_id@ == signed_text(order_number(o))
            &&& same_optional(client_order_id, text_at(o, "c"@))
            &&& side == match text_at(o, "S"@) {
                Some(w) => side_of(w),
                None => Side::Sell,
            }
            &&& qty == Qty(decimal_at(o, "l"@))
            &&& cumulative_filled_qty == Qty(decimal_at(o, "z"@))
            &&& price == Px(decimal_at(o, "L"@))
            &&& is_maker == maker_flag(o)
            &&& order_status@ == text_or_empty(o, "X"@)
            &&& commission == decimal_at(o, "n"@)
        }
    }
}

fn map_order(o: &Json) -> (r: UserEvent)
    ensures
        order_event(r, *o),
{
    let symbol = read_text_or_empty(o, "s");
    let order_id = read_order_number(o);
    let client_order_id: Option<String> = match read_text(o, "c") {
        Some(s) => Some(copy_of(s)),
        None => None,
    };
    let status = read_text_or_empty(o, "X");
    if same_text(status.as_str(), "CANCELED") {
        return UserEvent::OrderCanceled { symbol, order_id, client_order_id };
    }
    let exec_type = read_text_or_empty(o, "x");
    if !same_text(exec_type.as_str(), "TRADE") {
        return UserEvent::Heartbeat;
    }
    let side = match read_text(o, "S") {
        Some(w) => parse_side(w),
        None => Side::Sell,
    };
    UserEvent::OrderFill {
        symbol,
        order_id,
        client_order_id,
        side,
        qty: Qty(parse_decimal(o, "l")),
        cumulative_filled_qty: Qty(parse_decimal(o, "z")),
        price: Px(parse_decimal(o, "L")),
        is_maker: read_maker_flag(o),
        order_status: status,
        commission: parse_decimal(o, "n"),
    }
}

/// What a message says. An execution report is an order itself; an order update
/// holds one; anything else is nothing of interest.
pub open spec fn mapped(r: Result<UserEvent, UserStreamError>, v: Json) -> bool {
    let kind = text_or_empty(v, "e"@);
    if kind == "executionReport"@ {
        r matches Ok(ev) && order_event(ev, v)
    } else if kind == "ORDER_TRADE_UPDATE"@ {
        match v.field("o"@) {
            Some(o) => r matches Ok(ev) && order_event(ev, o),
            None => r == Err::<UserEvent, UserStreamError>(UserStreamError::MissingPayload),
        }
    } else {
        r matches Ok(ev) && ev is Heartbeat
    }
}

/// What a message says.
pub fn map_event(value: &Json) -> (r: Result<UserEvent, UserStreamError>)
    ensures
        mapped(r, *value),
{
    let kind = read_text_or_empty(value, "e");
    if same_text(kind.as_str(), "executionReport") {
        return Ok(map_order(value));
    }
    if same_text(kind.as_str(), "ORDER_TRADE_UPDATE") {
        return match value.get("o") {
            Some(o) => Ok(map_order(o)),
            None => Err(UserStreamError::MissingPayload),
        };
    }
    Ok(UserEvent::Heartbeat)
}

/// The message inside a wrapper; the message itself where it has none.
pub open spec fn unwrapped(v: Json) -> Json {
    match v.field("data"@) {
        Some(d) => d,
        None => v,
    }
}

/// What came out of the stream of an account.
#[derive(Debug)]
pub enum UserStreamInput {
    Ping,
    Pong,
    EmptyText,
    Text(Json),
    /// A text that is no JSON.
    UnreadableText,
    Binary,
    Frame,
    Close,
    /// The stream failed, as it is closed.
    ClosedError,
    OtherError,
    End,
    /// Nothing came in time.
    Timeout,
}

/// What is to be done about it.
#[derive(Debug)]
pub enum UserStreamAction {
    /// Hand an event out.
    Report(UserEvent),
    /// Answer a ping and report a sign of life.
    AnswerPing,
    /// Read on.
    Wait,
    Reconnect,
    Fail(UserStreamError),
}

/// What is to be done about what came out of the stream.
pub fn next_event(input: &UserStreamInput) -> (r: UserStreamAction)
    ensures
        match *input {
            UserStreamInput::Ping => r is AnswerPing,
            UserStreamInput::Pong => r matches UserStreamAction::Report(ev) && ev is Heartbeat,
            UserStreamInput::EmptyText => r is Wait,
            UserStreamInput::Text(v) => match r {
                UserStreamAction::Report(ev) => mapped(Ok(ev), unwrapped(v)),
                UserStreamAction::Fail(e) => mapped(Err(e), unwrapped(v)),
                _ => false,
            },
            UserStreamInput::UnreadableText => r == UserStreamAction::Fail(
                UserStreamError::Unreadable,
            ),
            UserStreamInput::Binary => r is Wait,
            UserStreamInput::Frame => r is Wait,
            UserStreamInput::Close => r == UserStreamAction::Fail(UserStreamError::Closed),
            UserStreamInput::ClosedError => r == UserStreamAction::Fail(UserStreamError::Closed),
            UserStreamInput::OtherError => r == UserStreamAction::Fail(UserStreamError::Failed),
            UserStreamInput::End => r == UserStreamAction::Fail(UserStreamError::Terminated),
            UserStreamInput::Timeout => r is Reconnect,
        },
{
    match input {
        UserStreamInput::Ping => UserStreamAction::AnswerPing,
        UserStreamInput::Pong => UserStreamAction::Report(UserEvent::Heartbeat),
        UserStreamInput::EmptyText => UserStreamAction::Wait,
        UserStreamInput::Text(v) => {
            let mapped_event = match v.get("data") {
                Some(d) => map_event(d),
                None => map_event(v),
            };
            match mapped_event {
                Ok(ev) => UserStreamAction::Report(ev),
                Err(e) => UserStreamAction::Fail(e),
            }
        },
        UserStreamInput::UnreadableText => UserStreamAction::Fail(UserStreamError::Unreadable),
        UserStreamInput::Binary => UserStreamAction::Wait,
        UserStreamInput::Frame => UserStreamAction::Wait,
        UserStreamInput::Close => UserStreamAction::Fail(UserStreamError::Closed),
        UserStreamInput::ClosedError => UserStreamAction::Fail(UserStreamError::Closed),
        UserStreamInput::OtherError => UserStreamAction::Fail(UserStreamError::Failed),
        UserStreamInput::End => UserStreamAction::Fail(UserStreamError::Terminated),
        UserStreamInput::Timeout => UserStreamAction::Reconnect,
    }
}

/// Only an order update without an order is an error, whatever else a message holds.
pub proof fn law_only_missing_orders_fail(r: Result<UserEvent, UserStreamError>, v: Json)
    requires
        mapped(r, v),
    ensures
        r is Err <==> text_or_empty(v, "e"@) == "ORDER_TRADE_UPDATE"@ && v.field("o"@) is None,
{
    reveal_strlit("ORDER_TRADE_UPDATE");
    reveal_strlit("executionReport");
    assert("ORDER_TRADE_UPDATE"@.len() != "executionReport"@.len());
}

#[derive(Clone, Copy, Debug, PartialEq, Eq, Structural)]
pub enum OrderStatus {
    New,
    PartiallyFilled,
    Filled,
    Canceled,
    Rejected,
}

/// The status that a word stands for; an unknown one is new.
pub open spec fn status_of(word: Seq<char>) -> OrderStatus {
    if word == "PARTIALLY_FILLED"@ {
        OrderStatus::PartiallyFilled
    } else if word == "FILLED"@ {
        OrderStatus::Filled
    } else if word == "CANCELED"@ {
        OrderStatus::Canceled
    } else if word == "REJECTED"@ {
        OrderStatus::Rejected
    } else {
        OrderStatus::New
    }
}

/// What happened to an order.
#[derive(Debug)]
pub struct OrderUpdate {
    pub symbol: String,
    pub side: PositionSide,
    pub status: OrderStatus,
    pub filled_qty: Dec,
    /// When it happened, in milliseconds.
    pub ts_ms: u64,
}

/// The update of an order.
pub fn into_order_update(
    symbol: &str,
    side: &str,
    status: &str,
    filled_qty: &str,
    event_time_ms: u64,
) -> (r: OrderUpdate)
    ensures
        r.symbol@ == symbol@,
        r.side == if side@ == "BUY"@ {
            PositionSide::Long
        } else {
            PositionSide::Short
        },
        r.status == status_of(status@),
        r.filled_qty == plain_or_zero(filled_qty@),
        r.ts_ms == event_time_ms,
{
    let side = if same_text(side, "BUY") {
        PositionSide::Long
    } else {
        PositionSide::Short
    };
    let status = if same_text(status, "PARTIALLY_FILLED") {
        OrderStatus::PartiallyFilled
    } else if same_text(status, "FILLED") {
        OrderStatus::Filled
    } else if same_text(status, "CANCELED") {
        OrderStatus::Canceled
    } else if same_text(status, "REJECTED") {
        OrderStatus::Rejected
    } else {
        OrderStatus::New
    };
    OrderUpdate {
        symbol: copy_of(symbol),
        side,
        status,
        filled_qty: plain_dec(filled_qty),
        ts_ms: event_time_ms,
    }
}

/// What happened to a position. Its size has no sign.
#[derive(Debug)]
pub struct PositionUpdate {
    pub symbol: String,
    pub side: PositionSide,
    pub entry_price: Dec,
    pub size: Dec,
    pub leverage: Dec,
    pub unrealized_pnl: Dec,
    pub is_closed: bool,
}

/// `u` is what the quantity `size` and the texts say of a position.
pub open spec fn update_is(
    u: PositionUpdate,
    symbol: Seq<char>,
    size: Dec,
    entry: Seq<char>,
    pnl: Seq<char>,
) -> bool {
    &&& u.symbol@ == symbol
    &&& u.side == if size@ >= 0 {
        PositionSide::Long
    } else {
        PositionSide::Short
    }
    &&& u.entry_price == plain_or_zero(entry)
    &&& u.size == abs_of(size)
    &&& u.unrealized_pnl == plain_or_zero(pnl)
    &&& u.is_closed == (size@ == 0)
}

fn update_from(symbol: &str, size: Dec, entry: &str, pnl: &str, leverage: Dec) -> (r:
    PositionUpdate)
    ensures
        update_is(r, symbol@, size, entry@, pnl@),
        r.leverage == leverage,
{
    PositionUpdate {
        symbol: copy_of(symbol),
        side: if size.is_sign_negative() {
            PositionSide::Short
        } else {
            PositionSide::Long
        },
        entry_price: plain_dec(entry),
        size: abs_dec(size),
        leverage,
        unrealized_pnl: plain_dec(pnl),
        is_closed: size.is_zero(),
    }
}

/// The update of a position in an update of the account; none where its size
/// cannot be read.
pub fn to_position_update(
    symbol: &str,
    position_amount: &str,
    entry_price: &str,
    unrealized_pnl: &str,
    leverage: Dec,
) -> (r: Option<PositionUpdate>)
    ensures
        match plain_number(position_amount@) {
            Some(size) => r matches Some(u) && update_is(
                u,
                symbol@,
                size,
                entry_price@,
                unrealized_pnl@,
            ) && u.leverage == leverage,
            None => r is None,
        },
{
    match read_plain(position_amount) {
        Some(size) => Some(update_from(symbol, size, entry_price, unrealized_pnl, leverage)),
        None => None,
    }
}

/// `r` is the position that the texts tell; none where there is no quantity.
pub open spec fn is_told(
    r: Option<PositionUpdate>,
    symbol: Seq<char>,
    amount: Seq<char>,
    entry: Seq<char>,
    pnl: Seq<char>,
    leverage: Seq<char>,
) -> bool {
    match r {
        Some(u) => plain_or_zero(amount)@ != 0 && update_is(
            u,
            symbol,
            plain_or_zero(amount),
            entry,
            pnl,
        ) && u.leverage == plain_or_zero(leverage) && !u.is_closed,
        None => plain_or_zero(amount)@ == 0,
    }
}

/// The position that the exchange tells when it is asked for it; none where there
/// is no quantity.
pub fn told_position(
    symbol: &str,
    position_amount: &str,
    entry_price: &str,
    unrealized_pnl: &str,
    leverage: &str,
) -> (r: Option<PositionUpdate>)
    ensures
        is_told(r, symbol@, position_amount@, entry_price@, unrealized_pnl@, leverage@),
{
    let size = plain_dec(position_amount);
    if size.is_zero() {
        return None;
    }
    Some(update_from(symbol, size, entry_price, unrealized_pnl, plain_dec(leverage)))
}

/// A position in the answer of the exchange.
#[derive(Debug)]
pub struct ListedPosition {
    pub symbol: String,
    pub position_amount: String,
    pub entry_price: String,
    pub unrealized_profit: String,
    pub leverage: String,
}

/// The position at `i` is the first of this symbol.
pub open spec fn first_listed(list: Seq<ListedPosition>, symbol: Seq<char>, i: int) -> bool {
    &&& 0 <= i < list.len()
    &&& list[i].symbol@ == symbol
    &&& forall|j: int| 0 <= j < i ==> #[trigger] list[j].symbol@ != symbol
}

/// The position of a symbol in the answer of the exchange: the first that is listed; none
/// where none is, or where it has no quantity.
pub fn listed_position(list: &Vec<ListedPosition>, symbol: &str) -> (r: Option<PositionUpdate>)
    ensures
        (exists|i: int| #[trigger]
            first_listed(list@, symbol@, i) && is_told(
                r,
                symbol@,
                list@[i].position_amount@,
                list@[i].entry_price@,
                list@[i].unrealized_profit@,
                list@[i].leverage@,
            )) || (r is None && forall|j: int|
            0 <= j < list@.len() ==> #[trigger] list@[j].symbol@ != symbol@),
{
    let mut i: usize = 0;
    while i < list.len()
        invariant
            i <= list@.len(),
            forall|j: int| 0 <= j < i ==> #[trigger] list@[j].symbol@ != symbol@,
        decreases list.len() - i,
    {
        let p = &list[i];
        if same_text(p.symbol.as_str(), symbol) {
            assert(first_listed(list@, symbol@, i as int));
            return told_position(
                symbol,
                p.position_amount.as_str(),
                p.entry_price.as_str(),
                p.unrealized_profit.as_str(),
                p.leverage.as_str(),
            );
        }
        i += 1;
    }
    None
}

/// What a trade of an order tells: what was filled now and in all, at what price and for what
/// commission; a buy only where its word says so; and nothing is told of an order that neither
/// traded nor was cancelled.
pub proof fn law_what_an_order_tells(ev: UserEvent, o: Json)
    requires
        order_event(ev, o),
    ensures
        ev is OrderCanceled <==> text_or_empty(o, "X"@) == "CANCELED"@,
        ev is OrderFill <==> text_or_empty(o, "X"@) != "CANCELED"@ && text_or_empty(o, "x"@)
            == "TRADE"@,
        ev matches UserEvent::OrderFill {
            qty,
            cumulative_filled_qty,
            price,
            commission,
            side,
            is_maker,
            order_status,
            symbol,
            ..
        } ==> {
            &&& qty.0 == decimal_at(o, "l"@)
            &&& cumulative_filled_qty.0 == decimal_at(o, "z"@)
            &&& price.0 == decimal_at(o, "L"@)
            &&& commission == decimal_at(o, "n"@)
            &&& side is Buy <==> (text_at(o, "S"@) matches Some(w) && ascii_lowered(w)
                == ascii_lowered("buy"@))
            &&& is_maker <==> (o.field("m"@) matches Some(f) && f.truth() == Some(true))
            &&& order_status@ == text_or_empty(o, "X"@)
            &&& symbol@ == text_or_empty(o, "s"@)
        },
{
}

/// Which messages tell of orders: reports of executions and updates of trades; all others are
/// signs of life.
pub proof fn law_what_is_mapped(r: Result<UserEvent, UserStreamError>, v: Json)
    requires
        mapped(r, v),
    ensures
        text_or_empty(v, "e"@) != "executionReport"@ && text_or_empty(v, "e"@)
            != "ORDER_TRADE_UPDATE"@ ==> (r matches Ok(ev) && ev is Heartbeat),
        text_or_empty(v, "e"@) == "executionReport"@ ==> (r matches Ok(ev) && order_event(ev, v)),
        text_or_empty(v, "e"@) == "ORDER_TRADE_UPDATE"@ && text_or_empty(v, "e"@)
            != "executionReport"@ ==> (v.field("o"@) matches Some(o) ==> (r matches Ok(ev)
            && order_event(ev, o))),
        r matches Err(e) ==> e == UserStreamError::MissingPayload,
{
}

/// The states of an order: each word has its own, and any other word is that of a new order.
pub proof fn law_order_states(word: Seq<char>)
    ensures
        status_of("PARTIALLY_FILLED"@) is PartiallyFilled,
        status_of("FILLED"@) is Filled,
        status_of("CANCELED"@) is Canceled,
        status_of("REJECTED"@) is Rejected,
        word != "PARTIALLY_FILLED"@ && word != "FILLED"@ && word != "CANCELED"@ && word
            != "REJECTED"@ <==> status_of(word) is New,
{
    reveal_strlit("PARTIALLY_FILLED");
    reveal_strlit("FILLED");
    reveal_strlit("CANCELED");
    reveal_strlit("REJECTED");
    assert("CANCELED"@[0] != "REJECTED"@[0]);
    assert("PARTIALLY_FILLED"@.len() == 16 && "FILLED"@.len() == 6);
    assert("CANCELED"@.len() == 8 && "REJECTED"@.len() == 8);
}

/// What an update of a position tells: a negative size is short and any other long; the size has
/// no sign; and it is closed exactly where there is none.
pub proof fn law_position_updates(
    u: PositionUpdate,
    symbol: Seq<char>,
    size: Dec,
    entry: Seq<char>,
    pnl: Seq<char>,
)
    requires
        size.wf(),
        update_is(u, symbol, size, entry, pnl),
    ensures
        u.side is Short <==> size@ < 0,
        u.size@ >= 0,
        u.side is Long ==> u.size@ == size@,
        u.side is Short ==> u.size@ == -size@,
        u.is_closed <==> u.size@ == 0,
        u.symbol@ == symbol,
        u.entry_price == plain_or_zero(entry),
        u.unrealized_pnl == plain_or_zero(pnl),
{
    lemma_abs(size);
}

} // verus!
