//! Talking to the exchange: addresses of streams, limits, clocks, credentials,
//! and the parameters of plain orders.
use vstd::prelude::*;

use crate::config::BotConfig;
use crate::decimal::Dec;
use crate::signing::pairs;
use crate::text::{copy_of, joined, lowercase, same_text, text_of, chars_of};

verus! {

/// The largest message that a stream may carry, in bytes.
pub const MAX_WS_MESSAGE_SIZE: usize = 1_048_576;

/// The longest pause before a stream is opened again, in seconds.
pub const MAX_RETRY_DELAY_SECS: u64 = 60;

/// What can go wrong before a request is sent or a message is read.
#[derive(Clone, Copy, Debug, PartialEq, Eq, Structural)]
pub enum ConnectionError {
    MessageTooLarge,
    StreamFailed,
    CredentialsMissing,
    LeverageNotPositive,
    LeverageAboveMaximum,
    QuantityNotPositive,
    /// A number cannot be held.
    Overflow,
}

/// Refuses a message that is larger than a stream may carry.
pub fn check_message_size(size: usize) -> (r: Result<(), ConnectionError>)
    ensures
        r == if size > MAX_WS_MESSAGE_SIZE {
            Err::<(), ConnectionError>(ConnectionError::MessageTooLarge)
        } else {
            Ok(())
        },
{
    if size > MAX_WS_MESSAGE_SIZE {
        return Err(ConnectionError::MessageTooLarge);
    }
    Ok(())
}

/// What came out of a stream.
#[derive(Debug)]
pub enum StreamMessage {
    Text(String),
    /// A binary message, with its size in bytes.
    Binary(usize),
    /// A ping, a pong, a close or a raw frame.
    Control,
    Failed,
}

/// The text of a message that is not too large; nothing where it has none.
pub fn extract_text_from_message(msg: StreamMessage) -> (r: Result<
    Option<String>,
    ConnectionError,
>)
    ensures
        match msg {
            StreamMessage::Text(t) => if vstd::utf8::encode_utf8(t@).len() as usize
                > MAX_WS_MESSAGE_SIZE {
                r == Err::<Option<String>, ConnectionError>(ConnectionError::MessageTooLarge)
            } else {
                r matches Ok(Some(s)) && s@ == t@
            },
            StreamMessage::Binary(n) => if n > MAX_WS_MESSAGE_SIZE {
                r == Err::<Option<String>, ConnectionError>(ConnectionError::MessageTooLarge)
            } else {
                r == Ok::<Option<String>, ConnectionError>(None)
            },
            StreamMessage::Control => r == Ok::<Option<String>, ConnectionError>(None),
            StreamMessage::Failed => r == Err::<Option<String>, ConnectionError>(
                ConnectionError::StreamFailed,
            ),
        },
{
    match msg {
        StreamMessage::Text(t) => match check_message_size(t.as_str().len()) {
            Ok(()) => Ok(Some(t)),
            Err(e) => Err(e),
        },
        StreamMessage::Binary(n) => match check_message_size(n) {
            Ok(()) => Ok(None),
            Err(e) => Err(e),
        },
        StreamMessage::Control => Ok(None),
        StreamMessage::Failed => Err(ConnectionError::StreamFailed),
    }
}

/// `s` without the characters `c` at its end.
pub open spec fn trimmed_end(s: Seq<char>, c: char) -> Seq<char>
    decreases s.len(),
{
    if s.len() > 0 && s.last() == c {
        trimmed_end(s.drop_last(), c)
    } else {
        s
    }
}

/// `s` without the slashes at its end.
pub fn trim_slashes(s: &str) -> (r: String)
    ensures
        r@ == trimmed_end(s@, '/'),
{
    let mut v = chars_of(s);
    while v.len() > 0 && v[v.len() - 1] == '/'
        invariant
            trimmed_end(v@, '/') == trimmed_end(s@, '/'),
        decreases v.len(),
    {
        proof {
            assert(v@.last() == '/');
        }
        v.pop();
    }
    text_of(&v)
}

/// The address of a stream of one symbol.
pub open spec fn stream_url(base: Seq<char>, symbol: Seq<char>, stream: Seq<char>) -> Seq<char> {
    trimmed_end(base, '/') + "/ws/"@ + lowercase(symbol) + stream
}

/// One stream of a combined address.
pub open spec fn stream_name(
    symbol: Seq<char>,
    stream_type: Seq<char>,
    interval: Option<Seq<char>>,
) -> Seq<char> {
    match interval {
        Some(i) => lowercase(symbol) + "@"@ + stream_type + "@"@ + i,
        None => lowercase(symbol) + "@"@ + stream_type,
    }
}

/// The streams of the symbols, with slashes between them.
pub open spec fn stream_names(
    symbols: Seq<String>,
    stream_type: Seq<char>,
    interval: Option<Seq<char>>,
) -> Seq<char>
    decreases symbols.len(),
{
    if symbols.len() == 0 {
        Seq::empty()
    } else if symbols.len() == 1 {
        stream_name(symbols[0]@, stream_type, interval)
    } else {
        stream_names(symbols.drop_last(), stream_type, interval) + "/"@ + stream_name(
            symbols.last()@,
            stream_type,
            interval,
        )
    }
}

/// The texts of an optional text.
pub open spec fn optional(o: Option<&str>) -> Option<Seq<char>> {
    match o {
        Some(s) => Some(s@),
        None => None,
    }
}

/// A connection to the exchange.
pub struct Connection {
    pub config: BotConfig,
}

impl Connection {
    pub fn new(config: BotConfig) -> (r: Connection)
        ensures
            r.config == config,
    {
        Connection { config }
    }

    pub fn quote_asset(&self) -> (r: &str)
        ensures
            r@ == self.config.quote_asset@,
    {
        self.config.quote_asset.as_str()
    }

    pub fn config(&self) -> (r: &BotConfig)
        ensures
            *r == self.config,
    {
        &self.config
    }

    fn stream_address(&self, stream: &str) -> (r: String)
        ensures
            r@ == stream_url(self.config.ws_base_url@, self.config.symbol@, stream@),
    {
        let base = trim_slashes(self.config.ws_base_url.as_str());
        let symbol = self.config.symbol.as_str().to_lowercase();
        let mut url = joined(base.as_str(), "/ws/");
        url.append(symbol.as_str());
        url.append(stream);
        url
    }

    pub fn mark_price_stream_url(&self) -> (r: String)
        ensures
            r@ == stream_url(self.config.ws_base_url@, self.config.symbol@, "@markPrice@1s"@),
    {
        self.stream_address("@markPrice@1s")
    }

    pub fn depth_stream_url(&self) -> (r: String)
        ensures
            r@ == stream_url(self.config.ws_base_url@, self.config.symbol@, "@depth20@100ms"@),
    {
        self.stream_address("@depth20@100ms")
    }

    pub fn open_interest_stream_url(&self) -> (r: String)
        ensures
            r@ == stream_url(self.config.ws_base_url@, self.config.symbol@, "@openInterest"@),
    {
        self.stream_address("@openInterest")
    }

    pub fn force_order_stream_url(&self) -> (r: String)
        ensures
            r@ == stream_url(self.config.ws_base_url@, self.config.symbol@, "@forceOrder"@),
    {
        self.stream_address("@forceOrder")
    }

    /// The address of the stream of the account.
    pub fn user_stream_url(&self, listen_key: &str) -> (r: String)
        ensures
            r@ == trimmed_end(self.config.ws_base_url@, '/') + "/ws/"@ + listen_key@,
    {
        let base = trim_slashes(self.config.ws_base_url.as_str());
        let mut url = joined(base.as_str(), "/ws/");
        url.append(listen_key);
        url
    }

    /// The address under which the streams of several symbols come together.
    pub fn build_combined_stream_url(
        symbols: &[String],
        stream_type: &str,
        interval: Option<&str>,
    ) -> (r: String)
        ensures
            r@ == "wss://fstream.binance.com/stream?streams="@ + stream_names(
                symbols@,
                stream_type@,
                optional(interval),
            ),
    {
        let mut url = copy_of("wss://fstream.binance.com/stream?streams=");
        let ghost head = url@;
        let mut i: usize = 0;
        while i < symbols.len()
            invariant
                i <= symbols@.len(),
                url@ == head + stream_names(
                    symbols@.take(i as int),
                    stream_type@,
                    optional(interval),
                ),
            decreases symbols.len() - i,
        {
            proof {
                let t = symbols@.take(i as int + 1);
                assert(t.drop_last() =~= symbols@.take(i as int));
                assert(t.last() == symbols@[i as int]);
            }
            let ghost before = url@;
            if i > 0 {
                url.append("/");
            }
            let lower = symbols[i].as_str().to_lowercase();
            url.append(lower.as_str());
            url.append("@");
            url.append(stream_type);
            if let Some(interval) = interval {
                url.append("@");
                url.append(interval);
            }
            proof {
                let n = stream_name(symbols@[i as int]@, stream_type@, optional(interval));
                if i > 0 {
                    assert(url@ =~= before + "/"@ + n);
                } else {
                    assert(url@ =~= before + n);
                    assert(stream_names(
                        symbols@.take(0),
                        stream_type@,
                        optional(interval),
                    ) =~= Seq::<char>::empty());
                }
                assert(url@ =~= head + stream_names(
                    symbols@.take(i as int + 1),
                    stream_type@,
                    optional(interval),
                ));
            }
            i += 1;
        }
        assert(symbols@.take(symbols@.len() as int) =~= symbols@);
        url
    }

    /// Refuses to go on without a key and a secret.
    pub fn ensure_credentials(&self) -> (r: Result<(), ConnectionError>)
        ensures
            r == if self.config.api_key@.len() == 0 || self.config.api_secret@.len() == 0 {
                Err::<(), ConnectionError>(ConnectionError::CredentialsMissing)
            } else {
                Ok(())
            },
    {
        if self.config.api_key.as_str().is_empty() || self.config.api_secret.as_str().is_empty() {
            Err(ConnectionError::CredentialsMissing)
        } else {
            Ok(())
        }
    }

    /// Whether the market data is stale, and for how many seconds there was none.
    /// Times are in seconds; data that never came is stale.
    pub fn check_websocket_health(&self, last_tick: Option<i64>, now: i64) -> (r: (bool, i64))
        requires
            last_tick matches Some(t) ==> i64::MIN <= now - t <= i64::MAX,
        ensures
            r == match last_tick {
                Some(t) => (
                    now - t > self.config.market_tick_stale_tolerance_secs,
                    (now - t) as i64,
                ),
                None => (true, i64::MAX),
            },
    {
        match last_tick {
            Some(t) => {
                let elapsed: i64 = now - t;
                (elapsed > self.config.market_tick_stale_tolerance_secs, elapsed)
            },
            None => (true, i64::MAX),
        }
    }
}

/// How much a request counts against the limit of the exchange.
pub open spec fn endpoint_weight(path: Seq<char>) -> u32 {
    if path == "/fapi/v2/balance"@ || path == "/fapi/v2/positionRisk"@ {
        5
    } else if path == "/fapi/v1/forceOrders"@ {
        20
    } else {
        1
    }
}

/// How much a request counts against the limit of the exchange.
pub fn get_endpoint_weight(path: &str) -> (r: u32)
    ensures
        r == endpoint_weight(path@),
{
    if same_text(path, "/fapi/v2/balance") || same_text(path, "/fapi/v2/positionRisk") {
        5
    } else if same_text(path, "/fapi/v1/forceOrders") {
        20
    } else {
        1
    }
}

/// How much requests may count within one window.
pub const WEIGHT_LIMIT: u32 = 2400;

/// How long a window is, in milliseconds.
pub const WEIGHT_WINDOW_MS: u64 = 60000;

/// How a request is fitted into the limit of the exchange.
#[derive(Clone, Copy, Debug, PartialEq, Eq, Structural)]
pub struct WeightStep {
    /// How long to wait before the request, in milliseconds.
    pub wait_ms: u64,
    /// Whether the request begins a window.
    pub new_window: bool,
    /// How much the requests of the window count, with this one.
    pub used: u32,
}

/// How a request is fitted in that counts `weight`, `elapsed_ms` after the window began in
/// which requests counted `used`.
pub open spec fn fitted(used: u32, elapsed_ms: u64, weight: u32) -> WeightStep {
    if elapsed_ms >= WEIGHT_WINDOW_MS {
        WeightStep { wait_ms: 0, new_window: true, used: weight }
    } else if used + weight <= WEIGHT_LIMIT {
        WeightStep { wait_ms: 0, new_window: false, used: (used + weight) as u32 }
    } else {
        WeightStep {
            wait_ms: (WEIGHT_WINDOW_MS - elapsed_ms) as u64,
            new_window: true,
            used: weight,
        }
    }
}

/// How a request is fitted into the limit of the exchange: within the window where there is
/// room, else after it. No window counts more than the limit, but for one with a single
/// request that is above it.
pub fn fit_weight(used: u32, elapsed_ms: u64, weight: u32) -> (r: WeightStep)
    ensures
        r == fitted(used, elapsed_ms, weight),
        r.used <= WEIGHT_LIMIT || r.used == weight,
        r.new_window || elapsed_ms + r.wait_ms < WEIGHT_WINDOW_MS,
{
    if elapsed_ms >= WEIGHT_WINDOW_MS {
        WeightStep { wait_ms: 0, new_window: true, used: weight }
    } else if used <= WEIGHT_LIMIT && weight <= WEIGHT_LIMIT - used {
        WeightStep { wait_ms: 0, new_window: false, used: used + weight }
    } else {
        WeightStep { wait_ms: WEIGHT_WINDOW_MS - elapsed_ms, new_window: true, used: weight }
    }
}

/// Whether a request needs one of the permits for orders.
pub fn is_order_endpoint(path: &str) -> (r: bool)
    ensures
        r == (path@ == "/fapi/v1/order"@ || path@ == "/fapi/v1/marginType"@ || path@
            == "/fapi/v1/leverage"@),
{
    same_text(path, "/fapi/v1/order") || same_text(path, "/fapi/v1/marginType") || same_text(
        path,
        "/fapi/v1/leverage",
    )
}

/// The integer nearest to zero of a division by two, as Rust divides.
pub open spec fn half_toward_zero(n: int) -> int {
    if n < 0 {
        -((-n) / 2)
    } else {
        n / 2
    }
}

/// How far the clock of the exchange is ahead: its time less the middle between
/// the local times before and after it was asked, in milliseconds.
pub fn server_time_offset(before: i64, server: i64, after: i64) -> (r: i64)
    requires
        i64::MIN <= before + after <= i64::MAX,
        i64::MIN <= server - half_toward_zero(before + after) <= i64::MAX,
    ensures
        r == server - half_toward_zero(before + after),
{
    let total: i64 = before + after;
    let middle: i64 = if total < 0 {
        if total == i64::MIN {
            -4611686018427387904
        } else {
            -((-total) / 2)
        }
    } else {
        total / 2
    };
    server - middle
}

/// The local time on the clock of the exchange.
pub fn synced_timestamp(now: i64, offset: i64) -> (r: i64)
    requires
        i64::MIN <= now + offset <= i64::MAX,
    ensures
        r == now + offset,
{
    now + offset
}

/// The pause before the next attempt: twice the last, up to the longest.
pub fn next_retry_delay(secs: u64) -> (r: u64)
    ensures
        r == if secs * 2 > MAX_RETRY_DELAY_SECS {
            MAX_RETRY_DELAY_SECS as int
        } else {
            secs * 2
        },
        r <= MAX_RETRY_DELAY_SECS,
{
    if secs > MAX_RETRY_DELAY_SECS / 2 {
        MAX_RETRY_DELAY_SECS
    } else {
        secs * 2
    }
}

/// The side of a position.
#[derive(Clone, Copy, Debug, PartialEq, Eq, Structural)]
pub enum PositionSide {
    Long,
    Short,
}

/// The word of the exchange for an order that opens a position on this side.
pub open spec fn side_word(side: PositionSide) -> Seq<char> {
    match side {
        PositionSide::Long => "BUY"@,
        PositionSide::Short => "SELL"@,
    }
}

impl PositionSide {
    pub fn to_binance_str(&self) -> (r: &'static str)
        ensures
            r@ == side_word(*self),
    {
        match self {
            PositionSide::Long => "BUY",
            PositionSide::Short => "SELL",
        }
    }
}

/// An order to be sent.
#[derive(Debug)]
pub struct NewOrderRequest {
    pub symbol: String,
    pub side: PositionSide,
    pub quantity: Dec,
    pub reduce_only: bool,
    pub client_order_id: Option<String>,
}

/// The parameters of an order. With a price it is a limit order that rests until
/// it is cancelled, without one a market order.
pub open spec fn order_pairs(
    order: NewOrderRequest,
    quantity: Seq<char>,
    price: Option<Seq<char>>,
) -> Seq<(Seq<char>, Seq<char>)> {
    let head = seq![
        ("symbol"@, order.symbol@),
        ("side"@, side_word(order.side)),
        ("type"@, if price is Some { "LIMIT"@ } else { "MARKET"@ }),
        ("quantity"@, quantity),
    ];
    let priced = match price {
        Some(p) => head.push(("price"@, p)).push(("timeInForce"@, "GTC"@)),
        None => head,
    };
    let reducing = if order.reduce_only {
        priced.push(("reduceOnly"@, "true"@))
    } else {
        priced
    };
    match order.client_order_id {
        Some(id) => reducing.push(("newClientOrderId"@, id@)),
        None => reducing,
    }
}

/// The price that an order is sent with: none for one that reduces a position.
pub open spec fn sent_price(order: NewOrderRequest, limit_price: Option<Seq<char>>) -> Option<
    Seq<char>,
> {
    if order.reduce_only {
        None
    } else {
        limit_price
    }
}

/// Appends a parameter.
pub fn push_param(v: &mut Vec<(String, String)>, name: &str, value: &str)
    ensures
        pairs(final(v)@) == pairs(old(v)@).push((name@, value@)),
{
    v.push((name.to_owned(), value.to_owned()));
    assert(pairs(v@) =~= pairs(old(v)@).push((name@, value@)));
}

/// The parameters of an order. One that reduces a position is a market order; any
/// other is a limit order where there is a price for it.
pub fn order_params(order: &NewOrderRequest, quantity: &str, limit_price: Option<&str>) -> (r:
    Result<Vec<(String, String)>, ConnectionError>)
    ensures
        order.quantity@ <= 0 ==> r == Err::<Vec<(String, String)>, ConnectionError>(
            ConnectionError::QuantityNotPositive,
        ),
        order.quantity@ > 0 ==> (r matches Ok(v) && pairs(v@) == order_pairs(
            *order,
            quantity@,
            sent_price(*order, optional(limit_price)),
        )),
{
    if !order.quantity.is_positive() {
        return Err(ConnectionError::QuantityNotPositive);
    }
    let price: Option<&str> = if order.reduce_only {
        None
    } else {
        limit_price
    };
    let mut v: Vec<(String, String)> = Vec::new();
    assert(pairs(v@) =~= Seq::<(Seq<char>, Seq<char>)>::empty());
    push_param(&mut v, "symbol", order.symbol.as_str());
    push_param(&mut v, "side", order.side.to_binance_str());
    if price.is_some() {
        push_param(&mut v, "type", "LIMIT");
    } else {
        push_param(&mut v, "type", "MARKET");
    }
    push_param(&mut v, "quantity", quantity);
    assert(pairs(v@) =~= seq![
        ("symbol"@, order.symbol@),
        ("side"@, side_word(order.side)),
        ("type"@, if price is Some { "LIMIT"@ } else { "MARKET"@ }),
        ("quantity"@, quantity@),
    ]);
    if let Some(p) = price {
        push_param(&mut v, "price", p);
        push_param(&mut v, "timeInForce", "GTC");
    }
    if order.reduce_only {
        push_param(&mut v, "reduceOnly", "true");
    }
    if let Some(id) = &order.client_order_id {
        push_param(&mut v, "newClientOrderId", id.as_str());
    }
    Ok(v)
}

/// An order that reduces a position is a market order that says so, whatever price
/// there is; one that opens a position never says so.
pub proof fn law_reducing_orders(
    order: NewOrderRequest,
    quantity: Seq<char>,
    limit_price: Option<Seq<char>>,
)
    ensures
        order.reduce_only ==> order_pairs(order, quantity, sent_price(order, limit_price))[2] == (
            "type"@,
            "MARKET"@,
        ) && order_pairs(order, quantity, sent_price(order, limit_price))[4] == (
            "reduceOnly"@,
            "true"@,
        ),
        !order.reduce_only ==> forall|i: int|
            0 <= i < order_pairs(order, quantity, sent_price(order, limit_price)).len() ==> (
            #[trigger] order_pairs(order, quantity, sent_price(order, limit_price))[i]).0
                != "reduceOnly"@,
{
    reveal_strlit("reduceOnly");
    reveal_strlit("symbol");
    reveal_strlit("side");
    reveal_strlit("type");
    reveal_strlit("quantity");
    reveal_strlit("price");
    reveal_strlit("timeInForce");
    reveal_strlit("newClientOrderId");
    assert("reduceOnly"@.len() == 10);
    assert("symbol"@.len() != 10
        && "side"@.len() != 10
        && "type"@.len() != 10
        && "quantity"@.len() != 10
        && "price"@.len() != 10
        && "timeInForce"@.len() != 10
        && "newClientOrderId"@.len() != 10);
}

/// The word of the exchange for how margin is held.
pub open spec fn margin_type_word(isolated: bool) -> Seq<char> {
    if isolated {
        "ISOLATED"@
    } else {
        "CROSSED"@
    }
}

/// The parameters for setting how margin is held.
pub fn margin_mode_params(symbol: &str, isolated: bool) -> (r: Vec<(String, String)>)
    ensures
        pairs(r@) == seq![("symbol"@, symbol@), ("marginType"@, margin_type_word(isolated))],
{
    let mut v: Vec<(String, String)> = Vec::new();
    assert(pairs(v@) =~= Seq::<(Seq<char>, Seq<char>)>::empty());
    push_param(&mut v, "symbol", symbol);
    if isolated {
        push_param(&mut v, "marginType", "ISOLATED");
    } else {
        push_param(&mut v, "marginType", "CROSSED");
    }
    assert(pairs(v@) =~= seq![
        ("symbol"@, symbol@),
        ("marginType"@, margin_type_word(isolated)),
    ]);
    v
}

/// Refuses a leverage that is not positive or above the maximum of the symbol.
pub fn check_leverage(leverage: Dec, max_leverage: Dec) -> (r: Result<(), ConnectionError>)
    ensures
        r == if leverage@ <= 0 {
            Err::<(), ConnectionError>(ConnectionError::LeverageNotPositive)
        } else if leverage@ > max_leverage@ {
            Err(ConnectionError::LeverageAboveMaximum)
        } else {
            Ok(())
        },
{
    if !leverage.is_positive() {
        return Err(ConnectionError::LeverageNotPositive);
    }
    if max_leverage.lt(&leverage) {
        return Err(ConnectionError::LeverageAboveMaximum);
    }
    Ok(())
}

/// Requests of one minute weigh 2400 at most, save for one that is heavier alone. While there is
/// room a request goes at once and is added to the minute; without room it waits for the minute
/// to end, and is the first of the next.
pub proof fn law_weights(used: u32, elapsed_ms: u64, weight: u32)
    ensures
        ({
            let s = fitted(used, elapsed_ms, weight);
            &&& elapsed_ms >= 60000 ==> s.wait_ms == 0 && s.new_window && s.used == weight
            &&& elapsed_ms < 60000 && used + weight <= 2400 ==> s.wait_ms == 0 && !s.new_window
                && s.used == used + weight
            &&& elapsed_ms < 60000 && used + weight > 2400 ==> s.wait_ms + elapsed_ms == 60000
                && s.new_window && s.used == weight
        }),
{
}

/// The weights of requests: lists of forced orders weigh most, then balances and the risk of
/// positions, and everything else weighs one.
pub proof fn law_endpoint_weights(path: Seq<char>)
    ensures
        endpoint_weight("/fapi/v1/forceOrders"@) == 20,
        endpoint_weight("/fapi/v2/balance"@) == 5,
        endpoint_weight("/fapi/v2/positionRisk"@) == 5,
        path != "/fapi/v1/forceOrders"@ && path != "/fapi/v2/balance"@ && path
            != "/fapi/v2/positionRisk"@ ==> endpoint_weight(path) == 1,
{
    reveal_strlit("/fapi/v1/forceOrders");
    reveal_strlit("/fapi/v2/balance");
    reveal_strlit("/fapi/v2/positionRisk");
    assert("/fapi/v1/forceOrders"@[7] != "/fapi/v2/balance"@[7]);
    assert("/fapi/v1/forceOrders"@[7] != "/fapi/v2/positionRisk"@[7]);
}

/// Halves toward zero: twice the half is the number or next to it, never further from zero.
pub proof fn law_half_toward_zero(n: int)
    ensures
        n >= 0 ==> 0 <= n - 2 * half_toward_zero(n) <= 1,
        n <= 0 ==> -1 <= n - 2 * half_toward_zero(n) <= 0,
{
}

/// What an order says: its symbol, its side, its quantity; a price, good until it is cancelled,
/// exactly where there is one, and otherwise what the market pays; and the client's id last.
pub proof fn law_orders_say(order: NewOrderRequest, quantity: Seq<char>, price: Option<Seq<char>>)
    ensures
        ({
            let p = order_pairs(order, quantity, price);
            &&& p[0] == ("symbol"@, order.symbol@)
            &&& order.side is Long ==> p[1] == ("side"@, "BUY"@)
            &&& order.side is Short ==> p[1] == ("side"@, "SELL"@)
            &&& p[3] == ("quantity"@, quantity)
            &&& price matches Some(x) ==> p[2] == ("type"@, "LIMIT"@) && p[4] == ("price"@, x)
                && p[5] == ("timeInForce"@, "GTC"@)
            &&& price is None ==> p[2] == ("type"@, "MARKET"@)
            &&& order.client_order_id matches Some(id) ==> p.last() == ("newClientOrderId"@, id@)
            &&& p.len() == 4 + (if price is Some {
                2int
            } else {
                0
            }) + (if order.reduce_only {
                1int
            } else {
                0
            }) + (if order.client_order_id is Some {
                1int
            } else {
                0
            })
        }),
{
}

/// A price is never sent with an order that only reduces, and always with another that has one.
pub proof fn law_prices_sent(order: NewOrderRequest, limit_price: Option<Seq<char>>)
    ensures
        order.reduce_only ==> sent_price(order, limit_price) is None,
        !order.reduce_only ==> sent_price(order, limit_price) == limit_price,
{
}

/// No slash is left at the end, and nothing else is taken off.
pub proof fn law_trimmed(s: Seq<char>, c: char)
    ensures
        trimmed_end(s, c).len() > 0 ==> trimmed_end(s, c).last() != c,
        trimmed_end(s, c).len() <= s.len(),
        trimmed_end(s, c) == s.take(trimmed_end(s, c).len() as int),
        forall|i: int| trimmed_end(s, c).len() <= i < s.len() ==> #[trigger] s[i] == c,
    decreases s.len(),
{
    if s.len() > 0 && s.last() == c {
        let head = s.drop_last();
        law_trimmed(head, c);
        let t = trimmed_end(s, c);
        assert(head.take(t.len() as int) =~= s.take(t.len() as int));
        assert forall|i: int| t.len() <= i < s.len() implies #[trigger] s[i] == c by {
            if i < head.len() {
                assert(head[i] == s[i]);
            }
        }
    } else {
        assert(s.take(s.len() as int) =~= s);
    }
}

} // verus!
