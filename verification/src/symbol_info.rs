//! What the exchange tells of a symbol, and orders made to fit it.
use vstd::prelude::*;

use vstd::arithmetic::div_mod::{
    lemma_fundamental_div_mod, lemma_fundamental_div_mod_converse, lemma_mod_bound,
    lemma_mod_multiples_basic,
};
use vstd::arithmetic::power::{lemma_pow_adds, lemma_pow_positive};

use crate::arith::{lit, mul_opt, times};
use crate::connection::{order_pairs, order_params, ConnectionError, NewOrderRequest, PositionSide};
use crate::decimal::{
    dec_of, floored, lemma_bounds, lemma_dec_of, lemma_powers, lemma_value, one, pow10, quotient, sum,
    Dec,
};
use crate::figures::{find_nearest, nearest, power_of_ten, rounded, rounded_text};
use crate::json::{read_text, text_at, Json};
use crate::numbers::{plain_number, read_plain};
use crate::quant::{
    checked_quantize_decimal, decimal_places, fewest_places, lemma_fewest_not_above,
    lemma_floor_in_bounds, quantized,
};
use crate::rounding::{can_be_held, law_exact_is_kept, rounds_to};
use crate::signals::size_of_value;
use crate::signing::pairs;
use crate::text::same_text;

verus! {

/// The precision of a symbol. Where there is no largest quantity or price, none is given.
#[derive(Clone, Copy, Debug)]
pub struct SymbolPrecision {
    pub step_size: Dec,
    pub min_quantity: Dec,
    pub max_quantity: Option<Dec>,
    pub tick_size: Dec,
    pub min_price: Dec,
    pub max_price: Option<Dec>,
}

/// A filter of a symbol: a type, and an object with texts.
#[derive(Debug)]
pub struct SymbolFilter {
    pub filter_type: String,
    pub data: Json,
}

/// A symbol as the exchange describes it.
#[derive(Debug)]
pub struct ExchangeSymbol {
    pub symbol: String,
    pub filters: Vec<SymbolFilter>,
}

/// The number that a text stands for, or another where it stands for none.
pub open spec fn parsed_or(text: Seq<char>, default: Dec) -> Dec {
    match plain_number(text) {
        Some(d) => d,
        None => default,
    }
}

fn parse_or(text: &str, default: Dec) -> (r: Dec)
    ensures
        r == parsed_or(text@, default),
{
    match read_plain(text) {
        Some(d) => d,
        None => default,
    }
}

/// The precision of a symbol without filters.
pub open spec fn default_precision() -> SymbolPrecision {
    SymbolPrecision {
        step_size: dec_of(1, 3),
        min_quantity: dec_of(1, 3),
        max_quantity: None,
        tick_size: dec_of(1, 2),
        min_price: dec_of(0, 0),
        max_price: None,
    }
}

/// The precision with one filter more. A filter for lots or prices counts where it
/// has its three texts.
pub open spec fn with_filter(p: SymbolPrecision, f: SymbolFilter) -> SymbolPrecision {
    if f.filter_type@ == "LOT_SIZE"@ {
        match (text_at(f.data, "stepSize"@), text_at(f.data, "minQty"@), text_at(f.data, "maxQty"@)) {
            (Some(step), Some(least), Some(most)) => SymbolPrecision {
                step_size: parsed_or(step, dec_of(1, 3)),
                min_quantity: parsed_or(least, dec_of(1, 3)),
                max_quantity: plain_number(most),
                ..p
            },
            _ => p,
        }
    } else if f.filter_type@ == "PRICE_FILTER"@ {
        match (
            text_at(f.data, "tickSize"@),
            text_at(f.data, "minPrice"@),
            text_at(f.data, "maxPrice"@),
        ) {
            (Some(tick), Some(least), Some(most)) => SymbolPrecision {
                tick_size: parsed_or(tick, dec_of(1, 2)),
                min_price: parsed_or(least, dec_of(0, 0)),
                max_price: plain_number(most),
                ..p
            },
            _ => p,
        }
    } else {
        p
    }
}

fn apply_filter(p: SymbolPrecision, f: &SymbolFilter) -> (r: SymbolPrecision)
    ensures
        r == with_filter(p, *f),
{
    let kind = f.filter_type.as_str();
    if same_text(kind, "LOT_SIZE") {
        match (
            read_text(&f.data, "stepSize"),
            read_text(&f.data, "minQty"),
            read_text(&f.data, "maxQty"),
        ) {
            (Some(step), Some(least), Some(most)) => SymbolPrecision {
                step_size: parse_or(step, Dec::new(1, 3)),
                min_quantity: parse_or(least, Dec::new(1, 3)),
                max_quantity: read_plain(most),
                ..p
            },
            _ => p,
        }
    } else if same_text(kind, "PRICE_FILTER") {
        match (
            read_text(&f.data, "tickSize"),
            read_text(&f.data, "minPrice"),
            read_text(&f.data, "maxPrice"),
        ) {
            (Some(tick), Some(least), Some(most)) => SymbolPrecision {
                tick_size: parse_or(tick, Dec::new(1, 2)),
                min_price: parse_or(least, Dec::new(0, 0)),
                max_price: read_plain(most),
                ..p
            },
            _ => p,
        }
    } else {
        p
    }
}

/// The precision with the first `n` filters.
pub open spec fn precision_of(filters: Seq<SymbolFilter>, n: nat) -> SymbolPrecision
    decreases n,
{
    if n == 0 {
        default_precision()
    } else {
        with_filter(precision_of(filters, (n - 1) as nat), filters[n - 1])
    }
}

/// The symbol at `i` is the first with this name.
pub open spec fn first_symbol(symbols: Seq<ExchangeSymbol>, name: Seq<char>, i: int) -> bool {
    &&& 0 <= i < symbols.len()
    &&& symbols[i].symbol@ == name
    &&& forall|j: int| 0 <= j < i ==> #[trigger] symbols[j].symbol@ != name
}

/// The precision of a symbol; none where the exchange does not know it.
pub fn fetch_symbol_info(symbols: &Vec<ExchangeSymbol>, symbol: &str) -> (r: Option<
    SymbolPrecision,
>)
    ensures
        match r {
            Some(p) => exists|i: int| #[trigger]
                first_symbol(symbols@, symbol@, i) && p == precision_of(
                    symbols@[i].filters@,
                    symbols@[i].filters@.len(),
                ),
            None => forall|j: int|
                0 <= j < symbols@.len() ==> #[trigger] symbols@[j].symbol@ != symbol@,
        },
{
    let mut i: usize = 0;
    while i < symbols.len()
        invariant
            i <= symbols@.len(),
            forall|j: int| 0 <= j < i ==> #[trigger] symbols@[j].symbol@ != symbol@,
        decreases symbols.len() - i,
    {
        if same_text(symbols[i].symbol.as_str(), symbol) {
            let filters = &symbols[i].filters;
            let mut p = SymbolPrecision {
                step_size: Dec::new(1, 3),
                min_quantity: Dec::new(1, 3),
                max_quantity: None,
                tick_size: Dec::new(1, 2),
                min_price: Dec::new(0, 0),
                max_price: None,
            };
            let mut k: usize = 0;
            while k < filters.len()
                invariant
                    k <= filters@.len(),
                    p == precision_of(filters@, k as nat),
                decreases filters.len() - k,
            {
                p = apply_filter(p, &filters[k]);
                k += 1;
            }
            assert(first_symbol(symbols@, symbol@, i as int));
            return Some(p);
        }
        i += 1;
    }
    None
}

/// A number rounded to an integer, away from zero where it is in the middle.
pub open spec fn rounded_away(q: Dec) -> Option<Dec> {
    if q@ < 0 {
        match sum(dec_of(-q.num(), q.places()), dec_of(5, 1)) {
            Some(s) => lit(-floored(s), 0),
            None => None,
        }
    } else {
        match sum(q, dec_of(5, 1)) {
            Some(s) => lit(floored(s), 0),
            None => None,
        }
    }
}

/// The steps to the nearest whole number, halves away from zero: half of one more is cut.
pub open spec fn nearest_by(size: int, s: int, n: int) -> bool {
    &&& rounds_to(size + 5_000_000_000_000_000_000_000_000_000, 1, s)
    &&& n == (s / one()) * one()
}

/// `n` is the whole number that is nearest to `q`.
pub open spec fn nearest_told(q: int, n: int) -> bool {
    if q < 0 {
        exists|s: int| #[trigger] nearest_by(-q, s, -n)
    } else {
        exists|s: int| #[trigger] nearest_by(q, s, n)
    }
}

/// A whole number of steps is at most half a step away, and just that only away from zero.
pub proof fn law_nearest_whole(q: int, n: int)
    requires
        nearest_told(q, n),
        can_be_held(size_of_value(q) + 5_000_000_000_000_000_000_000_000_000),
    ensures
        n % one() == 0,
        -one() <= 2 * (n - q) <= one(),
        q >= 0 ==> 2 * (n - q) > -one(),
        q < 0 ==> 2 * (n - q) < one(),
{
    let size = size_of_value(q);
    let whole = if q < 0 {
        -n
    } else {
        n
    };
    let s = choose|s: int| #[trigger] nearest_by(size, s, whole);
    law_exact_is_kept(
        size + 5_000_000_000_000_000_000_000_000_000,
        1,
        s,
        size + 5_000_000_000_000_000_000_000_000_000,
    );
}

/// The value of a number without its fraction.
proof fn lemma_floor_value(d: Dec)
    requires
        d.wf(),
    ensures
        floored(d) == d@ / one(),
{
    lemma_powers();
    lemma_bounds(d);
    let p = d.places();
    let t = pow10(p);
    let u = pow10((28 - p) as nat);
    lemma_pow_positive(10, p);
    lemma_pow_positive(10, (28 - p) as nat);
    lemma_pow_adds(10, p, (28 - p) as nat);
    let n = d.num();
    let k = n / t;
    let r = n % t;
    lemma_fundamental_div_mod(n, t);
    lemma_mod_bound(n, t);
    assert(n * u == k * (t * u) + r * u && 0 <= r * u < t * u) by (nonlinear_arith)
        requires
            n == t * k + r,
            0 <= r < t,
            u > 0,
    ;
    lemma_fundamental_div_mod_converse(n * u, t * u, k, r * u);
}

fn round_away(q: Dec) -> (r: Option<Dec>)
    ensures
        r == rounded_away(q),
        r matches Some(n) ==> nearest_told(q@, n@),
{
    proof {
        lemma_powers();
        lemma_value(5, 1);
    }
    let half = Dec::new(5, 1);
    if q.is_sign_negative() {
        let size = q.neg();
        proof {
            use_type_invariant(&q);
            lemma_bounds(q);
            lemma_dec_of(size.num(), size.places());
        }
        match size.checked_add(&half) {
            Some(s) => {
                let n = s.floor();
                let r = n.neg();
                proof {
                    use_type_invariant(&s);
                    lemma_floor_in_bounds(s);
                    lemma_dec_of(floored(s), 0);
                    lemma_dec_of(-floored(s), 0);
                    assert(r == dec_of(r.num(), r.places()));
                    lemma_floor_value(s);
                    lemma_value(-floored(s), 0);
                    assert(size@ == -q@);
                    assert(nearest_by(-q@, s@, -r@));
                }
                Some(r)
            },
            None => None,
        }
    } else {
        match q.checked_add(&half) {
            Some(s) => {
                let r = s.floor();
                proof {
                    use_type_invariant(&s);
                    lemma_floor_in_bounds(s);
                    lemma_floor_value(s);
                    lemma_value(floored(s), 0);
                    assert(nearest_by(q@, s@, r@));
                }
                Some(r)
            },
            None => None,
        }
    }
}

/// The price to trade at once: the other side's best, on a tick.
pub open spec fn limit_price(side: PositionSide, best_bid: Dec, best_ask: Dec, tick_size: Dec) ->
    Option<Dec> {
    let price = match side {
        PositionSide::Long => best_ask,
        PositionSide::Short => best_bid,
    };
    if tick_size@ > 0 {
        match quotient(price, tick_size) {
            Some(q) => times(rounded_away(q), Some(tick_size)),
            None => None,
        }
    } else {
        Some(price)
    }
}

/// The best price of the side that an order trades with.
pub open spec fn best_of(side: PositionSide, best_bid: Dec, best_ask: Dec) -> Dec {
    match side {
        PositionSide::Long => best_ask,
        PositionSide::Short => best_bid,
    }
}

/// The steps to a price in whole ticks: the nearest number of ticks, times the tick.
pub open spec fn price_by(price: int, tick: int, q: int, n: int, v: int) -> bool {
    &&& rounds_to(price * one(), tick, q)
    &&& nearest_told(q, n)
    &&& rounds_to(n * tick, one(), v)
}

pub open spec fn price_told(price: int, tick: int, v: int) -> bool {
    &&& tick <= 0 ==> v == price
    &&& tick > 0 ==> exists|q: int, n: int| #[trigger] price_by(price, tick, q, n, v)
}

/// A limit price is a whole number of ticks and at most half a tick from the best price, where the
/// steps can be held and the price is not halfway between two ticks.
pub proof fn law_limit_prices(price: int, tick: int, v: int, q: int, count: int)
    requires
        price_told(price, tick, v),
        tick > 0,
        can_be_held(q),
        q * tick == price * one(),
        can_be_held(size_of_value(q) + 5_000_000_000_000_000_000_000_000_000),
        -one() <= 2 * (count * one() - q) <= one(),
        can_be_held(count * tick),
        size_of_value(2 * q) % (2 * one()) != one(),
    ensures
        v % tick == 0,
        -tick <= 2 * (v - price) <= tick,
{
    let (x, n) = choose|x: int, n: int| #[trigger] price_by(price, tick, x, n, v);
    law_exact_is_kept(price * one(), tick, x, q);
    law_nearest_whole(q, n);
    let k = n / one();
    assert(n == k * one());
    assert(n * tick == (k * tick) * one()) by (nonlinear_arith)
        requires
            n == k * one(),
    ;
    assert(k == count);
    law_exact_is_kept(n * tick, one(), v, k * tick);
    lemma_mod_multiples_basic(k, tick);
    assert(-tick <= 2 * (v - price) <= tick) by (nonlinear_arith)
        requires
            v == k * tick,
            q * tick == price * one(),
            n == k * one(),
            -one() <= 2 * (n - q) <= one(),
            tick > 0,
    ;
}

/// The price to trade at once. `None` where a number cannot be held.
pub fn calculate_limit_price(
    side: PositionSide,
    best_bid: Dec,
    best_ask: Dec,
    tick_size: Dec,
) -> (r: Option<Dec>)
    ensures
        r == limit_price(side, best_bid, best_ask, tick_size),
        r matches Some(v) ==> price_told(
            best_of(side, best_bid, best_ask)@,
            tick_size@,
            v@,
        ),
{
    proof {
        lemma_powers();
    }
    let price = match side {
        PositionSide::Long => best_ask,
        PositionSide::Short => best_bid,
    };
    if tick_size.is_positive() {
        match price.checked_div(&tick_size) {
            Some(q) => {
                let n = round_away(q);
                let r = mul_opt(n, Some(tick_size));
                proof {
                    if r is Some {
                        assert(price_by(price@, tick_size@, q@, n->0@, r->0@));
                    }
                }
                r
            },
            None => None,
        }
    } else {
        Some(price)
    }
}

/// Why there is no price for an order.
#[derive(Clone, Copy, Debug, PartialEq, Eq, Structural)]
pub enum PriceError {
    InvalidBestBid,
    InvalidBestAsk,
    UnknownSymbol,
    Overflow,
}

/// The first number of a side of the book.
pub open spec fn first_price(levels: Seq<(String, String)>) -> Option<Dec> {
    if levels.len() == 0 {
        None
    } else {
        plain_number(levels[0].0@)
    }
}

fn read_first_price(levels: &Vec<(String, String)>) -> (r: Option<Dec>)
    ensures
        r == first_price(levels@),
{
    if levels.len() == 0 {
        None
    } else {
        read_plain(levels[0].0.as_str())
    }
}

/// The price of an order in a symbol: the other side's best in a book, on a tick.
pub fn calculate_order_price(
    bids: &Vec<(String, String)>,
    asks: &Vec<(String, String)>,
    info: Option<&SymbolPrecision>,
    side: PositionSide,
) -> (r: Result<Dec, PriceError>)
    ensures
        r == match (first_price(bids@), first_price(asks@)) {
            (None, _) => Err::<Dec, PriceError>(PriceError::InvalidBestBid),
            (_, None) => Err(PriceError::InvalidBestAsk),
            (Some(bid), Some(ask)) => match info {
                None => Err(PriceError::UnknownSymbol),
                Some(p) => match limit_price(side, bid, ask, p.tick_size) {
                    Some(price) => Ok(price),
                    None => Err(PriceError::Overflow),
                },
            },
        },
{
    let bid = match read_first_price(bids) {
        Some(b) => b,
        None => return Err(PriceError::InvalidBestBid),
    };
    let ask = match read_first_price(asks) {
        Some(a) => a,
        None => return Err(PriceError::InvalidBestAsk),
    };
    match info {
        None => Err(PriceError::UnknownSymbol),
        Some(p) => match calculate_limit_price(side, bid, ask, p.tick_size) {
            Some(price) => Ok(price),
            None => Err(PriceError::Overflow),
        },
    }
}

/// The best prices of a book, where both sides have a positive one.
pub open spec fn positive_best(bids: Seq<(String, String)>, asks: Seq<(String, String)>) -> Option<
    (Dec, Dec),
> {
    match (first_price(bids), first_price(asks)) {
        (Some(b), Some(a)) => if b@ > 0 && a@ > 0 {
            Some((b, a))
        } else {
            None
        },
        _ => None,
    }
}

/// The best prices of a book, where both sides have a positive one.
pub fn usable_best_prices(bids: &Vec<(String, String)>, asks: &Vec<(String, String)>) -> (r: Option<
    (Dec, Dec),
>)
    ensures
        r == positive_best(bids@, asks@),
{
    match (read_first_price(bids), read_first_price(asks)) {
        (Some(b), Some(a)) => if b.is_positive() && a.is_positive() {
            Some((b, a))
        } else {
            None
        },
        _ => None,
    }
}

/// A quantity rounded down to a step; the quantity itself where there is no step.
/// `None` where a number cannot be held.
pub fn round_to_step_size(quantity: Dec, step_size: Dec) -> (r: Option<Dec>)
    ensures
        r == quantized(quantity, step_size),
{
    checked_quantize_decimal(quantity, step_size)
}

/// The digits of `n` that are left of its trailing zeros, of `k` digits.
pub open spec fn trimmed(n: nat, k: nat) -> nat
    decreases k,
{
    if k > 0 && n % 10 == 0 {
        trimmed(n / 10, (k - 1) as nat)
    } else {
        k
    }
}

fn trim(n: u128, k: u32) -> (r: u32)
    ensures
        r == trimmed(n as nat, k as nat),
        r <= k,
    decreases k,
{
    if k > 0 && n % 10 == 0 {
        trim(n / 10, k - 1)
    } else {
        k
    }
}

/// The decimal places of a step that needs `k`, when it is written with ten: those
/// that it needs, or those that are left when it is rounded.
pub open spec fn places_of_ten(step: Dec, k: nat) -> nat {
    if k <= 10 {
        k
    } else {
        trimmed(
            nearest(
                if step.num() < 0 {
                    0
                } else {
                    step.num() as nat
                },
                pow10((step.places() - 10) as nat) as nat,
            ),
            10,
        )
    }
}

/// The decimal places that a quantity is written with: those of its step, eight at most.
pub open spec fn written_places(step: Dec, k: nat) -> nat {
    if step@ <= 0 || places_of_ten(step, k) > 8 {
        8
    } else {
        places_of_ten(step, k)
    }
}

/// A quantity with the decimal places of its step.
pub fn format_quantity(quantity: Dec, step_size: Dec) -> (r: String)
    ensures
        exists|k: nat| #[trigger]
            fewest_places(step_size, k) && r@ == rounded(quantity, written_places(step_size, k)),
{
    let k: usize = decimal_places(step_size);
    assert(fewest_places(step_size, k as nat));
    if !step_size.is_positive() {
        return rounded_text(quantity, 8);
    }
    let places: u32 = if k <= 10 {
        k as u32
    } else {
        proof {
            use_type_invariant(&step_size);
            lemma_bounds(step_size);
            lemma_fewest_not_above(step_size, k as nat);
        }
        let unit: u128 = power_of_ten(step_size.scale() - 10);
        let n: u128 = find_nearest(step_size.mantissa() as u128, unit);
        trim(n, 10)
    };
    if places > 8 {
        rounded_text(quantity, 8)
    } else {
        rounded_text(quantity, places)
    }
}

/// `text` is a quantity with the decimal places of its step.
pub open spec fn is_written(text: Seq<char>, quantity: Dec, step_size: Dec) -> bool {
    exists|k: nat| #[trigger]
        fewest_places(step_size, k) && text == rounded(quantity, written_places(step_size, k))
}

/// What is sent for an order: the quantity on a step and, where it opens a position
/// in a market with prices, the price on a tick.
pub open spec fn order_sent(
    sent: Seq<(Seq<char>, Seq<char>)>,
    order: NewOrderRequest,
    info: SymbolPrecision,
    best: Option<(Dec, Dec)>,
    quantity: Seq<char>,
    price: Option<Seq<char>>,
) -> bool {
    &&& quantized(order.quantity, info.step_size) matches Some(q) && is_written(
        quantity,
        q,
        info.step_size,
    )
    &&& match (order.reduce_only, best) {
        (false, Some((bid, ask))) => price is Some && (limit_price(
            order.side,
            bid,
            ask,
            info.tick_size,
        ) matches Some(p) && is_written(price->0, p, info.tick_size)),
        _ => price is None,
    }
    &&& sent == order_pairs(order, quantity, price)
}

/// An order that opens a position in a market with prices has no price that can be held.
pub open spec fn no_limit_price(
    order: NewOrderRequest,
    info: SymbolPrecision,
    best: Option<(Dec, Dec)>,
) -> bool {
    match (order.reduce_only, best) {
        (false, Some((bid, ask))) => limit_price(order.side, bid, ask, info.tick_size) is None,
        _ => false,
    }
}

/// The parameters of an order. It is a market order where it reduces a position or
/// where the market has no prices; any other is a limit order at the other side's best.
pub fn send_order(order: &NewOrderRequest, info: &SymbolPrecision, best: Option<(Dec, Dec)>) -> (r:
    Result<Vec<(String, String)>, ConnectionError>)
    ensures
        match r {
            Ok(v) => order.quantity@ > 0 && exists|q: Seq<char>, p: Option<Seq<char>>| #[trigger]
                order_sent(pairs(v@), *order, *info, best, q, p),
            Err(e) => if order.quantity@ <= 0 {
                e == ConnectionError::QuantityNotPositive
            } else {
                &&& e == ConnectionError::Overflow
                &&& quantized(order.quantity, info.step_size) is None || no_limit_price(
                    *order,
                    *info,
                    best,
                )
            },
        },
{
    if !order.quantity.is_positive() {
        return Err(ConnectionError::QuantityNotPositive);
    }
    let rounded_qty = match round_to_step_size(order.quantity, info.step_size) {
        Some(q) => q,
        None => return Err(ConnectionError::Overflow),
    };
    let quantity = format_quantity(rounded_qty, info.step_size);
    let mut price: Option<String> = None;
    if !order.reduce_only {
        if let Some((bid, ask)) = best {
            match calculate_limit_price(order.side, bid, ask, info.tick_size) {
                Some(p) => {
                    price = Some(format_quantity(p, info.tick_size));
                },
                None => return Err(ConnectionError::Overflow),
            }
        }
    }
    let sent = match &price {
        Some(p) => order_params(order, quantity.as_str(), Some(p.as_str())),
        None => order_params(order, quantity.as_str(), None),
    };
    proof {
        let shown = match price {
            Some(p) => Some(p@),
            None => None,
        };
        assert(order_sent(pairs(sent->Ok_0@), *order, *info, best, quantity@, shown));
    }
    sent
}

/// The parameters of an order that is sent as a market order, for speed.
pub fn send_order_fast(order: &NewOrderRequest, info: &SymbolPrecision) -> (r: Result<
    Vec<(String, String)>,
    ConnectionError,
>)
    ensures
        match r {
            Ok(v) => order.quantity@ > 0 && exists|q: Seq<char>, p: Option<Seq<char>>| #[trigger]
                order_sent(pairs(v@), *order, *info, None, q, p),
            Err(e) => if order.quantity@ <= 0 {
                e == ConnectionError::QuantityNotPositive
            } else {
                e == ConnectionError::Overflow && quantized(order.quantity, info.step_size) is None
            },
        },
{
    send_order(order, info, None)
}

/// A filter of quantities sets those alone, and one of prices those alone; one that lacks a text, or
/// is of another kind, sets nothing; and a number that cannot be read is the default.
pub proof fn law_filters(p: SymbolPrecision, f: SymbolFilter)
    ensures
        ({
            let r = with_filter(p, f);
            let lots = f.filter_type@ == "LOT_SIZE"@;
            let prices = f.filter_type@ == "PRICE_FILTER"@;
            &&& !lots ==> r.step_size == p.step_size && r.min_quantity == p.min_quantity
                && r.max_quantity == p.max_quantity
            &&& lots ==> r.tick_size == p.tick_size && r.min_price == p.min_price && r.max_price
                == p.max_price
            &&& !lots && !prices ==> r == p
            &&& lots ==> (text_at(f.data, "stepSize"@) matches Some(t) ==> (text_at(
                f.data,
                "minQty"@,
            ) is Some && text_at(f.data, "maxQty"@) is Some ==> (plain_number(t) matches Some(d)
                ==> r.step_size == d) && (plain_number(t) is None ==> 1000 * r.step_size@ == one())
                && r.max_quantity == plain_number(text_at(f.data, "maxQty"@)->0)))
            &&& prices && !lots ==> (text_at(f.data, "tickSize"@) matches Some(t) ==> (text_at(
                f.data,
                "minPrice"@,
            ) is Some && text_at(f.data, "maxPrice"@) is Some ==> (plain_number(t) matches Some(d)
                ==> r.tick_size == d) && (plain_number(t) is None ==> 100 * r.tick_size@ == one())
                && r.max_price == plain_number(text_at(f.data, "maxPrice"@)->0)))
        }),
{
    lemma_powers();
    lemma_value(1, 3);
    lemma_value(1, 2);
}

/// Without filters a step is a thousandth, and so is the smallest quantity, and a tick a hundredth.
pub proof fn law_default_precision()
    ensures
        ({
            let d = default_precision();
            &&& 1000 * d.step_size@ == one() && 1000 * d.min_quantity@ == one()
            &&& 100 * d.tick_size@ == one() && d.min_price@ == 0
            &&& d.max_quantity is None && d.max_price is None
        }),
{
    lemma_powers();
    lemma_value(1, 3);
    lemma_value(1, 2);
    lemma_value(0, 0);
}

/// An order that only reduces is sent without a price, and one that does not with that of the other
/// side of the market where it is known; nothing else of it is changed.
pub proof fn law_orders_sent(
    sent: Seq<(Seq<char>, Seq<char>)>,
    order: NewOrderRequest,
    info: SymbolPrecision,
    best: Option<(Dec, Dec)>,
    quantity: Seq<char>,
    price: Option<Seq<char>>,
)
    requires
        order_sent(sent, order, info, best, quantity, price),
    ensures
        price is Some <==> !order.reduce_only && best is Some,
        sent[0] == ("symbol"@, order.symbol@),
        sent[3] == ("quantity"@, quantity),
        quantized(order.quantity, info.step_size) matches Some(q) && is_written(
            quantity,
            q,
            info.step_size,
        ),
{
}

} // verus!
