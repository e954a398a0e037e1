//! The rules of a symbol, and orders that keep them.
use vstd::arithmetic::div_mod::{lemma_div_pos_is_pos, lemma_fundamental_div_mod, lemma_mod_bound};
use vstd::arithmetic::power::{lemma_pow_adds, lemma_pow_positive};
use vstd::prelude::*;

use crate::arith::mul_by;
use crate::connection::push_param;
use crate::decimal::{
    dec_of, dec_text, lemma_bounds, lemma_dec_of, lemma_powers, lemma_value, one, parsed, pow10,
    product, Dec,
};
use crate::quant::{
    abs_dec, abs_of, checked_quantize_decimal, fixed_text, format_decimal_fixed, is_quantized,
    law_multiple_below, lemma_abs, lemma_count_in_bounds, lemma_multiple_fits,
    lemma_quotient_in_bounds, multiple_below, quantized, scale_from_step, shortest, shortest_form,
    step_fits, step_scale,
};
use crate::query::{clocked, push_clock};
use crate::rounding::rounds_to;
use crate::signing::pairs;
use crate::types::{Px, Qty};

verus! {

/// The rules of a symbol.
#[derive(Clone, Copy, Debug)]
pub struct SymbolRules {
    pub tick_size: Dec,
    pub step_size: Dec,
    pub price_precision: usize,
    pub qty_precision: usize,
    pub min_notional: Dec,
    pub max_leverage: Option<u32>,
}

/// A filter of the exchange.
#[derive(Clone, Debug)]
pub enum FutFilter {
    PriceFilter { tick_size: String },
    LotSize { step_size: String },
    MinNotional { notional: String },
    Other,
}

/// A symbol as the exchange lists it.
#[derive(Clone, Debug)]
pub struct FutExchangeSymbol {
    pub symbol: String,
    pub base_asset: String,
    pub quote_asset: String,
    pub contract_type: String,
    pub status: String,
    pub filters: Vec<FutFilter>,
    pub price_precision: Option<usize>,
    pub qty_precision: Option<usize>,
}

/// The number that a text stands for; zero where it stands for none.
pub open spec fn dec_or_zero(text: Seq<char>) -> Dec {
    match parsed(text) {
        Some(d) => d,
        None => dec_of(0, 0),
    }
}

/// The number that a text stands for; zero where it stands for none.
pub fn str_dec(s: &str) -> (r: Dec)
    ensures
        r == dec_or_zero(s@),
{
    match Dec::parse(s) {
        Some(d) => d,
        None => Dec::new(0, 0),
    }
}

/// The tick size of the last price filter; zero without one.
pub open spec fn last_tick(filters: Seq<FutFilter>) -> Dec
    decreases filters.len(),
{
    if filters.len() == 0 {
        dec_of(0, 0)
    } else {
        match filters.last() {
            FutFilter::PriceFilter { tick_size } => dec_or_zero(tick_size@),
            _ => last_tick(filters.drop_last()),
        }
    }
}

/// The step size of the last lot filter; zero without one.
pub open spec fn last_step(filters: Seq<FutFilter>) -> Dec
    decreases filters.len(),
{
    if filters.len() == 0 {
        dec_of(0, 0)
    } else {
        match filters.last() {
            FutFilter::LotSize { step_size } => dec_or_zero(step_size@),
            _ => last_step(filters.drop_last()),
        }
    }
}

/// The value of the last notional filter; zero without one.
pub open spec fn last_notional(filters: Seq<FutFilter>) -> Dec
    decreases filters.len(),
{
    if filters.len() == 0 {
        dec_of(0, 0)
    } else {
        match filters.last() {
            FutFilter::MinNotional { notional } => dec_or_zero(notional@),
            _ => last_notional(filters.drop_last()),
        }
    }
}

/// `d`, or `other` where it is zero.
pub open spec fn nonzero_or(d: Dec, other: Dec) -> Dec {
    if d@ == 0 {
        other
    } else {
        d
    }
}

/// The rules of a symbol as the exchange lists it.
pub open spec fn rules_of(sym: FutExchangeSymbol) -> SymbolRules {
    let tick = last_tick(sym.filters@);
    let step = last_step(sym.filters@);
    SymbolRules {
        tick_size: nonzero_or(tick, dec_of(1, 2)),
        step_size: nonzero_or(step, dec_of(1, 3)),
        price_precision: match sym.price_precision {
            Some(p) => p,
            None => step_scale(tick) as usize,
        },
        qty_precision: match sym.qty_precision {
            Some(p) => p,
            None => step_scale(step) as usize,
        },
        min_notional: last_notional(sym.filters@),
        max_leverage: None,
    }
}

/// The rules of a symbol. A precision that is missing follows from the step; a
/// step that is missing is a hundredth for prices and a thousandth for quantities.
pub fn rules_from_fut_symbol(sym: &FutExchangeSymbol) -> (r: SymbolRules)
    ensures
        r == rules_of(*sym),
{
    let mut tick = Dec::new(0, 0);
    let mut step = Dec::new(0, 0);
    let mut min_notional = Dec::new(0, 0);
    let mut i: usize = 0;
    while i < sym.filters.len()
        invariant
            i <= sym.filters.len(),
            tick == last_tick(sym.filters@.take(i as int)),
            step == last_step(sym.filters@.take(i as int)),
            min_notional == last_notional(sym.filters@.take(i as int)),
        decreases sym.filters.len() - i,
    {
        proof {
            let t = sym.filters@.take(i as int + 1);
            assert(t.drop_last() =~= sym.filters@.take(i as int));
            assert(t.last() == sym.filters@[i as int]);
        }
        match &sym.filters[i] {
            FutFilter::PriceFilter { tick_size } => {
                tick = str_dec(tick_size.as_str());
            },
            FutFilter::LotSize { step_size } => {
                step = str_dec(step_size.as_str());
            },
            FutFilter::MinNotional { notional } => {
                min_notional = str_dec(notional.as_str());
            },
            FutFilter::Other => {},
        }
        i += 1;
    }
    assert(sym.filters@.take(sym.filters@.len() as int) =~= sym.filters@);
    let price_precision: usize = match sym.price_precision {
        Some(p) => p,
        None => scale_from_step(tick),
    };
    let qty_precision: usize = match sym.qty_precision {
        Some(p) => p,
        None => scale_from_step(step),
    };
    SymbolRules {
        tick_size: if tick.is_zero() {
            Dec::new(1, 2)
        } else {
            tick
        },
        step_size: if step.is_zero() {
            Dec::new(1, 3)
        } else {
            step
        },
        price_precision,
        qty_precision,
        min_notional,
        max_leverage: None,
    }
}

/// Rules that were read always have a step for prices and one for quantities.
pub proof fn law_rules_have_steps(sym: FutExchangeSymbol)
    ensures
        rules_of(sym).tick_size@ != 0,
        rules_of(sym).step_size@ != 0,
{
    lemma_dec_of(1, 2);
    lemma_dec_of(1, 3);
    lemma_pow_positive(10, 26);
    lemma_pow_positive(10, 25);
}

/// The decimal places that are written: those of the rules, and not more than the step has.
pub open spec fn effective_precision(step: Dec, precision: usize) -> nat {
    if step@ == 0 {
        precision as nat
    } else if precision < step.places() {
        precision as nat
    } else {
        step.places()
    }
}

/// The decimal places that are written: those of the rules, and not more than the step has.
pub fn written_precision(step: Dec, precision: usize) -> (r: usize)
    ensures
        r == effective_precision(step, precision),
{
    if step.is_zero() {
        precision
    } else {
        let s: usize = step.scale() as usize;
        if precision < s {
            precision
        } else {
            s
        }
    }
}

/// The largest number with `p` decimal places that is not above `d`.
pub open spec fn rounded_down(d: Dec, p: nat) -> Dec {
    if d.places() <= p {
        d
    } else {
        dec_of(d.num() / pow10((d.places() - p) as nat), p)
    }
}

fn round_down(d: Dec, p: usize) -> (r: Dec)
    ensures
        r == rounded_down(d, p as nat),
{
    let places: u32 = if p < 28 {
        p as u32
    } else {
        28
    };
    proof {
        use_type_invariant(&d);
        lemma_bounds(d);
    }
    d.cut_down(places)
}

/// Why an order cannot be written.
#[derive(Clone, Copy, Debug, PartialEq, Eq, Structural)]
pub enum OrderParamError {
    QuantityBecomesZero,
    BelowMinNotional,
    /// A number on the way cannot be held.
    Overflow,
}

/// An order ready to be written: its price and quantity, as numbers and as text.
#[derive(Debug)]
pub struct FormattedOrder {
    pub price_text: String,
    pub qty_text: String,
    pub price: Dec,
    pub qty: Dec,
}

/// The quantity of an order: rounded down to what is written, unless nothing is
/// left of it; then rounded to the step alone.
pub open spec fn kept_qty(qty_quantized: Dec, rules: SymbolRules) -> Result<Dec, OrderParamError> {
    let rounded = rounded_down(
        qty_quantized,
        effective_precision(rules.step_size, rules.qty_precision),
    );
    if rounded@ == 0 && qty_quantized@ != 0 {
        match quantized(qty_quantized, rules.step_size) {
            None => Err(OrderParamError::Overflow),
            Some(q) => if q@ == 0 {
                Err(OrderParamError::QuantityBecomesZero)
            } else {
                Ok(q)
            },
        }
    } else {
        Ok(rounded)
    }
}

/// The price of an order: on a tick, and rounded down to what is written.
pub open spec fn kept_price(px: Px, rules: SymbolRules) -> Result<Dec, OrderParamError> {
    match quantized(px.0, rules.tick_size) {
        None => Err(OrderParamError::Overflow),
        Some(p) => Ok(
            rounded_down(p, effective_precision(rules.tick_size, rules.price_precision)),
        ),
    }
}

/// The price and quantity with which an order is sent, or why it is not.
pub open spec fn order_numbers(px: Px, qty: Qty, rules: SymbolRules) -> Result<
    (Dec, Dec),
    OrderParamError,
> {
    match kept_price(px, rules) {
        Err(e) => Err(e),
        Ok(price) => match quantized(abs_of(qty.0), rules.step_size) {
            None => Err(OrderParamError::Overflow),
            Some(q) => match kept_qty(q, rules) {
                Err(e) => Err(e),
                Ok(qty) => match product(price, qty) {
                    None => Err(OrderParamError::Overflow),
                    Some(n) => if rules.min_notional@ != 0 && n@ < rules.min_notional@ {
                        Err(OrderParamError::BelowMinNotional)
                    } else {
                        Ok((price, qty))
                    },
                },
            },
        },
    }
}

/// An order that is accepted is worth at least the smallest notional value.
pub proof fn law_accepted_order_meets_min_notional(px: Px, qty: Qty, rules: SymbolRules)
    requires
        order_numbers(px, qty, rules) is Ok,
    ensures
        ({
            let (price, q) = order_numbers(px, qty, rules)->Ok_0;
            product(price, q) matches Some(n) && (rules.min_notional@ == 0 || n@
                >= rules.min_notional@)
        }),
{
}

/// `o` is the order that is sent for a price and a quantity: both are first quantized, and
/// then rounded down to what is written.
pub open spec fn formatted(px: Px, qty: Qty, rules: SymbolRules, o: FormattedOrder) -> bool {
    let size = abs_of(qty.0);
    let price_precision = effective_precision(rules.tick_size, rules.price_precision);
    let qty_precision = effective_precision(rules.step_size, rules.qty_precision);
    let q = quantized(size, rules.step_size);
    &&& order_numbers(px, qty, rules) == Ok::<(Dec, Dec), OrderParamError>((o.price, o.qty))
    &&& o.price_text@ == fixed_text(o.price, price_precision)
    &&& o.qty_text@ == fixed_text(o.qty, qty_precision)
    &&& quantized(px.0, rules.tick_size) matches Some(p) && p.wf() && is_quantized(
        px.0,
        rules.tick_size,
        p,
    )
    &&& q is Some && q->0.wf() && is_quantized(size, rules.step_size, q->0)
    &&& rounded_down(q->0, qty_precision)@ == 0 && q->0@ != 0 ==> is_quantized(
        q->0,
        rules.step_size,
        o.qty,
    )
}

/// Rounding down goes down by less than one unit of the last decimal place.
proof fn lemma_rounded_down(d: Dec, p: nat)
    requires
        d.wf(),
    ensures
        rounded_down(d, p)@ <= d@,
        p <= 28 ==> d@ < rounded_down(d, p)@ + pow10((28 - p) as nat),
        p > 28 ==> rounded_down(d, p) == d,
        d@ >= 0 ==> rounded_down(d, p)@ >= 0,
{
    lemma_bounds(d);
    if p <= 28 {
        lemma_pow_positive(10, (28 - p) as nat);
    }
    if d.places() > p {
        let k = (d.places() - p) as nat;
        let rest_places = (28 - d.places()) as nat;
        let w = pow10(k);
        let u = pow10(rest_places);
        let n = d.num();
        lemma_pow_positive(10, k);
        lemma_pow_positive(10, rest_places);
        lemma_pow_adds(10, k, rest_places);
        lemma_quotient_in_bounds(n, w);
        lemma_fundamental_div_mod(n, w);
        lemma_mod_bound(n, w);
        let m = n / w;
        lemma_dec_of(m, p);
        assert(k + rest_places == 28 - p);
        assert(m * (w * u) <= n * u < m * (w * u) + w * u) by (nonlinear_arith)
            requires
                n == w * m + n % w,
                0 <= n % w < w,
                u > 0,
        ;
        if n >= 0 {
            assert(m * (w * u) >= 0) by (nonlinear_arith)
                requires
                    m >= 0,
                    w > 0,
                    u > 0,
            ;
        } else {
            assert(n * u < 0) by (nonlinear_arith)
                requires
                    n < 0,
                    u > 0,
            ;
        }
    }
}

/// An order never asks for more than it was made for: its price is not above the price and
/// its quantity not above the quantity. Each is less than a step and a unit of the last
/// written decimal place below it.
pub proof fn law_formatted_order_within_limits(
    px: Px,
    qty: Qty,
    rules: SymbolRules,
    o: FormattedOrder,
)
    requires
        qty.0.wf(),
        rules.tick_size@ > 0 ==> step_fits(px.0, rules.tick_size, px.0@ / rules.tick_size@),
        rules.step_size@ > 0 ==> step_fits(
            abs_of(qty.0),
            rules.step_size,
            abs_of(qty.0)@ / rules.step_size@,
        ),
        formatted(px, qty, rules, o),
    ensures
        o.price@ <= px.0@,
        0 <= o.qty@ <= abs_of(qty.0)@,
        px.0@ >= 0 ==> o.price@ >= 0,
        rules.tick_size@ > 0 && effective_precision(rules.tick_size, rules.price_precision) <= 28
            ==> px.0@ < o.price@ + rules.tick_size@ + pow10(
            (28 - effective_precision(rules.tick_size, rules.price_precision)) as nat,
        ),
        rules.step_size@ > 0 && effective_precision(rules.step_size, rules.qty_precision) <= 28
            ==> abs_of(qty.0)@ < o.qty@ + rules.step_size@ + pow10(
            (28 - effective_precision(rules.step_size, rules.qty_precision)) as nat,
        ),
{
    let size = abs_of(qty.0);
    let p = quantized(px.0, rules.tick_size)->0;
    let q = quantized(size, rules.step_size)->0;
    let price_precision = effective_precision(rules.tick_size, rules.price_precision);
    let qty_precision = effective_precision(rules.step_size, rules.qty_precision);
    lemma_abs(qty.0);
    lemma_rounded_down(p, price_precision);
    lemma_rounded_down(q, qty_precision);
    if rules.tick_size@ > 0 {
        law_multiple_below(px.0@, rules.tick_size@);
        lemma_multiple_of_positive(px.0@, rules.tick_size@);
    }
    if qty_precision <= 28 {
        lemma_pow_positive(10, (28 - qty_precision) as nat);
    }
    if rules.step_size@ > 0 {
        law_multiple_below(size@, rules.step_size@);
        lemma_multiple_of_positive(size@, rules.step_size@);
        lemma_count_in_bounds(size, rules.step_size);
        lemma_multiple_fits(size@ / rules.step_size@, rules.step_size, q);
    }
}

/// A multiple of a step below a number that is not negative is not negative.
proof fn lemma_multiple_of_positive(v: int, step: int)
    requires
        step > 0,
    ensures
        v >= 0 ==> multiple_below(v, step) >= 0,
{
    if v >= 0 {
        lemma_div_pos_is_pos(v, step);
        let k = v / step;
        assert(k * step >= 0) by (nonlinear_arith)
            requires
                k >= 0,
                step > 0,
        ;
    }
}

/// Rounds an order to the rules of its symbol and writes it out.
pub fn validate_and_format_order_params(px: Px, qty: Qty, rules: &SymbolRules) -> (r: Result<
    FormattedOrder,
    OrderParamError,
>)
    ensures
        match order_numbers(px, qty, *rules) {
            Ok(_) => r matches Ok(o) && formatted(px, qty, *rules, o),
            Err(e) => r == Err::<FormattedOrder, OrderParamError>(e),
        },
{
    let price_precision = written_precision(rules.tick_size, rules.price_precision);
    let qty_precision = written_precision(rules.step_size, rules.qty_precision);
    let price = match checked_quantize_decimal(px.0, rules.tick_size) {
        Some(p) => {
            proof {
                use_type_invariant(&p);
            }
            round_down(p, price_precision)
        },
        None => return Err(OrderParamError::Overflow),
    };
    let qty_quantized = match checked_quantize_decimal(abs_dec(qty.0), rules.step_size) {
        Some(q) => q,
        None => return Err(OrderParamError::Overflow),
    };
    proof {
        use_type_invariant(&qty_quantized);
    }
    let mut kept = round_down(qty_quantized, qty_precision);
    if kept.is_zero() && !qty_quantized.is_zero() {
        match checked_quantize_decimal(qty_quantized, rules.step_size) {
            Some(q) => {
                if q.is_zero() {
                    return Err(OrderParamError::QuantityBecomesZero);
                }
                kept = q;
            },
            None => return Err(OrderParamError::Overflow),
        }
    }
    match price.checked_mul(&kept) {
        Some(notional) => {
            if !rules.min_notional.is_zero() && notional.lt(&rules.min_notional) {
                return Err(OrderParamError::BelowMinNotional);
            }
        },
        None => return Err(OrderParamError::Overflow),
    }
    Ok(
        FormattedOrder {
            price_text: format_decimal_fixed(price, price_precision),
            qty_text: format_decimal_fixed(kept, qty_precision),
            price,
            qty: kept,
        },
    )
}

/// The word of the exchange for the side of a position in hedge mode.
pub open spec fn hedge_word(long: bool) -> Seq<char> {
    if long {
        "LONG"@
    } else {
        "SHORT"@
    }
}

/// The parameters of a trailing stop.
pub open spec fn trailing_stop_pairs(
    symbol: Seq<char>,
    activation: Seq<char>,
    callback_rate: Seq<char>,
    qty: Seq<char>,
    long: bool,
    hedge_mode: bool,
    timestamp: nat,
    recv_window_ms: nat,
) -> Seq<(Seq<char>, Seq<char>)> {
    let p = clocked(
        seq![
            ("symbol"@, symbol),
            ("type"@, "TRAILING_STOP_MARKET"@),
            ("activationPrice"@, activation),
            ("callbackRate"@, callback_rate),
            ("quantity"@, qty),
            ("reduceOnly"@, "true"@),
        ],
        timestamp,
        recv_window_ms,
    );
    if hedge_mode {
        p.push(("positionSide"@, hedge_word(long)))
    } else {
        p
    }
}

/// The parameters of a trailing stop. The callback rate is a share, and sent in percent.
/// `None` where it cannot be held so.
pub fn place_trailing_stop_order(
    symbol: &str,
    activation_price: Px,
    callback_rate: Dec,
    qty: Qty,
    rules: &SymbolRules,
    hedge_mode: bool,
    timestamp: u64,
    recv_window_ms: u64,
) -> (r: Option<Vec<(String, String)>>)
    ensures
        product(callback_rate, dec_of(100, 0)) matches Some(pct) ==> rounds_to(
            callback_rate@ * 100,
            1,
            pct@,
        ),
        match product(callback_rate, dec_of(100, 0)) {
            None => r is None,
            Some(pct) => r is Some && exists|n: Dec| #[trigger]
                shortest(n, pct) && pairs(r->0@) == trailing_stop_pairs(
                    symbol@,
                    fixed_text(
                        activation_price.0,
                        effective_precision(rules.tick_size, rules.price_precision),
                    ),
                    dec_text(n),
                    fixed_text(qty.0, effective_precision(rules.step_size, rules.qty_precision)),
                    qty.0@ >= 0,
                    hedge_mode,
                    timestamp as nat,
                    recv_window_ms as nat,
                ),
        },
{
    let percent = match mul_by(Some(callback_rate), 100) {
        Some(pct) => shortest_form(pct),
        None => return None,
    };
    let callback_text = percent.to_text();
    let price_precision = written_precision(rules.tick_size, rules.price_precision);
    let qty_precision = written_precision(rules.step_size, rules.qty_precision);
    let qty_text = format_decimal_fixed(qty.0, qty_precision);
    let activation = format_decimal_fixed(activation_price.0, price_precision);
    let mut v: Vec<(String, String)> = Vec::new();
    assert(pairs(v@) =~= Seq::<(Seq<char>, Seq<char>)>::empty());
    push_param(&mut v, "symbol", symbol);
    push_param(&mut v, "type", "TRAILING_STOP_MARKET");
    push_param(&mut v, "activationPrice", activation.as_str());
    push_param(&mut v, "callbackRate", callback_text.as_str());
    push_param(&mut v, "quantity", qty_text.as_str());
    push_param(&mut v, "reduceOnly", "true");
    assert(pairs(v@) =~= seq![
        ("symbol"@, symbol@),
        ("type"@, "TRAILING_STOP_MARKET"@),
        ("activationPrice"@, activation@),
        ("callbackRate"@, callback_text@),
        ("quantity"@, qty_text@),
        ("reduceOnly"@, "true"@),
    ]);
    push_clock(&mut v, timestamp, recv_window_ms);
    if hedge_mode {
        if qty.0.is_sign_negative() {
            push_param(&mut v, "positionSide", "SHORT");
        } else {
            push_param(&mut v, "positionSide", "LONG");
        }
    }
    Some(v)
}

/// The rules of a symbol are those of its last filters: a tick of a hundredth and a step of a
/// thousandth where there is none or it reads as nothing; the decimal places it tells, and no
/// limit to the leverage.
pub proof fn law_rules_of_a_symbol(sym: FutExchangeSymbol)
    ensures
        ({
            let r = rules_of(sym);
            let tick = last_tick(sym.filters@);
            let step = last_step(sym.filters@);
            &&& tick@ != 0 ==> r.tick_size == tick
            &&& tick@ == 0 ==> 100 * r.tick_size@ == one()
            &&& step@ != 0 ==> r.step_size == step
            &&& step@ == 0 ==> 1000 * r.step_size@ == one()
            &&& r.min_notional == last_notional(sym.filters@)
            &&& sym.price_precision matches Some(p) ==> r.price_precision == p
            &&& sym.qty_precision matches Some(p) ==> r.qty_precision == p
            &&& r.max_leverage is None
        }),
{
    lemma_powers();
    lemma_value(1, 2);
    lemma_value(1, 3);
}

/// Of several filters of a kind the last one counts, and each kind is read on its own.
pub proof fn law_last_filters(filters: Seq<FutFilter>, f: FutFilter)
    ensures
        ({
            let all = filters.push(f);
            &&& f matches FutFilter::PriceFilter { tick_size } ==> last_tick(all) == dec_or_zero(
                tick_size@,
            ) && last_step(all) == last_step(filters) && last_notional(all) == last_notional(filters)
            &&& f matches FutFilter::LotSize { step_size } ==> last_step(all) == dec_or_zero(
                step_size@,
            ) && last_tick(all) == last_tick(filters) && last_notional(all) == last_notional(filters)
            &&& f matches FutFilter::MinNotional { notional } ==> last_notional(all) == dec_or_zero(
                notional@,
            ) && last_tick(all) == last_tick(filters) && last_step(all) == last_step(filters)
            &&& last_tick(Seq::<FutFilter>::empty())@ == 0
            &&& last_step(Seq::<FutFilter>::empty())@ == 0
            &&& last_notional(Seq::<FutFilter>::empty())@ == 0
        }),
{
    lemma_value(0, 0);
    let all = filters.push(f);
    assert(all.drop_last() =~= filters);
    assert(all.last() == f);
}

/// Numbers are written with as many decimal places as the step has and the symbol allows, whichever
/// are fewer; as many as the symbol allows without a step.
pub proof fn law_written_places(step: Dec, precision: usize)
    ensures
        effective_precision(step, precision) <= precision,
        step@ != 0 ==> effective_precision(step, precision) <= step.places(),
        effective_precision(step, precision) == precision || (step@ != 0 && effective_precision(
            step,
            precision,
        ) == step.places()),
{
}

/// What a trailing stop says: its symbol and quantity, the price it starts at and how far it
/// follows; that it only reduces; and in hedge mode the side of the position.
pub proof fn law_trailing_stops(
    symbol: Seq<char>,
    activation: Seq<char>,
    callback_rate: Seq<char>,
    qty: Seq<char>,
    long: bool,
    hedge_mode: bool,
    timestamp: nat,
    recv_window_ms: nat,
)
    ensures
        ({
            let p = trailing_stop_pairs(
                symbol,
                activation,
                callback_rate,
                qty,
                long,
                hedge_mode,
                timestamp,
                recv_window_ms,
            );
            &&& p.len() == (if hedge_mode {
                9int
            } else {
                8
            })
            &&& p[0] == ("symbol"@, symbol)
            &&& p[1] == ("type"@, "TRAILING_STOP_MARKET"@)
            &&& p[2] == ("activationPrice"@, activation)
            &&& p[3] == ("callbackRate"@, callback_rate)
            &&& p[4] == ("quantity"@, qty)
            &&& p[5] == ("reduceOnly"@, "true"@)
            &&& hedge_mode && long ==> p[8] == ("positionSide"@, "LONG"@)
            &&& hedge_mode && !long ==> p[8] == ("positionSide"@, "SHORT"@)
        }),
{
}

} // verus!
