//! Market making: on which sides to quote, and at which prices.
//!
//! [`DynMm::observe`] looks for an opportunity in a tick, [`DynMm::quote`] makes
//! the quotes of it, and [`DynMm::on_tick`] does the one after the other.
use vstd::prelude::*;

use crate::arith::{
    abs_opt, add_opt, average_before, average_opt, bps_opt, change_bps, change_bps_opt,
    changes_by_bps, div_by, div_opt, higher, in_bps, is_average, is_bps, law_change_in_bps,
    lemma_times_whole, lit, lower, max_opt, min_opt, minus, mul_by, mul_opt, number, over, plus,
    root, root_opt, root_units, sub_opt, sum_before, sums_held, times, unsigned,
};
use crate::decimal::{
    dec_of, difference, lemma_bounds, lemma_dec_of, lemma_powers, lemma_value, one, pow10,
    product, quotient, sum, value_of, Dec,
};
use crate::quant::{abs_dec, abs_of, lemma_abs};
use crate::quotes;
use crate::quotes::{
    halfway, law_larger_quote, law_plain_quote, moved, moved_by, moves, moves_by, widens, widens_by,
    Moves, SpreadInputs,
};
use crate::rounding::{
    can_be_held, fits_at, is_close, law_exact_is_kept, law_rounding_above, law_rounding_below,
    law_rounding_is_close, law_rounding_is_unique, law_rounding_keeps_order, lemma_exact, lemma_held, lemma_zero_and_one, rounded, rounds_to,
};
use crate::signals::{
    aims_at, balances, leans, leans_by, lemma_imbalance_known, lemma_no_volume, size_of_value,
    spreads, spreads_by, squashes,
};
use crate::types::{BookLevel, OrderBook, Px, Qty, Quotes};

verus! {

/// How many prices are remembered.
pub const PRICE_HISTORY: usize = 100;

/// How many volumes are remembered.
pub const VOLUME_HISTORY: usize = 50;

/// How long points of momentum are remembered, in milliseconds.
pub const MOMENTUM_WINDOW_MS: u64 = 60_000;

/// The time within which a jump of the price counts as sudden, in milliseconds.
pub const FLASH_WINDOW_MS: u64 = 2_000;

/// The time over which the order flow is followed, in milliseconds.
pub const OFI_WINDOW_MS: u64 = 200;

/// The settings of a market maker.
#[derive(Clone, Copy, Debug)]
pub struct DynMmCfg {
    /// How much volatility widens the base spread.
    pub a: Dec,
    /// How much inventory widens the base spread.
    pub b: Dec,
    pub base_size: Dec,
    pub inv_cap: Dec,
    /// The narrowest spread to quote.
    pub min_spread_bps: Dec,
    /// The widest spread to trade in.
    pub max_spread_bps: Dec,
    /// The spread from which on it is worth earning.
    pub spread_arbitrage_min_bps: Dec,
    /// The spread up to which it is worth earning.
    pub spread_arbitrage_max_bps: Dec,
    /// The trend from which on it is strong.
    pub strong_trend_bps: Dec,
    /// The trend from which on momentum is strong.
    pub momentum_strong_bps: Dec,
    /// How much the trend moves the target of the inventory.
    pub trend_bias_multiplier: Dec,
    /// The order flow at which a side becomes one to lose on.
    pub adverse_selection_threshold_on: Dec,
    /// The order flow at which it stays one.
    pub adverse_selection_threshold_off: Dec,
    /// The order flow at which an opportunity is taken.
    pub opportunity_threshold_on: Dec,
    /// The order flow at which it is kept.
    pub opportunity_threshold_off: Dec,
    /// The change of the price from which on it is a jump.
    pub price_jump_threshold_bps: Dec,
    /// The change of the price from which on it is a breakout.
    pub fake_breakout_threshold_bps: Dec,
    /// The share of the liquidity whose loss is a withdrawal.
    pub liquidity_drop_threshold: Dec,
    /// The share of the cap within which the inventory is at its target.
    pub inventory_threshold_ratio: Dec,
    /// How much volatility widens the spread.
    pub volatility_coefficient: Dec,
    /// How much the order flow widens the spread.
    pub ofi_coefficient: Dec,
    /// The value that each side of the book has to hold.
    pub min_liquidity_required: Dec,
    /// How much larger the quotes of an opportunity are.
    pub opportunity_size_multiplier: Dec,
    /// How much larger the quotes in a strong trend are.
    pub strong_trend_multiplier: Dec,
}

impl DynMmCfg {
    /// The settings that hold where nothing else is said.
    pub fn with_defaults(a: Dec, b: Dec, base_size: Dec, inv_cap: Dec) -> (r: DynMmCfg)
        ensures
            r.a == a,
            r.b == b,
            r.base_size == base_size,
            r.inv_cap == inv_cap,
            r.min_spread_bps == dec_of(3, 0),
            r.max_spread_bps == dec_of(100, 0),
            r.spread_arbitrage_min_bps == dec_of(50, 0),
            r.spread_arbitrage_max_bps == dec_of(150, 0),
            r.strong_trend_bps == dec_of(100, 0),
            r.momentum_strong_bps == dec_of(50, 0),
            r.trend_bias_multiplier == dec_of(1, 0),
            r.adverse_selection_threshold_on == dec_of(6, 1),
            r.adverse_selection_threshold_off == dec_of(4, 1),
            r.opportunity_threshold_on == dec_of(5, 1),
            r.opportunity_threshold_off == dec_of(2, 1),
            r.price_jump_threshold_bps == dec_of(250, 0),
            r.fake_breakout_threshold_bps == dec_of(100, 0),
            r.liquidity_drop_threshold == dec_of(5, 1),
            r.inventory_threshold_ratio == dec_of(15, 2),
            r.volatility_coefficient == dec_of(5, 1),
            r.ofi_coefficient == dec_of(5, 1),
            r.min_liquidity_required == dec_of(1, 2),
            r.opportunity_size_multiplier == dec_of(12, 1),
            r.strong_trend_multiplier == dec_of(12, 1),
    {
        DynMmCfg {
            a,
            b,
            base_size,
            inv_cap,
            min_spread_bps: Dec::new(3, 0),
            max_spread_bps: Dec::new(100, 0),
            spread_arbitrage_min_bps: Dec::new(50, 0),
            spread_arbitrage_max_bps: Dec::new(150, 0),
            strong_trend_bps: Dec::new(100, 0),
            momentum_strong_bps: Dec::new(50, 0),
            trend_bias_multiplier: Dec::new(1, 0),
            adverse_selection_threshold_on: Dec::new(6, 1),
            adverse_selection_threshold_off: Dec::new(4, 1),
            opportunity_threshold_on: Dec::new(5, 1),
            opportunity_threshold_off: Dec::new(2, 1),
            price_jump_threshold_bps: Dec::new(250, 0),
            fake_breakout_threshold_bps: Dec::new(100, 0),
            liquidity_drop_threshold: Dec::new(5, 1),
            inventory_threshold_ratio: Dec::new(15, 2),
            volatility_coefficient: Dec::new(5, 1),
            ofi_coefficient: Dec::new(5, 1),
            min_liquidity_required: Dec::new(1, 2),
            opportunity_size_multiplier: Dec::new(12, 1),
            strong_trend_multiplier: Dec::new(12, 1),
        }
    }
}

/// What an abnormal market offers.
#[derive(Clone, Copy, Debug)]
pub enum ManipulationOpportunity {
    /// The price fell abnormally: buy.
    FlashCrashLong { price_drop_bps: Dec },
    /// The price rose abnormally: sell.
    FlashPumpShort { price_rise_bps: Dec },
    /// The spread is wide: earn it on both sides.
    WideSpreadArbitrage { spread_bps: Dec },
    /// The volume is abnormal: follow the trend.
    VolumeAnomalyTrend { up: bool, volume_ratio: Dec },
    /// A breakout is not real: take the side against it.
    MomentumManipulationReversal { breakout_up: bool, fake_breakout_bps: Dec },
    /// A wall of orders will go away: take the side against it.
    SpoofingOpportunity { bid_wall: bool, wall_size_ratio: Dec },
    /// Liquidity was withdrawn: earn the spread on both sides.
    LiquidityWithdrawal { liquidity_drop_ratio: Dec },
}

/// The market at a tick.
#[derive(Debug)]
pub struct Context {
    pub ob: OrderBook,
    pub sigma: Dec,
    pub inv: Qty,
    pub liq_gap_bps: Dec,
    pub funding_rate: Option<Dec>,
    pub next_funding_time: Option<u64>,
    pub mark_price: Px,
    pub tick_size: Option<Dec>,
}

/// A market maker.
#[derive(Debug)]
pub struct DynMm {
    pub cfg: DynMmCfg,
    pub base_notional: Dec,
    pub inv_cap: Qty,
    /// Times and prices, the oldest first.
    pub price_history: Vec<(u64, Dec)>,
    pub target_inventory: Qty,
    /// The variance of the returns, the later ones weighing more.
    pub ewma_volatility: Dec,
    /// How much more the volume to buy grows than that to sell.
    pub ofi_signal: Dec,
    pub last_mid_price: Option<Dec>,
    pub last_timestamp_ms: Option<u64>,
    pub last_volumes: Option<(Dec, Dec)>,
    pub flash_crash_detected: bool,
    /// The last change of the price, in hundredths of a percent.
    pub flash_crash_direction: Dec,
    pub last_spread_bps: Dec,
    /// Volumes, the oldest first.
    pub volume_history: Vec<Dec>,
    pub manipulation_opportunity: Option<ManipulationOpportunity>,
    /// Times, prices and volumes, the oldest first.
    pub momentum_history: Vec<(u64, Dec, Dec)>,
    pub last_liquidity_level: Dec,
    pub last_adverse_bid: bool,
    pub last_adverse_ask: bool,
    pub last_opportunity_mode: bool,
}

/// The notional value of a quote: that of the settings, at least a hundred.
pub open spec fn base_notional_of(base_size: Dec) -> Dec {
    if base_size@ < dec_of(100, 0)@ {
        dec_of(100, 0)
    } else {
        base_size
    }
}

/// The middle between two prices.
pub open spec fn middle(bid: Dec, ask: Dec) -> Option<Dec> {
    over(plus(Some(bid), Some(ask)), lit(2, 0))
}

fn find_middle(bid: Dec, ask: Dec) -> (r: Option<Dec>)
    ensures
        r == middle(bid, ask),
        r matches Some(mid) ==> halfway(bid@, ask@, mid@),
{
    let total = add_opt(Some(bid), Some(ask));
    div_by(total, 2)
}

/// The middle of two prices, weighted by the volume on the other side.
pub open spec fn microprice(bid: Dec, ask: Dec, bid_vol: Dec, ask_vol: Dec) -> Option<Dec> {
    if bid_vol@ == 0 && ask_vol@ == 0 {
        middle(bid, ask)
    } else {
        match sum(bid_vol, ask_vol) {
            None => None,
            Some(total) => if total@ == 0 {
                middle(bid, ask)
            } else {
                over(
                    plus(
                        times(Some(ask), Some(bid_vol)),
                        times(Some(bid), Some(ask_vol)),
                    ),
                    Some(total),
                )
            },
        }
    }
}

/// How much more volume is on the bid side than on the ask side, of the volume of both.
pub open spec fn imbalance(bid_vol: Dec, ask_vol: Dec) -> Option<Dec> {
    match sum(bid_vol, ask_vol) {
        None => None,
        Some(total) => if total@ == 0 {
            lit(0, 0)
        } else {
            over(minus(Some(bid_vol), Some(ask_vol)), Some(total))
        },
    }
}

/// The prices of a history.
pub open spec fn prices(history: Seq<(u64, Dec)>) -> Seq<Dec> {
    Seq::new(history.len(), |i: int| history[i].1)
}

fn read_prices(history: &Vec<(u64, Dec)>) -> (r: Vec<Dec>)
    ensures
        r@ == prices(history@),
{
    let mut v: Vec<Dec> = Vec::new();
    let mut i: usize = 0;
    while i < history.len()
        invariant
            i <= history.len(),
            v@ == prices(history@).take(i as int),
        decreases history.len() - i,
    {
        v.push(history[i].1);
        assert(prices(history@).take(i as int + 1) =~= prices(history@).take(i as int).push(
            history@[i as int].1,
        ));
        i += 1;
    }
    assert(prices(history@).take(history@.len() as int) =~= prices(history@));
    v
}

/// How far the five prices before the last five are from the last five, in
/// hundredths of a percent of the last five; zero without ten prices.
pub open spec fn trend_bps(history: Seq<(u64, Dec)>) -> Option<Dec> {
    let n = history.len() as int;
    if n < 10 {
        lit(0, 0)
    } else {
        match average_before(prices(history), n, 5) {
            None => None,
            Some(recent) => if recent@ == 0 {
                lit(0, 0)
            } else {
                change_bps(Some(recent), average_before(prices(history), n - 5, 5))
            },
        }
    }
}

/// The averages of the last five prices and of the five before them.
pub open spec fn trend_by(history: Seq<(u64, Dec)>, recent: int, older: int) -> bool {
    let n = history.len() as int;
    is_average(prices(history), n, 5, recent) && is_average(prices(history), n - 5, 5, older)
}

/// A trend is how far the average of the five prices before is from that of the last five, in
/// basis points of the latter; none with fewer than ten prices.
pub open spec fn trend_told(history: Seq<(u64, Dec)>, v: Dec) -> bool {
    &&& history.len() < 10 ==> v@ == 0
    &&& history.len() >= 10 && v@ != 0 ==> exists|recent: int, older: int| #[trigger]
        trend_by(history, recent, older) && (recent > 0 ==> changes_by_bps(recent, older, v@))
}

/// What the prices and quantities of a book point to.
pub open spec fn base_told(bid: Dec, ask: Dec, bid_vol: Dec, ask_vol: Dec, v: Dec) -> bool {
    bid_vol@ >= 0 && ask_vol@ >= 0 ==> quotes::weighs(bid@, ask@, bid_vol@, ask_vol@, v@)
}

/// The signals of a tick: the price that the book points to, the variance with it, the order
/// flow, the trend, and the inventory that funding and the trend ask for.
pub open spec fn signals_hold(
    m: DynMm,
    c: Context,
    bid: BookLevel,
    ask: BookLevel,
    now_ms: u64,
    f: QuoteFigures,
) -> bool {
    &&& microprice(bid.px.0, ask.px.0, bid.qty.0, ask.qty.0) matches Some(base) && base_told(
        bid.px.0,
        ask.px.0,
        bid.qty.0,
        ask.qty.0,
        base,
    ) && variance_told(m.ewma_volatility, m.last_mid_price, base, f.variance)
    &&& flow_told(
        m.ofi_signal,
        m.last_volumes,
        m.last_timestamp_ms,
        bid.qty.0,
        ask.qty.0,
        now_ms,
        f.flow,
    )
    &&& trend_told(m.price_history@, f.trend)
    &&& exists|bias: int| #[trigger]
        leans(m.cfg.trend_bias_multiplier@, funding_value(c.funding_rate), f.trend@, bias)
            && aims_at(m.inv_cap.0@, bias, f.target@)
}

/// The variance with one more return in it.
pub open spec fn variance_with(variance: Dec, last_mid: Option<Dec>, mid: Dec) -> Option<Dec> {
    if last_mid is Some && last_mid->0@ != 0 {
        let r = over(minus(Some(mid), last_mid), last_mid);
        plus(times(lit(95, 2), Some(variance)), times(lit(5, 2), times(r, r)))
    } else {
        Some(variance)
    }
}

fn find_variance(variance: Dec, last_mid: Option<Dec>, mid: Dec) -> (r: Option<Dec>)
    ensures
        r == variance_with(variance, last_mid, mid),
        r matches Some(v) ==> variance_told(variance, last_mid, mid, v),
{
    if let Some(last) = last_mid {
        if !last.is_zero() {
            let change = sub_opt(Some(mid), last_mid);
            let ret = div_opt(change, last_mid);
            let square = mul_opt(ret, ret);
            let a = mul_opt(number(95, 2), Some(variance));
            let b = mul_opt(number(5, 2), square);
            let r = add_opt(a, b);
            proof {
                lemma_powers();
                lemma_value(95, 2);
                lemma_value(5, 2);
                if r is Some && last@ > 0 {
                    assert(quotes::varies_by(
                        variance@,
                        last@,
                        mid@,
                        change->0@,
                        ret->0@,
                        square->0@,
                        a->0@,
                        b->0@,
                        r->0@,
                    ));
                }
            }
            return r;
        }
    }
    Some(variance)
}

/// What a variance is with one more return in it: what it was without a last price.
pub open spec fn variance_told(variance: Dec, last_mid: Option<Dec>, mid: Dec, v: Dec) -> bool {
    &&& last_mid matches Some(last) ==> (last@ > 0 ==> quotes::varies(
        variance@,
        last@,
        mid@,
        v@,
    )) && (last@ == 0 ==> v == variance)
    &&& last_mid is None ==> v == variance
}

/// The milliseconds between two times.
pub open spec fn elapsed(from_ms: u64, to_ms: u64) -> u64 {
    if to_ms > from_ms {
        (to_ms - from_ms) as u64
    } else {
        0
    }
}

fn find_elapsed(from_ms: u64, to_ms: u64) -> (r: u64)
    ensures
        r == elapsed(from_ms, to_ms),
{
    if to_ms > from_ms {
        to_ms - from_ms
    } else {
        0
    }
}

/// The order flow with the volumes of one more tick in it.
pub open spec fn flow_with(
    flow: Dec,
    last_volumes: Option<(Dec, Dec)>,
    last_ms: Option<u64>,
    bid_vol: Dec,
    ask_vol: Dec,
    now_ms: u64,
) -> Option<Dec> {
    match last_volumes {
        None => lit(0, 0),
        Some((last_bid, last_ask)) => {
            let growth = minus(
                minus(Some(bid_vol), Some(last_bid)),
                minus(Some(ask_vol), Some(last_ask)),
            );
            match last_ms {
                None => growth,
                Some(t) => {
                    let dt = elapsed(t, now_ms);
                    if 0 < dt && dt <= OFI_WINDOW_MS {
                        let decay = over(lit(dt as int, 0), lit(200, 0));
                        plus(
                            times(Some(flow), minus(lit(1, 0), times(decay, lit(1, 1)))),
                            times(growth, decay),
                        )
                    } else {
                        plus(times(Some(flow), lit(9, 1)), times(growth, lit(1, 1)))
                    }
                },
            }
        },
    }
}

fn find_flow(
    flow: Dec,
    last_volumes: Option<(Dec, Dec)>,
    last_ms: Option<u64>,
    bid_vol: Dec,
    ask_vol: Dec,
    now_ms: u64,
) -> (r: Option<Dec>)
    ensures
        r == flow_with(flow, last_volumes, last_ms, bid_vol, ask_vol, now_ms),
        r matches Some(v) ==> flow_told(flow, last_volumes, last_ms, bid_vol, ask_vol, now_ms, v),
{
    proof {
        lemma_powers();
        lemma_value(0, 0);
        lemma_value(1, 0);
        lemma_value(1, 1);
        lemma_value(9, 1);
    }
    match last_volumes {
        None => number(0, 0),
        Some((last_bid, last_ask)) => {
            let b = sub_opt(Some(bid_vol), Some(last_bid));
            let a = sub_opt(Some(ask_vol), Some(last_ask));
            let growth = sub_opt(b, a);
            proof {
                if growth is Some {
                    assert(quotes::grows_by(
                        bid_vol@,
                        last_bid@,
                        ask_vol@,
                        last_ask@,
                        b->0@,
                        a->0@,
                        growth->0@,
                    ));
                }
            }
            match last_ms {
                None => growth,
                Some(t) => {
                    let dt: u64 = find_elapsed(t, now_ms);
                    if 0 < dt && dt <= OFI_WINDOW_MS {
                        let decay = div_by(number(dt as i64, 0), 200);
                        let fading = mul_opt(decay, number(1, 1));
                        let kept = sub_opt(number(1, 0), fading);
                        let x = mul_opt(Some(flow), kept);
                        let y = mul_opt(growth, decay);
                        let r = add_opt(x, y);
                        proof {
                            if r is Some {
                                lemma_decay(dt as int, decay->0@, fading->0@, kept->0@);
                                assert(quotes::flows_by(
                                    flow@,
                                    growth->0@,
                                    dt as int,
                                    x->0@,
                                    y->0@,
                                    r->0@,
                                ));
                            }
                        }
                        r
                    } else {
                        let x = mul_opt(Some(flow), number(9, 1));
                        let y = mul_opt(growth, number(1, 1));
                        let r = add_opt(x, y);
                        proof {
                            if r is Some {
                                assert(quotes::flows_by(
                                    flow@,
                                    growth->0@,
                                    dt as int,
                                    x->0@,
                                    y->0@,
                                    r->0@,
                                ));
                            }
                        }
                        r
                    }
                },
            }
        },
    }
}

/// The part of the window that has passed is exact, and so is what is kept.
proof fn lemma_decay(dt: int, decay: int, fading: int, kept: int)
    requires
        0 < dt <= 200,
        rounds_to(dec_of(dt, 0)@, 200, decay),
        rounds_to(decay * dec_of(1, 1)@, pow10(28), fading),
        rounds_to(dec_of(1, 0)@ - fading, 1, kept),
    ensures
        decay == dt * 50_000_000_000_000_000_000_000_000,
        kept == one() - dt * 5_000_000_000_000_000_000_000_000,
{
    lemma_powers();
    lemma_value(dt, 0);
    lemma_value(1, 0);
    lemma_value(1, 1);
    lemma_exact(5 * dt, 3, 1);
    law_exact_is_kept(
        dec_of(dt, 0)@,
        200,
        decay,
        dt * 50_000_000_000_000_000_000_000_000,
    );
    lemma_exact(5 * dt, 4, 1);
    let tenth = dec_of(1, 1)@;
    assert(tenth == 1_000_000_000_000_000_000_000_000_000);
    assert(decay * tenth == decay * 1_000_000_000_000_000_000_000_000_000) by (nonlinear_arith)
        requires
            tenth == 1_000_000_000_000_000_000_000_000_000,
    ;
    law_exact_is_kept(
        decay * dec_of(1, 1)@,
        one(),
        fading,
        dt * 5_000_000_000_000_000_000_000_000,
    );
    lemma_exact(10_000 - 5 * dt, 4, 1);
    law_exact_is_kept(
        dec_of(1, 0)@ - fading,
        1,
        kept,
        one() - dt * 5_000_000_000_000_000_000_000_000,
    );
}

/// What an order flow is with the volumes of one more tick in it: none at first, the growth where
/// no time is known, and weighed by the time that has passed after that.
pub open spec fn flow_told(
    flow: Dec,
    last_volumes: Option<(Dec, Dec)>,
    last_ms: Option<u64>,
    bid_vol: Dec,
    ask_vol: Dec,
    now_ms: u64,
    v: Dec,
) -> bool {
    match last_volumes {
        None => v@ == 0,
        Some((last_bid, last_ask)) => exists|b: int, a: int, growth: int|
            {
                &&& #[trigger] quotes::grows_by(
                    bid_vol@,
                    last_bid@,
                    ask_vol@,
                    last_ask@,
                    b,
                    a,
                    growth,
                )
                &&& last_ms is None ==> v@ == growth
                &&& last_ms matches Some(t) ==> quotes::flows(
                    flow@,
                    growth,
                    if now_ms > t {
                        now_ms - t
                    } else {
                        0
                    },
                    v@,
                )
            },
    }
}

/// The spread that volatility and the order flow ask for: not below the base
/// spread, nor below the narrowest.
pub open spec fn adaptive_spread(
    cfg: DynMmCfg,
    variance: Dec,
    flow: Dec,
    base_spread_bps: Option<Dec>,
    min_spread_bps: Dec,
) -> Option<Dec> {
    let volatility = times(root(variance), lit(10_000, 0));
    let pressure = times(Some(abs_of(flow)), lit(100, 0));
    higher(
        base_spread_bps,
        higher(
            plus(
                times(Some(cfg.volatility_coefficient), volatility),
                times(Some(cfg.ofi_coefficient), pressure),
            ),
            Some(min_spread_bps),
        ),
    )
}

fn find_adaptive_spread(
    cfg: &DynMmCfg,
    variance: Dec,
    flow: Dec,
    base_spread_bps: Option<Dec>,
    min_spread_bps: Dec,
) -> (r: Option<Dec>)
    ensures
        r == adaptive_spread(*cfg, variance, flow, base_spread_bps, min_spread_bps),
        r is Some && base_spread_bps is Some ==> spreads(
            cfg.volatility_coefficient@,
            cfg.ofi_coefficient@,
            variance@,
            flow@,
            base_spread_bps->0@,
            min_spread_bps@,
            r->0@,
        ),
{
    let root = root_opt(variance);
    let size = abs_dec(flow);
    let volatility = mul_opt(root, number(10_000, 0));
    let pressure = mul_opt(Some(size), number(100, 0));
    let a = mul_opt(Some(cfg.volatility_coefficient), volatility);
    let b = mul_opt(Some(cfg.ofi_coefficient), pressure);
    let total = add_opt(a, b);
    let r = max_opt(base_spread_bps, max_opt(total, Some(min_spread_bps)));
    proof {
        if r is Some {
            lemma_dec_of(10_000, 0);
            lemma_dec_of(100, 0);
            assert(spreads_by(
                cfg.volatility_coefficient@,
                cfg.ofi_coefficient@,
                root_units(variance@),
                size_of_value(flow@),
                volatility->0@,
                pressure->0@,
                a->0@,
                b->0@,
                total->0@,
            ));
        }
    }
    r
}

/// The funding rate, in hundredths of a percent.
pub open spec fn funding_of(funding_rate: Option<Dec>) -> Option<Dec> {
    match funding_rate {
        Some(f) => times(Some(f), lit(10_000, 0)),
        None => times(lit(0, 0), lit(10_000, 0)),
    }
}

/// A bias as a share between -1 and 1.
pub open spec fn squashed(bias: Dec) -> Option<Dec> {
    if bias@ > dec_of(10, 0)@ {
        lit(1, 0)
    } else if bias@ < dec_of(-10, 0)@ {
        lit(-1, 0)
    } else {
        over(Some(bias), plus(lit(1, 0), Some(abs_of(bias))))
    }
}

/// How far the funding rate and the trend lean to one side.
pub open spec fn bias_of(m: DynMm, funding_rate: Option<Dec>, trend: Dec) -> Option<Dec> {
    let combined = plus(
        funding_of(funding_rate),
        times(Some(trend), Some(m.cfg.trend_bias_multiplier)),
    );
    over(combined, lit(100, 0))
}

/// The value of a funding rate; nothing where there is none.
pub open spec fn funding_value(funding_rate: Option<Dec>) -> int {
    match funding_rate {
        Some(f) => f@,
        None => 0,
    }
}

/// The target of the inventory: a share of its cap, by the funding rate and the trend.
pub open spec fn target_of(m: DynMm, funding_rate: Option<Dec>, trend: Dec) -> Option<Dec> {
    match bias_of(m, funding_rate, trend) {
        Some(bias) => times(Some(m.inv_cap.0), squashed(bias)),
        None => None,
    }
}

/// The sides that the inventory calls for: both near the target, the bid side
/// below it and the ask side above it. `None` where a number cannot be held.
pub open spec fn inventory_sides(inv_cap: Dec, ratio: Dec, current: Dec, target: Dec) -> Option<
    (bool, bool),
> {
    match (difference(current, target), product(inv_cap, ratio)) {
        (Some(d), Some(threshold)) => if abs_of(d)@ < threshold@ {
            Some((true, true))
        } else if current@ < target@ {
            Some((true, false))
        } else {
            Some((false, true))
        },
        _ => None,
    }
}

/// What a tick shows of the market.
#[derive(Clone, Copy, Debug)]
pub struct MarketFigures {
    pub mid: Dec,
    /// The volume of both sides.
    pub volume: Dec,
    pub spread_bps: Dec,
    /// Half of the widest spread.
    pub half_max_spread: Dec,
    /// The change since the last price; the one before where there is no such price.
    pub direction: Dec,
    /// The average of the last five volumes, by that of the five before.
    pub jump_ratio: Dec,
    pub bid_notional: Dec,
    pub ask_notional: Dec,
    /// The ratio of an abnormal volume.
    pub anomaly: Option<Dec>,
    /// The change of a breakout that volume does not bear out.
    pub breakout: Option<Dec>,
    /// Whether a sudden wall stands on the bid side, and how large it is.
    pub wall: Option<(bool, Dec)>,
    /// The share of the liquidity that went.
    pub drop: Option<Dec>,
}

/// Whether the last price can be compared with.
pub open spec fn has_last_price(history: Seq<(u64, Dec)>) -> bool {
    history.len() > 0 && history.last().1@ != 0
}

/// The change since the last price; the one before where there is no such price.
pub open spec fn direction_of(m: DynMm, mid: Dec) -> Option<Dec> {
    if has_last_price(m.price_history@) {
        change_bps(Some(m.price_history@.last().1), Some(mid))
    } else {
        Some(m.flash_crash_direction)
    }
}

/// How much the last five volumes are of the five before; one where that cannot be said.
pub open spec fn jump_ratio_of(volumes: Seq<Dec>) -> Option<Dec> {
    let n = volumes.len() as int;
    if n < 10 {
        lit(1, 0)
    } else {
        match (average_before(volumes, n, 5), average_before(volumes, n - 5, 5)) {
            (Some(recent), Some(older)) => if older@ > 0 {
                quotient(recent, older)
            } else {
                lit(1, 0)
            },
            _ => None,
        }
    }
}

fn find_jump_ratio(volumes: &Vec<Dec>) -> (r: Option<Dec>)
    ensures
        r == jump_ratio_of(volumes@),
        r matches Some(v) ==> jump_told(volumes@, v@),
{
    proof {
        lemma_powers();
        lemma_value(1, 0);
    }
    let n: usize = volumes.len();
    if n < 10 {
        return number(1, 0);
    }
    match (average_opt(volumes, n, 5), average_opt(volumes, n - 5, 5)) {
        (Some(recent), Some(older)) => {
            let r = if older.is_positive() {
                recent.checked_div(&older)
            } else {
                number(1, 0)
            };
            proof {
                if r is Some {
                    assert(jump_by(volumes@, recent@, older@, r->0@));
                }
            }
            r
        },
        _ => None,
    }
}

/// The volumes with one more, and not more than are remembered.
pub open spec fn with_volume(volumes: Seq<Dec>, volume: Dec) -> Seq<Dec> {
    let longer = volumes.push(volume);
    if longer.len() > VOLUME_HISTORY {
        longer.skip(1)
    } else {
        longer
    }
}

/// The steps to a jump of the volumes: the average of the last five by that of the five before;
/// one where those were nothing.
pub open spec fn jump_by(volumes: Seq<Dec>, recent: int, older: int, v: int) -> bool {
    let n = volumes.len() as int;
    &&& is_average(volumes, n, 5, recent)
    &&& is_average(volumes, n - 5, 5, older)
    &&& older > 0 ==> rounds_to(recent * one(), older, v)
    &&& older <= 0 ==> v == one()
}

pub open spec fn jump_told(volumes: Seq<Dec>, v: int) -> bool {
    &&& volumes.len() < 10 ==> v == one()
    &&& volumes.len() >= 10 ==> exists|recent: int, older: int| #[trigger]
        jump_by(volumes, recent, older, v)
}

/// The steps to an anomaly of the volumes: the average of the last ten is above three times that of
/// the ten before, and by that.
pub open spec fn anomaly_by(
    volumes: Seq<Dec>,
    recent: int,
    older: int,
    limit: int,
    a: Option<Dec>,
) -> bool {
    let n = volumes.len() as int;
    &&& is_average(volumes, n, 10, recent)
    &&& n >= 20 ==> is_average(volumes, n - 10, 10, older)
    &&& n < 20 ==> older == recent
    &&& rounds_to(3 * older, 1, limit)
    &&& a is Some <==> older > 0 && recent > limit
    &&& a matches Some(v) ==> rounds_to(recent * one(), older, v@)
}

pub open spec fn anomaly_told(volumes: Seq<Dec>, a: Option<Dec>) -> bool {
    &&& volumes.len() < 10 ==> a is None
    &&& volumes.len() >= 10 ==> exists|recent: int, older: int, limit: int| #[trigger]
        anomaly_by(volumes, recent, older, limit, a)
}

/// The ratio of the last ten volumes to the ten before, where it is above three.
pub open spec fn anomaly_of(volumes: Seq<Dec>) -> Option<Option<Dec>> {
    let n = volumes.len() as int;
    if n < 10 {
        Some(None)
    } else {
        let recent = average_before(volumes, n, 10);
        let older = if n >= 20 {
            average_before(volumes, n - 10, 10)
        } else {
            recent
        };
        match (recent, older, times(older, lit(3, 0))) {
            (Some(r), Some(o), Some(limit)) => if o@ > 0 && r@ > limit@ {
                match quotient(r, o) {
                    Some(q) => Some(Some(q)),
                    None => None,
                }
            } else {
                Some(None)
            },
            _ => None,
        }
    }
}

fn find_anomaly(volumes: &Vec<Dec>) -> (r: Option<Option<Dec>>)
    ensures
        r == anomaly_of(volumes@),
        r matches Some(a) ==> anomaly_told(volumes@, a),
{
    proof {
        lemma_powers();
    }
    let n: usize = volumes.len();
    if n < 10 {
        return Some(None);
    }
    let recent = average_opt(volumes, n, 10);
    let older = if n >= 20 {
        average_opt(volumes, n - 10, 10)
    } else {
        recent
    };
    match (recent, older, mul_by(older, 3)) {
        (Some(r), Some(o), Some(limit)) => {
            let found = if o.is_positive() && limit.lt(&r) {
                match r.checked_div(&o) {
                    Some(q) => Some(Some(q)),
                    None => None,
                }
            } else {
                Some(None)
            };
            proof {
                if found is Some {
                    assert(anomaly_by(volumes@, r@, o@, limit@, found->0));
                }
            }
            found
        },
        _ => None,
    }
}

/// The time before which points of momentum are too old.
pub open spec fn cutoff(now_ms: u64) -> int {
    if now_ms > MOMENTUM_WINDOW_MS {
        now_ms - MOMENTUM_WINDOW_MS
    } else {
        0
    }
}

/// The points of momentum that are not too old.
pub open spec fn recent_points(points: Seq<(u64, Dec, Dec)>, now_ms: u64) -> Seq<
    (u64, Dec, Dec),
>
    decreases points.len(),
{
    if points.len() == 0 {
        Seq::empty()
    } else {
        let head = recent_points(points.drop_last(), now_ms);
        if points.last().0 > cutoff(now_ms) {
            head.push(points.last())
        } else {
            head
        }
    }
}

/// The points of momentum with a new one, without those that are too old.
pub open spec fn points_with(m: DynMm, now_ms: u64, mid: Dec, volume: Dec) -> Seq<
    (u64, Dec, Dec),
> {
    recent_points(m.momentum_history@.push((now_ms, mid, volume)), now_ms)
}

fn find_points(points: &Vec<(u64, Dec, Dec)>, now_ms: u64, mid: Dec, volume: Dec) -> (r: Vec<
    (u64, Dec, Dec),
>)
    ensures
        r@ == recent_points(points@.push((now_ms, mid, volume)), now_ms),
{
    let limit: u64 = find_elapsed(MOMENTUM_WINDOW_MS, now_ms);
    let mut v: Vec<(u64, Dec, Dec)> = Vec::new();
    let mut i: usize = 0;
    while i < points.len()
        invariant
            i <= points.len(),
            limit == cutoff(now_ms),
            v@ == recent_points(points@.take(i as int), now_ms),
        decreases points.len() - i,
    {
        proof {
            let t = points@.take(i as int + 1);
            assert(t.drop_last() =~= points@.take(i as int));
            assert(t.last() == points@[i as int]);
        }
        if points[i].0 > limit {
            v.push(points[i]);
        }
        i += 1;
    }
    proof {
        let all = points@.push((now_ms, mid, volume));
        assert(points@.take(points@.len() as int) =~= points@);
        assert(all.drop_last() =~= points@);
    }
    if now_ms > limit {
        v.push((now_ms, mid, volume));
    }
    v
}

/// There are enough points of momentum to speak of a breakout.
pub open spec fn breakout_known(points: Seq<(u64, Dec, Dec)>) -> bool {
    points.len() >= 5 && points[points.len() - 5].1@ != 0
}

/// Whether the volume fell below seven tenths.
pub open spec fn faded(first: Dec, last: Dec) -> Option<bool> {
    if first@ > 0 {
        match quotient(last, first) {
            Some(q) => Some(q@ < dec_of(7, 1)@),
            None => None,
        }
    } else {
        Some(false)
    }
}

/// The change over the last five points of momentum, where it is a breakout that
/// volume does not bear out, or one up after a sharp fall.
pub open spec fn breakout_of(points: Seq<(u64, Dec, Dec)>, threshold: Dec, direction: Dec) ->
    Option<Option<Dec>> {
    if !breakout_known(points) {
        Some(None)
    } else {
        let first = points[points.len() - 5];
        let last = points[points.len() - 1];
        match (change_bps(Some(first.1), Some(last.1)), faded(first.2, last.2)) {
            (Some(change), Some(gone)) => if abs_of(change)@ > threshold@ && (gone || (change@ > 0
                && direction@ < dec_of(-50, 0)@)) {
                Some(Some(change))
            } else {
                Some(None)
            },
            _ => None,
        }
    }
}

/// The steps to a breakout that failed: the price moved by more than the threshold from the fifth
/// last point to the last, and less than seven tenths of the volume are left or a rise is
/// answered by a fall of more than fifty basis points.
pub open spec fn breakout_by(
    first: (u64, Dec, Dec),
    last: (u64, Dec, Dec),
    threshold: int,
    direction: int,
    change: int,
    left: int,
    b: Option<Dec>,
) -> bool {
    let gone = first.2@ > 0 && left < 7_000_000_000_000_000_000_000_000_000;
    &&& first.1@ > 0 ==> changes_by_bps(first.1@, last.1@, change)
    &&& first.2@ > 0 ==> rounds_to(last.2@ * one(), first.2@, left)
    &&& b is Some <==> (change > threshold || change < -threshold) && (gone || (change > 0
        && direction < -(50 * one())))
    &&& b matches Some(v) ==> v@ == change && v.wf()
}

pub open spec fn breakout_told(
    points: Seq<(u64, Dec, Dec)>,
    threshold: int,
    direction: int,
    b: Option<Dec>,
) -> bool {
    let n = points.len();
    &&& n < 5 ==> b is None
    &&& n >= 5 && points[n - 5].1@ == 0 ==> b is None
    &&& n >= 5 && points[n - 5].1@ != 0 ==> exists|change: int, left: int| #[trigger]
        breakout_by(points[n - 5], points[n - 1], threshold, direction, change, left, b)
}

fn find_breakout(points: &Vec<(u64, Dec, Dec)>, threshold: Dec, direction: Dec) -> (r: Option<
    Option<Dec>,
>)
    ensures
        r == breakout_of(points@, threshold, direction),
        r matches Some(b) ==> breakout_told(points@, threshold@, direction@, b),
{
    proof {
        lemma_powers();
        lemma_value(7, 1);
        lemma_value(-50, 0);
    }
    let n: usize = points.len();
    if n < 5 || points[n - 5].1.is_zero() {
        return Some(None);
    }
    let first = points[n - 5];
    let last = points[n - 1];
    let left = if first.2.is_positive() {
        last.2.checked_div(&first.2)
    } else {
        number(1, 0)
    };
    let gone = match left {
        Some(q) => Some(first.2.is_positive() && q.lt(&Dec::new(7, 1))),
        None => None,
    };
    match (change_bps_opt(Some(first.1), Some(last.1)), gone) {
        (Some(change), Some(gone)) => {
            let found = if threshold.lt(&abs_dec(change)) && (gone || (change.is_positive()
                && direction.lt(&Dec::new(-50, 0)))) {
                Some(change)
            } else {
                None
            };
            proof {
                use_type_invariant(&change);
                assert(breakout_by(
                    first,
                    last,
                    threshold@,
                    direction@,
                    change@,
                    left->0@,
                    found,
                ));
            }
            Some(found)
        },
        _ => None,
    }
}

/// A wall that showed up suddenly: liquidity changed by more than twice what it was,
/// and one side holds more than one and a half times the other.
pub open spec fn wall_of(last_level: Dec, level: Dec, bid_notional: Dec, ask_notional: Dec) ->
    Option<Option<(bool, Dec)>> {
    if last_level@ <= 0 {
        Some(None)
    } else {
        match (
            over(minus(Some(level), Some(last_level)), Some(last_level)),
            times(Some(ask_notional), lit(15, 1)),
            times(Some(bid_notional), lit(15, 1)),
        ) {
            (Some(change), Some(ask_limit), Some(bid_limit)) => if abs_of(change)@ <= dec_of(
                2,
                0,
            )@ {
                Some(None)
            } else if bid_notional@ > ask_limit@ {
                match over(Some(bid_notional), higher(Some(ask_notional), lit(1, 2))) {
                    Some(q) => Some(Some((true, q))),
                    None => None,
                }
            } else if ask_notional@ > bid_limit@ {
                match over(Some(ask_notional), higher(Some(bid_notional), lit(1, 2))) {
                    Some(q) => Some(Some((false, q))),
                    None => None,
                }
            } else {
                Some(None)
            },
            _ => None,
        }
    }
}

/// The steps to a wall: liquidity changed by more than twice what it was, and one side is worth more
/// than one and a half times the other; it is as many times as large as the other side, or as a
/// hundredth where that is more.
pub open spec fn wall_by(
    last_level: int,
    level: int,
    bid: int,
    ask: int,
    c: int,
    change: int,
    ask_limit: int,
    bid_limit: int,
    w: Option<(bool, Dec)>,
) -> bool {
    let moved = change > 2 * one() || change < -(2 * one());
    &&& rounds_to(level - last_level, 1, c)
    &&& rounds_to(c * one(), last_level, change)
    &&& rounds_to(ask * 15_000_000_000_000_000_000_000_000_000, one(), ask_limit)
    &&& rounds_to(bid * 15_000_000_000_000_000_000_000_000_000, one(), bid_limit)
    &&& w is Some <==> moved && (bid > ask_limit || ask > bid_limit)
    &&& w matches Some((bid_wall, size)) ==> bid_wall == (bid > ask_limit) && rounds_to(
        (if bid_wall {
            bid
        } else {
            ask
        }) * one(),
        at_least_a_hundredth(if bid_wall {
            ask
        } else {
            bid
        }),
        size@,
    )
}

pub open spec fn at_least_a_hundredth(v: int) -> int {
    if v < 100_000_000_000_000_000_000_000_000 {
        100_000_000_000_000_000_000_000_000
    } else {
        v
    }
}

pub open spec fn wall_told(
    last_level: int,
    level: int,
    bid: int,
    ask: int,
    w: Option<(bool, Dec)>,
) -> bool {
    &&& last_level <= 0 ==> w is None
    &&& last_level > 0 ==> exists|c: int, change: int, ask_limit: int, bid_limit: int| #[trigger]
        wall_by(last_level, level, bid, ask, c, change, ask_limit, bid_limit, w)
}

/// What share of the liquidity went.
pub open spec fn drop_told(last_level: int, level: int, d: Option<Dec>) -> bool {
    &&& d is Some <==> last_level > 0 && level > 0
    &&& d matches Some(v) ==> exists|c: int| #[trigger]
        rounds_to(last_level - level, 1, c) && rounds_to(c * one(), last_level, v@)
}

/// A wall is on the side that is worth more than one and a half times the other, and there is none
/// where liquidity did not change to more than three times or was nothing before. Liquidity that
/// grew has not gone; and where the steps can be held it is the part that went.
pub proof fn law_walls_and_drops(
    last_level: int,
    level: int,
    bid: int,
    ask: int,
    w: Option<(bool, Dec)>,
    d: Option<Dec>,
    share: int,
)
    requires
        can_be_held(bid),
        can_be_held(ask),
        can_be_held(level),
        level >= 0,
        bid >= 0,
        ask >= 0,
        wall_told(last_level, level, bid, ask, w),
        drop_told(last_level, level, d),
    ensures
        w matches Some((true, _)) ==> 2 * bid > 3 * ask,
        w matches Some((false, _)) ==> 2 * ask > 3 * bid,
        w is Some ==> last_level > 0,
        w is Some && can_be_held(level - last_level) ==> level > 3 * last_level,
        d is Some ==> level > 0 && last_level > 0,
        d is Some && level >= last_level ==> d->0@ <= 0,
        d is Some && level <= last_level ==> d->0@ >= 0,
        d is Some && can_be_held(last_level - level) && can_be_held(share) && share * last_level == (
        last_level - level) * one() ==> d->0@ == share,
{
    lemma_zero_and_one();
    lemma_powers();
    if w is Some {
        let (c, change, ask_limit, bid_limit) = choose|
            c: int,
            change: int,
            ask_limit: int,
            bid_limit: int,
        | #[trigger]
            wall_by(last_level, level, bid, ask, c, change, ask_limit, bid_limit, w);
        if 2 * bid <= 3 * ask {
            law_rounding_above(
                ask * 15_000_000_000_000_000_000_000_000_000,
                one(),
                ask_limit,
                bid,
            );
        }
        if 2 * ask <= 3 * bid {
            law_rounding_above(
                bid * 15_000_000_000_000_000_000_000_000_000,
                one(),
                bid_limit,
                ask,
            );
        }
        if can_be_held(level - last_level) {
            law_exact_is_kept(level - last_level, 1, c, level - last_level);
            lemma_exact(2, 0, 1);
            lemma_exact(-2, 0, 1);
            if level <= 3 * last_level {
                assert(c * one() <= (2 * one()) * last_level);
                law_rounding_below(c * one(), last_level, change, 2 * one());
                assert((-2 * one()) * last_level <= c * one());
                law_rounding_above(c * one(), last_level, change, -2 * one());
            }
        }
    }
    if d is Some {
        let v = d->0@;
        let c = choose|c: int| #[trigger]
            rounds_to(last_level - level, 1, c) && rounds_to(c * one(), last_level, v);
        if level >= last_level {
            law_rounding_below(last_level - level, 1, c, 0);
            law_rounding_below(c * one(), last_level, v, 0);
        }
        if level <= last_level {
            law_rounding_above(last_level - level, 1, c, 0);
            law_rounding_above(c * one(), last_level, v, 0);
        }
        if can_be_held(last_level - level) && can_be_held(share) && share * last_level == (last_level
            - level) * one() {
            law_exact_is_kept(last_level - level, 1, c, last_level - level);
            law_exact_is_kept(c * one(), last_level, v, share);
        }
    }
}

fn find_wall(last_level: Dec, level: Dec, bid_notional: Dec, ask_notional: Dec) -> (r: Option<
    Option<(bool, Dec)>,
>)
    ensures
        r == wall_of(last_level, level, bid_notional, ask_notional),
        r matches Some(w) ==> wall_told(
            last_level@,
            level@,
            bid_notional@,
            ask_notional@,
            w,
        ),
{
    proof {
        lemma_powers();
        lemma_value(15, 1);
        lemma_value(2, 0);
        lemma_value(1, 2);
    }
    if !last_level.is_positive() {
        return Some(None);
    }
    let grown = sub_opt(Some(level), Some(last_level));
    match (
        div_opt(grown, Some(last_level)),
        mul_opt(Some(ask_notional), number(15, 1)),
        mul_opt(Some(bid_notional), number(15, 1)),
    ) {
        (Some(change), Some(ask_limit), Some(bid_limit)) => {
            let found = if abs_dec(change).le(&Dec::new(2, 0)) {
                Some(None)
            } else if ask_limit.lt(&bid_notional) {
                match div_opt(Some(bid_notional), max_opt(Some(ask_notional), number(1, 2))) {
                    Some(q) => Some(Some((true, q))),
                    None => None,
                }
            } else if bid_limit.lt(&ask_notional) {
                match div_opt(Some(ask_notional), max_opt(Some(bid_notional), number(1, 2))) {
                    Some(q) => Some(Some((false, q))),
                    None => None,
                }
            } else {
                Some(None)
            };
            proof {
                if found is Some {
                    assert(wall_by(
                        last_level@,
                        level@,
                        bid_notional@,
                        ask_notional@,
                        grown->0@,
                        change@,
                        ask_limit@,
                        bid_limit@,
                        found->0,
                    ));
                }
            }
            found
        },
        _ => None,
    }
}

/// The share of the liquidity that went, where there was some before and is some now.
pub open spec fn drop_of(last_level: Dec, level: Dec) -> Option<Option<Dec>> {
    if last_level@ > 0 && level@ > 0 {
        match over(minus(Some(last_level), Some(level)), Some(last_level)) {
            Some(d) => Some(Some(d)),
            None => None,
        }
    } else {
        Some(None)
    }
}

fn find_drop(last_level: Dec, level: Dec) -> (r: Option<Option<Dec>>)
    ensures
        r == drop_of(last_level, level),
        r matches Some(d) ==> drop_told(last_level@, level@, d),
{
    if last_level.is_positive() && level.is_positive() {
        let gone = sub_opt(Some(last_level), Some(level));
        match div_opt(gone, Some(last_level)) {
            Some(d) => {
                proof {
                    lemma_powers();
                    assert(rounds_to(last_level@ - level@, 1, gone->0@));
                }
                Some(Some(d))
            },
            None => None,
        }
    } else {
        Some(None)
    }
}

/// The smaller of the values on the two sides of the book.
pub open spec fn liquidity_of(f: MarketFigures) -> Dec {
    if f.ask_notional@ < f.bid_notional@ {
        f.ask_notional
    } else {
        f.bid_notional
    }
}

/// The figures of a tick in a market with these sides; none where a number cannot be held.
pub open spec fn market_figures(m: DynMm, bid: BookLevel, ask: BookLevel, now_ms: u64) -> Option<
    MarketFigures,
> {
    let spread = minus(Some(ask.px.0), Some(bid.px.0));
    match (
        middle(bid.px.0, ask.px.0),
        plus(Some(bid.qty.0), Some(ask.qty.0)),
        times(Some(bid.px.0), Some(bid.qty.0)),
        times(Some(ask.px.0), Some(ask.qty.0)),
        times(Some(m.cfg.max_spread_bps), lit(5, 1)),
        jump_ratio_of(m.volume_history@),
    ) {
        (
            Some(mid),
            Some(volume),
            Some(bid_notional),
            Some(ask_notional),
            Some(half_max_spread),
            Some(jump_ratio),
        ) => {
            let level = if ask_notional@ < bid_notional@ {
                ask_notional
            } else {
                bid_notional
            };
            match (in_bps(spread, Some(mid)), direction_of(m, mid)) {
                (Some(spread_bps), Some(direction)) => match (
                    anomaly_of(with_volume(m.volume_history@, volume)),
                    breakout_of(
                        points_with(m, now_ms, mid, volume),
                        m.cfg.fake_breakout_threshold_bps,
                        direction,
                    ),
                    wall_of(m.last_liquidity_level, level, bid_notional, ask_notional),
                    drop_of(m.last_liquidity_level, level),
                ) {
                    (Some(anomaly), Some(breakout), Some(wall), Some(drop)) => Some(
                        MarketFigures {
                            mid,
                            volume,
                            spread_bps,
                            half_max_spread,
                            direction,
                            jump_ratio,
                            bid_notional,
                            ask_notional,
                            anomaly,
                            breakout,
                            wall,
                            drop,
                        },
                    ),
                    _ => None,
                },
                _ => None,
            }
        },
        _ => None,
    }
}

/// What the figures of a market are: the price halfway, the quantity and the worth of both sides,
/// the spread in basis points of that price, half of the widest spread, how far the price is
/// from the last one, and what the volumes, the points and the liquidity point to.
pub open spec fn market_hold(
    m: DynMm,
    bid: BookLevel,
    ask: BookLevel,
    now_ms: u64,
    f: MarketFigures,
) -> bool {
    let n = m.price_history@.len();
    &&& halfway(bid.px.0@, ask.px.0@, f.mid@)
    &&& rounds_to(bid.qty.0@ + ask.qty.0@, 1, f.volume@)
    &&& rounds_to(bid.px.0@ * bid.qty.0@, one(), f.bid_notional@)
    &&& rounds_to(ask.px.0@ * ask.qty.0@, one(), f.ask_notional@)
    &&& rounds_to(
        m.cfg.max_spread_bps@ * 5_000_000_000_000_000_000_000_000_000,
        one(),
        f.half_max_spread@,
    )
    &&& f.mid@ > 0 ==> spread_told(bid.px.0@, ask.px.0@, f.mid@, f.spread_bps@)
    &&& n > 0 && m.price_history@[n - 1].1@ > 0 ==> changes_by_bps(
        m.price_history@[n - 1].1@,
        f.mid@,
        f.direction@,
    )
    &&& n == 0 ==> f.direction == m.flash_crash_direction
    &&& jump_told(m.volume_history@, f.jump_ratio@)
    &&& anomaly_told(with_volume(m.volume_history@, f.volume), f.anomaly)
    &&& breakout_told(
        points_with(m, now_ms, f.mid, f.volume),
        m.cfg.fake_breakout_threshold_bps@,
        f.direction@,
        f.breakout,
    )
    &&& wall_told(
        m.last_liquidity_level@,
        liquidity_of(f)@,
        f.bid_notional@,
        f.ask_notional@,
        f.wall,
    )
    &&& drop_told(m.last_liquidity_level@, liquidity_of(f)@, f.drop)
}

/// A spread in basis points of the price halfway.
pub open spec fn spread_told(bid: int, ask: int, mid: int, v: int) -> bool {
    exists|s: int| #[trigger] rounds_to(ask - bid, 1, s) && is_bps(s, mid, v)
}

/// The price fell by more than a jump.
pub open spec fn fell(f: MarketFigures, cfg: DynMmCfg) -> bool {
    f.direction@ < -cfg.price_jump_threshold_bps@
}

/// The price rose by more than a jump.
pub open spec fn rose(f: MarketFigures, cfg: DynMmCfg) -> bool {
    f.direction@ > cfg.price_jump_threshold_bps@
}

/// The last three prices show that a jump was taken back: after a fall they have a
/// low in the middle, after a rise a high.
pub open spec fn recovered(history: Seq<(u64, Dec)>, f: MarketFigures, cfg: DynMmCfg) -> bool {
    if history.len() < 3 {
        false
    } else {
        let newest = history[history.len() - 1].1@;
        let middle = history[history.len() - 2].1@;
        let oldest = history[history.len() - 3].1@;
        if fell(f, cfg) {
            newest > middle && middle < oldest
        } else if rose(f, cfg) {
            newest < middle && middle > oldest
        } else {
            false
        }
    }
}

fn read_recovered(history: &Vec<(u64, Dec)>, f: &MarketFigures, cfg: &DynMmCfg) -> (r: bool)
    ensures
        r == recovered(history@, *f, *cfg),
{
    let n: usize = history.len();
    if n < 3 {
        return false;
    }
    let newest = history[n - 1].1;
    let middle = history[n - 2].1;
    let oldest = history[n - 3].1;
    if f.direction.lt(&cfg.price_jump_threshold_bps.neg()) {
        middle.lt(&newest) && middle.lt(&oldest)
    } else if cfg.price_jump_threshold_bps.lt(&f.direction) {
        newest.lt(&middle) && oldest.lt(&middle)
    } else {
        false
    }
}

/// A sudden jump with volume behind it that was taken back.
pub open spec fn flash_detected(
    history: Seq<(u64, Dec)>,
    f: MarketFigures,
    cfg: DynMmCfg,
    now_ms: u64,
) -> bool {
    &&& fell(f, cfg) || rose(f, cfg)
    &&& f.jump_ratio@ > dec_of(5, 0)@
    &&& elapsed(history.last().0, now_ms) < FLASH_WINDOW_MS
    &&& f.spread_bps@ < f.half_max_spread@
    &&& recovered(history, f, cfg)
}

/// The spread is wide enough to earn it, and not too wide.
pub open spec fn worth_earning(f: MarketFigures, cfg: DynMmCfg) -> bool {
    cfg.spread_arbitrage_min_bps@ < f.spread_bps@ && f.spread_bps@
        <= cfg.spread_arbitrage_max_bps@
}

/// The opportunity of the spread or of a jump.
pub open spec fn early_opportunity(
    history: Seq<(u64, Dec)>,
    f: MarketFigures,
    cfg: DynMmCfg,
    now_ms: u64,
) -> Option<ManipulationOpportunity> {
    if worth_earning(f, cfg) {
        Some(ManipulationOpportunity::WideSpreadArbitrage { spread_bps: f.spread_bps })
    } else if has_last_price(history) && flash_detected(history, f, cfg, now_ms) {
        if fell(f, cfg) {
            Some(ManipulationOpportunity::FlashCrashLong { price_drop_bps: abs_of(f.direction) })
        } else {
            Some(ManipulationOpportunity::FlashPumpShort { price_rise_bps: f.direction })
        }
    } else {
        None
    }
}

/// The market is not one to trade in: its spread is too wide, or it holds too little.
pub open spec fn refused(f: MarketFigures, cfg: DynMmCfg) -> bool {
    (!worth_earning(f, cfg) && f.spread_bps@ > cfg.max_spread_bps@) || liquidity_of(f)@
        < cfg.min_liquidity_required@
}

/// Whether the last price is above the oldest of the last five.
pub open spec fn trend_up(history: Seq<(u64, Dec)>) -> bool {
    let n = history.len();
    let oldest = if n < 5 { history[0] } else { history[n - 5] };
    history.last().1@ > oldest.1@
}

fn read_trend_up(history: &Vec<(u64, Dec)>) -> (r: bool)
    requires
        history@.len() > 0,
    ensures
        r == trend_up(history@),
{
    let n: usize = history.len();
    let first: usize = if n < 5 {
        0
    } else {
        n - 5
    };
    history[first].1.lt(&history[n - 1].1)
}

/// The opportunity of a tick, from the prices before it.
pub open spec fn opportunity_of(
    history: Seq<(u64, Dec)>,
    f: MarketFigures,
    cfg: DynMmCfg,
    now_ms: u64,
) -> Option<ManipulationOpportunity> {
    if f.anomaly is Some && history.len() >= 2 {
        Some(
            ManipulationOpportunity::VolumeAnomalyTrend {
                up: trend_up(history),
                volume_ratio: f.anomaly->0,
            },
        )
    } else if early_opportunity(history, f, cfg, now_ms) is Some {
        early_opportunity(history, f, cfg, now_ms)
    } else if f.breakout is Some {
        Some(
            ManipulationOpportunity::MomentumManipulationReversal {
                breakout_up: f.breakout->0@ > 0,
                fake_breakout_bps: abs_of(f.breakout->0),
            },
        )
    } else if f.wall is Some {
        let (bid_wall, wall_size_ratio) = f.wall->0;
        Some(ManipulationOpportunity::SpoofingOpportunity { bid_wall, wall_size_ratio })
    } else if f.drop is Some && f.drop->0@ > cfg.liquidity_drop_threshold@ && f.spread_bps@
        > cfg.spread_arbitrage_min_bps@ {
        Some(ManipulationOpportunity::LiquidityWithdrawal { liquidity_drop_ratio: f.drop->0 })
    } else {
        None
    }
}

/// A history with one more price, and not more than are remembered.
pub open spec fn with_price(history: Seq<(u64, Dec)>, now_ms: u64, price: Dec) -> Seq<
    (u64, Dec),
> {
    let longer = history.push((now_ms, price));
    if longer.len() > PRICE_HISTORY {
        longer.skip(1)
    } else {
        longer
    }
}

/// The sides that an opportunity is taken on: bid, and ask.
pub open spec fn sides_of(opp: ManipulationOpportunity) -> (bool, bool) {
    match opp {
        ManipulationOpportunity::FlashCrashLong { .. } => (true, false),
        ManipulationOpportunity::FlashPumpShort { .. } => (false, true),
        ManipulationOpportunity::WideSpreadArbitrage { .. } => (true, true),
        ManipulationOpportunity::VolumeAnomalyTrend { up, .. } => (up, !up),
        ManipulationOpportunity::MomentumManipulationReversal { breakout_up, .. } => (
            !breakout_up,
            breakout_up,
        ),
        ManipulationOpportunity::SpoofingOpportunity { bid_wall, .. } => (!bid_wall, bid_wall),
        ManipulationOpportunity::LiquidityWithdrawal { .. } => (true, true),
    }
}

fn take_sides(opp: ManipulationOpportunity) -> (r: (bool, bool))
    ensures
        r == sides_of(opp),
{
    match opp {
        ManipulationOpportunity::FlashCrashLong { .. } => (true, false),
        ManipulationOpportunity::FlashPumpShort { .. } => (false, true),
        ManipulationOpportunity::WideSpreadArbitrage { .. } => (true, true),
        ManipulationOpportunity::VolumeAnomalyTrend { up, .. } => (up, !up),
        ManipulationOpportunity::MomentumManipulationReversal { breakout_up, .. } => (
            !breakout_up,
            breakout_up,
        ),
        ManipulationOpportunity::SpoofingOpportunity { bid_wall, .. } => (!bid_wall, bid_wall),
        ManipulationOpportunity::LiquidityWithdrawal { .. } => (true, true),
    }
}

/// Every opportunity is taken on at least one side, and those that go against a
/// move or a wall on exactly one.
pub proof fn law_opportunities_take_a_side(opp: ManipulationOpportunity)
    ensures
        sides_of(opp).0 || sides_of(opp).1,
        sides_of(opp).0 && sides_of(opp).1 <==> opp is WideSpreadArbitrage
            || opp is LiquidityWithdrawal,
{
}

/// Whether the ask side is one to lose on: the flow and the trend go up. Once it
/// is, a lower flow keeps it so.
pub open spec fn adverse_ask(cfg: DynMmCfg, last_adverse_ask: bool, flow: Dec, trend: Dec) -> bool {
    &&& abs_of(trend)@ > cfg.momentum_strong_bps@
    &&& flow@ > adverse_threshold(cfg, last_adverse_ask)@
    &&& trend@ > 0
}

/// The flow at which a side is one to lose on: a lower one where it was before.
pub open spec fn adverse_threshold(cfg: DynMmCfg, before: bool) -> Dec {
    if before {
        cfg.adverse_selection_threshold_off
    } else {
        cfg.adverse_selection_threshold_on
    }
}

/// Whether the bid side is one to lose on: the flow and the trend go down.
pub open spec fn adverse_bid(
    cfg: DynMmCfg,
    last_adverse_bid: bool,
    last_adverse_ask: bool,
    flow: Dec,
    trend: Dec,
) -> bool {
    &&& !adverse_ask(cfg, last_adverse_ask, flow, trend)
    &&& abs_of(trend)@ > cfg.momentum_strong_bps@
    &&& flow@ < -adverse_threshold(cfg, last_adverse_bid)@
    &&& trend@ < 0
}

/// Whether an opportunity is taken: there is one and the flow is strong enough,
/// or it was taken before and has not faded.
pub open spec fn opportunity_taken(cfg: DynMmCfg, found: bool, last_mode: bool, flow: Dec) -> bool {
    if found {
        last_mode || abs_of(flow)@ >= cfg.opportunity_threshold_on@
    } else {
        last_mode && abs_of(flow)@ >= cfg.opportunity_threshold_off@
    }
}

/// How far the prices are from the base, as shares of it.
#[derive(Clone, Copy, Debug)]
pub struct Skews {
    pub half: Dec,
    pub skew: Dec,
    pub inv_skew: Dec,
    pub imb_skew: Dec,
}

/// A price that much away from `base`: `base * (1 - half - skew - inv_skew - imb_skew)`
/// for a bid, with `+` for an ask.
pub open spec fn skewed_price(base: Dec, k: Skews, is_bid: bool) -> Option<Dec> {
    let one = lit(1, 0);
    let ratio = if is_bid {
        minus(
            minus(minus(minus(one, Some(k.half)), Some(k.skew)), Some(k.inv_skew)),
            Some(k.imb_skew),
        )
    } else {
        plus(plus(plus(plus(one, Some(k.half)), Some(k.skew)), Some(k.inv_skew)), Some(k.imb_skew))
    };
    times(Some(base), ratio)
}

/// The price of a quote.
pub fn skew_price(base: Dec, k: &Skews, is_bid: bool) -> (r: Option<Dec>)
    ensures
        r == skewed_price(base, *k, is_bid),
        r matches Some(v) ==> moved(base@, moves_of(*k), is_bid, v@),
{
    let whole = number(1, 0);
    let (x, y, z, ratio) = if is_bid {
        let x = sub_opt(whole, Some(k.half));
        let y = sub_opt(x, Some(k.skew));
        let z = sub_opt(y, Some(k.inv_skew));
        (x, y, z, sub_opt(z, Some(k.imb_skew)))
    } else {
        let x = add_opt(whole, Some(k.half));
        let y = add_opt(x, Some(k.skew));
        let z = add_opt(y, Some(k.inv_skew));
        (x, y, z, add_opt(z, Some(k.imb_skew)))
    };
    let r = mul_opt(Some(base), ratio);
    proof {
        lemma_powers();
        lemma_value(1, 0);
        if r is Some {
            assert(moved_by(
                base@,
                moves_of(*k),
                is_bid,
                x->0@,
                y->0@,
                z->0@,
                ratio->0@,
                r->0@,
            ));
        }
    }
    r
}

/// A bid that does not reach the best bid: one tick below it where it would.
pub open spec fn guarded_bid(bid_px: Dec, best_bid: Dec, tick: Dec) -> Option<Dec> {
    if bid_px@ >= best_bid@ {
        match difference(best_bid, tick) {
            Some(d) => Some(
                if d@ < 0 {
                    dec_of(0, 0)
                } else {
                    d
                },
            ),
            None => None,
        }
    } else {
        Some(bid_px)
    }
}

/// An ask that does not reach the best ask: one tick above it where it would.
pub open spec fn guarded_ask(ask_px: Dec, best_ask: Dec, tick: Dec) -> Option<Dec> {
    if ask_px@ <= best_ask@ {
        sum(best_ask, tick)
    } else {
        Some(ask_px)
    }
}

/// A price is below the best one, or a tick below it as far as that can be held, but not
/// below zero.
pub open spec fn stays_below(v: int, best: int, tick: int) -> bool {
    v < best || exists|w: int| #[trigger]
        rounds_to(best - tick, 1, w) && v == if w < 0 {
            0
        } else {
            w
        }
}

/// A price is above the best one, or a tick above it as far as that can be held.
pub open spec fn stays_above(v: int, best: int, tick: int) -> bool {
    v > best || rounds_to(best + tick, 1, v)
}

/// Keeps a bid below the best bid, so that it makes the market. It stays below
/// where there is a tick and a price to stay below of.
pub fn guard_bid(bid_px: Dec, best_bid: Dec, tick: Dec) -> (r: Option<Dec>)
    ensures
        r == guarded_bid(bid_px, best_bid, tick),
        best_bid@ > 0 && tick@ > 0 && can_be_held(best_bid@ - tick@) ==> r is Some && r->0@
            < best_bid@,
        r matches Some(v) ==> stays_below(v@, best_bid@, tick@),
{
    if best_bid.le(&bid_px) {
        let lower = best_bid.checked_sub(&tick);
        proof {
            lemma_held(best_bid@ - tick@, value_of(lower));
        }
        match lower {
            Some(d) => if d.is_sign_negative() {
                Some(Dec::new(0, 0))
            } else {
                Some(d)
            },
            None => None,
        }
    } else {
        Some(bid_px)
    }
}

/// Keeps an ask above the best ask, so that it makes the market.
pub fn guard_ask(ask_px: Dec, best_ask: Dec, tick: Dec) -> (r: Option<Dec>)
    ensures
        r == guarded_ask(ask_px, best_ask, tick),
        tick@ > 0 && can_be_held(best_ask@ + tick@) ==> r is Some && r->0@ > best_ask@,
        r matches Some(v) ==> stays_above(v@, best_ask@, tick@),
{
    if ask_px.le(&best_ask) {
        let higher = best_ask.checked_add(&tick);
        proof {
            lemma_held(best_ask@ + tick@, value_of(higher));
        }
        higher
    } else {
        Some(ask_px)
    }
}

/// The tick of the symbol, or a ten-thousandth of the price.
pub open spec fn tick_of(c: Context, base: Dec) -> Option<Dec> {
    match c.tick_size {
        Some(t) => Some(t),
        None => product(base, dec_of(1, 4)),
    }
}

/// The tick that is told, or a ten-thousandth of the price.
pub open spec fn tick_told(c: Context, base: int, tick: int) -> bool {
    &&& c.tick_size matches Some(t) ==> tick == t@
    &&& c.tick_size is None ==> rounds_to(
        base * 1_000_000_000_000_000_000_000_000,
        one(),
        tick,
    )
}

fn find_tick(c: &Context, base: Dec) -> (r: Option<Dec>)
    ensures
        r == tick_of(*c, base),
        r matches Some(t) ==> tick_told(*c, base@, t@),
{
    proof {
        lemma_powers();
        lemma_value(1, 4);
    }
    match c.tick_size {
        Some(t) => Some(t),
        None => base.checked_mul(&Dec::new(1, 4)),
    }
}

/// The sides on which quotes are shown: those called for, without the ones to
/// lose on unless an opportunity is taken.
pub open spec fn shown_sides(
    wanted: (bool, bool),
    adverse_bid: bool,
    adverse_ask: bool,
    taken: bool,
) -> (bool, bool) {
    if taken {
        wanted
    } else {
        (wanted.0 && !adverse_bid, wanted.1 && !adverse_ask)
    }
}

/// The inventory as a share of its cap, without its sign.
pub open spec fn inventory_share(m: DynMm, inv: Dec) -> Option<Dec> {
    if m.inv_cap.0@ == 0 {
        lit(0, 0)
    } else {
        unsigned(over(Some(inv), Some(m.inv_cap.0)))
    }
}

/// The spread to be quoted: the adaptive one, wider in an unbalanced book and near liquidation.
pub open spec fn quoted_spread(
    m: DynMm,
    c: Context,
    variance: Dec,
    flow: Dec,
    imb: Option<Dec>,
) -> Option<Dec> {
    let base = higher(
        plus(
            times(Some(m.cfg.a), Some(c.sigma)),
            times(Some(m.cfg.b), inventory_share(m, c.inv.0)),
        ),
        lit(1, 4),
    );
    let wider = plus(
        adaptive_spread(m.cfg, variance, flow, base, m.cfg.min_spread_bps),
        lower(times(unsigned(imb), lit(10, 0)), lit(5, 0)),
    );
    if c.liq_gap_bps@ < dec_of(300, 0)@ {
        times(wider, lit(15, 1))
    } else {
        wider
    }
}

/// What the prices are skewed by: half of the spread, funding, the inventory and the
/// book. A book that is heavy on the bid side moves both prices towards its ask: the bid
/// up and the ask down.
pub open spec fn skews_of(m: DynMm, c: Context, spread_bps: Option<Dec>, imb: Option<Dec>) ->
    Option<Skews> {
    let bps = lit(10_000, 0);
    let funding = match c.funding_rate {
        Some(f) => f,
        None => dec_of(0, 0),
    };
    let direction = if c.inv.0@ < 0 {
        lit(-1, 0)
    } else {
        lit(1, 0)
    };
    match (
        over(over(spread_bps, lit(2, 0)), bps),
        over(times(Some(funding), lit(100, 0)), bps),
        over(times(times(direction, inventory_share(m, c.inv.0)), lit(20, 0)), bps),
        over(times(imb, lit(-10, 0)), bps),
    ) {
        (Some(half), Some(skew), Some(inv_skew), Some(imb_skew)) => Some(
            Skews { half, skew, inv_skew, imb_skew },
        ),
        _ => None,
    }
}

/// How much larger the quotes are.
pub open spec fn size_multiplier(m: DynMm, trend: Dec) -> Dec {
    if m.manipulation_opportunity is Some {
        m.cfg.opportunity_size_multiplier
    } else if abs_of(trend)@ > m.cfg.strong_trend_bps@ {
        m.cfg.strong_trend_multiplier
    } else {
        dec_of(1, 0)
    }
}

/// The quantity of the quotes: their value, by the price.
pub open spec fn quoted_qty(m: DynMm, trend: Dec, mid: Option<Dec>) -> Option<Dec> {
    match product(m.base_notional, size_multiplier(m, trend)) {
        Some(usd) => if usd@ > 0 {
            over(Some(usd), mid)
        } else {
            lit(0, 0)
        },
        None => None,
    }
}

/// `share` is the size of an inventory as a share of its cap; nothing without a cap.
pub open spec fn share_of(inv: int, cap: int, share: int) -> bool {
    if cap == 0 {
        share == 0
    } else {
        exists|q: int| share == size_of_value(q) && #[trigger] is_share(inv, cap, q)
    }
}

/// `q` is an inventory by its cap.
pub open spec fn is_share(inv: int, cap: int, q: int) -> bool {
    if cap > 0 {
        rounds_to(inv * one(), cap, q)
    } else {
        rounds_to(-(inv * one()), -cap, q)
    }
}

/// A share with the sign of the inventory.
pub open spec fn with_sign(share: int, inv: int) -> int {
    if inv < 0 {
        -share
    } else {
        share
    }
}

/// What the spread of a tick is made of.
pub open spec fn spread_inputs(
    m: DynMm,
    c: Context,
    variance: Dec,
    flow: Dec,
    share: int,
    imbalance: int,
) -> SpreadInputs {
    SpreadInputs {
        a: m.cfg.a@,
        sigma: c.sigma@,
        b: m.cfg.b@,
        share,
        volatility_coefficient: m.cfg.volatility_coefficient@,
        flow_coefficient: m.cfg.ofi_coefficient@,
        variance: variance@,
        flow: flow@,
        narrowest: m.cfg.min_spread_bps@,
        imbalance,
        liq_gap: c.liq_gap_bps@,
    }
}

/// The moves that skews stand for.
pub open spec fn moves_of(k: Skews) -> Moves {
    Moves {
        half: k.half@,
        funding: k.skew@,
        inventory: k.inv_skew@,
        book: k.imb_skew@,
    }
}

/// The skews are those of the spread, the funding rate, the share of the inventory with its
/// sign, and the imbalance of the book.
pub open spec fn skews_hold(
    m: DynMm,
    c: Context,
    spread_bps: int,
    imbalance: int,
    k: Skews,
) -> bool {
    exists|share: int|
        share_of(c.inv.0@, m.inv_cap.0@, share) && #[trigger] moves(
            spread_bps,
            funding_value(c.funding_rate),
            with_sign(share, c.inv.0@),
            imbalance,
            moves_of(k),
        )
}

/// How many times the notional value a quote is worth.
pub open spec fn times_notional(m: DynMm, trend: int) -> int {
    if m.manipulation_opportunity is Some {
        m.cfg.opportunity_size_multiplier@
    } else if size_of_value(trend) > m.cfg.strong_trend_bps@ {
        m.cfg.strong_trend_multiplier@
    } else {
        one()
    }
}

/// The figures of a tick are what its quotes are worth, as wide and as far as they are asked
/// to be.
pub open spec fn figures_hold(
    m: DynMm,
    c: Context,
    bid: BookLevel,
    ask: BookLevel,
    f: QuoteFigures,
) -> bool {
    &&& middle(bid.px.0, ask.px.0) matches Some(mid) ==> halfway(bid.px.0@, ask.px.0@, mid@) && (
    mid@ > 0 ==> quotes::buys(
        m.base_notional@,
        times_notional(m, f.trend@),
        mid@,
        f.qty@,
    ))
    &&& imbalance(bid.qty.0, ask.qty.0) matches Some(imb) && (exists|share: int|
        share_of(c.inv.0@, m.inv_cap.0@, share) && widens(
            #[trigger] spread_inputs(m, c, f.variance, f.flow, share, imb@),
            f.spread_bps@,
        )) && exists|k: Skews, base: Dec, raw_bid: Dec, raw_ask: Dec|
        {
            &&& #[trigger] skews_hold(m, c, f.spread_bps@, imb@, k)
            &&& microprice(bid.px.0, ask.px.0, bid.qty.0, ask.qty.0) == Some(base)
            &&& moved(base@, moves_of(k), true, raw_bid@)
            &&& moved(base@, moves_of(k), false, raw_ask@)
            &&& #[trigger] keeps_prices(c, bid, ask, base, raw_bid, raw_ask, f)
        }
}

/// A price that stays off the best one is quoted as it is.
pub open spec fn keeps_prices(
    c: Context,
    bid: BookLevel,
    ask: BookLevel,
    base: Dec,
    raw_bid: Dec,
    raw_ask: Dec,
    f: QuoteFigures,
) -> bool {
    &&& raw_bid@ < bid.px.0@ ==> f.bid_px == raw_bid
    &&& raw_ask@ > ask.px.0@ ==> f.ask_px == raw_ask
}

/// What the quotes of a tick rest on.
pub struct QuoteFigures {
    pub variance: Dec,
    pub flow: Dec,
    pub trend: Dec,
    pub target: Dec,
    /// The sides that the inventory calls for.
    pub inventory: (bool, bool),
    pub spread_bps: Dec,
    pub bid_px: Dec,
    pub ask_px: Dec,
    pub qty: Dec,
}

/// The prices of both sides.
pub open spec fn prices_of(
    c: Context,
    bid: BookLevel,
    ask: BookLevel,
    base: Dec,
    k: Skews,
) -> Option<(Dec, Dec)> {
    match (skewed_price(base, k, true), skewed_price(base, k, false), tick_of(c, base)) {
        (Some(b), Some(a), Some(tick)) => match (
            guarded_bid(b, bid.px.0, tick),
            guarded_ask(a, ask.px.0, tick),
        ) {
            (Some(b), Some(a)) => Some((b, a)),
            _ => None,
        },
        _ => None,
    }
}

/// The prices of both sides keep off the best prices.
pub open spec fn keeps_off(
    c: Context,
    bid: BookLevel,
    ask: BookLevel,
    base: Dec,
    bid_px: Dec,
    ask_px: Dec,
) -> bool {
    tick_of(c, base) matches Some(tick) && tick_told(c, base@, tick@) && stays_below(
        bid_px@,
        bid.px.0@,
        tick@,
    ) && stays_above(ask_px@, ask.px.0@, tick@)
}

fn find_prices(c: &Context, bid: BookLevel, ask: BookLevel, base: Dec, k: &Skews) -> (r: Option<
    (Dec, Dec),
>)
    ensures
        r == prices_of(*c, bid, ask, base, *k),
        r matches Some(p) ==> keeps_off(*c, bid, ask, base, p.0, p.1),
        r matches Some(p) ==> exists|raw_bid: Dec, raw_ask: Dec|
            {
                &&& #[trigger] moved(base@, moves_of(*k), true, raw_bid@)
                &&& #[trigger] moved(base@, moves_of(*k), false, raw_ask@)
                &&& raw_bid@ < bid.px.0@ ==> p.0 == raw_bid
                &&& raw_ask@ > ask.px.0@ ==> p.1 == raw_ask
            },
{
    match (skew_price(base, k, true), skew_price(base, k, false), find_tick(c, base)) {
        (Some(b), Some(a), Some(tick)) => match (
            guard_bid(b, bid.px.0, tick),
            guard_ask(a, ask.px.0, tick),
        ) {
            (Some(b), Some(a)) => Some((b, a)),
            _ => None,
        },
        _ => None,
    }
}

/// The figures of the quotes of a tick; none where a number cannot be held.
pub open spec fn quote_figures(
    m: DynMm,
    c: Context,
    bid: BookLevel,
    ask: BookLevel,
    now_ms: u64,
) -> Option<QuoteFigures> {
    let imb = imbalance(bid.qty.0, ask.qty.0);
    match (
        microprice(bid.px.0, ask.px.0, bid.qty.0, ask.qty.0),
        flow_with(
            m.ofi_signal,
            m.last_volumes,
            m.last_timestamp_ms,
            bid.qty.0,
            ask.qty.0,
            now_ms,
        ),
        trend_bps(m.price_history@),
    ) {
        (Some(base), Some(flow), Some(trend)) => match (
            variance_with(m.ewma_volatility, m.last_mid_price, base),
            target_of(m, c.funding_rate, trend),
            quoted_qty(m, trend, middle(bid.px.0, ask.px.0)),
        ) {
            (Some(variance), Some(target), Some(qty)) => match (
                quoted_spread(m, c, variance, flow, imb),
                inventory_sides(
                    m.inv_cap.0,
                    m.cfg.inventory_threshold_ratio,
                    c.inv.0,
                    target,
                ),
            ) {
                (Some(spread_bps), Some(inventory)) => match skews_of(
                    m,
                    c,
                    Some(spread_bps),
                    imb,
                ) {
                    None => None,
                    Some(k) => match prices_of(c, bid, ask, base, k) {
                        None => None,
                        Some((bid_px, ask_px)) => Some(
                            QuoteFigures {
                                variance,
                                flow,
                                trend,
                                target,
                                inventory,
                                spread_bps,
                                bid_px,
                                ask_px,
                                qty,
                            },
                        ),
                    },
                },
                _ => None,
            },
            _ => None,
        },
        _ => None,
    }
}

/// The quotes to show.
pub open spec fn quotes_of(m: DynMm, f: QuoteFigures) -> Quotes {
    if f.spread_bps@ > m.cfg.max_spread_bps@ {
        Quotes { bid: None, ask: None }
    } else {
        let wanted = match m.manipulation_opportunity {
            Some(opp) => sides_of(opp),
            None => f.inventory,
        };
        let shown = shown_sides(
            wanted,
            adverse_bid(m.cfg, m.last_adverse_bid, m.last_adverse_ask, f.flow, f.trend),
            adverse_ask(m.cfg, m.last_adverse_ask, f.flow, f.trend),
            opportunity_taken(
                m.cfg,
                m.manipulation_opportunity is Some,
                m.last_opportunity_mode,
                f.flow,
            ),
        );
        Quotes {
            bid: if shown.0 {
                Some((Px(f.bid_px), Qty(f.qty)))
            } else {
                None
            },
            ask: if shown.1 {
                Some((Px(f.ask_px), Qty(f.qty)))
            } else {
                None
            },
        }
    }
}

/// The settings are the same.
pub open spec fn same_settings(before: DynMm, after: DynMm) -> bool {
    after.cfg == before.cfg && after.base_notional == before.base_notional && after.inv_cap
        == before.inv_cap
}

/// What only quoting changes is the same.
pub open spec fn same_quoting_state(before: DynMm, after: DynMm) -> bool {
    &&& after.target_inventory == before.target_inventory
    &&& after.ewma_volatility == before.ewma_volatility
    &&& after.ofi_signal == before.ofi_signal
    &&& after.last_mid_price == before.last_mid_price
    &&& after.last_timestamp_ms == before.last_timestamp_ms
    &&& after.last_volumes == before.last_volumes
    &&& after.last_adverse_bid == before.last_adverse_bid
    &&& after.last_adverse_ask == before.last_adverse_ask
    &&& after.last_opportunity_mode == before.last_opportunity_mode
}

/// What only observing changes is the same.
pub open spec fn same_observing_state(before: DynMm, after: DynMm) -> bool {
    &&& after.price_history == before.price_history
    &&& after.flash_crash_detected == before.flash_crash_detected
    &&& after.flash_crash_direction == before.flash_crash_direction
    &&& after.last_spread_bps == before.last_spread_bps
    &&& after.volume_history == before.volume_history
    &&& after.manipulation_opportunity == before.manipulation_opportunity
    &&& after.momentum_history == before.momentum_history
    &&& after.last_liquidity_level == before.last_liquidity_level
}

/// What observing a tick with these figures makes of a market maker.
pub open spec fn seen(
    before: DynMm,
    after: DynMm,
    c: Context,
    f: MarketFigures,
    now_ms: u64,
) -> bool {
    let history = before.price_history@;
    &&& c.ob.best_bid matches Some(bid) && c.ob.best_ask matches Some(ask) && market_hold(
        before,
        bid,
        ask,
        now_ms,
        f,
    )
    &&& same_settings(before, after)
    &&& same_quoting_state(before, after)
    &&& after.flash_crash_direction == f.direction
    &&& after.flash_crash_detected == if has_last_price(history) {
        flash_detected(history, f, before.cfg, now_ms)
    } else {
        before.flash_crash_detected
    }
    &&& after.last_spread_bps == f.spread_bps
    &&& if refused(f, before.cfg) {
        &&& after.manipulation_opportunity == early_opportunity(history, f, before.cfg, now_ms)
        &&& after.price_history@ == history
        &&& after.volume_history@ == before.volume_history@
        &&& after.momentum_history@ == before.momentum_history@
        &&& after.last_liquidity_level == before.last_liquidity_level
    } else {
        &&& after.manipulation_opportunity == opportunity_of(history, f, before.cfg, now_ms)
        &&& after.price_history@ == with_price(history, now_ms, c.mark_price.0)
        &&& after.volume_history@ == with_volume(before.volume_history@, f.volume)
        &&& after.momentum_history@ == points_with(before, now_ms, f.mid, f.volume)
        &&& after.last_liquidity_level == liquidity_of(f)
    }
}

/// What observing a tick makes of a market maker, and whether quotes are to be made.
pub open spec fn observed(
    before: DynMm,
    after: DynMm,
    c: Context,
    now_ms: u64,
    r: Option<bool>,
) -> bool {
    match (c.ob.best_bid, c.ob.best_ask) {
        (Some(bid), Some(ask)) => match middle(bid.px.0, ask.px.0) {
            None => r is None && after == before,
            Some(mid) => if mid@ <= 0 {
                r == Some(false) && after == before
            } else {
                match market_figures(before, bid, ask, now_ms) {
                    None => r is None && after == before,
                    Some(f) => seen(before, after, c, f, now_ms) && r == Some(
                        !refused(f, before.cfg),
                    ),
                }
            },
        },
        _ => r == Some(false) && after == before,
    }
}

/// What quoting makes of a market maker, and the quotes.
pub open spec fn quoted(
    before: DynMm,
    after: DynMm,
    c: Context,
    now_ms: u64,
    r: Option<Quotes>,
) -> bool {
    match (c.ob.best_bid, c.ob.best_ask) {
        (Some(bid), Some(ask)) => match quote_figures(before, c, bid, ask, now_ms) {
            None => r is None && after == before,
            Some(f) => {
                &&& r == Some(quotes_of(before, f))
                &&& microprice(bid.px.0, ask.px.0, bid.qty.0, ask.qty.0) matches Some(base)
                    && keeps_off(c, bid, ask, base, f.bid_px, f.ask_px)
                &&& figures_hold(before, c, bid, ask, f)
                &&& signals_hold(before, c, bid, ask, now_ms, f)
                &&& same_settings(before, after)
                &&& same_observing_state(before, after)
                &&& after.target_inventory == Qty(f.target)
                &&& after.ewma_volatility == f.variance
                &&& after.ofi_signal == f.flow
                &&& after.last_mid_price == microprice(
                    bid.px.0,
                    ask.px.0,
                    bid.qty.0,
                    ask.qty.0,
                )
                &&& after.last_timestamp_ms == Some(now_ms)
                &&& after.last_volumes == Some((bid.qty.0, ask.qty.0))
                &&& after.last_adverse_bid == adverse_bid(
                    before.cfg,
                    before.last_adverse_bid,
                    before.last_adverse_ask,
                    f.flow,
                    f.trend,
                )
                &&& after.last_adverse_ask == adverse_ask(
                    before.cfg,
                    before.last_adverse_ask,
                    f.flow,
                    f.trend,
                )
                &&& after.last_opportunity_mode == if f.spread_bps@ > before.cfg.max_spread_bps@ {
                    before.last_opportunity_mode
                } else {
                    opportunity_taken(
                        before.cfg,
                        before.manipulation_opportunity is Some,
                        before.last_opportunity_mode,
                        f.flow,
                    )
                }
            },
        },
        _ => r == Some(Quotes { bid: None, ask: None }) && after == before,
    }
}

/// What a tick makes of a market maker, and the quotes: nothing is quoted where the
/// market is refused, and a tick that was observed is quoted.
pub open spec fn ticked(
    before: DynMm,
    between: DynMm,
    after: DynMm,
    c: Context,
    now_ms: u64,
    go: Option<bool>,
    r: Option<Quotes>,
) -> bool {
    &&& observed(before, between, c, now_ms, go)
    &&& match go {
        None => r is None && after == between,
        Some(false) => r == Some(Quotes { bid: None, ask: None }) && after == between,
        Some(true) => quoted(between, after, c, now_ms, r),
    }
}

impl DynMm {
    /// A market maker without a past.
    pub fn from_config(c: &DynMmCfg) -> (r: DynMm)
        ensures
            r.cfg == *c,
            r.base_notional == base_notional_of(c.base_size),
            r.inv_cap == Qty(c.inv_cap),
            r.price_history@.len() == 0,
            r.target_inventory == Qty(dec_of(0, 0)),
            r.ewma_volatility == dec_of(1, 4),
            r.ofi_signal == dec_of(0, 0),
            r.last_mid_price is None,
            r.last_timestamp_ms is None,
            r.last_volumes is None,
            !r.flash_crash_detected,
            r.flash_crash_direction == dec_of(0, 0),
            r.last_spread_bps == dec_of(0, 0),
            r.volume_history@.len() == 0,
            r.manipulation_opportunity is None,
            r.momentum_history@.len() == 0,
            r.last_liquidity_level == dec_of(0, 0),
            !r.last_adverse_bid,
            !r.last_adverse_ask,
            !r.last_opportunity_mode,
    {
        let least = Dec::new(100, 0);
        let zero = Dec::new(0, 0);
        DynMm {
            cfg: *c,
            base_notional: if c.base_size.lt(&least) {
                least
            } else {
                c.base_size
            },
            inv_cap: Qty(c.inv_cap),
            price_history: Vec::new(),
            target_inventory: Qty(zero),
            ewma_volatility: Dec::new(1, 4),
            ofi_signal: zero,
            last_mid_price: None,
            last_timestamp_ms: None,
            last_volumes: None,
            flash_crash_detected: false,
            flash_crash_direction: zero,
            last_spread_bps: zero,
            volume_history: Vec::new(),
            manipulation_opportunity: None,
            momentum_history: Vec::new(),
            last_liquidity_level: zero,
            last_adverse_bid: false,
            last_adverse_ask: false,
            last_opportunity_mode: false,
        }
    }

    /// The middle of the prices, weighted by volume. `None` where a number cannot be held.
    pub fn calculate_microprice(&self, bid: Dec, ask: Dec, bid_vol: Dec, ask_vol: Dec) -> (r:
        Option<Dec>)
        ensures
            r == microprice(bid, ask, bid_vol, ask_vol),
            r matches Some(v) ==> base_told(bid, ask, bid_vol, ask_vol, v),
    {
        if bid_vol.is_zero() && ask_vol.is_zero() {
            return find_middle(bid, ask);
        }
        match bid_vol.checked_add(&ask_vol) {
            None => None,
            Some(total) => {
                if total.is_zero() {
                    proof {
                        if bid_vol@ >= 0 && ask_vol@ >= 0 {
                            lemma_powers();
                            lemma_exact(1, 28, 1);
                            law_rounding_above(bid_vol@ + ask_vol@, 1, total@, 1);
                        }
                    }
                    return find_middle(bid, ask);
                }
                let x = mul_opt(Some(ask), Some(bid_vol));
                let y = mul_opt(Some(bid), Some(ask_vol));
                let s = add_opt(x, y);
                let r = div_opt(s, Some(total));
                proof {
                    lemma_powers();
                    lemma_zero_and_one();
                    if r is Some && bid_vol@ >= 0 && ask_vol@ >= 0 {
                        law_rounding_above(bid_vol@ + ask_vol@, 1, total@, 0);
                        assert(quotes::weighs_by(
                            bid@,
                            ask@,
                            bid_vol@,
                            ask_vol@,
                            total@,
                            x->0@,
                            y->0@,
                            s->0@,
                            r->0@,
                        ));
                    }
                }
                r
            },
        }
    }

    /// How much more volume is on the bid side. `None` where a number cannot be held.
    pub fn calculate_imbalance(&self, bid_vol: Dec, ask_vol: Dec) -> (r: Option<Dec>)
        ensures
            r == imbalance(bid_vol, ask_vol),
            bid_vol@ >= 0 && ask_vol@ >= 0 ==> match r {
                Some(v) => balances(bid_vol@, ask_vol@, v@),
                None => !fits_at(bid_vol@ + ask_vol@, 1, 0),
            },
    {
        match bid_vol.checked_add(&ask_vol) {
            None => None,
            Some(total) => {
                if total.is_zero() {
                    proof {
                        if bid_vol@ >= 0 && ask_vol@ >= 0 {
                            lemma_no_volume(bid_vol@, ask_vol@, total@);
                        }
                        assert(dec_of(0, 0)@ == 0) by {
                            lemma_dec_of(0, 0);
                        }
                    }
                    return number(0, 0);
                }
                let gap = bid_vol.checked_sub(&ask_vol);
                let r = div_opt(gap, Some(total));
                proof {
                    if bid_vol@ >= 0 && ask_vol@ >= 0 {
                        lemma_imbalance_known(bid_vol, ask_vol, total, gap, r);
                    }
                }
                r
            },
        }
    }

    /// Takes a return into the variance. `false` where a number cannot be held.
    pub fn update_volatility(&mut self, current_mid: Dec) -> (r: bool)
        ensures
            match variance_with(old(self).ewma_volatility, old(self).last_mid_price, current_mid) {
                Some(v) => r && *final(self) == (DynMm {
                    ewma_volatility: v,
                    last_mid_price: Some(current_mid),
                    ..*old(self)
                }),
                None => !r && *final(self) == *old(self),
            },
            r ==> variance_told(
                old(self).ewma_volatility,
                old(self).last_mid_price,
                current_mid,
                final(self).ewma_volatility,
            ),
    {
        match find_variance(self.ewma_volatility, self.last_mid_price, current_mid) {
            Some(v) => {
                self.ewma_volatility = v;
                self.last_mid_price = Some(current_mid);
                true
            },
            None => false,
        }
    }

    /// Takes the volumes of a tick into the order flow. `false` where a number
    /// cannot be held.
    pub fn update_ofi(&mut self, bid_vol: Dec, ask_vol: Dec, timestamp_ms: u64) -> (r: bool)
        ensures
            match flow_with(
                old(self).ofi_signal,
                old(self).last_volumes,
                old(self).last_timestamp_ms,
                bid_vol,
                ask_vol,
                timestamp_ms,
            ) {
                Some(v) => r && *final(self) == (DynMm {
                    ofi_signal: v,
                    last_volumes: Some((bid_vol, ask_vol)),
                    last_timestamp_ms: Some(timestamp_ms),
                    ..*old(self)
                }),
                None => !r && *final(self) == *old(self),
            },
            r ==> flow_told(
                old(self).ofi_signal,
                old(self).last_volumes,
                old(self).last_timestamp_ms,
                bid_vol,
                ask_vol,
                timestamp_ms,
                final(self).ofi_signal,
            ),
    {
        match find_flow(
            self.ofi_signal,
            self.last_volumes,
            self.last_timestamp_ms,
            bid_vol,
            ask_vol,
            timestamp_ms,
        ) {
            Some(v) => {
                self.ofi_signal = v;
                self.last_volumes = Some((bid_vol, ask_vol));
                self.last_timestamp_ms = Some(timestamp_ms);
                true
            },
            None => false,
        }
    }

    /// The spread that volatility and the order flow ask for. `None` where a number
    /// cannot be held.
    pub fn calculate_adaptive_spread(&self, base_spread_bps: Dec, min_spread_bps: Dec) -> (r:
        Option<Dec>)
        ensures
            r == adaptive_spread(
                self.cfg,
                self.ewma_volatility,
                self.ofi_signal,
                Some(base_spread_bps),
                min_spread_bps,
            ),
            r matches Some(x) ==> spreads(
                self.cfg.volatility_coefficient@,
                self.cfg.ofi_coefficient@,
                self.ewma_volatility@,
                self.ofi_signal@,
                base_spread_bps@,
                min_spread_bps@,
                x@,
            ),
    {
        find_adaptive_spread(
            &self.cfg,
            self.ewma_volatility,
            self.ofi_signal,
            Some(base_spread_bps),
            min_spread_bps,
        )
    }

    /// How far the earlier of the last ten prices are from the later ones, in
    /// hundredths of a percent. `None` where a number cannot be held.
    pub fn detect_trend(&self) -> (r: Option<Dec>)
        ensures
            r == trend_bps(self.price_history@),
            r matches Some(v) ==> trend_told(self.price_history@, v),
    {
        proof {
            lemma_value(0, 0);
        }
        let list = read_prices(&self.price_history);
        let n: usize = list.len();
        if n < 10 {
            return number(0, 0);
        }
        match average_opt(&list, n, 5) {
            None => None,
            Some(recent) => {
                let older = average_opt(&list, n - 5, 5);
                proof {
                    if older is Some {
                        assert(trend_by(self.price_history@, recent@, older->0@));
                    }
                }
                if recent.is_zero() {
                    return number(0, 0);
                }
                change_bps_opt(Some(recent), older)
            },
        }
    }

    /// The funding rate, in hundredths of a percent; nothing where there is none.
    /// `None` where a number cannot be held.
    pub fn funding_bias(&self, funding_rate: Option<Dec>) -> (r: Option<Dec>)
        ensures
            r == funding_of(funding_rate),
            rounded(value_of(r), funding_value(funding_rate) * (10_000 * pow10(28)), pow10(28)),
    {
        proof {
            lemma_dec_of(10_000, 0);
            lemma_dec_of(0, 0);
        }
        match funding_rate {
            Some(f) => mul_opt(Some(f), number(10_000, 0)),
            None => mul_opt(number(0, 0), number(10_000, 0)),
        }
    }

    /// The target of the inventory. `None` where a number cannot be held.
    pub fn calculate_target_inventory(&self, funding_rate: Option<Dec>, trend: Dec) -> (r: Option<
        Qty,
    >)
        ensures
            match target_of(*self, funding_rate, trend) {
                Some(t) => r == Some(Qty(t)),
                None => r is None,
            },
            r matches Some(q) ==> bias_of(*self, funding_rate, trend) matches Some(bias) && leans(
                self.cfg.trend_bias_multiplier@,
                funding_value(funding_rate),
                trend@,
                bias@,
            ) && aims_at(self.inv_cap.0@, bias@, q.0@),
    {
        let funding = self.funding_bias(funding_rate);
        let leaning = mul_opt(Some(trend), Some(self.cfg.trend_bias_multiplier));
        let combined = add_opt(funding, leaning);
        let bias = match div_opt(combined, number(100, 0)) {
            Some(b) => b,
            None => return None,
        };
        proof {
            lemma_dec_of(1, 0);
            lemma_dec_of(-1, 0);
            lemma_dec_of(10, 0);
            lemma_dec_of(-10, 0);
            lemma_dec_of(100, 0);
            lemma_zero_and_one();
            assert((-1) * pow10(28) == -pow10(28) && 1 * pow10(28) == pow10(28));
            assert(leans_by(
                self.cfg.trend_bias_multiplier@,
                funding_value(funding_rate),
                trend@,
                funding->0@,
                leaning->0@,
                combined->0@,
                bias@,
            ));
        }
        let size = abs_dec(bias);
        let whole = add_opt(number(1, 0), Some(size));
        let ratio = if Dec::new(10, 0).lt(&bias) {
            number(1, 0)
        } else if bias.lt(&Dec::new(-10, 0)) {
            number(-1, 0)
        } else {
            div_opt(Some(bias), whole)
        };
        match mul_opt(Some(self.inv_cap.0), ratio) {
            Some(t) => {
                proof {
                    if whole is Some {
                        law_rounding_above(
                            pow10(28) + size_of_value(bias@),
                            1,
                            whole->0@,
                            pow10(28),
                        );
                    }
                    assert(squashes(bias@, whole->0@, ratio->0@));
                }
                Some(Qty(t))
            },
            None => None,
        }
    }

    /// The sides that the inventory calls for. `None` where a number cannot be held.
    pub fn inventory_decision(&self, current_inv: Qty, target_inv: Qty) -> (r: Option<
        (bool, bool),
    >)
        ensures
            r == inventory_sides(
                self.inv_cap.0,
                self.cfg.inventory_threshold_ratio,
                current_inv.0,
                target_inv.0,
            ),
    {
        match (
            current_inv.0.checked_sub(&target_inv.0),
            self.inv_cap.0.checked_mul(&self.cfg.inventory_threshold_ratio),
        ) {
            (Some(d), Some(threshold)) => {
                if abs_dec(d).lt(&threshold) {
                    Some((true, true))
                } else if current_inv.0.lt(&target_inv.0) {
                    Some((true, false))
                } else {
                    Some((false, true))
                }
            },
            _ => None,
        }
    }

    /// The figures of a tick, with the points of momentum it leaves.
    #[verifier::rlimit(100)]
    #[verifier::spinoff_prover]
    fn find_market_figures(&self, bid: BookLevel, ask: BookLevel, now_ms: u64) -> (r: Option<
        (MarketFigures, Vec<Dec>, Vec<(u64, Dec, Dec)>),
    >)
        ensures
            match market_figures(*self, bid, ask, now_ms) {
                Some(f) => r matches Some((g, volumes, points)) && g == f && volumes@
                    == with_volume(self.volume_history@, f.volume) && points@ == points_with(
                    *self,
                    now_ms,
                    f.mid,
                    f.volume,
                ) && market_hold(*self, bid, ask, now_ms, f),
                None => r is None,
            },
    {
        proof {
            lemma_powers();
            lemma_value(5, 1);
        }
        let spread = sub_opt(Some(ask.px.0), Some(bid.px.0));
        let (mid, volume, bid_notional, ask_notional, half_max_spread, jump_ratio) = match (
            find_middle(bid.px.0, ask.px.0),
            add_opt(Some(bid.qty.0), Some(ask.qty.0)),
            mul_opt(Some(bid.px.0), Some(bid.qty.0)),
            mul_opt(Some(ask.px.0), Some(ask.qty.0)),
            mul_opt(Some(self.cfg.max_spread_bps), number(5, 1)),
            find_jump_ratio(&self.volume_history),
        ) {
            (Some(m), Some(v), Some(b), Some(a), Some(h), Some(j)) => (m, v, b, a, h, j),
            _ => return None,
        };
        let level = bid_notional.min(&ask_notional);
        let n: usize = self.price_history.len();
        let new_direction = if n > 0 && !self.price_history[n - 1].1.is_zero() {
            change_bps_opt(Some(self.price_history[n - 1].1), Some(mid))
        } else {
            Some(self.flash_crash_direction)
        };
        let (spread_bps, direction) = match (bps_opt(spread, Some(mid)), new_direction) {
            (Some(s), Some(d)) => (s, d),
            _ => return None,
        };
        proof {
            if mid@ > 0 {
                assert(rounds_to(ask.px.0@ - bid.px.0@, 1, spread->0@));
                assert(spread_told(bid.px.0@, ask.px.0@, mid@, spread_bps@));
            }
        }
        let volumes = volumes_with(&self.volume_history, volume);
        let points = find_points(&self.momentum_history, now_ms, mid, volume);
        match (
            find_anomaly(&volumes),
            find_breakout(&points, self.cfg.fake_breakout_threshold_bps, direction),
            find_wall(self.last_liquidity_level, level, bid_notional, ask_notional),
            find_drop(self.last_liquidity_level, level),
        ) {
            (Some(anomaly), Some(breakout), Some(wall), Some(drop)) => Some(
                (
                    MarketFigures {
                        mid,
                        volume,
                        spread_bps,
                        half_max_spread,
                        direction,
                        jump_ratio,
                        bid_notional,
                        ask_notional,
                        anomaly,
                        breakout,
                        wall,
                        drop,
                    },
                    volumes,
                    points,
                ),
            ),
            _ => None,
        }
    }

    /// The opportunity of a tick.
    fn find_opportunity(
        &self,
        early: Option<ManipulationOpportunity>,
        f: &MarketFigures,
        now_ms: u64,
    ) -> (r: Option<ManipulationOpportunity>)
        requires
            early == early_opportunity(self.price_history@, *f, self.cfg, now_ms),
        ensures
            r == opportunity_of(self.price_history@, *f, self.cfg, now_ms),
    {
        if let Some(volume_ratio) = f.anomaly {
            if self.price_history.len() >= 2 {
                return Some(
                    ManipulationOpportunity::VolumeAnomalyTrend {
                        up: read_trend_up(&self.price_history),
                        volume_ratio,
                    },
                );
            }
        }
        if early.is_some() {
            return early;
        }
        if let Some(change) = f.breakout {
            return Some(
                ManipulationOpportunity::MomentumManipulationReversal {
                    breakout_up: change.is_positive(),
                    fake_breakout_bps: abs_dec(change),
                },
            );
        }
        if let Some((bid_wall, wall_size_ratio)) = f.wall {
            return Some(ManipulationOpportunity::SpoofingOpportunity { bid_wall, wall_size_ratio });
        }
        if let Some(liquidity_drop_ratio) = f.drop {
            if self.cfg.liquidity_drop_threshold.lt(&liquidity_drop_ratio)
                && self.cfg.spread_arbitrage_min_bps.lt(&f.spread_bps) {
                return Some(ManipulationOpportunity::LiquidityWithdrawal { liquidity_drop_ratio });
            }
        }
        None
    }

    /// Looks for an opportunity in a tick. `false` where nothing is to be quoted:
    /// there is no market, its spread is too wide, or it holds too little. `None`
    /// where a number cannot be held; the market maker then stays as it is.
    pub fn observe(&mut self, c: &Context, now_ms: u64) -> (r: Option<bool>)
        ensures
            observed(*old(self), *final(self), *c, now_ms, r),
    {
        let (bid, ask) = match (c.ob.best_bid, c.ob.best_ask) {
            (Some(b), Some(a)) => (b, a),
            _ => return Some(false),
        };
        match find_middle(bid.px.0, ask.px.0) {
            None => return None,
            Some(mid) => if !mid.is_positive() {
                return Some(false);
            },
        }
        let (f, volumes, points) = match self.find_market_figures(bid, ask, now_ms) {
            Some(x) => x,
            None => return None,
        };
        let n: usize = self.price_history.len();
        let mut early: Option<ManipulationOpportunity> = None;
        let mut detected = self.flash_crash_detected;
        if n > 0 && !self.price_history[n - 1].1.is_zero() {
            let down = f.direction.lt(&self.cfg.price_jump_threshold_bps.neg());
            let up = self.cfg.price_jump_threshold_bps.lt(&f.direction);
            detected =
            (down || up) && Dec::new(5, 0).lt(&f.jump_ratio) && find_elapsed(
                self.price_history[n - 1].0,
                now_ms,
            ) < FLASH_WINDOW_MS && f.spread_bps.lt(&f.half_max_spread) && read_recovered(
                &self.price_history,
                &f,
                &self.cfg,
            );
            if detected {
                early =
                if down {
                    Some(
                        ManipulationOpportunity::FlashCrashLong {
                            price_drop_bps: abs_dec(f.direction),
                        },
                    )
                } else {
                    Some(ManipulationOpportunity::FlashPumpShort { price_rise_bps: f.direction })
                };
            }
        }
        let earning = self.cfg.spread_arbitrage_min_bps.lt(&f.spread_bps) && f.spread_bps.le(
            &self.cfg.spread_arbitrage_max_bps,
        );
        if earning {
            early = Some(ManipulationOpportunity::WideSpreadArbitrage { spread_bps: f.spread_bps });
        }
        let level = f.bid_notional.min(&f.ask_notional);
        let refuse = (!earning && self.cfg.max_spread_bps.lt(&f.spread_bps)) || level.lt(
            &self.cfg.min_liquidity_required,
        );
        let found = if refuse {
            early
        } else {
            self.find_opportunity(early, &f, now_ms)
        };
        self.flash_crash_detected = detected;
        self.flash_crash_direction = f.direction;
        self.last_spread_bps = f.spread_bps;
        self.manipulation_opportunity = found;
        if refuse {
            return Some(false);
        }
        self.volume_history = volumes;
        self.momentum_history = points;
        self.last_liquidity_level = level;
        let ghost history = self.price_history@;
        self.price_history.push((now_ms, c.mark_price.0));
        if self.price_history.len() > PRICE_HISTORY {
            self.price_history.remove(0);
            assert(self.price_history@ =~= history.push((now_ms, c.mark_price.0)).skip(1));
        }
        Some(true)
    }

    /// The inventory as a share of its cap, without its sign.
    fn find_inventory_share(&self, inv: Dec) -> (r: Option<Dec>)
        ensures
            r == inventory_share(*self, inv),
            r matches Some(v) ==> share_of(inv@, self.inv_cap.0@, v@),
    {
        proof {
            lemma_value(0, 0);
        }
        if self.inv_cap.0.is_zero() {
            number(0, 0)
        } else {
            let q = div_opt(Some(inv), Some(self.inv_cap.0));
            let r = abs_opt(q);
            proof {
                lemma_powers();
                if let Some(x) = q {
                    use_type_invariant(&x);
                    lemma_abs(x);
                    assert(is_share(inv@, self.inv_cap.0@, x@));
                }
            }
            r
        }
    }

    /// The spread to be quoted.
    fn find_quoted_spread(&self, c: &Context, variance: Dec, flow: Dec, imb: Option<Dec>) -> (r:
        Option<Dec>)
        ensures
            r == quoted_spread(*self, *c, variance, flow, imb),
            r matches Some(v) ==> imb is Some && (exists|share: int|
                share_of(c.inv.0@, self.inv_cap.0@, share) && widens(
                    #[trigger] spread_inputs(*self, *c, variance, flow, share, imb->0@),
                    v@,
                )),
    {
        let u = mul_opt(Some(self.cfg.a), Some(c.sigma));
        let share = self.find_inventory_share(c.inv.0);
        let w = mul_opt(Some(self.cfg.b), share);
        let both = add_opt(u, w);
        let base = max_opt(both, number(1, 4));
        let adaptive = find_adaptive_spread(
            &self.cfg,
            variance,
            flow,
            base,
            self.cfg.min_spread_bps,
        );
        let tilt = mul_by(abs_opt(imb), 10);
        let wider = add_opt(adaptive, min_opt(tilt, number(5, 0)));
        let r = if c.liq_gap_bps.lt(&Dec::new(300, 0)) {
            mul_opt(wider, number(15, 1))
        } else {
            wider
        };
        proof {
            if r is Some {
                lemma_powers();
                lemma_value(1, 4);
                lemma_value(5, 0);
                lemma_value(300, 0);
                lemma_value(15, 1);
                if let Some(x) = imb {
                    use_type_invariant(&x);
                    lemma_abs(x);
                }
                assert(widens_by(
                    spread_inputs(*self, *c, variance, flow, share->0@, imb->0@),
                    u->0@,
                    w->0@,
                    both->0@,
                    adaptive->0@,
                    tilt->0@,
                    wider->0@,
                    r->0@,
                ));
            }
        }
        r
    }

    /// What the prices are skewed by.
    fn find_skews(&self, c: &Context, spread_bps: Option<Dec>, imb: Option<Dec>) -> (r: Option<
        Skews,
    >)
        ensures
            r == skews_of(*self, *c, spread_bps, imb),
            r matches Some(k) ==> spread_bps is Some && imb is Some && skews_hold(
                *self,
                *c,
                spread_bps->0@,
                imb->0@,
                k,
            ),
    {
        let funding = match c.funding_rate {
            Some(f) => f,
            None => Dec::new(0, 0),
        };
        let direction: i64 = if c.inv.0.is_sign_negative() {
            -1
        } else {
            1
        };
        let h = div_by(spread_bps, 2);
        let x = mul_by(Some(funding), 100);
        let share = self.find_inventory_share(c.inv.0);
        let y = mul_opt(number(direction, 0), share);
        let z = mul_by(y, 20);
        let w = mul_by(imb, -10);
        let r = match (div_by(h, 10_000), div_by(x, 10_000), div_by(z, 10_000), div_by(w, 10_000)) {
            (Some(half), Some(skew), Some(inv_skew), Some(imb_skew)) => Some(
                Skews { half, skew, inv_skew, imb_skew },
            ),
            _ => None,
        };
        proof {
            lemma_value(0, 0);
            if let Some(k) = r {
                let s = share->0@;
                let d = direction as int;
                assert(s * dec_of(d, 0)@ == dec_of(d, 0)@ * s) by (nonlinear_arith);
                lemma_times_whole(s, d, value_of(y));
                let turned = with_sign(s, c.inv.0@);
                assert(s * d == turned) by (nonlinear_arith)
                    requires
                        d == 1 && turned == s || d == -1 && turned == -s,
                ;
                assert(moves_by(
                    spread_bps->0@,
                    funding_value(c.funding_rate),
                    turned,
                    imb->0@,
                    h->0@,
                    x->0@,
                    y->0@,
                    z->0@,
                    w->0@,
                    moves_of(k),
                ));
                assert(moves(
                    spread_bps->0@,
                    funding_value(c.funding_rate),
                    turned,
                    imb->0@,
                    moves_of(k),
                ));
                assert(share_of(c.inv.0@, self.inv_cap.0@, s));
                assert(skews_hold(*self, *c, spread_bps->0@, imb->0@, k));
            }
        }
        r
    }

    /// The quantity of the quotes.
    fn find_quoted_qty(&self, trend: Dec, mid: Option<Dec>) -> (r: Option<Dec>)
        ensures
            r == quoted_qty(*self, trend, mid),
            r is Some && mid is Some && mid->0@ > 0 ==> quotes::buys(
                self.base_notional@,
                times_notional(*self, trend@),
                mid->0@,
                r->0@,
            ),
    {
        proof {
            use_type_invariant(&trend);
            lemma_abs(trend);
            lemma_powers();
            lemma_value(1, 0);
            lemma_value(0, 0);
        }
        let multiplier = if self.manipulation_opportunity.is_some() {
            self.cfg.opportunity_size_multiplier
        } else if self.cfg.strong_trend_bps.lt(&abs_dec(trend)) {
            self.cfg.strong_trend_multiplier
        } else {
            Dec::new(1, 0)
        };
        match self.base_notional.checked_mul(&multiplier) {
            Some(usd) => {
                assert(rounds_to(
                    self.base_notional@ * times_notional(*self, trend@),
                    one(),
                    usd@,
                ));
                if usd.is_positive() {
                    div_opt(Some(usd), mid)
                } else {
                    number(0, 0)
                }
            },
            None => None,
        }
    }

    /// The figures of the quotes of a tick.
    #[verifier::rlimit(100)]
    fn find_quote_figures(&self, c: &Context, bid: BookLevel, ask: BookLevel, now_ms: u64) -> (r:
        Option<QuoteFigures>)
        ensures
            r == quote_figures(*self, *c, bid, ask, now_ms),
            r matches Some(f) ==> microprice(bid.px.0, ask.px.0, bid.qty.0, ask.qty.0) matches Some(
                base,
            ) && keeps_off(*c, bid, ask, base, f.bid_px, f.ask_px),
            r matches Some(f) ==> figures_hold(*self, *c, bid, ask, f),
            r matches Some(f) ==> signals_hold(*self, *c, bid, ask, now_ms, f),
    {
        let imb = self.calculate_imbalance(bid.qty.0, ask.qty.0);
        let (base, flow, trend) = match (
            self.calculate_microprice(bid.px.0, ask.px.0, bid.qty.0, ask.qty.0),
            find_flow(
                self.ofi_signal,
                self.last_volumes,
                self.last_timestamp_ms,
                bid.qty.0,
                ask.qty.0,
                now_ms,
            ),
            self.detect_trend(),
        ) {
            (Some(b), Some(f), Some(t)) => (b, f, t),
            _ => return None,
        };
        let mid = find_middle(bid.px.0, ask.px.0);
        let (variance, target, qty) = match (
            find_variance(self.ewma_volatility, self.last_mid_price, base),
            self.calculate_target_inventory(c.funding_rate, trend),
            self.find_quoted_qty(trend, mid),
        ) {
            (Some(v), Some(t), Some(q)) => (v, t.0, q),
            _ => return None,
        };
        let (spread_bps, inventory) = match (
            self.find_quoted_spread(c, variance, flow, imb),
            self.inventory_decision(c.inv, Qty(target)),
        ) {
            (Some(s), Some(i)) => (s, i),
            _ => return None,
        };
        let k = match self.find_skews(c, Some(spread_bps), imb) {
            Some(k) => k,
            None => return None,
        };
        match find_prices(c, bid, ask, base, &k) {
            None => None,
            Some((bid_px, ask_px)) => {
                let f = QuoteFigures {
                    variance,
                    flow,
                    trend,
                    target,
                    inventory,
                    spread_bps,
                    bid_px,
                    ask_px,
                    qty,
                };
                proof {
                    let (raw_bid, raw_ask) = choose|raw_bid: Dec, raw_ask: Dec|
                        {
                            &&& #[trigger] moved(base@, moves_of(k), true, raw_bid@)
                            &&& #[trigger] moved(base@, moves_of(k), false, raw_ask@)
                            &&& raw_bid@ < bid.px.0@ ==> bid_px == raw_bid
                            &&& raw_ask@ > ask.px.0@ ==> ask_px == raw_ask
                        };
                    assert(keeps_prices(*c, bid, ask, base, raw_bid, raw_ask, f));
                    assert(leans(
                        self.cfg.trend_bias_multiplier@,
                        funding_value(c.funding_rate),
                        f.trend@,
                        bias_of(*self, c.funding_rate, trend)->0@,
                    ));
                    assert(imb is Some);
                    let share = choose|share: int|
                        share_of(c.inv.0@, self.inv_cap.0@, share) && widens(
                            #[trigger] spread_inputs(*self, *c, variance, flow, share, imb->0@),
                            spread_bps@,
                        );
                    assert(widens(
                        spread_inputs(*self, *c, f.variance, f.flow, share, imb->0@),
                        f.spread_bps@,
                    ));
                    assert(skews_hold(*self, *c, f.spread_bps@, imb->0@, k));
                    assert(mid matches Some(m) ==> halfway(bid.px.0@, ask.px.0@, m@));
                    assert(mid matches Some(m) && m@ > 0 ==> quotes::buys(
                        self.base_notional@,
                        times_notional(*self, f.trend@),
                        mid->0@,
                        f.qty@,
                    ));
                }
                Some(f)
            },
        }
    }

    /// The quotes of a tick that was observed. `None` where a number cannot be
    /// held; the market maker then stays as it is.
    pub fn quote(&mut self, c: &Context, now_ms: u64) -> (r: Option<Quotes>)
        ensures
            quoted(*old(self), *final(self), *c, now_ms, r),
    {
        let (bid, ask) = match (c.ob.best_bid, c.ob.best_ask) {
            (Some(b), Some(a)) => (b, a),
            _ => return Some(Quotes { bid: None, ask: None }),
        };
        let f = match self.find_quote_figures(c, bid, ask, now_ms) {
            Some(f) => f,
            None => return None,
        };
        let base = self.calculate_microprice(bid.px.0, ask.px.0, bid.qty.0, ask.qty.0);
        let wanted = match self.manipulation_opportunity {
            Some(opp) => take_sides(opp),
            None => f.inventory,
        };
        let ask_threshold = if self.last_adverse_ask {
            self.cfg.adverse_selection_threshold_off
        } else {
            self.cfg.adverse_selection_threshold_on
        };
        let bid_threshold = if self.last_adverse_bid {
            self.cfg.adverse_selection_threshold_off
        } else {
            self.cfg.adverse_selection_threshold_on
        };
        let strong = self.cfg.momentum_strong_bps.lt(&abs_dec(f.trend));
        let ask_adverse = strong && ask_threshold.lt(&f.flow) && f.trend.is_positive();
        let bid_adverse = !ask_adverse && strong && f.flow.lt(&bid_threshold.neg())
            && f.trend.is_sign_negative();
        self.target_inventory = Qty(f.target);
        self.ewma_volatility = f.variance;
        self.ofi_signal = f.flow;
        self.last_mid_price = base;
        self.last_timestamp_ms = Some(now_ms);
        self.last_volumes = Some((bid.qty.0, ask.qty.0));
        self.last_adverse_bid = bid_adverse;
        self.last_adverse_ask = ask_adverse;
        if self.cfg.max_spread_bps.lt(&f.spread_bps) {
            return Some(Quotes { bid: None, ask: None });
        }
        let strength = abs_dec(f.flow);
        let taken = if self.manipulation_opportunity.is_some() {
            self.last_opportunity_mode || self.cfg.opportunity_threshold_on.le(&strength)
        } else {
            self.last_opportunity_mode && self.cfg.opportunity_threshold_off.le(&strength)
        };
        self.last_opportunity_mode = taken;
        let (show_bid, show_ask) = if taken {
            wanted
        } else {
            (wanted.0 && !bid_adverse, wanted.1 && !ask_adverse)
        };
        Some(
            Quotes {
                bid: if show_bid {
                    Some((Px(f.bid_px), Qty(f.qty)))
                } else {
                    None
                },
                ask: if show_ask {
                    Some((Px(f.ask_px), Qty(f.qty)))
                } else {
                    None
                },
            },
        )
    }
}

/// What decides on quotes.
pub trait Strategy {
    /// The quotes of a tick. `None` where a number cannot be held.
    fn on_tick(&mut self, c: &Context, now_ms: u64) -> (r: Option<Quotes>);

    /// Whether there is an opportunity; by itself a strategy knows of none.
    fn is_opportunity_mode(&self) -> (r: bool)
        default_ensures
            !r,
    {
        false
    }
}

impl Strategy for DynMm {
    /// The quotes of a tick. `None` where a number cannot be held.
    fn on_tick(&mut self, c: &Context, now_ms: u64) -> (r: Option<Quotes>)
        ensures
            exists|between: DynMm, go: Option<bool>| #[trigger]
                ticked(*old(self), between, *final(self), *c, now_ms, go, r),
    {
        let go = self.observe(c, now_ms);
        let ghost between = *self;
        let r = match go {
            None => None,
            Some(false) => Some(Quotes { bid: None, ask: None }),
            Some(true) => self.quote(c, now_ms),
        };
        assert(ticked(*old(self), between, *self, *c, now_ms, go, r));
        r
    }

    /// Whether there is an opportunity.
    fn is_opportunity_mode(&self) -> (r: bool)
        ensures
            r == (self.manipulation_opportunity is Some),
    {
        self.manipulation_opportunity.is_some()
    }
}

fn volumes_with(volumes: &Vec<Dec>, volume: Dec) -> (r: Vec<Dec>)
    ensures
        r@ == with_volume(volumes@, volume),
{
    let mut v: Vec<Dec> = Vec::new();
    let mut i: usize = 0;
    while i < volumes.len()
        invariant
            i <= volumes.len(),
            v@ == volumes@.take(i as int),
        decreases volumes.len() - i,
    {
        v.push(volumes[i]);
        assert(volumes@.take(i as int + 1) =~= volumes@.take(i as int).push(volumes@[i as int]));
        i += 1;
    }
    assert(volumes@.take(volumes@.len() as int) =~= volumes@);
    v.push(volume);
    if v.len() > VOLUME_HISTORY {
        v.remove(0);
        assert(v@ =~= volumes@.push(volume).skip(1));
    }
    v
}

/// Not more prices and volumes than are remembered are kept, and the new ones are the last.
pub proof fn law_histories_are_bounded(
    before: DynMm,
    after: DynMm,
    c: Context,
    now_ms: u64,
    r: Option<bool>,
)
    requires
        observed(before, after, c, now_ms, r),
        before.price_history@.len() <= PRICE_HISTORY,
        before.volume_history@.len() <= VOLUME_HISTORY,
    ensures
        after.price_history@.len() <= PRICE_HISTORY,
        after.volume_history@.len() <= VOLUME_HISTORY,
        r == Some(true) ==> after.price_history@.last() == (now_ms, c.mark_price.0),
{
}

/// At most one side is one to lose on.
pub proof fn law_one_adverse_side(
    cfg: DynMmCfg,
    last_adverse_bid: bool,
    last_adverse_ask: bool,
    flow: Dec,
    trend: Dec,
)
    ensures
        !(adverse_bid(cfg, last_adverse_bid, last_adverse_ask, flow, trend) && adverse_ask(
            cfg,
            last_adverse_ask,
            flow,
            trend,
        )),
{
}

/// An opportunity that is being taken is kept while the flow stays at the lower
/// limit, and without one it is not begun.
pub proof fn law_opportunity_hysteresis(cfg: DynMmCfg, found: bool, last_mode: bool, flow: Dec)
    ensures
        last_mode && abs_of(flow)@ >= cfg.opportunity_threshold_off@ ==> opportunity_taken(
            cfg,
            found,
            last_mode,
            flow,
        ),
        !found && !last_mode ==> !opportunity_taken(cfg, found, last_mode, flow),
{
}

/// Quotes make the market: where they are shown, a bid is not above the best bid and an ask
/// not below the best ask. The bid is below and the ask above it where there is a price and
/// a tick, and the price next to it can be held.
pub proof fn law_quotes_make_the_market(
    before: DynMm,
    after: DynMm,
    c: Context,
    now_ms: u64,
    q: Quotes,
    bid: BookLevel,
    ask: BookLevel,
    base: Dec,
    tick: Dec,
)
    requires
        bid.px.0.wf(),
        ask.px.0.wf(),
        c.ob.best_bid == Some(bid),
        c.ob.best_ask == Some(ask),
        bid.px.0@ >= 0,
        microprice(bid.px.0, ask.px.0, bid.qty.0, ask.qty.0) == Some(base),
        tick_of(c, base) == Some(tick),
        tick@ >= 0,
        quoted(before, after, c, now_ms, Some(q)),
    ensures
        q.bid matches Some(b) ==> b.0.0@ <= bid.px.0@,
        q.ask matches Some(a) ==> a.0.0@ >= ask.px.0@,
        bid.px.0@ > 0 && tick@ > 0 && can_be_held(bid.px.0@ - tick@) ==> (q.bid matches Some(b)
            ==> b.0.0@ < bid.px.0@),
        tick@ > 0 && can_be_held(ask.px.0@ + tick@) ==> (q.ask matches Some(a) ==> a.0.0@
            > ask.px.0@),
        bid.px.0@ < ask.px.0@ ==> (q.bid matches Some(b) ==> (q.ask matches Some(a) ==> b.0.0@
            < a.0.0@)),
{
    let best = bid.px.0@;
    let low = best - tick@;
    lemma_bounds(bid.px.0);
    lemma_exact(bid.px.0.num(), bid.px.0.places(), 1);
    assert forall|w: int| #[trigger] rounds_to(low, 1, w) implies w <= best && (can_be_held(low)
        ==> w == low) by {
        law_rounding_below(low, 1, w, best);
        if can_be_held(low) {
            law_rounding_is_unique(low, 1, w, low, 1, low);
        }
    }
    let top = ask.px.0@;
    let high = top + tick@;
    lemma_bounds(ask.px.0);
    lemma_exact(ask.px.0.num(), ask.px.0.places(), 1);
    assert forall|w: int| #[trigger] rounds_to(high, 1, w) implies w >= top && (can_be_held(high)
        ==> w == high) by {
        law_rounding_above(high, 1, w, top);
        if can_be_held(high) {
            law_rounding_is_unique(high, 1, w, high, 1, high);
        }
    }
}

/// A quote is worth what it is meant to be: the base notional value where there is no
/// opportunity and no strong trend, and else so many times it as is set for an opportunity, or
/// for a strong trend. Its quantity times the price halfway between the best ones is that value,
/// up to rounding.
pub proof fn law_value_of_quotes(
    before: DynMm,
    after: DynMm,
    c: Context,
    now_ms: u64,
    q: Quotes,
    bid: BookLevel,
    ask: BookLevel,
    mid: Dec,
    trend: Dec,
    qty: Qty,
)
    requires
        quoted(before, after, c, now_ms, Some(q)),
        c.ob.best_bid == Some(bid),
        c.ob.best_ask == Some(ask),
        middle(bid.px.0, ask.px.0) == Some(mid),
        mid@ > 0,
        trend_bps(before.price_history@) == Some(trend),
        before.base_notional.wf(),
        before.base_notional@ > 0,
        (q.bid matches Some(b) && b.1 == qty) || (q.ask matches Some(a) && a.1 == qty),
    ensures
        halfway(bid.px.0@, ask.px.0@, mid@),
        before.manipulation_opportunity is None && -before.cfg.strong_trend_bps@ <= trend@
            <= before.cfg.strong_trend_bps@ ==> rounds_to(
            before.base_notional@ * one(),
            mid@,
            qty.0@,
        ) && is_close(before.base_notional@ * one(), mid@, qty.0@),
        before.manipulation_opportunity is None && before.cfg.strong_trend_multiplier@ > 0
            && qty.0@ > 0 && (trend@ > before.cfg.strong_trend_bps@ || trend@
            < -before.cfg.strong_trend_bps@) ==> exists|usd: int| #[trigger]
            is_close(
                before.base_notional@ * before.cfg.strong_trend_multiplier@,
                one(),
                usd,
            ) && is_close(usd * one(), mid@, qty.0@),
        before.manipulation_opportunity is Some && before.cfg.opportunity_size_multiplier@ > 0
            && qty.0@ > 0 ==> exists|usd: int| #[trigger]
            is_close(
                before.base_notional@ * before.cfg.opportunity_size_multiplier@,
                one(),
                usd,
            ) && is_close(usd * one(), mid@, qty.0@),
{
    let f = quote_figures(before, c, bid, ask, now_ms)->0;
    assert(f.trend == trend);
    assert(qty == Qty(f.qty));
    let notional = before.base_notional@;
    lemma_bounds(before.base_notional);
    lemma_exact(before.base_notional.num(), before.base_notional.places(), 1);
    if before.manipulation_opportunity is None && -before.cfg.strong_trend_bps@ <= trend@
        <= before.cfg.strong_trend_bps@ {
        law_plain_quote(notional, mid@, f.qty@);
    }
    if before.manipulation_opportunity is None && before.cfg.strong_trend_multiplier@ > 0 && f.qty@
        > 0 && size_of_value(trend@) > before.cfg.strong_trend_bps@ {
        law_larger_quote(notional, before.cfg.strong_trend_multiplier@, mid@, f.qty@);
    }
    if before.manipulation_opportunity is Some && before.cfg.opportunity_size_multiplier@ > 0
        && f.qty@ > 0 {
        law_larger_quote(notional, before.cfg.opportunity_size_multiplier@, mid@, f.qty@);
    }
}

/// Quotes are shown only where the spread to be quoted is not above the widest. That spread is
/// never below the narrowest one; a bid that stays off the best bid is below the price of the
/// book by half of it and by what funding, the inventory and the book ask for, and an ask above
/// it by as much.
pub proof fn law_prices_of_quotes(
    before: DynMm,
    after: DynMm,
    c: Context,
    now_ms: u64,
    q: Quotes,
    bid: BookLevel,
    ask: BookLevel,
    base: Dec,
    imb: Dec,
)
    requires
        quoted(before, after, c, now_ms, Some(q)),
        c.ob.best_bid == Some(bid),
        c.ob.best_ask == Some(ask),
        q.bid is Some || q.ask is Some,
        before.cfg.min_spread_bps.wf(),
        before.cfg.min_spread_bps@ >= 0,
        imbalance(bid.qty.0, ask.qty.0) == Some(imb),
        microprice(bid.px.0, ask.px.0, bid.qty.0, ask.qty.0) == Some(base),
    ensures
        exists|spread: int, m: Moves, raw_bid: int, raw_ask: int, share: int|
            {
                &&& before.cfg.min_spread_bps@ <= spread <= before.cfg.max_spread_bps@
                &&& share_of(c.inv.0@, before.inv_cap.0@, share)
                &&& #[trigger] moves(
                    spread,
                    funding_value(c.funding_rate),
                    with_sign(share, c.inv.0@),
                    imb@,
                    m,
                )
                &&& #[trigger] moved(base@, m, true, raw_bid)
                &&& #[trigger] moved(base@, m, false, raw_ask)
                &&& raw_bid < bid.px.0@ ==> (q.bid matches Some(b) ==> b.0.0@ == raw_bid)
                &&& raw_ask > ask.px.0@ ==> (q.ask matches Some(a) ==> a.0.0@ == raw_ask)
            },
{
    let f = quote_figures(before, c, bid, ask, now_ms)->0;
    let spread = f.spread_bps@;
    let narrowest = before.cfg.min_spread_bps;
    lemma_bounds(narrowest);
    lemma_exact(narrowest.num(), narrowest.places(), 1);
    let share0 = choose|share: int|
        share_of(c.inv.0@, before.inv_cap.0@, share) && widens(
            #[trigger] spread_inputs(before, c, f.variance, f.flow, share, imb@),
            spread,
        );
    quotes::law_quoted_spread(
        spread_inputs(before, c, f.variance, f.flow, share0, imb@),
        spread,
    );
    let (k, base2, raw_bid, raw_ask) = choose|k: Skews, base: Dec, raw_bid: Dec, raw_ask: Dec|
        {
            &&& #[trigger] skews_hold(before, c, f.spread_bps@, imb@, k)
            &&& microprice(bid.px.0, ask.px.0, bid.qty.0, ask.qty.0) == Some(base)
            &&& moved(base@, moves_of(k), true, raw_bid@)
            &&& moved(base@, moves_of(k), false, raw_ask@)
            &&& #[trigger] keeps_prices(c, bid, ask, base, raw_bid, raw_ask, f)
        };
    let share = choose|share: int|
        share_of(c.inv.0@, before.inv_cap.0@, share) && #[trigger] moves(
            spread,
            funding_value(c.funding_rate),
            with_sign(share, c.inv.0@),
            imb@,
            moves_of(k),
        );
    let m = moves_of(k);
    assert(moves(spread, funding_value(c.funding_rate), with_sign(share, c.inv.0@), imb@, m));
    assert(moved(base@, m, true, raw_bid@) && moved(base@, m, false, raw_ask@));
}

/// The notional value of a quote is never below a hundred, and else what is set.
pub proof fn law_base_notional(base_size: Dec)
    ensures
        base_notional_of(base_size)@ >= 100 * one(),
        base_size@ >= 100 * one() ==> base_notional_of(base_size) == base_size,
        base_size@ < 100 * one() ==> base_notional_of(base_size)@ == 100 * one(),
{
    lemma_powers();
    lemma_value(100, 0);
}

/// On which sides the inventory calls for quotes: on both where it is nearer to its target than
/// so much of the cap; else on the side that brings it nearer.
pub proof fn law_inventory_calls(inv_cap: Dec, ratio: Dec, current: Dec, target: Dec, d: Dec, limit: Dec)
    requires
        difference(current, target) == Some(d),
        d.wf(),
        product(inv_cap, ratio) == Some(limit),
    ensures
        inventory_sides(inv_cap, ratio, current, target) == Some(
            if -limit@ < d@ < limit@ {
                (true, true)
            } else {
                (current@ < target@, current@ >= target@)
            },
        ),
{
    lemma_abs(d);
}

/// A sudden jump is an opportunity only where the price moved by more than a jump, more than
/// five times the volume went with it, the last price is less than two seconds old, the spread is
/// below half of the widest, and the last three prices turned back. After a fall it is to buy,
/// after a rise to sell.
pub proof fn law_flash_opportunities(
    history: Seq<(u64, Dec)>,
    f: MarketFigures,
    cfg: DynMmCfg,
    now_ms: u64,
)
    requires
        f.direction.wf(),
        cfg.price_jump_threshold_bps@ >= 0,
    ensures
        ({
            let opp = early_opportunity(history, f, cfg, now_ms);
            let wide = cfg.spread_arbitrage_min_bps@ < f.spread_bps@ <= cfg.spread_arbitrage_max_bps@;
            &&& opp is Some && opp->0 is WideSpreadArbitrage <==> wide
            &&& opp is Some && opp->0 is FlashCrashLong ==> f.direction@
                < -cfg.price_jump_threshold_bps@ && opp->0->price_drop_bps@ == -f.direction@
            &&& opp is Some && opp->0 is FlashPumpShort ==> f.direction@
                > cfg.price_jump_threshold_bps@ && opp->0->price_rise_bps == f.direction
            &&& opp is Some && !wide ==> {
                &&& opp->0 is FlashCrashLong || opp->0 is FlashPumpShort
                &&& f.jump_ratio@ > 5 * one()
                &&& now_ms < history.last().0 + 2000
                &&& f.spread_bps@ < f.half_max_spread@
                &&& history.len() >= 3
                &&& opp->0 is FlashCrashLong ==> history[history.len() - 2].1@
                    < history[history.len() - 1].1@ && history[history.len() - 2].1@
                    < history[history.len() - 3].1@
                &&& opp->0 is FlashPumpShort ==> history[history.len() - 2].1@
                    > history[history.len() - 1].1@ && history[history.len() - 2].1@
                    > history[history.len() - 3].1@
            }
        }),
{
    lemma_powers();
    lemma_value(5, 0);
    lemma_abs(f.direction);
}

/// A market is refused where its spread is above the widest and not worth earning, or where one
/// of its sides holds less than is asked for.
pub proof fn law_refused_markets(f: MarketFigures, cfg: DynMmCfg)
    ensures
        !refused(f, cfg) <==> {
            &&& f.bid_notional@ >= cfg.min_liquidity_required@
            &&& f.ask_notional@ >= cfg.min_liquidity_required@
            &&& f.spread_bps@ <= cfg.max_spread_bps@ || (cfg.spread_arbitrage_min_bps@
                < f.spread_bps@ && f.spread_bps@ <= cfg.spread_arbitrage_max_bps@)
        },
{
}

/// Which opportunity a tick offers. An abnormal volume comes first and follows the last five
/// prices; then a wide spread or a jump; then a breakout that is not real, to take the other side
/// of; then a wall; then liquidity that went, in a spread that is worth earning.
pub proof fn law_order_of_opportunities(
    history: Seq<(u64, Dec)>,
    f: MarketFigures,
    cfg: DynMmCfg,
    now_ms: u64,
)
    ensures
        ({
            let opp = opportunity_of(history, f, cfg, now_ms);
            let early = early_opportunity(history, f, cfg, now_ms);
            let n = history.len();
            let from = if n < 5 {
                0
            } else {
                n - 5
            };
            if f.anomaly is Some && n >= 2 {
                opp == Some(
                    ManipulationOpportunity::VolumeAnomalyTrend {
                        up: history[n - 1].1@ > history[from].1@,
                        volume_ratio: f.anomaly->0,
                    },
                )
            } else if early is Some {
                opp == early
            } else if f.breakout is Some {
                opp matches Some(ManipulationOpportunity::MomentumManipulationReversal {
                    breakout_up,
                    ..
                }) && breakout_up == (f.breakout->0@ > 0)
            } else if f.wall is Some {
                let (bid_wall, wall_size_ratio) = f.wall->0;
                opp == Some(
                    ManipulationOpportunity::SpoofingOpportunity { bid_wall, wall_size_ratio },
                )
            } else if f.drop is Some && f.drop->0@ > cfg.liquidity_drop_threshold@ && f.spread_bps@
                > cfg.spread_arbitrage_min_bps@ {
                opp == Some(
                    ManipulationOpportunity::LiquidityWithdrawal {
                        liquidity_drop_ratio: f.drop->0,
                    },
                )
            } else {
                opp is None
            }
        }),
{
}

/// On which sides an opportunity is taken: a fall is bought and a rise sold; a wide spread and
/// lost liquidity are earned on both sides; volume is followed; a breakout and a wall are taken
/// against.
pub proof fn law_sides_of_opportunities(opp: ManipulationOpportunity)
    ensures
        ({
            let (buy, sell) = sides_of(opp);
            &&& opp is FlashCrashLong ==> buy && !sell
            &&& opp is FlashPumpShort ==> !buy && sell
            &&& opp is WideSpreadArbitrage || opp is LiquidityWithdrawal ==> buy && sell
            &&& opp matches ManipulationOpportunity::VolumeAnomalyTrend { up, .. } ==> buy == up
                && sell == !up
            &&& opp matches ManipulationOpportunity::MomentumManipulationReversal {
                breakout_up,
                ..
            } ==> buy == !breakout_up && sell == breakout_up
            &&& opp matches ManipulationOpportunity::SpoofingOpportunity { bid_wall, .. } ==> buy
                == !bid_wall && sell == bid_wall
        }),
{
}

/// A side is one to lose on where the trend is stronger than strong momentum, and the trend and
/// the flow both go against it: up for an ask, down for a bid. A flow that made it so has to fall
/// to a lower limit to end it.
pub proof fn law_adverse_sides(
    cfg: DynMmCfg,
    bid_before: bool,
    ask_before: bool,
    flow: Dec,
    trend: Dec,
)
    requires
        trend.wf(),
        cfg.momentum_strong_bps@ >= 0,
        cfg.adverse_selection_threshold_on@ >= 0,
        cfg.adverse_selection_threshold_off@ >= 0,
    ensures
        adverse_ask(cfg, ask_before, flow, trend) <==> trend@ > cfg.momentum_strong_bps@ && flow@ > (
        if ask_before {
            cfg.adverse_selection_threshold_off@
        } else {
            cfg.adverse_selection_threshold_on@
        }),
        adverse_bid(cfg, bid_before, ask_before, flow, trend) <==> trend@
            < -cfg.momentum_strong_bps@ && -flow@ > (if bid_before {
            cfg.adverse_selection_threshold_off@
        } else {
            cfg.adverse_selection_threshold_on@
        }),
{
    lemma_abs(trend);
}

/// Volume is abnormal where the last ten are more than three times the ten before.
pub proof fn law_abnormal_volume(volumes: Seq<Dec>, recent: Dec, older: Dec, limit: Dec)
    requires
        volumes.len() >= 20,
        average_before(volumes, volumes.len() as int, 10) == Some(recent),
        average_before(volumes, volumes.len() - 10, 10) == Some(older),
        product(older, dec_of(3, 0)) == Some(limit),
        rounds_to(older@ * 3, 1, limit@),
        can_be_held(older@ * 3),
    ensures
        anomaly_of(volumes) == Some(None::<Dec>) <==> older@ <= 0 || recent@ <= 3 * older@,
        anomaly_of(volumes) matches Some(Some(ratio)) ==> quotient(recent, older) == Some(ratio),
{
    law_rounding_is_unique(older@ * 3, 1, limit@, older@ * 3, 1, older@ * 3);
    lemma_value(3, 0);
    lemma_powers();
}

/// Prices that were the same for five ticks, and the same for the five before, have no trend where
/// they did not change; a trend is not negative where the earlier ones were higher and not
/// positive where they were lower; and it is ten thousand times the difference by the later
/// price where the steps can be held.
pub proof fn law_trend(history: Seq<(u64, Dec)>, v: Dec, later: int, earlier: int, share: int)
    requires
        trend_told(history, v),
        history.len() >= 10,
        later > 0,
        can_be_held(later),
        can_be_held(earlier),
        sums_held(prices(history), history.len() as int, 5),
        sums_held(prices(history), history.len() - 5, 5),
        forall|i: int|
            history.len() - 5 <= i < history.len() ==> (#[trigger] history[i]).1@ == later,
        forall|i: int|
            history.len() - 10 <= i < history.len() - 5 ==> (#[trigger] history[i]).1@ == earlier,
    ensures
        earlier >= later ==> v@ >= 0,
        earlier <= later ==> v@ <= 0,
        v@ != 0 && can_be_held(earlier - later) && can_be_held(share) && can_be_held(10_000 * share)
            && share * later == (earlier - later) * one() ==> v@ == 10_000 * share,
{
    if v@ != 0 {
        let n = history.len() as int;
        let (recent, older) = choose|recent: int, older: int| #[trigger]
            trend_by(history, recent, older) && (recent > 0 ==> changes_by_bps(recent, older, v@));
        let list = prices(history);
        assert(forall|i: int| 0 <= i < n ==> list[i] == (#[trigger] history[i]).1);
        reveal_with_fuel(sum_before, 6);
        assert(list[n - 1]@ == later && list[n - 2]@ == later && list[n - 3]@ == later && list[n
            - 4]@ == later && list[n - 5]@ == later) by {
            assert(history[n - 1].1@ == later && history[n - 2].1@ == later && history[n - 3].1@
                == later && history[n - 4].1@ == later && history[n - 5].1@ == later);
        }
        assert(list[n - 6]@ == earlier && list[n - 7]@ == earlier && list[n - 8]@ == earlier
            && list[n - 9]@ == earlier && list[n - 10]@ == earlier) by {
            assert(history[n - 6].1@ == earlier && history[n - 7].1@ == earlier && history[n - 8].1@
                == earlier && history[n - 9].1@ == earlier && history[n - 10].1@ == earlier);
        }
        law_exact_is_kept(sum_before(list, n, 5), 5, recent, later);
        law_exact_is_kept(sum_before(list, n - 5, 5), 5, older, earlier);
        law_change_in_bps(later, earlier, v@, share);
    }
}

/// A breakout that failed moved the price by more than the threshold, in the direction that is
/// told; a fall counts only where volume went, to less than seven tenths of what it was.
pub proof fn law_failed_breakouts(
    points: Seq<(u64, Dec, Dec)>,
    threshold: int,
    direction: int,
    b: Dec,
)
    requires
        breakout_told(points, threshold, direction, Some(b)),
    ensures
        points.len() >= 5,
        b@ > threshold || b@ < -threshold,
        ({
            let first = points[points.len() - 5];
            let last = points[points.len() - 1];
            &&& first.1@ != 0
            &&& first.1@ > 0 && last.1@ >= first.1@ ==> b@ >= 0
            &&& first.1@ > 0 && last.1@ <= first.1@ ==> b@ <= 0
            &&& b@ <= 0 || direction >= -(50 * one()) ==> first.2@ > 0 && 10 * last.2@ < 7
                * first.2@
        }),
{
    let n = points.len();
    let first = points[n - 5];
    let last = points[n - 1];
    let (change, left) = choose|change: int, left: int| #[trigger]
        breakout_by(first, last, threshold, direction, change, left, Some(b));
    if first.1@ > 0 {
        law_change_in_bps(first.1@, last.1@, change, 0);
    }
    lemma_powers();
    lemma_exact(7, 1, 1);
    if first.2@ > 0 && 10 * last.2@ >= 7 * first.2@ {
        assert(7_000_000_000_000_000_000_000_000_000 * first.2@ <= last.2@ * one());
        law_rounding_above(
            last.2@ * one(),
            first.2@,
            left,
            7_000_000_000_000_000_000_000_000_000,
        );
    }
}

/// A jump of the volumes is one where they stayed the same, and an anomaly is found only with twenty
/// volumes, where the average of the last ten is more than three times that of the ten before.
pub proof fn law_volumes(volumes: Seq<Dec>, jump: int, a: Option<Dec>, recent: int, older: int)
    requires
        jump_told(volumes, jump),
        anomaly_told(volumes, a),
        volumes.len() >= 10,
        sums_held(volumes, volumes.len() as int, 5),
        sums_held(volumes, volumes.len() - 5, 5),
        sums_held(volumes, volumes.len() as int, 10),
        volumes.len() >= 20 ==> sums_held(volumes, volumes.len() - 10, 10),
        can_be_held(recent),
        can_be_held(older),
        sum_before(volumes, volumes.len() as int, 10) == 10 * recent,
        volumes.len() >= 20 ==> sum_before(volumes, volumes.len() - 10, 10) == 10 * older,
    ensures
        sum_before(volumes, volumes.len() as int, 5) == sum_before(
            volumes,
            volumes.len() - 5,
            5,
        ) && sum_before(volumes, volumes.len() as int, 5) > 0 ==> jump == one(),
        sum_before(volumes, volumes.len() as int, 5) >= sum_before(
            volumes,
            volumes.len() - 5,
            5,
        ) ==> jump >= one(),
        a is Some ==> volumes.len() >= 20 && recent > 3 * older && older > 0,
        a is Some ==> rounds_to(recent * one(), older, a->0@),
        volumes.len() >= 20 && older > 0 && can_be_held(3 * older) && recent > 3 * older ==> a
            is Some,
{
    let n = volumes.len() as int;
    lemma_zero_and_one();
    lemma_powers();
    let (r, o) = choose|r: int, o: int| #[trigger] jump_by(volumes, r, o, jump);
    let x = sum_before(volumes, n, 5);
    let y = sum_before(volumes, n - 5, 5);
    if x >= y {
        law_rounding_keeps_order(y, 5, o, x, 5, r);
        if o > 0 {
            law_rounding_above(r * one(), o, jump, one());
        }
    }
    if x == y && x > 0 {
        law_rounding_keeps_order(x, 5, r, y, 5, o);
        if o > 0 {
            law_rounding_below(r * one(), o, jump, one());
        }
    }
    let (p, q, limit) = choose|p: int, q: int, limit: int| #[trigger]
        anomaly_by(volumes, p, q, limit, a);
    law_exact_is_kept(sum_before(volumes, n, 10), 10, p, recent);
    if n >= 20 {
        law_exact_is_kept(sum_before(volumes, n - 10, 10), 10, q, older);
        if can_be_held(3 * older) {
            law_exact_is_kept(3 * q, 1, limit, 3 * older);
        }
        if recent <= 3 * older {
            law_rounding_above(3 * q, 1, limit, recent);
        }
    } else if q > 0 {
        law_rounding_above(3 * q, 1, limit, q);
    }
}

/// Quotes keep off the market by a tick: the one that is told, and without one a ten-thousandth of
/// the price that the book points to, up to rounding.
pub proof fn law_ticks_of_quotes(
    before: DynMm,
    after: DynMm,
    c: Context,
    now_ms: u64,
    q: Quotes,
    bid: BookLevel,
    ask: BookLevel,
    base: Dec,
    tick: Dec,
)
    requires
        quoted(before, after, c, now_ms, Some(q)),
        c.ob.best_bid == Some(bid),
        c.ob.best_ask == Some(ask),
        microprice(bid.px.0, ask.px.0, bid.qty.0, ask.qty.0) == Some(base),
        tick_of(c, base) == Some(tick),
    ensures
        c.tick_size matches Some(t) ==> tick@ == t@,
        c.tick_size is None ==> is_close(base@, 10_000, tick@),
{
    if c.tick_size is None {
        law_rounding_is_close(
            base@ * 1_000_000_000_000_000_000_000_000,
            one(),
            tick@,
        );
    }
}

/// Which quotes are shown: none with a spread above the widest. A side that is asked for is shown,
/// unless it is one to lose on and no opportunity is taken; a side that is not asked for never is.
/// An opportunity asks for its own sides, and without one the inventory does.
pub proof fn law_quotes_shown(m: DynMm, f: QuoteFigures)
    ensures
        ({
            let q = quotes_of(m, f);
            let sides = if m.manipulation_opportunity is Some {
                sides_of(m.manipulation_opportunity->0)
            } else {
                f.inventory
            };
            let taken = opportunity_taken(
                m.cfg,
                m.manipulation_opportunity is Some,
                m.last_opportunity_mode,
                f.flow,
            );
            let bad_bid = adverse_bid(
                m.cfg,
                m.last_adverse_bid,
                m.last_adverse_ask,
                f.flow,
                f.trend,
            );
            let bad_ask = adverse_ask(m.cfg, m.last_adverse_ask, f.flow, f.trend);
            let narrow = f.spread_bps@ <= m.cfg.max_spread_bps@;
            &&& q.bid is Some <==> narrow && sides.0 && (taken || !bad_bid)
            &&& q.ask is Some <==> narrow && sides.1 && (taken || !bad_ask)
            &&& q.bid matches Some(b) ==> b.0 == Px(f.bid_px) && b.1 == Qty(f.qty)
            &&& q.ask matches Some(a) ==> a.0 == Px(f.ask_px) && a.1 == Qty(f.qty)
        }),
{
}

/// An opportunity that is found is taken where one was before or the flow, on either side, reaches
/// the upper limit; one that is gone is kept while one was before and the flow is at the lower.
pub proof fn law_opportunities_taken(cfg: DynMmCfg, found: bool, last_mode: bool, flow: Dec)
    requires
        flow.wf(),
    ensures
        opportunity_taken(cfg, found, last_mode, flow) <==> if found {
            last_mode || flow@ >= cfg.opportunity_threshold_on@ || -flow@
                >= cfg.opportunity_threshold_on@
        } else {
            last_mode && (flow@ >= cfg.opportunity_threshold_off@ || -flow@
                >= cfg.opportunity_threshold_off@)
        },
{
    lemma_abs(flow);
}

/// What is remembered: the last hundred prices and the last fifty volumes, the oldest going first,
/// and the points of the last minute.
pub proof fn law_what_is_remembered(
    history: Seq<(u64, Dec)>,
    volumes: Seq<Dec>,
    points: Seq<(u64, Dec, Dec)>,
    p: (u64, Dec, Dec),
    now_ms: u64,
    price: Dec,
)
    requires
        history.len() <= 100,
        volumes.len() <= 50,
    ensures
        history.len() < 100 ==> with_price(history, now_ms, price) == history.push((now_ms, price)),
        history.len() == 100 ==> with_price(history, now_ms, price) == history.skip(1).push(
            (now_ms, price),
        ),
        volumes.len() < 50 ==> with_volume(volumes, price) == volumes.push(price),
        volumes.len() == 50 ==> with_volume(volumes, price) == volumes.skip(1).push(price),
        recent_points(points, now_ms).contains(p) <==> points.contains(p) && p.0 > 0 && p.0 + 60_000
            > now_ms,
    decreases points.len(),
{
    if history.len() == 100 {
        assert(with_price(history, now_ms, price) =~= history.skip(1).push((now_ms, price)));
    }
    if volumes.len() == 50 {
        assert(with_volume(volumes, price) =~= volumes.skip(1).push(price));
    }
    if points.len() > 0 {
        let head = points.drop_last();
        law_what_is_remembered(history, volumes, head, p, now_ms, price);
        let h = recent_points(head, now_ms);
        let r = recent_points(points, now_ms);
        if head.contains(p) {
            assert(points[head.index_of(p)] == p);
        }
        if points.contains(p) && p != points.last() {
            assert(head[points.index_of(p)] == p);
        }
        assert(points[points.len() - 1] == points.last());
        if h.contains(p) {
            assert(r[h.index_of(p)] == p);
        }
        if r.len() > h.len() {
            assert(r[r.len() - 1] == points.last());
        }
        if r.contains(p) && !h.contains(p) {
            let k = r.index_of(p);
            if k < h.len() {
                assert(h[k] == p);
            }
        }
    }
}

} // verus!
