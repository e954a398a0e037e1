//! Following open positions: when to close them, in part or in full.
use vstd::prelude::*;

use crate::arith::{div_by, lemma_times_whole};
use crate::assoc::{
    by_text, distinct_keys, find_number, find_text, lemma_push, lemma_remove, lemma_update, value_of,
};
use crate::config::BotConfig;
use crate::connection::PositionSide;
use crate::decimal::{
    dec_of, difference, lemma_bounds, lemma_powers, lemma_value, one, pow10, product, quotient, sum,
    Dec,
};
use crate::extended::{
    above, extended_abs, extended_money, extended_over, extended_sum, extended_times, finite,
    larger, not_below, smaller, Extended,
};
use crate::figures::{money, money_text, rounded, rounded_text};
use crate::quotes::lemma_sign;
use crate::rounding::{
    can_be_held, is_close, law_exact_is_kept, law_rounding_above, law_rounding_below,
    law_rounding_is_close, law_rounding_of_negative, law_rounding_scales, lemma_exact, lemma_zero_and_one, rounds_to,
};
use crate::text::{copy_of, glue3, glue5, joined};
use crate::user_stream::PositionUpdate;

verus! {

/// How many prices the range of a symbol is estimated from.
pub const RANGE_PRICES: usize = 14;

/// How long a position is held at most, in minutes.
pub const MAX_HOLDING_MINUTES: u64 = 240;

/// After how long a small profit is taken, in minutes.
pub const SMALL_PROFIT_MINUTES: u64 = 30;

/// A part of a position that was closed.
#[derive(Clone, Copy, Debug)]
pub struct PartialExit {
    pub exit_time_ms: u64,
    pub exit_price: Dec,
    pub size: Dec,
    pub profit_pct: Dec,
}

/// A position that is followed.
#[derive(Debug)]
pub struct ActivePosition {
    pub entry_price: Dec,
    pub entry_time_ms: u64,
    pub side: PositionSide,
    pub size: Dec,
    pub leverage: Dec,
    /// The average range of the price when the position was opened.
    pub atr_at_entry: Dec,
    /// The highest profit so far, in percent.
    pub peak_profit_pct: Extended,
    /// The lowest profit so far, in percent.
    pub lowest_profit_pct: Extended,
    pub partial_exits: Vec<PartialExit>,
}

/// Why a position is to be closed.
#[derive(Clone, Copy, Debug)]
pub enum CloseReason {
    StopLoss,
    FirstTarget,
    SecondTarget,
    TrailingStop { peak: Extended, current: Extended },
    MaxHoldingTime,
    ExcessiveVolatility,
    Reversal,
    EarlyProfit,
    /// The stop at a multiple of the range was reached.
    RangeStop { stop: Dec, entry: Dec },
    /// The target at a multiple of the range was reached.
    RangeTarget { target: Dec, entry: Dec },
    /// The return on the margin reached a limit.
    ReturnLimit { net: Dec, gross: Dec, leverage: Dec },
}

impl CloseReason {
    /// The reason in words.
    pub open spec fn words(self) -> Seq<char> {
        match self {
            CloseReason::StopLoss => "Stop loss hit"@,
            CloseReason::FirstTarget => "First profit target (+1.5%)"@,
            CloseReason::SecondTarget => "Second profit target (+2%)"@,
            CloseReason::TrailingStop { peak, current } => "Trailing stop (peak: "@
                + extended_money(peak) + "%, current: "@ + extended_money(current) + "%)"@,
            CloseReason::MaxHoldingTime => "Maximum holding time (4 hours)"@,
            CloseReason::ExcessiveVolatility => "Excessive volatility"@,
            CloseReason::Reversal => "Reversal detected (70% retracement)"@,
            CloseReason::EarlyProfit => "Early profit taking (small win)"@,
            CloseReason::RangeStop { stop, entry } => "ATR SL hit ("@ + rounded(stop, 4)
                + " vs entry "@ + rounded(entry, 4) + ")"@,
            CloseReason::RangeTarget { target, entry } => "ATR TP hit ("@ + rounded(target, 4)
                + " vs entry "@ + rounded(entry, 4) + ")"@,
            CloseReason::ReturnLimit { net, gross, leverage } => "TP/SL net ROI: "@ + money(net)
                + "% (ROI: "@ + money(gross) + "%, leverage: "@ + rounded(leverage, 1) + "x)"@,
        }
    }

    /// The reason in words.
    pub fn text(&self) -> (r: String)
        ensures
            r@ == self.words(),
    {
        match self {
            CloseReason::StopLoss => copy_of("Stop loss hit"),
            CloseReason::FirstTarget => copy_of("First profit target (+1.5%)"),
            CloseReason::SecondTarget => copy_of("Second profit target (+2%)"),
            CloseReason::TrailingStop { peak, current } => {
                let a = peak.money_text();
                let b = current.money_text();
                glue5("Trailing stop (peak: ", a.as_str(), "%, current: ", b.as_str(), "%)")
            },
            CloseReason::MaxHoldingTime => copy_of("Maximum holding time (4 hours)"),
            CloseReason::ExcessiveVolatility => copy_of("Excessive volatility"),
            CloseReason::Reversal => copy_of("Reversal detected (70% retracement)"),
            CloseReason::EarlyProfit => copy_of("Early profit taking (small win)"),
            CloseReason::RangeStop { stop, entry } => {
                let a = rounded_text(*stop, 4);
                let b = rounded_text(*entry, 4);
                glue5("ATR SL hit (", a.as_str(), " vs entry ", b.as_str(), ")")
            },
            CloseReason::RangeTarget { target, entry } => {
                let a = rounded_text(*target, 4);
                let b = rounded_text(*entry, 4);
                glue5("ATR TP hit (", a.as_str(), " vs entry ", b.as_str(), ")")
            },
            CloseReason::ReturnLimit { net, gross, leverage } => {
                let a = money_text(*net);
                let b = money_text(*gross);
                let c = rounded_text(*leverage, 1);
                let head = glue5(
                    "TP/SL net ROI: ",
                    a.as_str(),
                    "% (ROI: ",
                    b.as_str(),
                    "%, leverage: ",
                );
                glue3(head.as_str(), c.as_str(), "x)")
            },
        }
    }
}

#[derive(Clone, Copy, Debug)]
pub enum PositionDecision {
    NoPosition,
    Hold,
    PartialClose { percentage: Dec, reason: CloseReason },
    FullClose { reason: CloseReason },
}

/// The change of the price in favour of a position, as a share of the entry price.
pub open spec fn gained(side: PositionSide, entry: Dec, price: Dec) -> Option<Extended> {
    let change = match side {
        PositionSide::Long => difference(price, entry),
        PositionSide::Short => difference(entry, price),
    };
    match change {
        Some(c) => extended_over(Extended::Finite(c), entry),
        None => None,
    }
}

/// The change of a price in favour of a position.
pub open spec fn favour(side: PositionSide, entry: int, price: int) -> int {
    match side {
        PositionSide::Long => price - entry,
        PositionSide::Short => entry - price,
    }
}

fn find_gained(side: PositionSide, entry: Dec, price: Dec) -> (r: Option<Extended>)
    ensures
        r == gained(side, entry, price),
        entry@ > 0 && r is Some ==> r->0 is Finite && exists|c: int| #[trigger]
            rounds_to(favour(side, entry@, price@), 1, c) && rounds_to(
                c * pow10(28),
                entry@,
                r->0->Finite_0@,
            ),
{
    let change = match side {
        PositionSide::Long => price.checked_sub(&entry),
        PositionSide::Short => entry.checked_sub(&price),
    };
    match change {
        Some(c) => {
            assert(rounds_to(favour(side, entry@, price@), 1, c@));
            Extended::Finite(c).over(&entry)
        },
        None => None,
    }
}

/// A share of the margin in percent: the share of the price, times the leverage.
pub open spec fn on_margin(share: Extended, leverage: Dec) -> Option<Extended> {
    match extended_times(share, leverage) {
        Some(x) => extended_times(x, dec_of(100, 0)),
        None => None,
    }
}

fn find_on_margin(share: Extended, leverage: Dec) -> (r: Option<Extended>)
    ensures
        r == on_margin(share, leverage),
        share is Finite && r is Some ==> r->0 is Finite && exists|x: int| #[trigger]
            rounds_to(share->Finite_0@ * leverage@, pow10(28), x) && rounds_to(
                x * dec_of(100, 0)@,
                pow10(28),
                r->0->Finite_0@,
            ),
{
    match share.times(&leverage) {
        Some(x) => x.times(&Dec::new(100, 0)),
        None => None,
    }
}

/// A price that is `multiplier` times the range away from the entry price, above
/// it or below.
pub open spec fn range_price(entry: Dec, ratio: Dec, multiplier: Dec, above: bool) -> Option<Dec> {
    match product(multiplier, ratio) {
        None => None,
        Some(m) => {
            let factor = if above {
                sum(dec_of(1, 0), m)
            } else {
                difference(dec_of(1, 0), m)
            };
            match factor {
                Some(f) => product(entry, f),
                None => None,
            }
        },
    }
}

fn find_range_price(entry: Dec, ratio: Dec, multiplier: Dec, above: bool) -> (r: Option<Dec>)
    ensures
        r == range_price(entry, ratio, multiplier, above),
        r is Some ==> exists|m: int, factor: int| #[trigger]
            rounds_to(multiplier@ * ratio@, pow10(28), m) && rounds_to(
                if above {
                    dec_of(1, 0)@ + m
                } else {
                    dec_of(1, 0)@ - m
                },
                1,
                factor,
            ) && #[trigger] rounds_to(entry@ * factor, pow10(28), r->0@),
{
    match multiplier.checked_mul(&ratio) {
        None => None,
        Some(m) => {
            let one = Dec::new(1, 0);
            let factor = if above {
                one.checked_add(&m)
            } else {
                one.checked_sub(&m)
            };
            match factor {
                Some(f) => entry.checked_mul(&f),
                None => None,
            }
        },
    }
}

/// The range as a share of the entry price; a hundredth where that price is not positive.
pub open spec fn range_ratio(atr: Dec, entry: Dec) -> Option<Dec> {
    if entry@ > 0 {
        quotient(atr, entry)
    } else {
        Some(dec_of(1, 2))
    }
}

/// What a decision on a position rests on.
pub struct Figures {
    /// The profit in percent of the margin.
    pub profit: Extended,
    /// The highest profit so far, this one counted.
    pub peak: Extended,
    /// The lowest profit so far, this one counted.
    pub lowest: Extended,
    /// The price at which the loss is stopped.
    pub stop: Dec,
    /// Half of the highest profit.
    pub half_peak: Extended,
    /// Twice the range at the entry.
    pub twice_range: Dec,
    /// How much of the highest profit is gone, as a share of it; nothing unless
    /// that profit was above half a percent.
    pub retraced: Extended,
    /// Half of the size.
    pub half_size: Dec,
}

/// How much of a peak is gone. Of an infinite one no share can be told, and all of another
/// is gone where the profit is beyond every loss.
pub open spec fn retraced_share(peak: Extended, profit: Extended) -> Option<Extended> {
    if !above(peak, Extended::Finite(dec_of(5, 1))) {
        Some(Extended::Finite(dec_of(0, 0)))
    } else {
        match (peak, profit) {
            (Extended::Finite(p), Extended::Finite(now)) => match difference(p, now) {
                Some(d) => finite(quotient(d, p)),
                None => None,
            },
            (Extended::Finite(_), Extended::MinusInfinity) => Some(Extended::Infinity),
            (Extended::Finite(_), Extended::Infinity) => Some(Extended::MinusInfinity),
            _ => Some(Extended::NotANumber),
        }
    }
}

/// The share of the highest profit that is gone, where that was above half a percent; else none.
pub open spec fn retraced_told(peak: Extended, profit: Extended, r: Extended) -> bool {
    peak matches Extended::Finite(p) ==> (profit matches Extended::Finite(now) ==> {
        &&& r is Finite
        &&& 2 * p@ <= one() ==> r->Finite_0@ == 0
        &&& 2 * p@ > one() ==> exists|d: int| #[trigger]
            rounds_to(p@ - now@, 1, d) && rounds_to(d * one(), p@, r->Finite_0@)
    })
}

fn find_retraced_share(peak: Extended, profit: Extended) -> (r: Option<Extended>)
    ensures
        r == retraced_share(peak, profit),
        r matches Some(x) ==> retraced_told(peak, profit, x),
{
    proof {
        lemma_powers();
        lemma_value(5, 1);
        lemma_value(0, 0);
    }
    if !peak.is_above(&Extended::Finite(Dec::new(5, 1))) {
        return Some(Extended::Finite(Dec::new(0, 0)));
    }
    match (peak, profit) {
        (Extended::Finite(p), Extended::Finite(now)) => match p.checked_sub(&now) {
            Some(d) => match d.checked_div(&p) {
                Some(q) => {
                    assert(rounds_to(p@ - now@, 1, d@));
                    Some(Extended::Finite(q))
                },
                None => None,
            },
            None => None,
        },
        (Extended::Finite(_), Extended::MinusInfinity) => Some(Extended::Infinity),
        (Extended::Finite(_), Extended::Infinity) => Some(Extended::MinusInfinity),
        _ => Some(Extended::NotANumber),
    }
}

/// The steps to a profit in percent of the margin: the change of the price by the entry price,
/// times the leverage, times a hundred.
pub open spec fn profit_by(
    change: int,
    entry: int,
    leverage: int,
    c: int,
    share: int,
    x: int,
    p: int,
) -> bool {
    &&& rounds_to(change, 1, c)
    &&& rounds_to(c * one(), entry, share)
    &&& rounds_to(share * leverage, one(), x)
    &&& rounds_to(x * (100 * one()), one(), p)
}

pub open spec fn profits(change: int, entry: int, leverage: int, p: int) -> bool {
    exists|c: int, share: int, x: int| #[trigger]
        profit_by(change, entry, leverage, c, share, x, p)
}

/// The steps to a price that is `multiplier` times a range away from the entry price.
pub open spec fn away_by(
    entry: int,
    range: int,
    multiplier: int,
    above: bool,
    ratio: int,
    m: int,
    factor: int,
    v: int,
) -> bool {
    &&& rounds_to(range * one(), entry, ratio)
    &&& rounds_to(multiplier * ratio, one(), m)
    &&& rounds_to(
        if above {
            one() + m
        } else {
            one() - m
        },
        1,
        factor,
    )
    &&& rounds_to(entry * factor, one(), v)
}

pub open spec fn is_away(entry: int, range: int, multiplier: int, above: bool, v: int) -> bool {
    exists|ratio: int, m: int, factor: int| #[trigger]
        away_by(entry, range, multiplier, above, ratio, m, factor, v)
}

/// What the figures of a position with an entry price are: its profit, the stop at two and a
/// half times the range, half of the highest profit, twice the range and half of the size.
pub open spec fn figures_hold(pos: ActivePosition, price: Dec, f: Figures) -> bool {
    &&& f.peak == larger(pos.peak_profit_pct, f.profit)
    &&& f.lowest == smaller(pos.lowest_profit_pct, f.profit)
    &&& retraced_told(f.peak, f.profit, f.retraced)
    &&& rounds_to(pos.atr_at_entry@ * (2 * one()), one(), f.twice_range@)
    &&& rounds_to(pos.size@ * 5_000_000_000_000_000_000_000_000_000, one(), f.half_size@)
    &&& f.peak is Finite ==> f.half_peak is Finite && rounds_to(
        f.peak->Finite_0@ * 5_000_000_000_000_000_000_000_000_000,
        one(),
        f.half_peak->Finite_0@,
    )
    &&& pos.entry_price@ > 0 ==> {
        &&& f.profit is Finite
        &&& profits(
            if pos.side is Long {
                price@ - pos.entry_price@
            } else {
                pos.entry_price@ - price@
            },
            pos.entry_price@,
            pos.leverage@,
            f.profit->Finite_0@,
        )
        &&& is_away(
            pos.entry_price@,
            pos.atr_at_entry@,
            25_000_000_000_000_000_000_000_000_000,
            pos.side is Short,
            f.stop@,
        )
    }
}

/// The profit of a position is in percent of its margin: a hundred times the leverage times the
/// change of the price in its favour, by the entry price. It is so exactly where the steps can
/// be held, and always has the sign of the change.
pub proof fn law_profit_of_a_position(
    change: int,
    entry: int,
    leverage: int,
    p: int,
    share: int,
    x: int,
)
    requires
        entry > 0,
        leverage > 0,
        profits(change, entry, leverage, p),
    ensures
        change >= 0 ==> p >= 0,
        change <= 0 ==> p <= 0,
        can_be_held(change) && can_be_held(share) && can_be_held(x) && can_be_held(100 * x) && share
            * entry == change * one() && x * one() == share * leverage ==> p == 100 * x,
{
    let (c, s, y) = choose|c: int, s: int, y: int| #[trigger]
        profit_by(change, entry, leverage, c, s, y, p);
    lemma_sign(change, 1, c);
    lemma_sign(c * one(), entry, s);
    lemma_sign_of_product(s, leverage);
    lemma_sign(s * leverage, one(), y);
    lemma_sign(y * (100 * one()), one(), p);
    if can_be_held(change) && can_be_held(share) && can_be_held(x) && can_be_held(100 * x) && share
        * entry == change * one() && x * one() == share * leverage {
        law_exact_is_kept(change, 1, c, change);
        law_exact_is_kept(c * one(), entry, s, share);
        law_exact_is_kept(s * leverage, one(), y, x);
        law_exact_is_kept(y * (100 * one()), one(), p, 100 * x);
    }
}

proof fn lemma_sign_of_product(a: int, b: int)
    requires
        b > 0,
    ensures
        a >= 0 ==> a * b >= 0,
        a <= 0 ==> a * b <= 0,
{
    assert((a >= 0 ==> a * b >= 0) && (a <= 0 ==> a * b <= 0)) by (nonlinear_arith)
        requires
            b > 0,
    ;
}

/// A price that is a multiple of the range away is above the entry price or below it as asked,
/// by the multiple times the range where the steps can be held.
pub proof fn law_multiple_of_the_range(
    entry: int,
    range: int,
    multiplier: int,
    above: bool,
    v: int,
    ratio: int,
    m: int,
    factor: int,
)
    requires
        entry > 0,
        can_be_held(entry),
        is_away(entry, range, multiplier, above, v),
    ensures
        range >= 0 && multiplier > 0 && above ==> v >= entry,
        range >= 0 && multiplier > 0 && !above ==> v <= entry,
        can_be_held(ratio) && can_be_held(m) && can_be_held(factor) && ratio * entry == range
            * one() && m * one() == multiplier * ratio && factor == (if above {
            one() + m
        } else {
            one() - m
        }) ==> rounds_to(entry * factor, one(), v),
{
    let (r, w, k) = choose|r: int, w: int, k: int| #[trigger]
        away_by(entry, range, multiplier, above, r, w, k, v);
    lemma_zero_and_one();
    lemma_powers();
    lemma_sign(range * one(), entry, r);
    if range >= 0 && multiplier > 0 {
        lemma_sign_of_product(r, multiplier);
        assert(r * multiplier == multiplier * r) by (nonlinear_arith);
        lemma_sign(multiplier * r, one(), w);
        if above {
            law_rounding_above(one() + w, 1, k, one());
            assert(entry * k >= entry * one()) by (nonlinear_arith)
                requires
                    k >= one(),
                    entry > 0,
            ;
            law_rounding_above(entry * k, one(), v, entry);
        } else {
            law_rounding_below(one() - w, 1, k, one());
            assert(entry * k <= entry * one()) by (nonlinear_arith)
                requires
                    k <= one(),
                    entry > 0,
            ;
            law_rounding_below(entry * k, one(), v, entry);
        }
    }
    if can_be_held(ratio) && can_be_held(m) && can_be_held(factor) && ratio * entry == range * one()
        && m * one() == multiplier * ratio && factor == (if above {
        one() + m
    } else {
        one() - m
    }) {
        law_exact_is_kept(range * one(), entry, r, ratio);
        law_exact_is_kept(multiplier * r, one(), w, m);
        law_exact_is_kept(
            if above {
                one() + w
            } else {
                one() - w
            },
            1,
            k,
            factor,
        );
    }
}

/// What evaluating a position keeps: the stop of a long position is not above its entry price and
/// that of a short one not below it; the highest profit never falls and the lowest never rises;
/// and a part that is closed leaves half of the size, up to rounding.
pub proof fn law_evaluating_a_position(
    before: ActivePosition,
    after: ActivePosition,
    f: Figures,
    d: PositionDecision,
    price: Dec,
    now_ms: u64,
)
    requires
        evaluated(before, after, f, d, price, now_ms),
        before.entry_price.wf(),
        before.entry_price@ > 0,
        before.atr_at_entry@ >= 0,
        before.leverage@ > 0,
        !(before.peak_profit_pct is NotANumber),
        !(before.lowest_profit_pct is NotANumber),
    ensures
        before.side is Long ==> f.stop@ <= before.entry_price@,
        before.side is Short ==> f.stop@ >= before.entry_price@,
        before.side is Long && price@ >= before.entry_price@ ==> f.profit->Finite_0@ >= 0,
        before.side is Long && price@ <= before.entry_price@ ==> f.profit->Finite_0@ <= 0,
        before.side is Short && price@ <= before.entry_price@ ==> f.profit->Finite_0@ >= 0,
        before.side is Short && price@ >= before.entry_price@ ==> f.profit->Finite_0@ <= 0,
        not_below(after.peak_profit_pct, before.peak_profit_pct),
        not_below(after.peak_profit_pct, f.profit),
        not_below(before.lowest_profit_pct, after.lowest_profit_pct),
        not_below(f.profit, after.lowest_profit_pct),
        d is PartialClose ==> is_close(before.size@, 2, after.size@),
        d is PartialClose ==> after.partial_exits@.len() == before.partial_exits@.len() + 1
            && after.partial_exits@.last().size == after.size
            && after.partial_exits@.last().exit_price == price,
        !(d is PartialClose) ==> after.size == before.size,
{
    let entry = before.entry_price;
    lemma_powers();
    lemma_bounds(entry);
    lemma_exact(entry.num(), entry.places(), 1);
    law_multiple_of_the_range(
        entry@,
        before.atr_at_entry@,
        25_000_000_000_000_000_000_000_000_000,
        before.side is Short,
        f.stop@,
        0,
        0,
        0,
    );
    law_profit_of_a_position(
        if before.side is Long {
            price@ - entry@
        } else {
            entry@ - price@
        },
        entry@,
        before.leverage@,
        f.profit->Finite_0@,
        0,
        0,
    );
    law_rounding_is_close(
        before.size@ * 5_000_000_000_000_000_000_000_000_000,
        one(),
        f.half_size@,
    );
}

/// The limits of a position: its stop is two and a half times the range at the entry below the entry
/// price of a long one, and above that of a short one, where the steps can be held; a range
/// counts as doubled against twice that at the entry; a trailing stop against half of the highest
/// profit; and of a profit above half a percent the part that is gone is told.
pub proof fn law_limits_of_a_position(
    pos: ActivePosition,
    price: Dec,
    f: Figures,
    ratio: int,
    share: int,
)
    requires
        figures_hold(pos, price, f),
        pos.entry_price@ > 0,
        pos.entry_price.wf(),
        pos.atr_at_entry.wf(),
    ensures
        can_be_held(ratio) && can_be_held(25 * ratio / 10) && can_be_held(one() + 25 * ratio / 10)
            && can_be_held(one() - 25 * ratio / 10) && 25 * ratio % 10 == 0 && ratio
            * pos.entry_price@ == pos.atr_at_entry@ * one() ==> {
            &&& pos.side is Long ==> rounds_to(
                pos.entry_price@ * (one() - 25 * ratio / 10),
                one(),
                f.stop@,
            )
            &&& pos.side is Short ==> rounds_to(
                pos.entry_price@ * (one() + 25 * ratio / 10),
                one(),
                f.stop@,
            )
        },
        can_be_held(2 * pos.atr_at_entry@) ==> f.twice_range@ == 2 * pos.atr_at_entry@,
        f.peak matches Extended::Finite(p) ==> (f.half_peak matches Extended::Finite(h) && is_close(
            p@,
            2,
            h@,
        )),
        f.peak matches Extended::Finite(p) ==> (f.retraced matches Extended::Finite(r) && (2 * p@
            > one() && can_be_held(p@ - f.profit->Finite_0@) && can_be_held(share) && share * p@
            == (p@ - f.profit->Finite_0@) * one() ==> r@ == share) && (2 * p@ <= one() ==> r@ == 0)),
{
    lemma_powers();
    let entry = pos.entry_price@;
    let atr = pos.atr_at_entry@;
    if can_be_held(2 * atr) {
        law_exact_is_kept(atr * (2 * one()), one(), f.twice_range@, 2 * atr);
    }
    if f.peak is Finite {
        let p = f.peak->Finite_0@;
        law_rounding_is_close(
            p * 5_000_000_000_000_000_000_000_000_000,
            one(),
            f.half_peak->Finite_0@,
        );
        let now = f.profit->Finite_0@;
        let r = f.retraced->Finite_0@;
        if 2 * p > one() {
            let d = choose|d: int| #[trigger]
                rounds_to(p - now, 1, d) && rounds_to(d * one(), p, r);
            if can_be_held(p - now) && can_be_held(share) && share * p == (p - now) * one() {
                law_exact_is_kept(p - now, 1, d, p - now);
                law_exact_is_kept(d * one(), p, r, share);
            }
        }
    }
    lemma_bounds(pos.entry_price);
    lemma_exact(pos.entry_price.num(), pos.entry_price.places(), 1);
    let m = 25 * ratio / 10;
    let short = pos.side is Short;
    law_multiple_of_the_range(
        entry,
        atr,
        25_000_000_000_000_000_000_000_000_000,
        short,
        f.stop@,
        ratio,
        m,
        if short {
            one() + m
        } else {
            one() - m
        },
    );
}

/// The figures of a position at a price; none where a number cannot be held.
pub open spec fn figures_of(pos: ActivePosition, price: Dec) -> Option<Figures> {
    match gained(pos.side, pos.entry_price, price) {
        None => None,
        Some(share) => match (
            on_margin(share, pos.leverage),
            range_ratio(pos.atr_at_entry, pos.entry_price),
        ) {
            (Some(profit), Some(ratio)) => {
                let peak = larger(pos.peak_profit_pct, profit);
                let lowest = smaller(pos.lowest_profit_pct, profit);
                match (
                    range_price(
                        pos.entry_price,
                        ratio,
                        dec_of(25, 1),
                        pos.side == PositionSide::Short,
                    ),
                    extended_times(peak, dec_of(5, 1)),
                    product(pos.atr_at_entry, dec_of(2, 0)),
                    retraced_share(peak, profit),
                    product(pos.size, dec_of(5, 1)),
                ) {
                    (
                        Some(stop),
                        Some(half_peak),
                        Some(twice_range),
                        Some(retraced),
                        Some(half_size),
                    ) => Some(
                        Figures {
                            profit,
                            peak,
                            lowest,
                            stop,
                            half_peak,
                            twice_range,
                            retraced,
                            half_size,
                        },
                    ),
                    _ => None,
                }
            },
            _ => None,
        },
    }
}

fn find_figures(pos: &ActivePosition, price: Dec) -> (r: Option<Figures>)
    ensures
        r == figures_of(*pos, price),
        r matches Some(f) ==> figures_hold(*pos, price, f),
{
    proof {
        lemma_powers();
        lemma_value(100, 0);
        lemma_value(1, 0);
        lemma_value(2, 0);
        lemma_value(5, 1);
        lemma_value(25, 1);
    }
    let share = match find_gained(pos.side, pos.entry_price, price) {
        Some(s) => s,
        None => return None,
    };
    let ratio = if pos.entry_price.is_positive() {
        pos.atr_at_entry.checked_div(&pos.entry_price)
    } else {
        Some(Dec::new(1, 2))
    };
    let (profit, ratio) = match (find_on_margin(share, pos.leverage), ratio) {
        (Some(p), Some(r)) => (p, r),
        _ => return None,
    };
    let peak = pos.peak_profit_pct.or_larger(&profit);
    let lowest = pos.lowest_profit_pct.or_smaller(&profit);
    let half = Dec::new(5, 1);
    let retraced = find_retraced_share(peak, profit);
    let above = match pos.side {
        PositionSide::Short => true,
        PositionSide::Long => false,
    };
    match (
        find_range_price(pos.entry_price, ratio, Dec::new(25, 1), above),
        peak.times(&half),
        pos.atr_at_entry.checked_mul(&Dec::new(2, 0)),
        retraced,
        pos.size.checked_mul(&half),
    ) {
        (Some(stop), Some(half_peak), Some(twice_range), Some(retraced), Some(half_size)) => {
            let f = Figures {
                profit,
                peak,
                lowest,
                stop,
                half_peak,
                twice_range,
                retraced,
                half_size,
            };
            proof {
                if pos.entry_price@ > 0 {
                    let entry = pos.entry_price@;
                    let change = favour(pos.side, entry, price@);
                    let s = share->Finite_0@;
                    let p = profit->Finite_0@;
                    let c = choose|c: int| #[trigger]
                        rounds_to(change, 1, c) && rounds_to(c * pow10(28), entry, s);
                    let x = choose|x: int| #[trigger]
                        rounds_to(s * pos.leverage@, pow10(28), x) && rounds_to(
                            x * dec_of(100, 0)@,
                            pow10(28),
                            p,
                        );
                    assert(profit_by(change, entry, pos.leverage@, c, s, x, p));
                    let multiplier = dec_of(25, 1)@;
                    let (m, factor) = choose|m: int, factor: int| #[trigger]
                        rounds_to(multiplier * ratio@, pow10(28), m) && rounds_to(
                            if above {
                                dec_of(1, 0)@ + m
                            } else {
                                dec_of(1, 0)@ - m
                            },
                            1,
                            factor,
                        ) && #[trigger] rounds_to(entry * factor, pow10(28), stop@);
                    assert(away_by(
                        entry,
                        pos.atr_at_entry@,
                        multiplier,
                        above,
                        ratio@,
                        m,
                        factor,
                        stop@,
                    ));
                }
            }
            Some(f)
        },
        _ => None,
    }
}

/// The price reached the stop of a position on this side.
pub open spec fn stop_hit(side: PositionSide, price: Dec, stop: Dec) -> bool {
    match side {
        PositionSide::Long => price@ <= stop@,
        PositionSide::Short => price@ >= stop@,
    }
}

/// The whole minutes that a position has been held.
pub open spec fn minutes_held(entry_ms: u64, now_ms: u64) -> int {
    if now_ms > entry_ms {
        (now_ms - entry_ms) / 60_000
    } else {
        0
    }
}

/// The range is more than twice that at the entry: their quotient is above two. Where there
/// was no range at the entry, any range is.
pub open spec fn range_doubled(atr: Extended, twice_range: Dec) -> bool {
    let twice = Extended::Finite(twice_range);
    if twice_range@ < 0 {
        above(twice, atr)
    } else {
        above(atr, twice)
    }
}

/// What is to be done about a position: first its loss is stopped, then its profits
/// are taken in two parts, then the rest is closed when too much of the profit is
/// gone, after too long a time, when the market gets too volatile, or for a small win.
pub open spec fn decision_of(
    side: PositionSide,
    exits: nat,
    f: Figures,
    price: Dec,
    atr: Extended,
    minutes: int,
) -> PositionDecision {
    if stop_hit(side, price, f.stop) {
        PositionDecision::FullClose { reason: CloseReason::StopLoss }
    } else if not_below(f.profit, Extended::Finite(dec_of(15, 1))) && exits == 0 {
        PositionDecision::PartialClose {
            percentage: dec_of(5, 1),
            reason: CloseReason::FirstTarget,
        }
    } else if not_below(f.profit, Extended::Finite(dec_of(2, 0))) && exits == 1 {
        PositionDecision::PartialClose {
            percentage: dec_of(25, 2),
            reason: CloseReason::SecondTarget,
        }
    } else if exits > 0 && above(f.half_peak, f.profit) {
        PositionDecision::FullClose {
            reason: CloseReason::TrailingStop { peak: f.peak, current: f.profit },
        }
    } else if minutes > MAX_HOLDING_MINUTES {
        PositionDecision::FullClose { reason: CloseReason::MaxHoldingTime }
    } else if range_doubled(atr, f.twice_range) {
        PositionDecision::FullClose { reason: CloseReason::ExcessiveVolatility }
    } else if above(f.peak, Extended::Finite(dec_of(5, 1))) && above(
        f.retraced,
        Extended::Finite(dec_of(7, 1)),
    ) {
        PositionDecision::FullClose { reason: CloseReason::Reversal }
    } else if minutes > SMALL_PROFIT_MINUTES && not_below(
        f.profit,
        Extended::Finite(dec_of(3, 1)),
    ) && above(Extended::Finite(dec_of(5, 1)), f.profit) {
        PositionDecision::FullClose { reason: CloseReason::EarlyProfit }
    } else {
        PositionDecision::Hold
    }
}

fn decide(
    side: PositionSide,
    exits: usize,
    f: &Figures,
    price: Dec,
    atr: Extended,
    minutes: u64,
) -> (r: PositionDecision)
    ensures
        r == decision_of(side, exits as nat, *f, price, atr, minutes as int),
{
    let hit = match side {
        PositionSide::Long => price.le(&f.stop),
        PositionSide::Short => f.stop.le(&price),
    };
    if hit {
        return PositionDecision::FullClose { reason: CloseReason::StopLoss };
    }
    if f.profit.is_not_below(&Extended::Finite(Dec::new(15, 1))) && exits == 0 {
        return PositionDecision::PartialClose {
            percentage: Dec::new(5, 1),
            reason: CloseReason::FirstTarget,
        };
    }
    if f.profit.is_not_below(&Extended::Finite(Dec::new(2, 0))) && exits == 1 {
        return PositionDecision::PartialClose {
            percentage: Dec::new(25, 2),
            reason: CloseReason::SecondTarget,
        };
    }
    if exits > 0 && f.half_peak.is_above(&f.profit) {
        return PositionDecision::FullClose {
            reason: CloseReason::TrailingStop { peak: f.peak, current: f.profit },
        };
    }
    if minutes > MAX_HOLDING_MINUTES {
        return PositionDecision::FullClose { reason: CloseReason::MaxHoldingTime };
    }
    let twice = Extended::Finite(f.twice_range);
    let doubled = if f.twice_range.is_sign_negative() {
        twice.is_above(&atr)
    } else {
        atr.is_above(&twice)
    };
    if doubled {
        return PositionDecision::FullClose { reason: CloseReason::ExcessiveVolatility };
    }
    let half = Extended::Finite(Dec::new(5, 1));
    if f.peak.is_above(&half) && f.retraced.is_above(&Extended::Finite(Dec::new(7, 1))) {
        return PositionDecision::FullClose { reason: CloseReason::Reversal };
    }
    if minutes > SMALL_PROFIT_MINUTES && f.profit.is_not_below(&Extended::Finite(Dec::new(3, 1)))
        && half.is_above(&f.profit) {
        return PositionDecision::FullClose { reason: CloseReason::EarlyProfit };
    }
    PositionDecision::Hold
}

/// The target of a part that is closed.
pub open spec fn target_of(exits: nat) -> Dec {
    if exits == 0 {
        dec_of(15, 1)
    } else {
        dec_of(2, 0)
    }
}

/// What evaluating a position at a price makes of it.
pub open spec fn evaluated(
    before: ActivePosition,
    after: ActivePosition,
    f: Figures,
    d: PositionDecision,
    price: Dec,
    now_ms: u64,
) -> bool {
    &&& figures_hold(before, price, f)
    &&& after.entry_price == before.entry_price
    &&& after.entry_time_ms == before.entry_time_ms
    &&& after.side == before.side
    &&& after.leverage == before.leverage
    &&& after.atr_at_entry == before.atr_at_entry
    &&& after.peak_profit_pct == f.peak
    &&& after.lowest_profit_pct == f.lowest
    &&& if d is PartialClose {
        &&& after.size == f.half_size
        &&& after.partial_exits@ == before.partial_exits@.push(
            PartialExit {
                exit_time_ms: now_ms,
                exit_price: price,
                size: f.half_size,
                profit_pct: target_of(before.partial_exits@.len()),
            },
        )
    } else {
        &&& after.size == before.size
        &&& after.partial_exits@ == before.partial_exits@
    }
}

impl ActivePosition {
    /// Decides on the position. `None` where a number cannot be held; the position
    /// then stays as it is.
    pub fn evaluate(&mut self, price: Dec, atr: Extended, now_ms: u64) -> (r: Option<
        PositionDecision,
    >)
        ensures
            match figures_of(*old(self), price) {
                Some(f) => {
                    &&& r == Some(
                        decision_of(
                            old(self).side,
                            old(self).partial_exits@.len(),
                            f,
                            price,
                            atr,
                            minutes_held(old(self).entry_time_ms, now_ms),
                        ),
                    )
                    &&& evaluated(*old(self), *final(self), f, r->0, price, now_ms)
                },
                None => r is None && *final(self) == *old(self),
            },
    {
        let f = match find_figures(self, price) {
            Some(f) => f,
            None => return None,
        };
        self.peak_profit_pct = f.peak;
        self.lowest_profit_pct = f.lowest;
        let minutes: u64 = if now_ms > self.entry_time_ms {
            (now_ms - self.entry_time_ms) / 60_000
        } else {
            0
        };
        let exits: usize = self.partial_exits.len();
        let d = decide(self.side, exits, &f, price, atr, minutes);
        if let PositionDecision::PartialClose { .. } = d {
            let target = if exits == 0 {
                Dec::new(15, 1)
            } else {
                Dec::new(2, 0)
            };
            self.partial_exits.push(
                PartialExit {
                    exit_time_ms: now_ms,
                    exit_price: price,
                    size: f.half_size,
                    profit_pct: target,
                },
            );
            self.size = f.half_size;
        }
        Some(d)
    }
}

/// The stop comes first: where it is reached, the position is closed in full,
/// whatever else holds.
pub proof fn law_stop_comes_first(
    side: PositionSide,
    exits: nat,
    f: Figures,
    price: Dec,
    atr: Extended,
    minutes: int,
)
    ensures
        stop_hit(side, price, f.stop) ==> decision_of(side, exits, f, price, atr, minutes) == (
        PositionDecision::FullClose { reason: CloseReason::StopLoss }),
{
}

/// Parts of a position are closed twice at most: the first at one and a half percent
/// of profit, the second at two.
pub proof fn law_two_partial_exits(
    side: PositionSide,
    exits: nat,
    f: Figures,
    price: Dec,
    atr: Extended,
    minutes: int,
)
    ensures
        decision_of(side, exits, f, price, atr, minutes) is PartialClose ==> exits < 2
            && not_below(f.profit, Extended::Finite(target_of(exits))),
{
}

/// The share that is closed at a target is fixed by how many were closed before: a half at
/// the first and a quarter at the second. It is never the whole.
pub proof fn law_shares_of_partial_closes(
    side: PositionSide,
    exits: nat,
    f: Figures,
    price: Dec,
    atr: Extended,
    minutes: int,
)
    ensures
        decision_of(side, exits, f, price, atr, minutes) matches PositionDecision::PartialClose {
            percentage,
            reason,
        } ==> {
            let one = one();
            &&& exits == 0 ==> percentage@ * 2 == one && reason is FirstTarget
            &&& exits == 1 ==> percentage@ * 4 == one && reason is SecondTarget
            &&& exits <= 1
            &&& 0 < percentage@ < one
        },
{
    lemma_powers();
    lemma_value(5, 1);
    lemma_value(25, 2);
}

/// What closes a position, in the order in which it is looked at, over the values of its
/// figures: the stop; profits of one and a half and of two percent; half of the highest
/// profit; four hours; more than twice the range; seven tenths of a highest profit above half
/// a percent; and after half an hour a profit from three to five tenths of a percent.
pub proof fn law_what_closes_a_position(
    side: PositionSide,
    exits: nat,
    f: Figures,
    price: Dec,
    atr: Dec,
    minutes: int,
    profit: Dec,
    peak: Dec,
    half_peak: Dec,
    retraced: Dec,
)
    requires
        f.profit == Extended::Finite(profit),
        f.peak == Extended::Finite(peak),
        f.half_peak == Extended::Finite(half_peak),
        f.retraced == Extended::Finite(retraced),
    ensures
        ({
            let one = one();
            let d = decision_of(side, exits, f, price, Extended::Finite(atr), minutes);
            let stopped = match side {
                PositionSide::Long => price@ <= f.stop@,
                PositionSide::Short => price@ >= f.stop@,
            };
            let first = exits == 0 && 2 * profit@ >= 3 * one;
            let second = exits == 1 && profit@ >= 2 * one;
            let trailing = exits > 0 && profit@ < half_peak@;
            let late = minutes > 240;
            let volatile = if f.twice_range@ < 0 {
                atr@ < f.twice_range@
            } else {
                atr@ > f.twice_range@
            };
            let reversed = 2 * peak@ > one && 10 * retraced@ > 7 * one;
            let small_win = minutes > 30 && 10 * profit@ >= 3 * one && 2 * profit@ < one;
            if stopped {
                d == (PositionDecision::FullClose { reason: CloseReason::StopLoss })
            } else if first {
                d matches PositionDecision::PartialClose { reason, .. } && reason is FirstTarget
            } else if second {
                d matches PositionDecision::PartialClose { reason, .. } && reason is SecondTarget
            } else if trailing {
                d == (PositionDecision::FullClose {
                    reason: CloseReason::TrailingStop { peak: f.peak, current: f.profit },
                })
            } else if late {
                d == (PositionDecision::FullClose { reason: CloseReason::MaxHoldingTime })
            } else if volatile {
                d == (PositionDecision::FullClose { reason: CloseReason::ExcessiveVolatility })
            } else if reversed {
                d == (PositionDecision::FullClose { reason: CloseReason::Reversal })
            } else if small_win {
                d == (PositionDecision::FullClose { reason: CloseReason::EarlyProfit })
            } else {
                d is Hold
            }
        }),
{
    lemma_powers();
    lemma_value(15, 1);
    lemma_value(2, 0);
    lemma_value(5, 1);
    lemma_value(7, 1);
    lemma_value(3, 1);
}

/// No position is held beyond the longest time: after it, a part is closed, or all
/// of it where both parts have been.
pub proof fn law_no_position_is_held_too_long(
    side: PositionSide,
    exits: nat,
    f: Figures,
    price: Dec,
    atr: Extended,
    minutes: int,
)
    requires
        minutes > MAX_HOLDING_MINUTES,
    ensures
        !(decision_of(side, exits, f, price, atr, minutes) is Hold),
        exits >= 2 ==> decision_of(side, exits, f, price, atr, minutes) is FullClose,
{
}

/// The positions that are followed, by their numbers.
#[derive(Debug)]
pub struct AdvancedPositionManager {
    pub positions: Vec<(u128, ActivePosition)>,
}

/// A position as it is opened.
pub open spec fn opened(
    p: ActivePosition,
    entry_price: Dec,
    side: PositionSide,
    size: Dec,
    leverage: Dec,
    atr: Dec,
    now_ms: u64,
) -> bool {
    &&& p.entry_price == entry_price
    &&& p.entry_time_ms == now_ms
    &&& p.side == side
    &&& p.size == size
    &&& p.leverage == leverage
    &&& p.atr_at_entry == atr
    &&& p.peak_profit_pct == Extended::Finite(dec_of(0, 0))
    &&& p.lowest_profit_pct == Extended::Finite(dec_of(0, 0))
    &&& p.partial_exits@.len() == 0
}

impl AdvancedPositionManager {
    /// No number stands twice.
    pub open spec fn wf(&self) -> bool {
        distinct_keys(self.positions@)
    }

    /// The position with this number.
    pub open spec fn position(&self, id: u128) -> Option<ActivePosition> {
        value_of(self.positions@, id)
    }

    pub fn new() -> (r: AdvancedPositionManager)
        ensures
            r.wf(),
            forall|id: u128| #[trigger] r.position(id) is None,
    {
        AdvancedPositionManager { positions: Vec::new() }
    }

    /// Follows a position from now on, in place of any other with its number.
    pub fn open_position(
        &mut self,
        position_id: u128,
        entry_price: Dec,
        side: PositionSide,
        size: Dec,
        leverage: Dec,
        atr: Dec,
        now_ms: u64,
    )
        requires
            old(self).wf(),
        ensures
            final(self).wf(),
            final(self).position(position_id) matches Some(p) && opened(
                p,
                entry_price,
                side,
                size,
                leverage,
                atr,
                now_ms,
            ),
            forall|id: u128|
                id != position_id ==> #[trigger] final(self).position(id) == old(self).position(id),
    {
        let p = ActivePosition {
            entry_price,
            entry_time_ms: now_ms,
            side,
            size,
            leverage,
            atr_at_entry: atr,
            peak_profit_pct: Extended::Finite(Dec::new(0, 0)),
            lowest_profit_pct: Extended::Finite(Dec::new(0, 0)),
            partial_exits: Vec::new(),
        };
        match find_number(&self.positions, position_id) {
            Some(i) => {
                proof {
                    lemma_update(self.positions@, i as int, p);
                }
                self.positions.set(i, (position_id, p));
            },
            None => {
                proof {
                    lemma_push(self.positions@, position_id, p);
                }
                self.positions.push((position_id, p));
            },
        }
    }

    /// No longer follows a position.
    pub fn close_position(&mut self, position_id: u128)
        requires
            old(self).wf(),
        ensures
            final(self).wf(),
            final(self).position(position_id) is None,
            forall|id: u128|
                id != position_id ==> #[trigger] final(self).position(id) == old(self).position(id),
    {
        if let Some(i) = find_number(&self.positions, position_id) {
            proof {
                lemma_remove(self.positions@, i as int);
            }
            self.positions.remove(i);
        }
    }

    /// Decides on a position. `None` where a number cannot be held.
    pub fn evaluate(
        &mut self,
        position_id: u128,
        price: Dec,
        atr: Extended,
        now_ms: u64,
    ) -> (r: Option<PositionDecision>)
        requires
            old(self).wf(),
        ensures
            final(self).wf(),
            forall|id: u128|
                id != position_id ==> #[trigger] final(self).position(id) == old(self).position(id),
            match old(self).position(position_id) {
                None => r == Some(PositionDecision::NoPosition) && *final(self) == *old(self),
                Some(pos) => match figures_of(pos, price) {
                    None => r is None && final(self).position(position_id) == Some(pos),
                    Some(f) => {
                        &&& r == Some(
                            decision_of(
                                pos.side,
                                pos.partial_exits@.len(),
                                f,
                                price,
                                atr,
                                minutes_held(pos.entry_time_ms, now_ms),
                            ),
                        )
                        &&& final(self).position(position_id) matches Some(after) && evaluated(
                            pos,
                            after,
                            f,
                            r->0,
                            price,
                            now_ms,
                        )
                    },
                },
            },
    {
        match find_number(&self.positions, position_id) {
            None => Some(PositionDecision::NoPosition),
            Some(i) => {
                let ghost before = self.positions@;
                let d = self.positions[i].1.evaluate(price, atr, now_ms);
                proof {
                    let after = self.positions@[i as int].1;
                    assert(self.positions@ =~= before.update(i as int, (before[i as int].0, after)));
                    lemma_update(before, i as int, after);
                }
                d
            },
        }
    }
}

/// The limits at which a position is closed that nothing else closes.
#[derive(Clone, Copy, Debug)]
pub struct ExitLimits {
    pub tp_percent: Dec,
    pub sl_percent: Dec,
    pub commission_pct: Dec,
    pub atr_sl_multiplier: Dec,
    pub atr_tp_multiplier: Dec,
}

/// The limits that the settings ask for: the commission in percent is the fee for both
/// ways, of which a hundred basis points are one. None where it cannot be held.
pub fn exit_limits(config: &BotConfig) -> (r: Option<ExitLimits>)
    ensures
        r matches Some(l) ==> rounds_to(config.fee_bps_round_trip@, 100, l.commission_pct@),
        match quotient(config.fee_bps_round_trip, dec_of(100, 0)) {
            Some(commission_pct) => r == Some(
                ExitLimits {
                    tp_percent: config.tp_percent,
                    sl_percent: config.sl_percent,
                    commission_pct,
                    atr_sl_multiplier: config.atr_sl_multiplier,
                    atr_tp_multiplier: config.atr_tp_multiplier,
                },
            ),
            None => r is None,
        },
{
    match div_by(Some(config.fee_bps_round_trip), 100) {
        Some(commission_pct) => Some(
            ExitLimits {
                tp_percent: config.tp_percent,
                sl_percent: config.sl_percent,
                commission_pct,
                atr_sl_multiplier: config.atr_sl_multiplier,
                atr_tp_multiplier: config.atr_tp_multiplier,
            },
        ),
        None => None,
    }
}

/// What is known of a position that is followed.
#[derive(Debug)]
pub struct Followed {
    pub position_id: u128,
    pub side: PositionSide,
    pub entry_price: Dec,
    pub size: Dec,
    pub leverage: Dec,
    /// The average range of the price.
    pub atr: Extended,
    /// The last prices, the oldest first.
    pub prices: Vec<Dec>,
}

/// There is a position: it has a size, a price and a leverage.
pub open spec fn is_valid(p: Followed) -> bool {
    p.size@ > dec_of(2_220_446_049_250, 28)@ && p.entry_price@ > 0 && p.leverage@ > 0
}

/// Whether a multiple of the range was reached: the stop, or the target.
pub open spec fn range_exit(p: Followed, price: Dec, atr: Dec, lim: ExitLimits) -> Option<
    Option<CloseReason>,
> {
    let short = p.side == PositionSide::Short;
    match quotient(atr, p.entry_price) {
        None => None,
        Some(ratio) => match (
            range_price(p.entry_price, ratio, lim.atr_sl_multiplier, short),
            range_price(p.entry_price, ratio, lim.atr_tp_multiplier, !short),
        ) {
            (Some(stop), Some(target)) => Some(
                if stop_hit(p.side, price, stop) {
                    Some(CloseReason::RangeStop { stop, entry: p.entry_price })
                } else if if short {
                    price@ <= target@
                } else {
                    price@ >= target@
                } {
                    Some(CloseReason::RangeTarget { target, entry: p.entry_price })
                } else {
                    None
                },
            ),
            _ => None,
        },
    }
}

/// The steps that a price was found by.
proof fn lemma_range_price(
    entry: int,
    range: int,
    ratio: int,
    multiplier: int,
    above: bool,
    v: int,
)
    requires
        rounds_to(range * pow10(28), entry, ratio),
        exists|m: int, factor: int| #[trigger]
            rounds_to(multiplier * ratio, pow10(28), m) && rounds_to(
                if above {
                    dec_of(1, 0)@ + m
                } else {
                    dec_of(1, 0)@ - m
                },
                1,
                factor,
            ) && #[trigger] rounds_to(entry * factor, pow10(28), v),
    ensures
        is_away(entry, range, multiplier, above, v),
{
    lemma_powers();
    lemma_value(1, 0);
    let (m, factor) = choose|m: int, factor: int| #[trigger]
        rounds_to(multiplier * ratio, pow10(28), m) && rounds_to(
            if above {
                dec_of(1, 0)@ + m
            } else {
                dec_of(1, 0)@ - m
            },
            1,
            factor,
        ) && #[trigger] rounds_to(entry * factor, pow10(28), v);
    assert(away_by(entry, range, multiplier, above, ratio, m, factor, v));
}

fn find_range_exit(p: &Followed, price: Dec, atr: Dec, lim: &ExitLimits) -> (r: Option<
    Option<CloseReason>,
>)
    ensures
        r == range_exit(*p, price, atr, *lim),
        p.entry_price@ > 0 ==> (r matches Some(Some(x)) ==> reason_told(
            *p,
            price,
            Some(atr),
            *lim,
            x,
        )),
        p.entry_price@ > 0 ==> (r matches Some(None) ==> exists|stop: int, target: int|
            {
                &&& #[trigger] is_away(
                    p.entry_price@,
                    atr@,
                    lim.atr_sl_multiplier@,
                    p.side is Short,
                    stop,
                )
                &&& #[trigger] is_away(
                    p.entry_price@,
                    atr@,
                    lim.atr_tp_multiplier@,
                    p.side is Long,
                    target,
                )
                &&& p.side is Long ==> stop < price@ < target
                &&& p.side is Short ==> target < price@ < stop
            }),
{
    let short = match p.side {
        PositionSide::Short => true,
        PositionSide::Long => false,
    };
    let ratio = match atr.checked_div(&p.entry_price) {
        Some(x) => x,
        None => return None,
    };
    match (
        find_range_price(p.entry_price, ratio, lim.atr_sl_multiplier, short),
        find_range_price(p.entry_price, ratio, lim.atr_tp_multiplier, !short),
    ) {
        (Some(stop), Some(target)) => {
            proof {
                if p.entry_price@ > 0 {
                    lemma_range_price(p.entry_price@, atr@, ratio@, lim.atr_sl_multiplier@, short, stop@);
                    lemma_range_price(p.entry_price@, atr@, ratio@, lim.atr_tp_multiplier@, !short, target@);
                }
            }
            let sl_hit = if short {
                stop.le(&price)
            } else {
                price.le(&stop)
            };
            let tp_hit = if short {
                price.le(&target)
            } else {
                target.le(&price)
            };
            if sl_hit {
                Some(Some(CloseReason::RangeStop { stop, entry: p.entry_price }))
            } else if tp_hit {
                Some(Some(CloseReason::RangeTarget { target, entry: p.entry_price }))
            } else {
                Some(None)
            }
        },
        _ => None,
    }
}

/// The change of the price, as a share of the entry price, in the direction of a position.
pub open spec fn directed_change(p: Followed, price: Dec) -> Option<Dec> {
    match difference(price, p.entry_price) {
        None => None,
        Some(d) => match quotient(d, p.entry_price) {
            None => None,
            Some(q) => product(
                q,
                if p.side == PositionSide::Long {
                    dec_of(1, 0)
                } else {
                    dec_of(-1, 0)
                },
            ),
        },
    }
}

/// A share of the price in percent of the margin.
pub open spec fn times_hundred(share: Dec, leverage: Dec) -> Option<Dec> {
    match product(share, leverage) {
        Some(x) => product(x, dec_of(100, 0)),
        None => None,
    }
}

fn find_times_hundred(share: Dec, leverage: Dec) -> (r: Option<Dec>)
    ensures
        r == times_hundred(share, leverage),
        r matches Some(g) ==> (product(share, leverage) matches Some(x) && rounds_to(
            share@ * leverage@,
            pow10(28),
            x@,
        ) && rounds_to(x@ * dec_of(100, 0)@, pow10(28), g@)),
{
    match share.checked_mul(&leverage) {
        Some(x) => x.checked_mul(&Dec::new(100, 0)),
        None => None,
    }
}

/// Whether the return on the margin, without commission, reached a limit.
pub open spec fn return_exit(p: Followed, price: Dec, lim: ExitLimits) -> Option<
    Option<CloseReason>,
> {
    match directed_change(p, price) {
        None => None,
        Some(share) => match times_hundred(share, p.leverage) {
            None => None,
            Some(gross) => match difference(gross, lim.commission_pct) {
                None => None,
                Some(net) => Some(
                    if net@ >= lim.tp_percent@ || net@ <= -lim.sl_percent@ {
                        Some(CloseReason::ReturnLimit { net, gross, leverage: p.leverage })
                    } else {
                        None
                    },
                ),
            },
        },
    }
}

fn find_return_exit(p: &Followed, price: Dec, lim: &ExitLimits) -> (r: Option<Option<CloseReason>>)
    ensures
        r == return_exit(*p, price, *lim),
        p.entry_price@ > 0 ==> (r matches Some(Some(x)) ==> reason_told(*p, price, None, *lim, x)
            && x is ReturnLimit),
        p.entry_price@ > 0 ==> (r matches Some(None) ==> exists|gross: int, net: int| #[trigger]
            yields(*p, price, *lim, gross, net) && -lim.sl_percent@ < net < lim.tp_percent@),
{
    proof {
        lemma_powers();
        lemma_value(1, 0);
        lemma_value(-1, 0);
        lemma_value(100, 0);
    }
    let direction = match p.side {
        PositionSide::Long => Dec::new(1, 0),
        PositionSide::Short => Dec::new(-1, 0),
    };
    let d = match price.checked_sub(&p.entry_price) {
        None => return None,
        Some(d) => d,
    };
    let q = match d.checked_div(&p.entry_price) {
        None => return None,
        Some(q) => q,
    };
    let share = match q.checked_mul(&direction) {
        None => return None,
        Some(s) => s,
    };
    let gross = match find_times_hundred(share, p.leverage) {
        None => return None,
        Some(g) => g,
    };
    let after = gross.checked_sub(&lim.commission_pct);
    proof {
        if after is Some && p.entry_price@ > 0 {
            let x = product(share, p.leverage)->0@;
            let sign = sign_of(p.side);
            assert(direction@ == sign * one());
            lemma_times_whole(q@, sign, Some(share@));
            lemma_times_whole(x, 100, Some(gross@));
            assert(returns_by(
                price@ - p.entry_price@,
                p.entry_price@,
                sign,
                p.leverage@,
                lim.commission_pct@,
                d@,
                q@,
                share@,
                x,
                gross@,
                after->0@,
            ));
            assert(yields(*p, price, *lim, gross@, after->0@));
        }
    }
    match after {
        None => None,
        Some(net) => if lim.tp_percent.le(&net) || net.le(&lim.sl_percent.neg()) {
            Some(Some(CloseReason::ReturnLimit { net, gross, leverage: p.leverage }))
        } else {
            Some(None)
        },
    }
}

/// The steps to a return on the margin, with and without commission: the change of the price by the
/// entry price, with the sign of the position, times the leverage, times a hundred.
pub open spec fn returns_by(
    change: int,
    entry: int,
    sign: int,
    leverage: int,
    commission: int,
    c: int,
    q: int,
    share: int,
    x: int,
    gross: int,
    net: int,
) -> bool {
    &&& rounds_to(change, 1, c)
    &&& rounds_to(c * one(), entry, q)
    &&& rounds_to(q * sign, 1, share)
    &&& rounds_to(share * leverage, one(), x)
    &&& rounds_to(x * 100, 1, gross)
    &&& rounds_to(gross - commission, 1, net)
}

pub open spec fn sign_of(side: PositionSide) -> int {
    match side {
        PositionSide::Long => 1,
        PositionSide::Short => -1,
    }
}

/// `net` and `gross` are the returns on the margin of a position.
pub open spec fn yields(p: Followed, price: Dec, lim: ExitLimits, gross: int, net: int) -> bool {
    exists|c: int, q: int, share: int, x: int| #[trigger]
        returns_by(
            price@ - p.entry_price@,
            p.entry_price@,
            sign_of(p.side),
            p.leverage@,
            lim.commission_pct@,
            c,
            q,
            share,
            x,
            gross,
            net,
        )
}

/// What a reason to close a position says of it.
pub open spec fn reason_told(
    p: Followed,
    price: Dec,
    atr: Option<Dec>,
    lim: ExitLimits,
    reason: CloseReason,
) -> bool {
    match reason {
        CloseReason::RangeStop { stop, entry } => entry == p.entry_price && atr is Some && is_away(
            p.entry_price@,
            atr->0@,
            lim.atr_sl_multiplier@,
            p.side is Short,
            stop@,
        ) && (p.side is Long ==> price@ <= stop@) && (p.side is Short ==> price@ >= stop@),
        CloseReason::RangeTarget { target, entry } => entry == p.entry_price && atr is Some
            && is_away(
            p.entry_price@,
            atr->0@,
            lim.atr_tp_multiplier@,
            p.side is Long,
            target@,
        ) && (p.side is Long ==> price@ >= target@) && (p.side is Short ==> price@ <= target@),
        CloseReason::ReturnLimit { net, gross, leverage } => yields(
            p,
            price,
            lim,
            gross@,
            net@,
        ) && leverage == p.leverage && (net@ >= lim.tp_percent@ || net@ + lim.sl_percent@ <= 0),
        _ => false,
    }
}

/// No limit of a position is reached.
pub open spec fn none_reached(p: Followed, price: Dec, atr: Option<Dec>, lim: ExitLimits) -> bool {
    &&& exists|gross: int, net: int| #[trigger]
        yields(p, price, lim, gross, net) && -lim.sl_percent@ < net < lim.tp_percent@
    &&& atr matches Some(a) ==> (a@ > 0 ==> exists|stop: int, target: int|
        {
            &&& #[trigger] is_away(
                p.entry_price@,
                a@,
                lim.atr_sl_multiplier@,
                p.side is Short,
                stop,
            )
            &&& #[trigger] is_away(
                p.entry_price@,
                a@,
                lim.atr_tp_multiplier@,
                p.side is Long,
                target,
            )
            &&& p.side is Long ==> stop < price@ < target
            &&& p.side is Short ==> target < price@ < stop
        })
}

/// What the outcome of evaluating a position that is followed says of it.
pub open spec fn exit_told(
    p: Followed,
    price: Dec,
    atr: Option<Dec>,
    lim: ExitLimits,
    r: Option<CloseReason>,
) -> bool {
    if p.size@ <= 2_220_446_049_250 || p.entry_price@ <= 0 || p.leverage@ <= 0 {
        r is None
    } else {
        match r {
            Some(reason) => reason_told(p, price, atr, lim, reason),
            None => none_reached(p, price, atr, lim),
        }
    }
}

/// A position that is followed is closed only for a limit that it reached. A stop by the range is
/// on the losing side of the entry price and a target on the winning side; a return limit is
/// reached by what is left after commission; and a price that did not move against a position
/// has lost nothing but commission.
pub proof fn law_exits(
    p: Followed,
    price: Dec,
    atr: Option<Dec>,
    lim: ExitLimits,
    reason: CloseReason,
)
    requires
        exit_told(p, price, atr, lim, Some(reason)),
        p.entry_price.wf(),
        atr matches Some(a) ==> a@ >= 0,
        lim.atr_sl_multiplier@ > 0,
        lim.atr_tp_multiplier@ > 0,
    ensures
        p.size@ > 0 && p.entry_price@ > 0 && p.leverage@ > 0,
        reason matches CloseReason::RangeStop { stop, .. } ==> (p.side is Long ==> price@ <= stop@
            <= p.entry_price@) && (p.side is Short ==> price@ >= stop@ >= p.entry_price@),
        reason matches CloseReason::RangeTarget { target, .. } ==> (p.side is Long ==> price@
            >= target@ >= p.entry_price@) && (p.side is Short ==> price@ <= target@
            <= p.entry_price@),
        reason matches CloseReason::ReturnLimit { net, gross, .. } ==> {
            &&& net@ >= lim.tp_percent@ || net@ <= -lim.sl_percent@
            &&& rounds_to(gross@ - lim.commission_pct@, 1, net@)
            &&& favour(p.side, p.entry_price@, price@) >= 0 ==> gross@ >= 0
            &&& favour(p.side, p.entry_price@, price@) <= 0 ==> gross@ <= 0
        },
        reason is RangeStop || reason is RangeTarget || reason is ReturnLimit,
{
    lemma_bounds(p.entry_price);
    lemma_exact(p.entry_price.num(), p.entry_price.places(), 1);
    let entry = p.entry_price@;
    match reason {
        CloseReason::RangeStop { stop, .. } => {
            law_multiple_of_the_range(
                entry,
                atr->0@,
                lim.atr_sl_multiplier@,
                p.side is Short,
                stop@,
                0,
                0,
                0,
            );
        },
        CloseReason::RangeTarget { target, .. } => {
            law_multiple_of_the_range(
                entry,
                atr->0@,
                lim.atr_tp_multiplier@,
                p.side is Long,
                target@,
                0,
                0,
                0,
            );
        },
        CloseReason::ReturnLimit { net, gross, .. } => {
            law_returns(p, price, lim, gross@, net@, 0, 0);
        },
        _ => {},
    }
}

/// The return of a position on its margin has the sign of the change in its favour, and is a
/// hundred times the leverage times that change by the entry price where the steps can be held.
pub proof fn law_returns(
    p: Followed,
    price: Dec,
    lim: ExitLimits,
    gross: int,
    net: int,
    share: int,
    x: int,
)
    requires
        p.entry_price@ > 0,
        p.leverage@ > 0,
        yields(p, price, lim, gross, net),
    ensures
        favour(p.side, p.entry_price@, price@) >= 0 ==> gross >= 0,
        favour(p.side, p.entry_price@, price@) <= 0 ==> gross <= 0,
        rounds_to(gross - lim.commission_pct@, 1, net),
        can_be_held(favour(p.side, p.entry_price@, price@)) && can_be_held(share) && can_be_held(x)
            && can_be_held(100 * x) && share * p.entry_price@ == favour(
            p.side,
            p.entry_price@,
            price@,
        ) * one() && x * one() == share * p.leverage@ ==> gross == 100 * x,
{
    let entry = p.entry_price@;
    let change = price@ - entry;
    let good = favour(p.side, entry, price@);
    let sign = sign_of(p.side);
    let (c, q, s, y) = choose|c: int, q: int, s: int, y: int| #[trigger]
        returns_by(
            change,
            entry,
            sign,
            p.leverage@,
            lim.commission_pct@,
            c,
            q,
            s,
            y,
            gross,
            net,
        );
    lemma_sign(change, 1, c);
    lemma_sign(c * one(), entry, q);
    assert(q * sign == if p.side is Long {
        q
    } else {
        -q
    });
    lemma_sign(q * sign, 1, s);
    lemma_sign_of_product(s, p.leverage@);
    lemma_sign(s * p.leverage@, one(), y);
    lemma_sign(y * 100, 1, gross);
    if can_be_held(good) && can_be_held(share) && can_be_held(x) && can_be_held(100 * x) && share
        * entry == good * one() && x * one() == share * p.leverage@ {
        if p.side is Long {
            law_exact_is_kept(change, 1, c, change);
            law_exact_is_kept(c * one(), entry, q, share);
        } else {
            law_rounding_of_negative(good, 1, good);
            law_rounding_of_negative(share, 1, share);
            law_exact_is_kept(change, 1, c, change);
            assert((-share) * entry == -(share * entry)) by (nonlinear_arith);
            law_exact_is_kept(c * one(), entry, q, -share);
        }
        law_exact_is_kept(q * sign, 1, s, share);
        law_exact_is_kept(s * p.leverage@, one(), y, x);
        law_exact_is_kept(y * 100, 1, gross, 100 * x);
    }
}

/// Why a position is to be closed that is otherwise held. An inner `None` says that
/// it is not; an outer one that a number cannot be held.
pub open spec fn exit_of(p: Followed, price: Dec, atr: Option<Dec>, lim: ExitLimits) -> Option<
    Option<CloseReason>,
> {
    if !is_valid(p) {
        Some(None)
    } else if atr is Some && atr->0@ > 0 {
        match range_exit(p, price, atr->0, lim) {
            None => None,
            Some(Some(reason)) => Some(Some(reason)),
            Some(None) => return_exit(p, price, lim),
        }
    } else {
        return_exit(p, price, lim)
    }
}

/// Why a position is to be closed that is otherwise held.
pub fn evaluate_position(p: &Followed, price: Dec, atr: Option<Dec>, lim: &ExitLimits) -> (r:
    Option<Option<CloseReason>>)
    ensures
        r == exit_of(*p, price, atr, *lim),
        r matches Some(x) ==> exit_told(*p, price, atr, *lim, x),
{
    proof {
        lemma_powers();
        lemma_value(2_220_446_049_250, 28);
    }
    if p.size.le(&Dec::new(2_220_446_049_250, 28)) || !p.entry_price.is_positive()
        || !p.leverage.is_positive() {
        return Some(None);
    }
    if let Some(a) = atr {
        if a.is_positive() {
            match find_range_exit(p, price, a, lim) {
                None => return None,
                Some(Some(reason)) => return Some(Some(reason)),
                Some(None) => {},
            }
        }
    }
    find_return_exit(p, price, lim)
}

/// How much the price changed, as a share of the earlier one.
pub open spec fn change_between(a: Dec, b: Dec) -> Option<Extended> {
    match difference(b, a) {
        None => None,
        Some(d) => match extended_over(Extended::Finite(d), a) {
            Some(q) => Some(extended_abs(q)),
            None => None,
        },
    }
}

/// The sum of the first `n` changes.
pub open spec fn changes(prices: Seq<Dec>, n: nat) -> Option<Extended>
    decreases n,
{
    if n == 0 {
        Some(Extended::Finite(dec_of(0, 0)))
    } else {
        match (
            changes(prices, (n - 1) as nat),
            change_between(prices[n - 1], prices[n as int]),
        ) {
            (Some(s), Some(c)) => extended_sum(s, c),
            _ => None,
        }
    }
}

/// The average change between the prices, times the last price.
pub open spec fn estimated_range(prices: Seq<Dec>, price: Dec) -> Option<Extended> {
    let n = (prices.len() - 1) as nat;
    match changes(prices, n) {
        None => None,
        Some(total) => match extended_over(total, dec_of(n as int, 0)) {
            None => None,
            Some(average) => extended_times(average, price),
        },
    }
}

proof fn lemma_changes_stay_lost(prices: Seq<Dec>, k: nat, n: nat)
    requires
        k <= n,
        changes(prices, k) is None,
    ensures
        changes(prices, n) is None,
    decreases n,
{
    if k < n {
        lemma_changes_stay_lost(prices, k, (n - 1) as nat);
    }
}

/// The steps to a sum with one more change in it: without its sign, by the price before.
pub open spec fn move_by(a: int, b: int, s: int, c: int, q: int, t: int) -> bool {
    &&& rounds_to(b - a, 1, c)
    &&& rounds_to(c * one(), a, q)
    &&& rounds_to(
        s + if q < 0 {
            -q
        } else {
            q
        },
        1,
        t,
    )
}

/// `t` is what the first `n` changes come to.
pub open spec fn moves_sum(prices: Seq<Dec>, n: nat, t: int) -> bool
    decreases n,
{
    if n == 0 {
        t == 0
    } else {
        exists|s: int, c: int, q: int| #[trigger]
            move_by(prices[n - 1]@, prices[n as int]@, s, c, q, t) && moves_sum(
                prices,
                (n - 1) as nat,
                s,
            )
    }
}

/// The steps to a range: what the changes come to by how many they are, times the price.
pub open spec fn range_by(
    prices: Seq<Dec>,
    price: int,
    total: int,
    average: int,
    r: int,
) -> bool {
    let n = (prices.len() - 1) as nat;
    &&& moves_sum(prices, n, total)
    &&& rounds_to(total, n as int, average)
    &&& rounds_to(average * price, one(), r)
}

/// The range that prices above zero have.
pub open spec fn range_told(prices: Seq<Dec>, price: Dec, r: Extended) -> bool {
    prices.len() >= 2 && (forall|i: int| 0 <= i < prices.len() ==> (#[trigger] prices[i])@ > 0)
        ==> r is Finite && exists|total: int, average: int| #[trigger]
        range_by(prices, price@, total, average, r->Finite_0@)
}

/// What changes come to is not negative, and nothing where no price changed.
proof fn lemma_moves(prices: Seq<Dec>, n: nat, t: int)
    requires
        n < prices.len(),
        forall|i: int| 0 <= i < prices.len() ==> (#[trigger] prices[i])@ > 0,
        moves_sum(prices, n, t),
    ensures
        t >= 0,
        (forall|i: int| 0 <= i < prices.len() ==> (#[trigger] prices[i])@ == prices[0]@) ==> t == 0,
    decreases n,
{
    if n > 0 {
        let (s, c, q) = choose|s: int, c: int, q: int| #[trigger]
            move_by(prices[n - 1]@, prices[n as int]@, s, c, q, t) && moves_sum(
                prices,
                (n - 1) as nat,
                s,
            );
        lemma_moves(prices, (n - 1) as nat, s);
        lemma_sign(
            s + if q < 0 {
                -q
            } else {
                q
            },
            1,
            t,
        );
        lemma_zero_and_one();
        if forall|i: int| 0 <= i < prices.len() ==> (#[trigger] prices[i])@ == prices[0]@ {
            assert(prices[n - 1]@ == prices[n as int]@);
            law_exact_is_kept(prices[n as int]@ - prices[n - 1]@, 1, c, 0);
            law_exact_is_kept(c * one(), prices[n - 1]@, q, 0);
            law_exact_is_kept(0, 1, t, 0);
        }
    }
}

/// A range is not negative; there is none where no price changed; and between two prices it is the
/// change without its sign by the first, times the price, where the steps can be held.
pub proof fn law_estimated_range(prices: Seq<Dec>, price: Dec, r: Extended, share: int)
    requires
        range_told(prices, price, r),
        prices.len() >= 2,
        price@ > 0,
        forall|i: int| 0 <= i < prices.len() ==> (#[trigger] prices[i])@ > 0,
    ensures
        r is Finite && r->Finite_0@ >= 0,
        (forall|i: int| 0 <= i < prices.len() ==> (#[trigger] prices[i])@ == prices[0]@)
            ==> r->Finite_0@ == 0,
        prices.len() == 2 && prices[1]@ >= prices[0]@ && can_be_held(prices[1]@ - prices[0]@)
            && can_be_held(share) && share * prices[0]@ == (prices[1]@ - prices[0]@) * one()
            ==> rounds_to(share * price@, one(), r->Finite_0@),
{
    lemma_zero_and_one();
    let n = (prices.len() - 1) as nat;
    let v = r->Finite_0@;
    let (total, average) = choose|total: int, average: int| #[trigger]
        range_by(prices, price@, total, average, v);
    lemma_moves(prices, n, total);
    lemma_sign(total, n as int, average);
    lemma_sign_of_product(average, price@);
    lemma_sign(average * price@, one(), v);
    if forall|i: int| 0 <= i < prices.len() ==> (#[trigger] prices[i])@ == prices[0]@ {
        law_exact_is_kept(total, n as int, average, 0);
        law_exact_is_kept(average * price@, one(), v, 0);
    }
    if prices.len() == 2 && prices[1]@ >= prices[0]@ && can_be_held(prices[1]@ - prices[0]@)
        && can_be_held(share) && share * prices[0]@ == (prices[1]@ - prices[0]@) * one() {
        let (s, c, q) = choose|s: int, c: int, q: int| #[trigger]
            move_by(prices[n - 1]@, prices[n as int]@, s, c, q, total) && moves_sum(
                prices,
                (n - 1) as nat,
                s,
            );
        law_exact_is_kept(prices[1]@ - prices[0]@, 1, c, prices[1]@ - prices[0]@);
        law_exact_is_kept(c * one(), prices[0]@, q, share);
        lemma_sign(c * one(), prices[0]@, q);
        law_exact_is_kept(s + q, 1, total, share);
        law_exact_is_kept(total, 1, average, share);
    }
}

fn estimate_range(prices: &Vec<Dec>, price: Dec) -> (r: Option<Extended>)
    requires
        2 <= prices@.len() <= RANGE_PRICES,
    ensures
        r == estimated_range(prices@, price),
        r matches Some(x) ==> range_told(prices@, price, x),
{
    proof {
        lemma_powers();
        lemma_value(0, 0);
    }
    let n: usize = prices.len() - 1;
    let mut total = Extended::Finite(Dec::new(0, 0));
    let mut i: usize = 0;
    let ghost positive = forall|k: int|
        0 <= k < prices@.len() ==> (#[trigger] prices@[k])@ > 0;
    while i < n
        invariant
            i <= n,
            n == prices@.len() - 1,
            changes(prices@, i as nat) == Some(total),
            pow10(28) == one(),
            positive ==> forall|k: int| 0 <= k < prices@.len() ==> (#[trigger] prices@[k])@ > 0,
            positive ==> total is Finite && moves_sum(prices@, i as nat, total->Finite_0@),
        decreases n - i,
    {
        let ghost before = total;
        let difference = prices[i + 1].checked_sub(&prices[i]);
        let quotient = match difference {
            None => None,
            Some(d) => Extended::Finite(d).over(&prices[i]),
        };
        let change = match quotient {
            Some(q) => Some(q.abs()),
            None => None,
        };
        let next = match change {
            Some(c) => total.plus(&c),
            None => None,
        };
        match next {
            Some(t) => {
                proof {
                    if positive {
                        assert(prices@[i as int]@ > 0);
                        assert(move_by(
                            prices@[i as int]@,
                            prices@[i + 1]@,
                            before->Finite_0@,
                            difference->0@,
                            quotient->0->Finite_0@,
                            t->Finite_0@,
                        ));
                    }
                }
                total = t;
            },
            None => {
                proof {
                    assert(changes(prices@, (i + 1) as nat) is None);
                    lemma_changes_stay_lost(prices@, (i + 1) as nat, n as nat);
                }
                return None;
            },
        }
        i += 1;
    }
    match total.over(&Dec::new(n as i64, 0)) {
        None => None,
        Some(average) => {
            let r = average.times(&price);
            proof {
                if positive && r is Some {
                    lemma_value(n as int, 0);
                    law_rounding_scales(
                        total->Finite_0@,
                        n as int,
                        one(),
                        Some(average->Finite_0@),
                    );
                    assert(range_by(
                        prices@,
                        price@,
                        total->Finite_0@,
                        average->Finite_0@,
                        r->0->Finite_0@,
                    ));
                }
            }
            r
        },
    }
}

/// A request to close a position, or a share of it.
#[derive(Clone, Copy, Debug)]
pub struct CloseRequest {
    pub position_id: u128,
    pub reason: CloseReason,
    pub partial_close_percentage: Option<Dec>,
}

impl CloseRequest {
    /// Why it is made, in words; of a share, that it is one.
    pub open spec fn words(self) -> Seq<char> {
        match self.partial_close_percentage {
            Some(_) => "Partial: "@ + self.reason.words(),
            None => self.reason.words(),
        }
    }

    /// Why it is made, in words.
    pub fn text(&self) -> (r: String)
        ensures
            r@ == self.words(),
    {
        let reason = self.reason.text();
        match self.partial_close_percentage {
            Some(_) => joined("Partial: ", reason.as_str()),
            None => reason,
        }
    }
}

/// The positions that are followed, by their symbols.
#[derive(Debug)]
pub struct Follower {
    pub positions: Vec<(String, Followed)>,
    pub manager: AdvancedPositionManager,
}

/// The last prices with one more, and not more than are needed.
pub open spec fn with_last_price(prices: Seq<Dec>, price: Dec) -> Seq<Dec> {
    let longer = prices.push(price);
    if longer.len() > RANGE_PRICES {
        longer.skip(1)
    } else {
        longer
    }
}

/// The range of a symbol at a price: estimated from two prices on, and the one
/// that is known before.
pub open spec fn range_at(p: Followed, price: Dec) -> Option<Extended> {
    let prices = with_last_price(p.prices@, price);
    if prices.len() >= 2 {
        estimated_range(prices, price)
    } else {
        Some(p.atr)
    }
}

/// `after` is the same position with these prices and this range.
pub open spec fn moved_on(
    before: Followed,
    after: Followed,
    price: Dec,
    atr: Extended,
) -> bool {
    &&& after.position_id == before.position_id
    &&& after.side == before.side
    &&& after.entry_price == before.entry_price
    &&& after.size == before.size
    &&& after.leverage == before.leverage
    &&& after.prices@ == with_last_price(before.prices@, price)
    &&& after.atr == atr
}

/// What a decision asks for: to close all, or a share; where the position is held,
/// what its last limits ask for.
pub open spec fn request_of(
    p: Followed,
    d: PositionDecision,
    price: Dec,
    atr_at_entry: Option<Dec>,
    lim: ExitLimits,
) -> Option<Option<CloseRequest>> {
    let id = p.position_id;
    match d {
        PositionDecision::FullClose { reason } => Some(
            Some(CloseRequest { position_id: id, reason, partial_close_percentage: None }),
        ),
        PositionDecision::PartialClose { percentage, reason } => Some(
            Some(
                CloseRequest {
                    position_id: id,
                    reason,
                    partial_close_percentage: Some(percentage),
                },
            ),
        ),
        PositionDecision::Hold => match exit_of(p, price, atr_at_entry, lim) {
            None => None,
            Some(None) => Some(None),
            Some(Some(reason)) => Some(
                Some(CloseRequest { position_id: id, reason, partial_close_percentage: None }),
            ),
        },
        PositionDecision::NoPosition => Some(None),
    }
}

fn make_request(
    p: &Followed,
    d: PositionDecision,
    price: Dec,
    atr_at_entry: Option<Dec>,
    lim: &ExitLimits,
) -> (r: Option<Option<CloseRequest>>)
    ensures
        r == request_of(*p, d, price, atr_at_entry, *lim),
{
    let position_id: u128 = p.position_id;
    match d {
        PositionDecision::FullClose { reason } => Some(
            Some(CloseRequest { position_id, reason, partial_close_percentage: None }),
        ),
        PositionDecision::PartialClose { percentage, reason } => Some(
            Some(
                CloseRequest { position_id, reason, partial_close_percentage: Some(percentage) },
            ),
        ),
        PositionDecision::Hold => match evaluate_position(p, price, atr_at_entry, lim) {
            None => None,
            Some(None) => Some(None),
            Some(Some(reason)) => Some(
                Some(CloseRequest { position_id, reason, partial_close_percentage: None }),
            ),
        },
        PositionDecision::NoPosition => Some(None),
    }
}

impl Follower {
    /// No symbol and no number stands twice.
    pub open spec fn wf(&self) -> bool {
        distinct_keys(by_text(self.positions@)) && self.manager.wf() && forall|i: int|
            0 <= i < self.positions@.len() ==> (#[trigger] self.positions@[i]).1.prices@.len()
                <= RANGE_PRICES
    }

    /// The position that is followed for a symbol.
    pub open spec fn followed(&self, symbol: Seq<char>) -> Option<Followed> {
        value_of(by_text(self.positions@), symbol)
    }

    pub fn new() -> (r: Follower)
        ensures
            r.wf(),
            forall|s: Seq<char>| #[trigger] r.followed(s) is None,
            forall|id: u128| #[trigger] r.manager.position(id) is None,
    {
        Follower { positions: Vec::new(), manager: AdvancedPositionManager::new() }
    }

    /// Takes note of what happened to a position. One that is closed is no longer
    /// followed; the first update of a symbol begins it, and a later one replaces
    /// what is known of the position.
    pub fn on_position_update(
        &mut self,
        update: &PositionUpdate,
        position_id: u128,
        atr_at_entry: Option<Dec>,
        now_ms: u64,
    )
        requires
            old(self).wf(),
        ensures
            final(self).wf(),
            forall|s: Seq<char>|
                s != update.symbol@ ==> #[trigger] final(self).followed(s) == old(self).followed(s),
            forall|id: u128|
                id != position_id ==> #[trigger] final(self).manager.position(id) == old(
                    self,
                ).manager.position(id),
            if update.is_closed {
                &&& final(self).followed(update.symbol@) is None
                &&& final(self).manager.position(position_id) is None
            } else {
                &&& final(self).followed(update.symbol@) matches Some(p) && {
                    &&& p.position_id == position_id
                    &&& p.side == update.side
                    &&& p.entry_price == update.entry_price
                    &&& p.size == update.size
                    &&& p.leverage == update.leverage
                    &&& match old(self).followed(update.symbol@) {
                        Some(before) => {
                            &&& p.atr == before.atr
                            &&& p.prices@ == before.prices@
                            &&& final(self).manager == old(self).manager
                        },
                        None => {
                            &&& p.atr == Extended::Finite(atr_or_default(atr_at_entry))
                            &&& p.prices@.len() == 0
                            &&& final(self).manager.position(position_id) matches Some(pos)
                                && opened(
                                pos,
                                update.entry_price,
                                update.side,
                                update.size,
                                update.leverage,
                                atr_or_default(atr_at_entry),
                                now_ms,
                            )
                        },
                    }
                }
            },
    {
        let found = find_text(&self.positions, update.symbol.as_str());
        let ghost before = by_text(self.positions@);
        if update.is_closed {
            self.manager.close_position(position_id);
            if let Some(i) = found {
                proof {
                    lemma_remove(before, i as int);
                }
                self.positions.remove(i);
                assert(by_text(self.positions@) =~= before.remove(i as int));
            }
            return ;
        }
        match found {
            Some(i) => {
                let (symbol, old_entry) = self.positions.remove(i);
                let entry = Followed {
                    position_id,
                    side: update.side,
                    entry_price: update.entry_price,
                    size: update.size,
                    leverage: update.leverage,
                    atr: old_entry.atr,
                    prices: old_entry.prices,
                };
                proof {
                    lemma_update(before, i as int, entry);
                }
                self.positions.insert(i, (symbol, entry));
                assert(by_text(self.positions@) =~= before.update(
                    i as int,
                    (before[i as int].0, entry),
                ));
            },
            None => {
                let atr = match atr_at_entry {
                    Some(a) => a,
                    None => Dec::new(1, 2),
                };
                self.manager.open_position(
                    position_id,
                    update.entry_price,
                    update.side,
                    update.size,
                    update.leverage,
                    atr,
                    now_ms,
                );
                let entry = Followed {
                    position_id,
                    side: update.side,
                    entry_price: update.entry_price,
                    size: update.size,
                    leverage: update.leverage,
                    atr: Extended::Finite(atr),
                    prices: Vec::new(),
                };
                proof {
                    lemma_push(before, update.symbol@, entry);
                }
                self.positions.push((copy_of(update.symbol.as_str()), entry));
                assert(by_text(self.positions@) =~= before.push((update.symbol@, entry)));
            },
        }
    }

    /// Decides on the position in a symbol at a new price. An inner `None` asks for
    /// nothing; an outer one says that a number cannot be held.
    pub fn on_tick(
        &mut self,
        symbol: &str,
        price: Dec,
        atr_at_entry: Option<Dec>,
        lim: &ExitLimits,
        now_ms: u64,
    ) -> (r: Option<Option<CloseRequest>>)
        requires
            old(self).wf(),
        ensures
            final(self).wf(),
            forall|s: Seq<char>|
                s != symbol@ ==> #[trigger] final(self).followed(s) == old(self).followed(s),
            match old(self).followed(symbol@) {
                None => r == Some(None::<CloseRequest>) && *final(self) == *old(self),
                Some(p) => {
                    &&& forall|id: u128|
                        id != p.position_id ==> #[trigger] final(self).manager.position(id) == old(
                            self,
                        ).manager.position(id)
                    &&& final(self).followed(symbol@) matches Some(after) && match range_at(
                        p,
                        price,
                    ) {
                        None => moved_on(p, after, price, p.atr) && r is None
                            && final(self).manager == old(self).manager,
                        Some(atr) => moved_on(p, after, price, atr) && range_told(
                            after.prices@,
                            price,
                            atr,
                        ) && match old(
                            self,
                        ).manager.position(p.position_id) {
                            None => r == Some(None::<CloseRequest>) && final(self).manager == old(
                                self,
                            ).manager,
                            Some(pos) => match figures_of(pos, price) {
                                None => r is None && final(self).manager.position(p.position_id)
                                    == Some(pos),
                                Some(f) => {
                                    let d = decision_of(
                                        pos.side,
                                        pos.partial_exits@.len(),
                                        f,
                                        price,
                                        atr,
                                        minutes_held(pos.entry_time_ms, now_ms),
                                    );
                                    &&& r == request_of(after, d, price, atr_at_entry, *lim)
                                    &&& final(self).manager.position(p.position_id) matches Some(q)
                                        && evaluated(pos, q, f, d, price, now_ms)
                                },
                            },
                        },
                    }
                },
            },
    {
        let i: usize = match find_text(&self.positions, symbol) {
            Some(i) => i,
            None => return Some(None),
        };
        let ghost before = by_text(self.positions@);
        let ghost p = self.positions@[i as int].1;
        let (name, entry) = self.positions.remove(i);
        let mut prices = entry.prices;
        prices.push(price);
        if prices.len() > RANGE_PRICES {
            prices.remove(0);
            assert(prices@ =~= p.prices@.push(price).skip(1));
        }
        let range = if prices.len() >= 2 {
            estimate_range(&prices, price)
        } else {
            Some(entry.atr)
        };
        let position_id: u128 = entry.position_id;
        let moved = Followed {
            position_id,
            side: entry.side,
            entry_price: entry.entry_price,
            size: entry.size,
            leverage: entry.leverage,
            atr: match range {
                Some(a) => a,
                None => entry.atr,
            },
            prices,
        };
        let r = match range {
            None => None,
            Some(atr) => match self.manager.evaluate(position_id, price, atr, now_ms) {
                None => None,
                Some(d) => make_request(&moved, d, price, atr_at_entry, lim),
            },
        };
        proof {
            lemma_update(before, i as int, moved);
        }
        self.positions.insert(i, (name, moved));
        assert(by_text(self.positions@) =~= before.update(i as int, (before[i as int].0, moved)));
        r
    }
}

/// The range at the entry; a hundredth where it is not known.
pub open spec fn atr_or_default(atr: Option<Dec>) -> Dec {
    match atr {
        Some(a) => a,
        None => dec_of(1, 2),
    }
}

/// A request is for the position that was judged, with the reason that was found: for the share that
/// the decision names, and otherwise for all of it. A position that is held is closed only for a
/// limit of its own, and one that is not there is not.
pub proof fn law_requests(
    p: Followed,
    d: PositionDecision,
    price: Dec,
    atr_at_entry: Option<Dec>,
    lim: ExitLimits,
    q: CloseRequest,
)
    requires
        request_of(p, d, price, atr_at_entry, lim) == Some(Some(q)),
    ensures
        q.position_id == p.position_id,
        !(d is NoPosition),
        d matches PositionDecision::PartialClose { percentage, reason } ==> q.reason == reason
            && q.partial_close_percentage == Some(percentage),
        !(d is PartialClose) ==> q.partial_close_percentage is None,
        d matches PositionDecision::FullClose { reason } ==> q.reason == reason,
        d is Hold ==> exit_of(p, price, atr_at_entry, lim) == Some(Some(q.reason)),
{
}

/// The last fourteen prices are kept, the newest last; the oldest goes for a new one.
pub proof fn law_last_prices(prices: Seq<Dec>, price: Dec)
    requires
        prices.len() <= 14,
    ensures
        with_last_price(prices, price).len() <= 14,
        with_last_price(prices, price).last() == price,
        prices.len() < 14 ==> with_last_price(prices, price) == prices.push(price),
        prices.len() == 14 ==> with_last_price(prices, price) == prices.skip(1).push(price),
{
    if prices.len() == 14 {
        assert(with_last_price(prices, price) =~= prices.skip(1).push(price));
    }
}

/// A position is held for four hours at most, in whole minutes since the entry; and a range that is
/// not known counts as a hundredth.
pub proof fn law_holding_and_range(
    side: PositionSide,
    exits: nat,
    f: Figures,
    price: Dec,
    atr: Extended,
    minutes: int,
    entry_ms: u64,
    now_ms: u64,
)
    ensures
        minutes > 240 ==> !(decision_of(side, exits, f, price, atr, minutes) is Hold),
        100 * atr_or_default(None)@ == one(),
        now_ms >= entry_ms ==> 60_000 * minutes_held(entry_ms, now_ms) <= now_ms - entry_ms < 60_000
            * minutes_held(entry_ms, now_ms) + 60_000,
        now_ms < entry_ms ==> minutes_held(entry_ms, now_ms) == 0,
{
    lemma_powers();
    lemma_value(1, 2);
}

} // verus!
