//! Whether a trade is worth making: what it earns after fees, against what it may lose.
use vstd::prelude::*;

use crate::arith::{
    add_opt, div_by, div_opt, higher, lit, lower, max_opt, min_opt, minus, mul_by, mul_opt, number, over, plus,
    sub_opt, times,
};
use crate::decimal::{lemma_powers, lemma_value, one, pow10, value_of, Dec};
use crate::quant::{abs_dec, abs_of};
use crate::rounding::{
    is_close, law_rounding_above, law_rounding_is_close, law_rounding_is_unique, lemma_zero_and_one, precision, rounded,
    rounds_to,
};
use crate::text::copy_of;

verus! {

/// What the ask is above the bid, in parts of the bid: ten thousand of them make the bid.
pub open spec fn spread_of(bid: Dec, ask: Dec) -> Option<Dec> {
    if bid@ <= 0 || ask@ <= bid@ {
        lit(0, 0)
    } else {
        times(over(minus(Some(ask), Some(bid)), Some(bid)), lit(10000, 0))
    }
}

/// The spread between two prices in basis points. Zero where a price is not above zero, or
/// the ask is not above the bid. `None` where a number cannot be held.
pub fn calculate_spread_bps(bid: Dec, ask: Dec) -> (r: Option<Dec>)
    ensures
        r == spread_of(bid, ask),
        bid@ <= 0 || ask@ <= bid@ ==> (r matches Some(v) && v@ == 0),
        bid@ > 0 && ask@ > bid@ ==> (r matches Some(v) ==> spread_found(bid@, ask@, v@)),
{
    proof {
        lemma_value(0, 0);
    }
    if !bid.is_positive() || ask.le(&bid) {
        return number(0, 0);
    }
    let gap = sub_opt(Some(ask), Some(bid));
    let share = div_opt(gap, Some(bid));
    let r = mul_by(share, 10000);
    proof {
        if r is Some {
            assert(spreads(bid@, ask@, gap->0@, share->0@, r->0@));
        }
    }
    r
}

/// `v` is the spread between two prices: ten thousand times what the gap is of the bid.
pub open spec fn spreads(bid: int, ask: int, gap: int, share: int, v: int) -> bool {
    &&& rounds_to(ask - bid, 1, gap)
    &&& rounds_to(gap * pow10(28), bid, share)
    &&& rounds_to(share * 10000, 1, v)
}

pub open spec fn spread_found(bid: int, ask: int, v: int) -> bool {
    exists|gap: int, share: int| #[trigger] spreads(bid, ask, gap, share, v)
}

/// A spread in basis points is ten thousand times the gap by the bid, up to rounding.
pub proof fn law_spread(bid: Dec, ask: Dec, v: Dec)
    requires
        bid@ > 0,
        ask@ > bid@,
        spread_found(bid@, ask@, v@),
    ensures
        ({
            let gap = (ask@ - bid@) * one();
            let lost = 100_000 * (precision() * (bid@ + one()) + gap);
            -lost <= 2 * precision() * (v@ * bid@ - 10000 * gap) <= lost
        }),
        v@ >= 0,
{
    let b = bid@;
    let d = ask@ - b;
    let (gap, share) = choose|gap: int, share: int| #[trigger] spreads(b, ask@, gap, share, v@);
    lemma_powers();
    lemma_zero_and_one();
    law_rounding_above(d, 1, gap, 0);
    law_rounding_above(gap * one(), b, share, 0);
    law_rounding_above(share * 10000, 1, v@, 0);
    law_rounding_is_close(d, 1, gap);
    law_rounding_is_close(gap * one(), b, share);
    law_rounding_is_close(share * 10000, 1, v@);
    lemma_scaled(d, gap, one());
    lemma_scaled(share * 10000, v@, b);
    let a = share * b;
    assert((share * 10000) * b == 10000 * a && a >= 0) by (nonlinear_arith)
        requires
            a == share * b,
            share >= 0,
            b > 0,
    ;
}

/// What a trade has to earn, and what its orders cost.
#[derive(Clone, Copy, Debug)]
pub struct ProfitGuarantee {
    pub min_profit_usd: Dec,
    pub maker_fee_rate: Dec,
    pub taker_fee_rate: Dec,
}

/// The fees of a trade that is opened by the maker's order and closed by the taker's.
pub open spec fn trade_fees(g: ProfitGuarantee) -> Option<Dec> {
    plus(Some(g.maker_fee_rate), Some(g.taker_fee_rate))
}

/// A rate in basis points.
pub open spec fn rate_in_bps(rate: Option<Dec>) -> Option<Dec> {
    times(rate, lit(10000, 0))
}

/// The least spread at which a position earns half a dollar, pays the taker's fee and
/// leaves five basis points.
pub open spec fn min_spread_of(g: ProfitGuarantee, position: Dec) -> Option<Dec> {
    if position@ <= 0 {
        lit(0, 0)
    } else {
        plus(
            plus(
                rate_in_bps(over(lit(5, 1), Some(position))),
                rate_in_bps(Some(g.taker_fee_rate)),
            ),
            lit(5, 0),
        )
    }
}

/// The least spread at which a position earns the profit that is asked for after its fees.
pub open spec fn break_even_of(g: ProfitGuarantee, position: Dec) -> Option<Dec> {
    plus(
        rate_in_bps(over(Some(g.min_profit_usd), Some(position))),
        rate_in_bps(trade_fees(g)),
    )
}

/// What a position earns at a spread, after fees.
pub open spec fn expected_profit_of(g: ProfitGuarantee, spread_bps: Dec, position: Dec) -> Option<
    Dec,
> {
    if position@ <= 0 {
        lit(0, 0)
    } else {
        minus(
            times(Some(position), over(Some(spread_bps), lit(10000, 0))),
            times(Some(position), trade_fees(g)),
        )
    }
}

/// What is left of a spread after fees, as a part of the position.
pub open spec fn net_spread_of(g: ProfitGuarantee, spread_bps: Dec) -> Option<Dec> {
    minus(over(Some(spread_bps), lit(10000, 0)), trade_fees(g))
}

/// What a position earns for each dollar that it may lose.
pub open spec fn reward_of(
    g: ProfitGuarantee,
    spread_bps: Dec,
    position: Dec,
    max_loss: Dec,
) -> Option<Dec> {
    if position@ <= 0 || max_loss@ <= 0 {
        lit(0, 0)
    } else {
        over(
            expected_profit_of(g, spread_bps, position),
            times(Some(position), Some(max_loss)),
        )
    }
}

/// `least` is the least spread of a position of `p` units: its parts are the share of the
/// position that the profit is, in basis points, and the fees.
pub open spec fn needs(
    g: ProfitGuarantee,
    p: int,
    share: int,
    target: int,
    fees: int,
    costs: int,
    least: int,
) -> bool {
    &&& rounds_to(g.min_profit_usd@ * pow10(28), p, share)
    &&& rounds_to(share * 10000, 1, target)
    &&& rounds_to(g.maker_fee_rate@ + g.taker_fee_rate@, 1, fees)
    &&& rounds_to(fees * 10000, 1, costs)
    &&& rounds_to(target + costs, 1, least)
}

/// A trade was judged by the least spread that it needs.
pub open spec fn judged(g: ProfitGuarantee, spread_bps: Dec, position: Dec, r: bool) -> bool {
    &&& position@ <= 0 ==> !r
    &&& position@ > 0 && (r || break_even_of(g, position) is Some) ==> exists|
        share: int,
        target: int,
        fees: int,
        costs: int,
        least: int,
    | #[trigger]
        needs(g, position@, share, target, fees, costs, least) && (r <==> spread_bps@ >= least)
}

/// `e` is what a position of `p` units earns: the spread as a rate of it, without the fees.
pub open spec fn earns(
    g: ProfitGuarantee,
    s: int,
    p: int,
    rate: int,
    gross: int,
    fees: int,
    costs: int,
    e: int,
) -> bool {
    &&& rounds_to(s, 10000, rate)
    &&& rounds_to(p * rate, pow10(28), gross)
    &&& rounds_to(g.maker_fee_rate@ + g.taker_fee_rate@, 1, fees)
    &&& rounds_to(p * fees, pow10(28), costs)
    &&& rounds_to(gross - costs, 1, e)
}

pub open spec fn expected(g: ProfitGuarantee, s: int, p: int, e: int) -> bool {
    exists|rate: int, gross: int, fees: int, costs: int| #[trigger]
        earns(g, s, p, rate, gross, fees, costs, e)
}

/// A trade that is called profitable earns what is asked for: its spread pays the profit and
/// the fees of both orders. One that is not called so does not earn more. Both hold up to what
/// is lost to rounding, which is below one part in ten to the 22nd.
pub proof fn law_profitable_trades_pay(
    g: ProfitGuarantee,
    spread_bps: Dec,
    position: Dec,
    r: bool,
)
    requires
        judged(g, spread_bps, position, r),
        position@ > 0,
        g.min_profit_usd@ >= 0,
        g.maker_fee_rate@ >= 0,
        g.taker_fee_rate@ >= 0,
    ensures
        ({
            // The profit and the fees, in units of 10^-56 dollars.
            let asked = g.min_profit_usd@ * one() + (g.maker_fee_rate@ + g.taker_fee_rate@)
                * position@;
            let lost = 100_000 * (precision() * position@ + asked);
            &&& r ==> 2 * precision() * (spread_bps@ * position@) + lost >= 2 * precision() * (10000
                * asked)
            &&& !r && break_even_of(g, position) is Some ==> 2 * precision() * (spread_bps@
                * position@) <= 2 * precision() * (10000 * asked) + lost
        }),
{
    if r || break_even_of(g, position) is Some {
        let (share, target, fees, costs, least) = choose|
            share: int,
            target: int,
            fees: int,
            costs: int,
            least: int,
        | #[trigger]
            needs(g, position@, share, target, fees, costs, least) && (r <==> spread_bps@ >= least);
        lemma_needed_spread(g, position@, share, target, fees, costs, least);
        let s = spread_bps@;
        let p = position@;
        assert((s >= least ==> s * p >= least * p) && (s <= least ==> s * p <= least * p))
            by (nonlinear_arith)
            requires
                p > 0,
        ;
        let k = precision();
        let asked = g.min_profit_usd@ * one() + (g.maker_fee_rate@ + g.taker_fee_rate@) * p;
        let c = 10000 * asked;
        let sp = s * p;
        let lp = least * p;
        assert(2 * k * (lp - c) == 2 * k * lp - 2 * k * c) by (nonlinear_arith);
        assert((sp >= lp ==> 2 * k * sp >= 2 * k * lp) && (sp <= lp ==> 2 * k * sp <= 2 * k * lp))
            by (nonlinear_arith)
            requires
                k > 0,
        ;
    }
}

/// The least spread of a position pays the profit and the fees, up to rounding.
proof fn lemma_needed_spread(
    g: ProfitGuarantee,
    p: int,
    share: int,
    target: int,
    fees: int,
    costs: int,
    least: int,
)
    requires
        needs(g, p, share, target, fees, costs, least),
        p > 0,
        g.min_profit_usd@ >= 0,
        g.maker_fee_rate@ >= 0,
        g.taker_fee_rate@ >= 0,
    ensures
        ({
            let asked = g.min_profit_usd@ * one() + (g.maker_fee_rate@ + g.taker_fee_rate@) * p;
            let lost = 100_000 * (precision() * p + asked);
            -lost <= 2 * precision() * (least * p - 10000 * asked) <= lost
        }),
{
    lemma_powers();
    lemma_zero_and_one();
    let k = precision();
    let m = g.min_profit_usd@ * one();
    let rate = g.maker_fee_rate@ + g.taker_fee_rate@;
    law_rounding_above(m, p, share, 0);
    law_rounding_above(share * 10000, 1, target, 0);
    law_rounding_above(rate, 1, fees, 0);
    law_rounding_above(fees * 10000, 1, costs, 0);
    law_rounding_is_close(m, p, share);
    law_rounding_is_close(share * 10000, 1, target);
    law_rounding_is_close(rate, 1, fees);
    law_rounding_is_close(fees * 10000, 1, costs);
    law_rounding_is_close(target + costs, 1, least);
    let a = share * p;
    let t = target * p;
    let f = fees * p;
    let c = costs * p;
    let l = least * p;
    let x = rate * p;
    lemma_scaled(share * 10000, target, p);
    lemma_scaled(rate, fees, p);
    lemma_scaled(fees * 10000, costs, p);
    lemma_scaled(target + costs, least, p);
    assert((share * 10000) * p == 10000 * a && (fees * 10000) * p == 10000 * f && (target + costs)
        * p == t + c) by (nonlinear_arith)
        requires
            a == share * p,
            f == fees * p,
            t == target * p,
            c == costs * p,
    ;
    assert(a >= 0 && f >= 0 && t >= 0 && c >= 0 && x >= 0) by (nonlinear_arith)
        requires
            a == share * p,
            f == fees * p,
            t == target * p,
            c == costs * p,
            x == rate * p,
            share >= 0,
            fees >= 0,
            target >= 0,
            costs >= 0,
            rate >= 0,
            p > 0,
    ;
}

/// A number that is close stays close when both sides are multiplied.
proof fn lemma_scaled(n: int, v: int, p: int)
    requires
        is_close(n, 1, v),
        n >= 0,
        p > 0,
    ensures
        -(precision() * p + n * p) <= 2 * precision() * (v * p - n * p) <= precision() * p + n * p,
{
    let k = precision();
    assert(-(k * p + n * p) <= 2 * k * (v * p - n * p) <= k * p + n * p) by (nonlinear_arith)
        requires
            -(k * 1 + n) <= 2 * k * (v * 1 - n) <= k * 1 + n,
            p > 0,
    ;
}

/// `v` is what is expected to be earned for each unit of what may be lost: the position times
/// the share of it that may be.
pub open spec fn rewards_by(
    g: ProfitGuarantee,
    s: int,
    p: int,
    max_loss: int,
    earned: int,
    risk: int,
    v: int,
) -> bool {
    &&& expected(g, s, p, earned)
    &&& rounds_to(p * max_loss, pow10(28), risk)
    &&& risk > 0
    &&& rounds_to(earned * pow10(28), risk, v)
}

pub open spec fn rewards(g: ProfitGuarantee, s: int, p: int, max_loss: int, v: int) -> bool {
    exists|earned: int, risk: int| #[trigger] rewards_by(g, s, p, max_loss, earned, risk, v)
}

/// `v` is the size of a position: what the profit is of the spread that is left after fees,
/// between the smallest and the largest size.
pub open spec fn sizes(
    g: ProfitGuarantee,
    s: int,
    min: int,
    max: int,
    rate: int,
    fees: int,
    net: int,
    exact: int,
    v: int,
) -> bool {
    &&& rounds_to(s, 10000, rate)
    &&& rounds_to(g.maker_fee_rate@ + g.taker_fee_rate@, 1, fees)
    &&& rounds_to(rate - fees, 1, net)
    &&& net <= 0 ==> v == min
    &&& net > 0 ==> rounds_to(g.min_profit_usd@ * pow10(28), net, exact)
    &&& net > 0 ==> v == if exact > max && min > max || exact >= max {
        max
    } else if exact < min {
        if min > max {
            max
        } else {
            min
        }
    } else {
        exact
    }
}

pub open spec fn sized(g: ProfitGuarantee, s: int, min: int, max: int, v: int) -> bool {
    exists|rate: int, fees: int, net: int, exact: int| #[trigger]
        sizes(g, s, min, max, rate, fees, net, exact, v)
}

/// A position is never smaller than the smallest nor larger than the largest size. It is the
/// smallest where the spread does not pay the fees. Between the two it earns the profit that is
/// asked for: its size times the spread that is left is that profit, up to rounding.
pub proof fn law_optimal_position_size(
    g: ProfitGuarantee,
    spread_bps: Dec,
    min: Dec,
    max: Dec,
    v: Dec,
    net: int,
)
    requires
        min@ <= max@,
        g.min_profit_usd@ >= 0,
        sized(g, spread_bps@, min@, max@, v@),
    ensures
        min@ <= v@ <= max@,
        left_after_fees(g, spread_bps@, net) && net <= 0 ==> v@ == min@,
        left_after_fees(g, spread_bps@, net) && net > 0 && min@ < v@ < max@ ==> is_close(
            g.min_profit_usd@ * one(),
            net,
            v@,
        ),
{
    let s = spread_bps@;
    let fee = g.maker_fee_rate@ + g.taker_fee_rate@;
    let (rate, fees, w, exact) = choose|rate: int, fees: int, w: int, exact: int|
        #[trigger] sizes(g, s, min@, max@, rate, fees, w, exact, v@);
    lemma_powers();
    if left_after_fees(g, s, net) {
        let (rate2, fees2) = choose|rate2: int, fees2: int| #[trigger]
            leaves(g, s, rate2, fees2, net);
        law_rounding_is_unique(s, 10000, rate, s, 10000, rate2);
        law_rounding_is_unique(fee, 1, fees, fee, 1, fees2);
        law_rounding_is_unique(rate - fees, 1, w, rate - fees, 1, net);
    }
    if w > 0 {
        law_rounding_is_close(g.min_profit_usd@ * one(), w, exact);
    }
}

/// `net` is what is left of a spread, as a rate, after the fees.
pub open spec fn leaves(g: ProfitGuarantee, s: int, rate: int, fees: int, net: int) -> bool {
    &&& rounds_to(s, 10000, rate)
    &&& rounds_to(g.maker_fee_rate@ + g.taker_fee_rate@, 1, fees)
    &&& rounds_to(rate - fees, 1, net)
}

pub open spec fn left_after_fees(g: ProfitGuarantee, s: int, net: int) -> bool {
    exists|rate: int, fees: int| #[trigger] leaves(g, s, rate, fees, net)
}

/// The least spread worth quoting, from its parts.
pub open spec fn min_spread_parts(
    g: ProfitGuarantee,
    p: int,
    share: int,
    target: int,
    fee: int,
    paid: int,
    v: int,
) -> bool {
    &&& rounds_to(5_000_000_000_000_000_000_000_000_000 * pow10(28), p, share)
    &&& rounds_to(share * 10000, 1, target)
    &&& rounds_to(g.taker_fee_rate@ * 10000, 1, fee)
    &&& rounds_to(target + fee, 1, paid)
    &&& rounds_to(paid + 5 * one(), 1, v)
}

pub open spec fn min_spread_found(g: ProfitGuarantee, p: int, v: int) -> bool {
    exists|share: int, target: int, fee: int, paid: int| #[trigger]
        min_spread_parts(g, p, share, target, fee, paid, v)
}

/// At the least spread worth quoting a position earns half a dollar, the taker's fee and five
/// basis points, up to rounding.
pub proof fn law_min_spread_earns_half_a_dollar(g: ProfitGuarantee, position: Dec, v: Dec)
    requires
        position@ > 0,
        g.taker_fee_rate@ >= 0,
        min_spread_found(g, position@, v@),
    ensures
        ({
            let p = position@;
            let earned = 5_000_000_000_000_000_000_000_000_000 * one() + g.taker_fee_rate@ * p;
            let margin = 5 * (p * one());
            let lost = 100_000 * (precision() * p + earned + margin);
            -lost <= 2 * precision() * (v@ * p - (10000 * earned + margin)) <= lost
        }),
{
    let p = position@;
    let (share, target, fee, paid) = choose|share: int, target: int, fee: int, paid: int|
        #[trigger] min_spread_parts(g, p, share, target, fee, paid, v@);
    lemma_powers();
    lemma_zero_and_one();
    let half = 5_000_000_000_000_000_000_000_000_000 * one();
    let rate = g.taker_fee_rate@;
    law_rounding_above(half, p, share, 0);
    law_rounding_above(share * 10000, 1, target, 0);
    law_rounding_above(rate * 10000, 1, fee, 0);
    law_rounding_above(target + fee, 1, paid, 0);
    law_rounding_is_close(half, p, share);
    law_rounding_is_close(share * 10000, 1, target);
    law_rounding_is_close(rate * 10000, 1, fee);
    law_rounding_is_close(target + fee, 1, paid);
    law_rounding_is_close(paid + 5 * one(), 1, v@);
    let a = share * p;
    let t = target * p;
    let f = fee * p;
    let c = paid * p;
    let x = rate * p;
    let o = p * one();
    lemma_scaled(share * 10000, target, p);
    lemma_scaled(rate * 10000, fee, p);
    lemma_scaled(target + fee, paid, p);
    lemma_scaled(paid + 5 * one(), v@, p);
    assert((share * 10000) * p == 10000 * a && (rate * 10000) * p == 10000 * x && (target + fee) * p
        == t + f && (paid + 5 * one()) * p == c + 5 * o) by (nonlinear_arith)
        requires
            a == share * p,
            x == rate * p,
            t == target * p,
            f == fee * p,
            c == paid * p,
            o == p * one(),
    ;
    assert(a >= 0 && f >= 0 && t >= 0 && c >= 0 && x >= 0 && o >= 0) by (nonlinear_arith)
        requires
            a == share * p,
            f == fee * p,
            t == target * p,
            c == paid * p,
            x == rate * p,
            o == p * one(),
            one() > 0,
            share >= 0,
            fee >= 0,
            target >= 0,
            paid >= 0,
            rate >= 0,
            p > 0,
    ;
}

/// A trade is made only where its spread is wide enough, it earns what is asked for, and it
/// earns enough for what it may lose; and it is made where all of that holds. The reason names
/// the first that fails.
pub proof fn law_reasons_of_a_trade(
    spread_bps: Dec,
    position: Dec,
    min_spread_bps: Dec,
    stop_loss: Dec,
    min_reward: Dec,
    g: ProfitGuarantee,
)
    ensures
        ({
            let reason = trade_reason(
                spread_bps,
                position,
                min_spread_bps,
                stop_loss,
                min_reward,
                g,
            );
            let wide = spread_bps@ >= min_spread_bps@;
            let pays = position@ > 0 && (break_even_of(g, position) matches Some(least) && least@
                <= spread_bps@);
            let rewarded = reward_of(g, spread_bps, position, abs_of(stop_loss)) matches Some(reward)
                && reward@ >= min_reward@;
            &&& reason == "ok"@ <==> wide && pays && rewarded
            &&& reason == "spread_below_minimum"@ <==> !wide
            &&& reason == "not_profitable_after_fees"@ <==> wide && !pays
            &&& reason == "risk_reward_too_low"@ <==> wide && pays && !rewarded
        }),
{
    reveal_strlit("ok");
    reveal_strlit("spread_below_minimum");
    reveal_strlit("not_profitable_after_fees");
    reveal_strlit("risk_reward_too_low");
    assert("ok"@.len() == 2);
    assert("spread_below_minimum"@.len() == 20);
    assert("not_profitable_after_fees"@.len() == 25);
    assert("risk_reward_too_low"@.len() == 19);
}

/// What a position is expected to earn is what its spread pays, without the fees of both
/// orders, up to rounding.
pub proof fn law_expected_profit(g: ProfitGuarantee, spread_bps: Dec, position: Dec, e: Dec)
    requires
        position@ > 0,
        spread_bps@ >= 0,
        g.maker_fee_rate@ + g.taker_fee_rate@ >= 0,
        expected(g, spread_bps@, position@, e@),
    ensures
        ({
            let gross = spread_bps@ * position@;
            let costs = (g.maker_fee_rate@ + g.taker_fee_rate@) * position@;
            let lost = 100_000 * (precision() * (position@ + one()) + gross + costs);
            -lost <= 2 * precision() * (10000 * (e@ * one()) - (gross - 10000 * costs)) <= lost
        }),
{
    let s = spread_bps@;
    let p = position@;
    let (rate, gross, fees, costs) = choose|rate: int, gross: int, fees: int, costs: int|
        #[trigger] earns(g, s, p, rate, gross, fees, costs, e@);
    let total = g.maker_fee_rate@ + g.taker_fee_rate@;
    lemma_powers();
    lemma_zero_and_one();
    law_rounding_above(s, 10000, rate, 0);
    law_rounding_above(total, 1, fees, 0);
    law_rounding_is_close(s, 10000, rate);
    law_rounding_is_close(p * rate, one(), gross);
    law_rounding_is_close(total, 1, fees);
    law_rounding_is_close(p * fees, one(), costs);
    law_rounding_is_close(gross - costs, 1, e@);
    let k = precision();
    let pr = p * rate;
    let pf = p * fees;
    assert(pr >= 0 && pf >= 0) by (nonlinear_arith)
        requires
            pr == p * rate,
            pf == p * fees,
            p > 0,
            rate >= 0,
            fees >= 0,
    ;
    assert(-(10000 * (k * p) + s * p) <= 2 * k * (10000 * pr - s * p) <= 10000 * (k * p) + s * p)
        by (nonlinear_arith)
        requires
            -(k * 10000 + s) <= 2 * k * (rate * 10000 - s) <= k * 10000 + s,
            pr == p * rate,
            p > 0,
    ;
    lemma_scaled(total, fees, p);
    assert(fees * p == pf) by (nonlinear_arith)
        requires
            pf == p * fees,
    ;
    assert(s * p >= 0 && total * p >= 0) by (nonlinear_arith)
        requires
            s >= 0,
            total >= 0,
            p > 0,
    ;
}

impl ProfitGuarantee {
    pub fn new(min_profit_usd: Dec, maker_fee_rate: Dec, taker_fee_rate: Dec) -> (r: ProfitGuarantee)
        ensures
            r == (ProfitGuarantee { min_profit_usd, maker_fee_rate, taker_fee_rate }),
    {
        ProfitGuarantee { min_profit_usd, maker_fee_rate, taker_fee_rate }
    }

    /// The least spread at which a position of this many dollars is worth quoting, in basis
    /// points. Zero without a position; `None` where a number cannot be held.
    pub fn calculate_min_spread_bps(&self, position: Dec) -> (r: Option<Dec>)
        ensures
            r == min_spread_of(*self, position),
            position@ <= 0 ==> (r matches Some(v) && v@ == 0),
            position@ > 0 ==> (r matches Some(v) ==> min_spread_found(*self, position@, v@)),
    {
        proof {
            lemma_value(0, 0);
            lemma_value(5, 1);
            lemma_value(5, 0);
            lemma_powers();
        }
        if !position.is_positive() {
            return number(0, 0);
        }
        let share = div_opt(number(5, 1), Some(position));
        let target = mul_by(share, 10000);
        let fee = mul_by(Some(self.taker_fee_rate), 10000);
        let paid = add_opt(target, fee);
        let r = add_opt(paid, number(5, 0));
        proof {
            if r is Some {
                assert(min_spread_parts(
                    *self,
                    position@,
                    share->0@,
                    target->0@,
                    fee->0@,
                    paid->0@,
                    r->0@,
                ));
            }
        }
        r
    }

    fn fees(&self) -> (r: Option<Dec>)
        ensures
            r == trade_fees(*self),
            rounded(value_of(r), self.maker_fee_rate@ + self.taker_fee_rate@, 1),
    {
        add_opt(Some(self.maker_fee_rate), Some(self.taker_fee_rate))
    }

    /// Whether a spread earns the profit that is asked for. It does not without a position,
    /// or where a number cannot be held.
    pub fn is_trade_profitable(&self, spread_bps: Dec, position: Dec) -> (r: bool)
        ensures
            r == (position@ > 0 && (break_even_of(*self, position) matches Some(least)
                && spread_bps@ >= least@)),
            judged(*self, spread_bps, position, r),
    {
        if !position.is_positive() {
            return false;
        }
        let share = div_opt(Some(self.min_profit_usd), Some(position));
        let target = mul_by(share, 10000);
        let fees = self.fees();
        let costs = mul_by(fees, 10000);
        match add_opt(target, costs) {
            Some(least) => {
                assert(needs(
                    *self,
                    position@,
                    share->0@,
                    target->0@,
                    fees->0@,
                    costs->0@,
                    least@,
                ));
                least.le(&spread_bps)
            },
            None => false,
        }
    }

    /// What a position earns at a spread, after fees. Zero without a position; `None` where
    /// a number cannot be held.
    pub fn calculate_expected_profit(&self, spread_bps: Dec, position: Dec) -> (r: Option<Dec>)
        ensures
            r == expected_profit_of(*self, spread_bps, position),
            position@ <= 0 ==> (r matches Some(e) && e@ == 0),
            position@ > 0 ==> (r matches Some(e) ==> expected(*self, spread_bps@, position@, e@)),
    {
        proof {
            lemma_value(0, 0);
        }
        if !position.is_positive() {
            return number(0, 0);
        }
        let rate = div_by(Some(spread_bps), 10000);
        let gross = mul_opt(Some(position), rate);
        let fees = self.fees();
        let costs = mul_opt(Some(position), fees);
        let r = sub_opt(gross, costs);
        proof {
            if r is Some {
                assert(earns(
                    *self,
                    spread_bps@,
                    position@,
                    rate->0@,
                    gross->0@,
                    fees->0@,
                    costs->0@,
                    r->0@,
                ));
            }
        }
        r
    }

    /// The position that earns the profit that is asked for, kept between the smallest and
    /// the largest. The smallest where the spread does not pay the fees; `None` where a
    /// number cannot be held.
    pub fn calculate_optimal_position_size(&self, spread_bps: Dec, min: Dec, max: Dec) -> (r: Option<
        Dec,
    >)
        ensures
            match net_spread_of(*self, spread_bps) {
                None => r is None,
                Some(net) => if net@ <= 0 {
                    r == Some(min)
                } else {
                    r == lower(
                        higher(over(Some(self.min_profit_usd), Some(net)), Some(min)),
                        Some(max),
                    )
                },
            },
            r matches Some(v) ==> sized(*self, spread_bps@, min@, max@, v@),
    {
        let rate = div_by(Some(spread_bps), 10000);
        let fees = self.fees();
        match sub_opt(rate, fees) {
            None => None,
            Some(net) => {
                let exact = if net.is_positive() {
                    div_opt(Some(self.min_profit_usd), Some(net))
                } else {
                    Some(min)
                };
                let r = if net.is_positive() {
                    min_opt(max_opt(exact, Some(min)), Some(max))
                } else {
                    Some(min)
                };
                proof {
                    if r is Some {
                        assert(sizes(
                            *self,
                            spread_bps@,
                            min@,
                            max@,
                            rate->0@,
                            fees->0@,
                            net@,
                            exact->0@,
                            r->0@,
                        ));
                    }
                }
                r
            },
        }
    }

    /// What a position earns for each dollar that it may lose. Zero without a position or
    /// where nothing may be lost; `None` where a number cannot be held.
    pub fn calculate_risk_reward_ratio(&self, spread_bps: Dec, position: Dec, max_loss: Dec) -> (r:
        Option<Dec>)
        ensures
            r == reward_of(*self, spread_bps, position, max_loss),
            position@ <= 0 || max_loss@ <= 0 ==> (r matches Some(v) && v@ == 0),
            position@ > 0 && max_loss@ > 0 ==> (r matches Some(v) ==> rewards(
                *self,
                spread_bps@,
                position@,
                max_loss@,
                v@,
            )),
    {
        proof {
            lemma_value(0, 0);
            lemma_zero_and_one();
        }
        if !position.is_positive() || !max_loss.is_positive() {
            return number(0, 0);
        }
        let earned = self.calculate_expected_profit(spread_bps, position);
        let risk = mul_opt(Some(position), Some(max_loss));
        let r = div_opt(earned, risk);
        proof {
            if r is Some {
                let n = position@ * max_loss@;
                assert(n >= 0) by (nonlinear_arith)
                    requires
                        n == position@ * max_loss@,
                        position@ > 0,
                        max_loss@ > 0,
                ;
                law_rounding_above(n, pow10(28), risk->0@, 0);
                assert(risk->0@ != 0);
                assert(rewards_by(
                    *self,
                    spread_bps@,
                    position@,
                    max_loss@,
                    earned->0@,
                    risk->0@,
                    r->0@,
                ));
            }
        }
        r
    }
}

impl Default for ProfitGuarantee {
    /// Half a cent, and the fees of the exchange.
    fn default() -> (r: ProfitGuarantee)
        ensures
            lit(5, 3) == Some(r.min_profit_usd),
            lit(2, 4) == Some(r.maker_fee_rate),
            lit(4, 4) == Some(r.taker_fee_rate),
    {
        ProfitGuarantee {
            min_profit_usd: Dec::new(5, 3),
            maker_fee_rate: Dec::new(2, 4),
            taker_fee_rate: Dec::new(4, 4),
        }
    }
}

/// Why a trade is made or not.
pub open spec fn trade_reason(
    spread_bps: Dec,
    position: Dec,
    min_spread_bps: Dec,
    stop_loss: Dec,
    min_reward: Dec,
    g: ProfitGuarantee,
) -> Seq<char> {
    if spread_bps@ < min_spread_bps@ {
        "spread_below_minimum"@
    } else if !(position@ > 0 && (break_even_of(g, position) matches Some(least) && spread_bps@
        >= least@)) {
        "not_profitable_after_fees"@
    } else if reward_of(g, spread_bps, position, abs_of(stop_loss)) matches Some(reward)
        && reward@ >= min_reward@ {
        "ok"@
    } else {
        "risk_reward_too_low"@
    }
}

/// Whether a trade is made, and why: its spread is wide enough, it earns what is asked for,
/// and enough of it for what it may lose.
pub fn should_place_trade(
    spread_bps: Dec,
    position: Dec,
    min_spread_bps: Dec,
    stop_loss: Dec,
    min_reward: Dec,
    guarantee: &ProfitGuarantee,
) -> (r: (bool, String))
    ensures
        r.1@ == trade_reason(
            spread_bps,
            position,
            min_spread_bps,
            stop_loss,
            min_reward,
            *guarantee,
        ),
        r.0 == (r.1@ == "ok"@),
{
    proof {
        reveal_strlit("ok");
        reveal_strlit("spread_below_minimum");
        reveal_strlit("not_profitable_after_fees");
        reveal_strlit("risk_reward_too_low");
        assert("ok"@.len() == 2);
        assert("spread_below_minimum"@.len() == 20);
        assert("not_profitable_after_fees"@.len() == 25);
        assert("risk_reward_too_low"@.len() == 19);
    }
    if spread_bps.lt(&min_spread_bps) {
        return (false, copy_of("spread_below_minimum"));
    }
    if !guarantee.is_trade_profitable(spread_bps, position) {
        return (false, copy_of("not_profitable_after_fees"));
    }
    match guarantee.calculate_risk_reward_ratio(spread_bps, position, abs_dec(stop_loss)) {
        Some(reward) => if min_reward.le(&reward) {
            return (true, copy_of("ok"));
        },
        None => {},
    }
    (false, copy_of("risk_reward_too_low"))
}

} // verus!
