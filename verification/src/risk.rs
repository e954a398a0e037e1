//! The limits that a position has to keep.
use vstd::prelude::*;

use crate::decimal::Dec;
use crate::types::{Position, Qty};

verus! {

#[derive(Clone, Copy, Debug)]
pub struct RiskLimits {
    pub inv_cap: Qty,
    pub min_liq_gap_bps: Dec,
    pub dd_limit_bps: i64,
    pub max_leverage: u32,
}

#[derive(Clone, Copy, Debug, PartialEq, Eq, Structural)]
pub enum RiskAction {
    Okay,
    Widen,
    Reduce,
    Halt,
}

/// The size of an amount.
pub open spec fn size_of(v: int) -> int {
    if v < 0 {
        -v
    } else {
        v
    }
}

/// What the limits call for: a stop where the drawdown reached its limit; less
/// where there is too much inventory, liquidation is too near or the leverage too high.
pub open spec fn risk_action(
    leverage: u32,
    inv: Qty,
    liq_gap_bps: Dec,
    dd_bps: i64,
    lim: RiskLimits,
) -> RiskAction {
    if dd_bps <= -lim.dd_limit_bps {
        RiskAction::Halt
    } else if size_of(inv.0@) > lim.inv_cap.0@ || liq_gap_bps@ < lim.min_liq_gap_bps@ || leverage
        > lim.max_leverage {
        RiskAction::Reduce
    } else {
        RiskAction::Okay
    }
}

pub fn check_risk(
    pos: &Position,
    inv: Qty,
    liq_gap_bps: Dec,
    dd_bps: i64,
    lim: &RiskLimits,
) -> (r: RiskAction)
    requires
        lim.dd_limit_bps > i64::MIN,
    ensures
        r == risk_action(pos.leverage, inv, liq_gap_bps, dd_bps, *lim),
{
    if dd_bps <= -lim.dd_limit_bps {
        return RiskAction::Halt;
    }
    if lim.inv_cap.0.lt(&inv.0.abs()) {
        return RiskAction::Reduce;
    }
    if liq_gap_bps.lt(&lim.min_liq_gap_bps) {
        return RiskAction::Reduce;
    }
    if pos.leverage > lim.max_leverage {
        return RiskAction::Reduce;
    }
    RiskAction::Okay
}

/// The drawdown comes first: at its limit trading stops, whatever else holds, and
/// nothing else stops it.
pub proof fn law_drawdown_comes_first(
    leverage: u32,
    inv: Qty,
    liq_gap_bps: Dec,
    dd_bps: i64,
    lim: RiskLimits,
)
    ensures
        risk_action(leverage, inv, liq_gap_bps, dd_bps, lim) == RiskAction::Halt <==> dd_bps
            <= -lim.dd_limit_bps,
{
}

/// Short of the drawdown limit a position is reduced exactly where the inventory is above its cap
/// to either side, liquidation is nearer than allowed, or the leverage is above its limit; it is
/// left as it is everywhere else, and never widened.
pub proof fn law_what_is_reduced(
    leverage: u32,
    inv: Qty,
    liq_gap_bps: Dec,
    dd_bps: i64,
    lim: RiskLimits,
)
    requires
        dd_bps + lim.dd_limit_bps > 0,
    ensures
        ({
            let within = -lim.inv_cap.0@ <= inv.0@ <= lim.inv_cap.0@ && liq_gap_bps@
                >= lim.min_liq_gap_bps@ && leverage <= lim.max_leverage;
            let r = risk_action(leverage, inv, liq_gap_bps, dd_bps, lim);
            (within <==> r == RiskAction::Okay) && (!within <==> r == RiskAction::Reduce)
        }),
{
}

/// More risk never calls for less: with the inventory further from zero to the same side,
/// liquidation no further, the leverage no lower and the drawdown no smaller, what was to be
/// reduced is reduced or stopped, and what was stopped is stopped.
pub proof fn law_more_risk(
    leverage: u32,
    inv: Qty,
    gap: Dec,
    dd: i64,
    more_leverage: u32,
    more_inv: Qty,
    less_gap: Dec,
    more_dd: i64,
    lim: RiskLimits,
)
    requires
        leverage <= more_leverage,
        0 <= inv.0@ <= more_inv.0@ || more_inv.0@ <= inv.0@ <= 0,
        less_gap@ <= gap@,
        more_dd <= dd,
    ensures
        ({
            let a = risk_action(leverage, inv, gap, dd, lim);
            let b = risk_action(more_leverage, more_inv, less_gap, more_dd, lim);
            (a == RiskAction::Halt ==> b == RiskAction::Halt) && (b == RiskAction::Okay ==> a
                == RiskAction::Okay)
        }),
{
}

} // verus!
