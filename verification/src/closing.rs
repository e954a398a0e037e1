//! Carrying out a wish to close a position, or a share of it.
use vstd::prelude::*;

use crate::arith::mul_opt;
use crate::connection::{NewOrderRequest, PositionSide};
use crate::decimal::{lemma_bounds, lemma_powers, one, pow10, product, value_of, Dec};
use crate::rounding::{
    is_close, law_rounding_above, law_rounding_below, law_rounding_is_close, lemma_exact,
    lemma_rounded_fits, lemma_smaller_fits, lemma_zero_and_one, rounded,
};
use crate::text::copy_of;

verus! {

/// The side of an order that makes a position smaller.
pub open spec fn against(side: PositionSide) -> PositionSide {
    match side {
        PositionSide::Long => PositionSide::Short,
        PositionSide::Short => PositionSide::Long,
    }
}

/// How a wish to close a position is carried out.
#[derive(Debug)]
pub enum CloseStep {
    /// The whole position is flattened.
    Whole,
    /// An order for a share of it is sent.
    Share { order: NewOrderRequest },
    /// The share cannot be held as a number.
    ShareTooLarge,
}

/// `r` is how the wish to close `share` of a position, or all of it, is carried out.
pub open spec fn closes(
    symbol: Seq<char>,
    side: PositionSide,
    size: Dec,
    share: Option<Dec>,
    r: CloseStep,
) -> bool {
    match share {
        None => r is Whole,
        Some(s) => {
            &&& match product(size, s) {
                Some(quantity) => {
                    &&& r matches CloseStep::Share { order }
                    &&& order.symbol@ == symbol
                    &&& order.side == against(side)
                    &&& order.quantity == quantity
                    &&& order.reduce_only
                    &&& order.client_order_id is None
                },
                None => r is ShareTooLarge,
            }
            &&& rounded(value_of(product(size, s)), size@ * s@, pow10(28))
        },
    }
}

/// How a wish to close a position is carried out: a share of it by an order against it
/// that can only make it smaller.
pub fn close_order(symbol: &str, side: PositionSide, size: Dec, share: Option<Dec>) -> (r:
    CloseStep)
    ensures
        closes(symbol@, side, size, share, r),
{
    match share {
        None => CloseStep::Whole,
        Some(s) => match mul_opt(Some(size), Some(s)) {
            None => CloseStep::ShareTooLarge,
            Some(quantity) => CloseStep::Share {
                order: NewOrderRequest {
                    symbol: copy_of(symbol),
                    side: match side {
                        PositionSide::Long => PositionSide::Short,
                        PositionSide::Short => PositionSide::Long,
                    },
                    quantity,
                    reduce_only: true,
                    client_order_id: None,
                },
            },
        },
    }
}

/// A share between nothing and the whole of a position can always be ordered, and the
/// order never exceeds the position.
pub proof fn law_share_within_position(
    symbol: Seq<char>,
    side: PositionSide,
    size: Dec,
    share: Dec,
    r: CloseStep,
)
    requires
        size.wf(),
        size@ >= 0,
        0 <= share@ <= pow10(28),
        closes(symbol, side, size, Some(share), r),
    ensures
        r matches CloseStep::Share { order } && 0 <= order.quantity@ <= size@,
{
    let one = pow10(28);
    let n = size@ * share@;
    lemma_zero_and_one();
    lemma_bounds(size);
    lemma_exact(size.num(), size.places(), 1);
    assert(0 <= n <= size@ * one) by (nonlinear_arith)
        requires
            n == size@ * share@,
            size@ >= 0,
            0 <= share@ <= one,
    ;
    lemma_rounded_fits(size@, 1, size@);
    lemma_smaller_fits(n, one, size@, 1);
    let quantity = product(size, share)->0;
    law_rounding_above(n, one, quantity@, 0);
    law_rounding_below(n, one, quantity@, size@);
}

/// An order for a share of a position is of its symbol and against it: a long one is sold and a
/// short one bought. It can only reduce the position, and is for the share of its size up to
/// rounding. Without a share the whole position is flattened, and nothing is ordered here.
pub proof fn law_orders_against_positions(
    symbol: Seq<char>,
    side: PositionSide,
    size: Dec,
    share: Option<Dec>,
    r: CloseStep,
)
    requires
        closes(symbol, side, size, share, r),
    ensures
        r is Whole <==> share is None,
        r matches CloseStep::Share { order } ==> {
            &&& order.symbol@ == symbol
            &&& side is Long <==> order.side is Short
            &&& order.reduce_only
            &&& is_close(size@ * share->0@, one(), order.quantity@)
        },
{
    lemma_powers();
    if r is Share {
        law_rounding_is_close(size@ * share->0@, one(), r->order.quantity@);
    }
}

} // verus!
