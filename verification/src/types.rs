//! The values that the bot trades in.
use vstd::prelude::*;

use crate::decimal::Dec;

verus! {

/// A price.
#[derive(Clone, Copy, Debug)]
pub struct Px(pub Dec);

/// A quantity.
#[derive(Clone, Copy, Debug)]
pub struct Qty(pub Dec);

/// One price level of a book.
#[derive(Clone, Copy, Debug)]
pub struct BookLevel {
    pub px: Px,
    pub qty: Qty,
}

/// The top of a book. `top_bids` falls and `top_asks` rises in price.
#[derive(Clone, Debug)]
pub struct OrderBook {
    pub best_bid: Option<BookLevel>,
    pub best_ask: Option<BookLevel>,
    pub top_bids: Option<Vec<BookLevel>>,
    pub top_asks: Option<Vec<BookLevel>>,
}

impl Default for OrderBook {
    fn default() -> (r: OrderBook)
        ensures
            r.best_bid is None,
            r.best_ask is None,
            r.top_bids is None,
            r.top_asks is None,
    {
        OrderBook { best_bid: None, best_ask: None, top_bids: None, top_asks: None }
    }
}

#[derive(Clone, Copy, Debug, PartialEq, Eq, Structural)]
pub enum Side {
    Buy,
    Sell,
}

/// How long an order rests.
#[derive(Clone, Copy, Debug, PartialEq, Eq, Structural)]
pub enum Tif {
    Gtc,
    Ioc,
    PostOnly,
}

/// A two-sided quote.
#[derive(Clone, Copy, Debug)]
pub struct Quote {
    pub bid: Px,
    pub ask: Px,
    pub size: Qty,
}

/// An open position; a short one has a negative quantity.
#[derive(Clone, Debug)]
pub struct Position {
    pub symbol: String,
    pub qty: Qty,
    pub entry: Px,
    pub leverage: u32,
    pub liq_px: Option<Px>,
}

/// An executed trade.
#[derive(Clone, Debug)]
pub struct Fill {
    pub id: i64,
    pub symbol: String,
    pub side: Side,
    pub qty: Qty,
    pub price: Px,
    pub timestamp: u64,
}

/// The quotes to show, on each side a price and a quantity.
#[derive(Clone, Copy, Debug)]
pub struct Quotes {
    pub bid: Option<(Px, Qty)>,
    pub ask: Option<(Px, Qty)>,
}

impl Default for Quotes {
    fn default() -> (r: Quotes)
        ensures
            r == (Quotes { bid: None, ask: None }),
    {
        Quotes { bid: None, ask: None }
    }
}

/// An order that rests at the exchange.
#[derive(Clone, Debug)]
pub struct VenueOrder {
    pub order_id: String,
    pub side: Side,
    pub price: Px,
    pub qty: Qty,
}

/// What the exchange says of a symbol.
#[derive(Clone, Debug)]
pub struct SymbolMeta {
    pub symbol: String,
    pub base_asset: String,
    pub quote_asset: String,
    pub status: Option<String>,
    pub contract_type: Option<String>,
}

} // verus!
