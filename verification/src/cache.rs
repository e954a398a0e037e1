//! What is known without asking the exchange again: of symbols, of their prices and of
//! positions.
use vstd::prelude::*;

use vstd::arithmetic::div_mod::{
    lemma_div_multiples_vanish, lemma_fundamental_div_mod, lemma_mod_multiples_basic,
};
use vstd::arithmetic::power::{lemma_pow_adds, lemma_pow_positive};

use crate::assoc::{by_text, distinct_keys, get_text, put_text, remove_text, value_of};
use crate::connection::PositionSide;
use crate::decimal::{dec_of, lemma_bounds, lemma_powers, one, pow10, Dec};
use crate::positions::{fetch_position, is_position_of, FutPosition, PositionError};
use crate::quant::shortest_form;
use crate::text::copy_of;
use crate::types::{Position, Px, Qty};
use crate::user_stream::PositionUpdate;

verus! {

/// How long best prices are fresh, in milliseconds.
pub const FRESH_MS: u64 = 1000;

/// What is known of a symbol.
#[derive(Clone, Copy, Debug)]
pub struct CachedSymbolInfo {
    pub step_size: Dec,
    pub min_quantity: Dec,
    pub max_quantity: Dec,
    pub tick_size: Dec,
    pub leverage: Dec,
    pub margin_mode_set: bool,
    pub last_update_ms: u64,
}

/// What is known of symbols.
#[derive(Debug)]
pub struct SymbolInfoCache {
    pub cache: Vec<(String, CachedSymbolInfo)>,
}

impl SymbolInfoCache {
    /// No symbol stands twice.
    pub open spec fn wf(&self) -> bool {
        distinct_keys(by_text(self.cache@))
    }

    /// What is known of a symbol.
    pub open spec fn info(&self, symbol: Seq<char>) -> Option<CachedSymbolInfo> {
        value_of(by_text(self.cache@), symbol)
    }

    pub fn new() -> (r: SymbolInfoCache)
        ensures
            r.wf(),
            forall|s: Seq<char>| #[trigger] r.info(s) is None,
    {
        SymbolInfoCache { cache: Vec::new() }
    }

    /// Takes note of a symbol that was fetched, with a leverage of twenty and no
    /// margin mode set.
    pub fn warmup(
        &mut self,
        symbol: &str,
        step_size: Dec,
        min_quantity: Dec,
        max_quantity: Dec,
        tick_size: Dec,
        now_ms: u64,
    )
        requires
            old(self).wf(),
        ensures
            final(self).wf(),
            final(self).info(symbol@) == Some(
                CachedSymbolInfo {
                    step_size,
                    min_quantity,
                    max_quantity,
                    tick_size,
                    leverage: dec_of(20, 0),
                    margin_mode_set: false,
                    last_update_ms: now_ms,
                },
            ),
            forall|s: Seq<char>|
                s != symbol@ ==> #[trigger] final(self).info(s) == old(self).info(s),
    {
        let info = CachedSymbolInfo {
            step_size,
            min_quantity,
            max_quantity,
            tick_size,
            leverage: Dec::new(20, 0),
            margin_mode_set: false,
            last_update_ms: now_ms,
        };
        put_text(&mut self.cache, symbol, info);
    }

    /// What is known of a symbol.
    pub fn get(&self, symbol: &str) -> (r: Option<CachedSymbolInfo>)
        ensures
            r == self.info(symbol@),
    {
        match get_text(&self.cache, symbol) {
            Some(i) => Some(*i),
            None => None,
        }
    }

    /// Takes note of a new leverage, where the symbol is known.
    pub fn update_leverage(&mut self, symbol: &str, leverage: Dec, now_ms: u64)
        requires
            old(self).wf(),
        ensures
            final(self).wf(),
            final(self).info(symbol@) == match old(self).info(symbol@) {
                Some(i) => Some(CachedSymbolInfo { leverage, last_update_ms: now_ms, ..i }),
                None => None,
            },
            forall|s: Seq<char>|
                s != symbol@ ==> #[trigger] final(self).info(s) == old(self).info(s),
    {
        if let Some(info) = self.get(symbol) {
            put_text(
                &mut self.cache,
                symbol,
                CachedSymbolInfo { leverage, last_update_ms: now_ms, ..info },
            );
        }
    }

    /// Takes note that the margin mode is set, where the symbol is known.
    pub fn mark_margin_mode_set(&mut self, symbol: &str, now_ms: u64)
        requires
            old(self).wf(),
        ensures
            final(self).wf(),
            final(self).info(symbol@) == match old(self).info(symbol@) {
                Some(i) => Some(
                    CachedSymbolInfo { margin_mode_set: true, last_update_ms: now_ms, ..i },
                ),
                None => None,
            },
            forall|s: Seq<char>|
                s != symbol@ ==> #[trigger] final(self).info(s) == old(self).info(s),
    {
        if let Some(info) = self.get(symbol) {
            put_text(
                &mut self.cache,
                symbol,
                CachedSymbolInfo { margin_mode_set: true, last_update_ms: now_ms, ..info },
            );
        }
    }

    /// Whether the margin mode is set.
    pub fn is_margin_mode_set(&self, symbol: &str) -> (r: bool)
        ensures
            r == (self.info(symbol@) matches Some(i) && i.margin_mode_set),
    {
        match self.get(symbol) {
            Some(i) => i.margin_mode_set,
            None => false,
        }
    }

    /// The leverage of a symbol.
    pub fn get_leverage(&self, symbol: &str) -> (r: Option<Dec>)
        ensures
            r == match self.info(symbol@) {
                Some(i) => Some(i.leverage),
                None => None,
            },
    {
        match self.get(symbol) {
            Some(i) => Some(i.leverage),
            None => None,
        }
    }
}

/// The best prices of a symbol.
#[derive(Clone, Copy, Debug)]
pub struct BestPrices {
    pub best_bid: Dec,
    pub best_ask: Dec,
    pub last_update_ms: u64,
}

/// The best prices of symbols.
#[derive(Debug)]
pub struct DepthCache {
    pub depths: Vec<(String, BestPrices)>,
}

/// The prices are younger than a second.
pub open spec fn is_fresh(p: BestPrices, now_ms: u64) -> bool {
    now_ms - p.last_update_ms < FRESH_MS
}

impl DepthCache {
    /// No symbol stands twice.
    pub open spec fn wf(&self) -> bool {
        distinct_keys(by_text(self.depths@))
    }

    /// The last best prices of a symbol.
    pub open spec fn last_prices(&self, symbol: Seq<char>) -> Option<BestPrices> {
        value_of(by_text(self.depths@), symbol)
    }

    /// The best prices of a symbol, where they are fresh.
    pub open spec fn fresh_prices(&self, symbol: Seq<char>, now_ms: u64) -> Option<(Dec, Dec)> {
        match self.last_prices(symbol) {
            Some(p) => if is_fresh(p, now_ms) {
                Some((p.best_bid, p.best_ask))
            } else {
                None
            },
            None => None,
        }
    }

    pub fn new() -> (r: DepthCache)
        ensures
            r.wf(),
            forall|s: Seq<char>| #[trigger] r.last_prices(s) is None,
    {
        DepthCache { depths: Vec::new() }
    }

    /// Takes note of best prices.
    pub fn update(&mut self, symbol: &str, bid: Dec, ask: Dec, now_ms: u64)
        requires
            old(self).wf(),
        ensures
            final(self).wf(),
            final(self).last_prices(symbol@) == Some(
                BestPrices { best_bid: bid, best_ask: ask, last_update_ms: now_ms },
            ),
            forall|s: Seq<char>|
                s != symbol@ ==> #[trigger] final(self).last_prices(s) == old(self).last_prices(s),
    {
        put_text(
            &mut self.depths,
            symbol,
            BestPrices { best_bid: bid, best_ask: ask, last_update_ms: now_ms },
        );
    }

    /// The best prices of a symbol; none where they are a second old.
    pub fn get_best_prices(&self, symbol: &str, now_ms: u64) -> (r: Option<(Dec, Dec)>)
        ensures
            r == self.fresh_prices(symbol@, now_ms),
    {
        match get_text(&self.depths, symbol) {
            Some(p) => if now_ms < p.last_update_ms || now_ms - p.last_update_ms < FRESH_MS {
                Some((p.best_bid, p.best_ask))
            } else {
                None
            },
            None => None,
        }
    }

    /// Whether there are fresh prices of a symbol.
    pub fn is_available(&self, symbol: &str, now_ms: u64) -> (r: bool)
        ensures
            r == (self.fresh_prices(symbol@, now_ms) is Some),
    {
        self.get_best_prices(symbol, now_ms).is_some()
    }
}

/// What was taken note of is read back for a second, and no longer.
pub proof fn law_prices_are_read_back(
    cache: DepthCache,
    symbol: Seq<char>,
    bid: Dec,
    ask: Dec,
    at_ms: u64,
    now_ms: u64,
)
    requires
        cache.last_prices(symbol) == Some(
            BestPrices { best_bid: bid, best_ask: ask, last_update_ms: at_ms },
        ),
    ensures
        now_ms < at_ms + FRESH_MS ==> cache.fresh_prices(symbol, now_ms) == Some((bid, ask)),
        now_ms >= at_ms + FRESH_MS ==> cache.fresh_prices(symbol, now_ms) is None,
{
}

/// A number that is whole and not negative, as far as it fits; one in place of any other.
pub open spec fn whole_or_one(d: Dec) -> u32 {
    let n = d@ / pow10(28);
    if d@ % pow10(28) == 0 && 0 <= n <= u32::MAX {
        n as u32
    } else {
        1
    }
}

fn find_whole(d: Dec) -> (r: u32)
    ensures
        r == whole_or_one(d),
{
    let short = shortest_form(d);
    proof {
        use_type_invariant(&short);
        lemma_bounds(short);
        lemma_pow_positive(10, 28);
        let k = short.places();
        if k == 0 {
            lemma_div_multiples_vanish(short.num(), pow10(28));
            lemma_mod_multiples_basic(short.num(), pow10(28));
            assert(pow10(28) * short.num() == short.num() * pow10(28)) by (nonlinear_arith);
        } else {
            let u = pow10((29 - k) as nat);
            let c = pow10((k - 1) as nat);
            lemma_pow_positive(10, (29 - k) as nat);
            lemma_pow_adds(10, (29 - k) as nat, (k - 1) as nat);
            if d@ % pow10(28) == 0 {
                let n = d@ / pow10(28);
                lemma_fundamental_div_mod(d@, pow10(28));
                assert(d@ == (n * c) * u) by (nonlinear_arith)
                    requires
                        d@ == pow10(28) * n + 0,
                        pow10(28) == u * c,
                ;
                lemma_mod_multiples_basic(n * c, u);
            }
        }
    }
    if short.scale() == 0 {
        let n: i128 = short.mantissa();
        if 0 <= n && n <= u32::MAX as i128 {
            return n as u32;
        }
    }
    1
}

/// A copy of a position.
fn copy_position(p: &Position) -> (r: Position)
    ensures
        r == *p,
{
    Position {
        symbol: p.symbol.clone(),
        qty: p.qty,
        entry: p.entry,
        leverage: p.leverage,
        liq_px: p.liq_px,
    }
}

/// The positions that are known, by their symbols.
#[derive(Debug)]
pub struct PositionCache {
    pub positions: Vec<(String, Position)>,
}

impl PositionCache {
    /// No symbol stands twice.
    pub open spec fn wf(&self) -> bool {
        distinct_keys(by_text(self.positions@))
    }

    /// The position that is known of a symbol.
    pub open spec fn known(&self, symbol: Seq<char>) -> Option<Position> {
        value_of(by_text(self.positions@), symbol)
    }

    pub fn new() -> (r: PositionCache)
        ensures
            r.wf(),
            forall|s: Seq<char>| #[trigger] r.known(s) is None,
    {
        PositionCache { positions: Vec::new() }
    }

    /// The position that is known of a symbol. Where there is none the exchange has to be
    /// asked, and [`PositionCache::learn`] is to read its answer.
    pub fn get(&self, symbol: &str) -> (r: Option<Position>)
        ensures
            r == self.known(symbol@),
    {
        match get_text(&self.positions, symbol) {
            Some(p) => Some(copy_position(p)),
            None => None,
        }
    }

    /// Takes note of a position.
    pub fn put(&mut self, symbol: &str, position: Position)
        requires
            old(self).wf(),
        ensures
            final(self).wf(),
            final(self).known(symbol@) == Some(position),
            forall|s: Seq<char>|
                s != symbol@ ==> #[trigger] final(self).known(s) == old(self).known(s),
    {
        put_text(&mut self.positions, symbol, position);
    }

    /// Forgets the position of a symbol.
    pub fn forget(&mut self, symbol: &str)
        requires
            old(self).wf(),
        ensures
            final(self).wf(),
            final(self).known(symbol@) is None,
            forall|s: Seq<char>|
                s != symbol@ ==> #[trigger] final(self).known(s) == old(self).known(s),
    {
        remove_text(&mut self.positions, symbol);
    }

    /// Takes note of what happened to a position: it is forgotten where it is closed.
    pub fn follow(&mut self, update: &PositionUpdate)
        requires
            old(self).wf(),
        ensures
            final(self).wf(),
            match final(self).known(update.symbol@) {
                Some(p) => !update.is_closed && p.symbol@ == update.symbol@ && p.qty.0@ == if update.side
                    == PositionSide::Long {
                    update.size@
                } else {
                    -update.size@
                } && p.entry == Px(update.entry_price) && p.leverage == whole_or_one(
                    update.leverage,
                ) && p.liq_px is None,
                None => update.is_closed,
            },
            forall|s: Seq<char>|
                s != update.symbol@ ==> #[trigger] final(self).known(s) == old(self).known(s),
    {
        if update.is_closed {
            self.forget(update.symbol.as_str());
            return ;
        }
        let qty = match update.side {
            PositionSide::Long => update.size,
            PositionSide::Short => update.size.neg(),
        };
        let position = Position {
            symbol: copy_of(update.symbol.as_str()),
            qty: Qty(qty),
            entry: Px(update.entry_price),
            leverage: find_whole(update.leverage),
            liq_px: None,
        };
        self.put(update.symbol.as_str(), position);
    }

    /// Reads the position of a symbol from what the exchange answers, and takes note of it:
    /// from then on it is known, and the exchange is not asked for it again.
    pub fn learn(&mut self, told: &Vec<FutPosition>, symbol: &str, hedge_mode: bool) -> (r: Result<
        Position,
        PositionError,
    >)
        requires
            old(self).wf(),
        ensures
            final(self).wf(),
            is_position_of(told@, symbol@, hedge_mode, r),
            final(self).known(symbol@) == match r {
                Ok(p) => Some(p),
                Err(_) => old(self).known(symbol@),
            },
            forall|s: Seq<char>|
                s != symbol@ ==> #[trigger] final(self).known(s) == old(self).known(s),
    {
        let r = fetch_position(told, symbol, hedge_mode);
        if let Ok(p) = &r {
            self.put(symbol, copy_position(p));
        }
        r
    }
}

/// Prices count for less than a second.
pub proof fn law_fresh_prices(p: BestPrices, now_ms: u64)
    ensures
        is_fresh(p, now_ms) <==> now_ms < p.last_update_ms + 1000,
{
}

/// A leverage that is a whole number of 32 bits is kept, and any other is one.
pub proof fn law_whole_leverage(d: Dec, n: u32)
    ensures
        d@ == n * one() ==> whole_or_one(d) == n,
        whole_or_one(d) != 1 ==> d@ == whole_or_one(d) * one(),
{
    lemma_powers();
}

} // verus!
