//! Funding rates, open interest and long/short ratios without asking again.
use vstd::prelude::*;

use crate::assoc::{by_text, distinct_keys, get_text, put_text, value_of};
use crate::decimal::{dec_of, dec_text, Dec};
use crate::initialization::{list_contains, texts};
use crate::quant::{shortest, shortest_form};
use crate::rules::{dec_or_zero, str_dec};
use crate::text::copy_of;

verus! {

/// The last metrics of a symbol.
#[derive(Clone, Copy, Debug)]
pub struct LatestMetrics {
    pub funding_rate: Option<Dec>,
    pub open_interest: Option<Dec>,
    pub long_short_ratio: Option<Dec>,
    pub last_update_ms: u64,
}

/// The last metrics of symbols, and the symbols that are followed.
#[derive(Debug)]
pub struct MetricsCache {
    pub cache: Vec<(String, LatestMetrics)>,
    pub update_interval_secs: u64,
    pub symbols: Vec<String>,
}

/// The ratio of long and short accounts at a time.
#[derive(Clone, Copy, Debug)]
pub struct LongShortRatioPoint {
    pub timestamp_ms: u64,
    pub long_short_ratio: Dec,
    pub long_account_pct: Dec,
    pub short_account_pct: Dec,
}

/// A funding rate, as the exchange writes it.
#[derive(Debug)]
pub struct FundingRate {
    pub symbol: String,
    pub funding_rate: String,
    pub funding_time_ms: u64,
}

/// The open interest at a time.
#[derive(Clone, Copy, Debug)]
pub struct OpenInterestPoint {
    pub timestamp_ms: u64,
    pub open_interest: Dec,
}

/// `f` is a rate of a symbol at a time, written with the fewest decimal places.
pub open spec fn writes_rate(f: FundingRate, symbol: Seq<char>, rate: Dec, now_ms: u64) -> bool {
    &&& f.symbol@ == symbol
    &&& f.funding_time_ms == now_ms
    &&& exists|n: Dec| #[trigger] shortest(n, rate) && f.funding_rate@ == dec_text(n)
}

/// The symbols among the first `n` of which nothing is known.
pub open spec fn unknown_symbols(c: MetricsCache, symbols: Seq<Seq<char>>, n: nat) -> Seq<Seq<char>>
    decreases n,
{
    if n == 0 {
        Seq::empty()
    } else {
        let head = unknown_symbols(c, symbols, (n - 1) as nat);
        if c.metrics(symbols[n - 1]) is None {
            head.push(symbols[n - 1])
        } else {
            head
        }
    }
}

/// A list with the first `n` of the symbols that it does not hold yet.
pub open spec fn with_missing(list: Seq<Seq<char>>, symbols: Seq<Seq<char>>, n: nat) -> Seq<
    Seq<char>,
>
    decreases n,
{
    if n == 0 {
        list
    } else {
        let head = with_missing(list, symbols, (n - 1) as nat);
        if head.contains(symbols[n - 1]) {
            head
        } else {
            head.push(symbols[n - 1])
        }
    }
}

impl MetricsCache {
    /// No symbol stands twice.
    pub open spec fn wf(&self) -> bool {
        distinct_keys(by_text(self.cache@))
    }

    /// The last metrics of a symbol.
    pub open spec fn metrics(&self, symbol: Seq<char>) -> Option<LatestMetrics> {
        value_of(by_text(self.cache@), symbol)
    }

    pub fn new(update_interval_secs: u64) -> (r: MetricsCache)
        ensures
            r.wf(),
            r.update_interval_secs == update_interval_secs,
            r.symbols@.len() == 0,
            forall|s: Seq<char>| #[trigger] r.metrics(s) is None,
    {
        MetricsCache { cache: Vec::new(), update_interval_secs, symbols: Vec::new() }
    }

    /// Follows these symbols.
    pub fn set_symbols(&mut self, symbols: Vec<String>)
        ensures
            *final(self) == (MetricsCache { symbols, ..*old(self) }),
    {
        self.symbols = symbols;
    }

    /// The symbols of which nothing is known yet, in their order.
    pub fn symbols_to_warm(&self, symbols: &Vec<String>) -> (r: Vec<String>)
        ensures
            texts(r@) == unknown_symbols(*self, texts(symbols@), symbols@.len()),
    {
        let mut v: Vec<String> = Vec::new();
        let ghost all = texts(symbols@);
        let mut i: usize = 0;
        assert(texts(v@) =~= unknown_symbols(*self, all, 0));
        while i < symbols.len()
            invariant
                i <= symbols@.len(),
                all == texts(symbols@),
                texts(v@) == unknown_symbols(*self, all, i as nat),
            decreases symbols.len() - i,
        {
            let ghost before = texts(v@);
            let symbol = symbols[i].as_str();
            assert(all[i as int] == symbol@);
            if get_text(&self.cache, symbol).is_none() {
                v.push(copy_of(symbol));
                assert(texts(v@) =~= before.push(symbol@));
            }
            i += 1;
        }
        v
    }

    /// Follows these symbols too.
    pub fn track(&mut self, symbols: &Vec<String>)
        ensures
            final(self).cache == old(self).cache,
            final(self).update_interval_secs == old(self).update_interval_secs,
            texts(final(self).symbols@) == with_missing(
                texts(old(self).symbols@),
                texts(symbols@),
                symbols@.len(),
            ),
    {
        let ghost start = texts(self.symbols@);
        let ghost all = texts(symbols@);
        let ghost kept = self.cache;
        let mut i: usize = 0;
        while i < symbols.len()
            invariant
                i <= symbols@.len(),
                all == texts(symbols@),
                self.cache == kept,
                self.update_interval_secs == old(self).update_interval_secs,
                texts(self.symbols@) == with_missing(start, all, i as nat),
            decreases symbols.len() - i,
        {
            let ghost before = texts(self.symbols@);
            let symbol = symbols[i].as_str();
            assert(all[i as int] == symbol@);
            if !list_contains(&self.symbols, symbol) {
                self.symbols.push(copy_of(symbol));
                assert(texts(self.symbols@) =~= before.push(symbol@));
            }
            i += 1;
        }
    }

    /// The last metrics of a symbol.
    pub fn get_metrics(&self, symbol: &str) -> (r: Option<LatestMetrics>)
        ensures
            r == self.metrics(symbol@),
    {
        match get_text(&self.cache, symbol) {
            Some(m) => Some(*m),
            None => None,
        }
    }

    /// Takes note of what the exchange told of a symbol: the first funding rate, as a
    /// text, the first open interest and the first ratio.
    pub fn update_symbol_metrics(
        &mut self,
        symbol: &str,
        funding_rate: Option<&str>,
        open_interest: Option<Dec>,
        long_short_ratio: Option<Dec>,
        now_ms: u64,
    )
        requires
            old(self).wf(),
        ensures
            final(self).wf(),
            final(self).symbols == old(self).symbols,
            final(self).update_interval_secs == old(self).update_interval_secs,
            final(self).metrics(symbol@) == Some(
                LatestMetrics {
                    funding_rate: match funding_rate {
                        Some(t) => Some(dec_or_zero(t@)),
                        None => None,
                    },
                    open_interest,
                    long_short_ratio,
                    last_update_ms: now_ms,
                },
            ),
            forall|s: Seq<char>|
                s != symbol@ ==> #[trigger] final(self).metrics(s) == old(self).metrics(s),
    {
        let rate = match funding_rate {
            Some(t) => Some(str_dec(t)),
            None => None,
        };
        put_text(
            &mut self.cache,
            symbol,
            LatestMetrics {
                funding_rate: rate,
                open_interest,
                long_short_ratio,
                last_update_ms: now_ms,
            },
        );
    }

    /// The last funding rate of a symbol.
    pub fn get_funding_rate(&self, symbol: &str) -> (r: Option<Dec>)
        ensures
            r == match self.metrics(symbol@) {
                Some(m) => m.funding_rate,
                None => None,
            },
    {
        match self.get_metrics(symbol) {
            Some(m) => m.funding_rate,
            None => None,
        }
    }

    /// The last open interest of a symbol.
    pub fn get_open_interest(&self, symbol: &str) -> (r: Option<Dec>)
        ensures
            r == match self.metrics(symbol@) {
                Some(m) => m.open_interest,
                None => None,
            },
    {
        match self.get_metrics(symbol) {
            Some(m) => m.open_interest,
            None => None,
        }
    }

    /// The last long/short ratio of a symbol.
    pub fn get_long_short_ratio(&self, symbol: &str) -> (r: Option<Dec>)
        ensures
            r == match self.metrics(symbol@) {
                Some(m) => m.long_short_ratio,
                None => None,
            },
    {
        match self.get_metrics(symbol) {
            Some(m) => m.long_short_ratio,
            None => None,
        }
    }
}

/// `r` are the points to go on with: those that were fetched, the last with the ratio that
/// is known; one made of that ratio, with accounts in balance, where nothing could be
/// fetched.
pub open spec fn merges_ratio(
    r: Option<Vec<LongShortRatioPoint>>,
    known: Option<Dec>,
    fetched: Option<Vec<LongShortRatioPoint>>,
    now_ms: u64,
) -> bool {
    match (known, fetched) {
        (None, _) => r == fetched,
        (Some(ratio), None) => r matches Some(points) && points@ == seq![
            LongShortRatioPoint {
                timestamp_ms: now_ms,
                long_short_ratio: ratio,
                long_account_pct: dec_of(50, 0),
                short_account_pct: dec_of(50, 0),
            },
        ],
        (Some(ratio), Some(points)) => r matches Some(merged) && if points@.len() == 0 {
            merged@ == points@
        } else {
            merged@ == points@.drop_last().push(
                LongShortRatioPoint { long_short_ratio: ratio, ..points@.last() },
            )
        },
    }
}

impl MetricsCache {
    /// The funding rate of a symbol that is known.
    pub open spec fn known_funding(&self, symbol: Seq<char>) -> Option<Dec> {
        match self.metrics(symbol) {
            Some(m) => m.funding_rate,
            None => None,
        }
    }

    /// The open interest in a symbol that is known.
    pub open spec fn known_interest(&self, symbol: Seq<char>) -> Option<Dec> {
        match self.metrics(symbol) {
            Some(m) => m.open_interest,
            None => None,
        }
    }

    /// The long/short ratio of a symbol that is known.
    pub open spec fn known_ratio(&self, symbol: Seq<char>) -> Option<Dec> {
        match self.metrics(symbol) {
            Some(m) => m.long_short_ratio,
            None => None,
        }
    }

    /// The funding rates to go on with: the one that is known; where none is, those that
    /// were fetched, or nothing where they could not be.
    pub fn get_funding_rates(
        &self,
        symbol: &str,
        fetched: Option<Vec<FundingRate>>,
        now_ms: u64,
    ) -> (r: Option<Vec<FundingRate>>)
        ensures
            match self.known_funding(symbol@) {
                Some(rate) => r matches Some(v) && v@.len() == 1 && writes_rate(
                    v@[0],
                    symbol@,
                    rate,
                    now_ms,
                ),
                None => r == fetched,
            },
    {
        match self.get_funding_rate(symbol) {
            Some(rate) => {
                let n = shortest_form(rate);
                let mut v: Vec<FundingRate> = Vec::new();
                v.push(
                    FundingRate {
                        symbol: copy_of(symbol),
                        funding_rate: n.to_text(),
                        funding_time_ms: now_ms,
                    },
                );
                assert(shortest(n, rate));
                Some(v)
            },
            None => fetched,
        }
    }

    /// The open interest to go on with: the one that is known; where none is, what was
    /// fetched, or nothing where it could not be.
    pub fn get_open_interest_hist(
        &self,
        symbol: &str,
        fetched: Option<Vec<OpenInterestPoint>>,
        now_ms: u64,
    ) -> (r: Option<Vec<OpenInterestPoint>>)
        ensures
            match self.known_interest(symbol@) {
                Some(open_interest) => r matches Some(v) && v@ == seq![
                    OpenInterestPoint { timestamp_ms: now_ms, open_interest },
                ],
                None => r == fetched,
            },
    {
        match self.get_open_interest(symbol) {
            Some(open_interest) => {
                let mut v: Vec<OpenInterestPoint> = Vec::new();
                v.push(OpenInterestPoint { timestamp_ms: now_ms, open_interest });
                assert(v@ =~= seq![v@[0]]);
                Some(v)
            },
            None => fetched,
        }
    }

    /// The long/short ratios to go on with.
    pub fn get_top_long_short_ratio(
        &self,
        symbol: &str,
        fetched: Option<Vec<LongShortRatioPoint>>,
        now_ms: u64,
    ) -> (r: Option<Vec<LongShortRatioPoint>>)
        ensures
            merges_ratio(r, self.known_ratio(symbol@), fetched, now_ms),
    {
        match (self.get_long_short_ratio(symbol), fetched) {
            (None, f) => f,
            (Some(ratio), None) => {
                let mut points: Vec<LongShortRatioPoint> = Vec::new();
                points.push(
                    LongShortRatioPoint {
                        timestamp_ms: now_ms,
                        long_short_ratio: ratio,
                        long_account_pct: Dec::new(50, 0),
                        short_account_pct: Dec::new(50, 0),
                    },
                );
                assert(points@ =~= seq![points@[0]]);
                Some(points)
            },
            (Some(ratio), Some(points)) => {
                let mut merged = points;
                let n: usize = merged.len();
                if n > 0 {
                    let last = merged[n - 1];
                    let ghost before = merged@;
                    merged.set(n - 1, LongShortRatioPoint { long_short_ratio: ratio, ..last });
                    assert(merged@ =~= before.drop_last().push(
                        LongShortRatioPoint { long_short_ratio: ratio, ..before.last() },
                    ));
                }
                Some(merged)
            },
        }
    }
}

/// Symbols of which something is known are not fetched again.
pub proof fn law_known_symbols_are_not_fetched(
    c: MetricsCache,
    symbols: Seq<Seq<char>>,
    n: nat,
    s: Seq<char>,
)
    requires
        c.metrics(s) is Some,
    ensures
        !unknown_symbols(c, symbols, n).contains(s),
    decreases n,
{
    if n > 0 {
        law_known_symbols_are_not_fetched(c, symbols, (n - 1) as nat, s);
        let head = unknown_symbols(c, symbols, (n - 1) as nat);
        let all = unknown_symbols(c, symbols, n);
        if all.contains(s) {
            let i = choose|i: int| 0 <= i < all.len() && all[i] == s;
            if i < head.len() {
                assert(head[i] == s);
                assert(head.contains(s));
            }
        }
    }
}

/// A symbol is to be fetched exactly where it is asked for and nothing is known of it.
pub proof fn law_symbols_to_fetch(c: MetricsCache, symbols: Seq<Seq<char>>, n: nat, s: Seq<char>)
    requires
        n <= symbols.len(),
    ensures
        unknown_symbols(c, symbols, n).contains(s) <==> symbols.take(n as int).contains(s)
            && c.metrics(s) is None,
    decreases n,
{
    if n > 0 {
        law_symbols_to_fetch(c, symbols, (n - 1) as nat, s);
        let a = symbols.take(n - 1);
        let b = symbols.take(n as int);
        let h = unknown_symbols(c, symbols, (n - 1) as nat);
        let r = unknown_symbols(c, symbols, n);
        assert(b[n - 1] == symbols[n - 1]);
        if a.contains(s) {
            assert(b[a.index_of(s)] == s);
        }
        if b.contains(s) && s != symbols[n - 1] {
            assert(a[b.index_of(s)] == s);
        }
        if h.contains(s) {
            assert(r[h.index_of(s)] == s);
        }
        if r.len() > h.len() {
            assert(r[r.len() - 1] == symbols[n - 1]);
        }
        if r.contains(s) && !h.contains(s) {
            let k = r.index_of(s);
            if k < h.len() {
                assert(h[k] == s);
            }
        }
    }
}

/// Symbols that are tracked stay, those that are asked for are added, and none is added twice.
pub proof fn law_tracked_symbols(
    list: Seq<Seq<char>>,
    symbols: Seq<Seq<char>>,
    n: nat,
    s: Seq<char>,
)
    requires
        n <= symbols.len(),
    ensures
        with_missing(list, symbols, n).contains(s) <==> list.contains(s) || symbols.take(
            n as int,
        ).contains(s),
        list.no_duplicates() ==> with_missing(list, symbols, n).no_duplicates(),
    decreases n,
{
    if n > 0 {
        law_tracked_symbols(list, symbols, (n - 1) as nat, s);
        law_tracked_symbols(list, symbols, (n - 1) as nat, symbols[n - 1]);
        let a = symbols.take(n - 1);
        let b = symbols.take(n as int);
        let h = with_missing(list, symbols, (n - 1) as nat);
        let r = with_missing(list, symbols, n);
        assert(b[n - 1] == symbols[n - 1]);
        if a.contains(s) {
            assert(b[a.index_of(s)] == s);
        }
        if b.contains(s) && s != symbols[n - 1] {
            assert(a[b.index_of(s)] == s);
        }
        if h.contains(s) {
            assert(r[h.index_of(s)] == s);
        }
        if r.len() > h.len() {
            assert(r[r.len() - 1] == symbols[n - 1]);
        }
        if r.contains(s) && !h.contains(s) {
            let k = r.index_of(s);
            if k < h.len() {
                assert(h[k] == s);
            }
        }
    }
}

/// A ratio that is known replaces that of the last point, and no other; without points it makes one
/// of its own; and what was fetched stays where nothing is known.
pub proof fn law_merged_ratios(
    r: Option<Vec<LongShortRatioPoint>>,
    known: Option<Dec>,
    fetched: Option<Vec<LongShortRatioPoint>>,
    now_ms: u64,
)
    requires
        merges_ratio(r, known, fetched, now_ms),
    ensures
        known is None ==> r == fetched,
        known is Some ==> r is Some,
        known is Some && fetched is None ==> r->0@.len() == 1 && r->0@[0].long_short_ratio
            == known->0 && r->0@[0].timestamp_ms == now_ms,
        known is Some && fetched is Some ==> r->0@.len() == fetched->0@.len() && forall|i: int|
            0 <= i < r->0@.len() - 1 ==> #[trigger] r->0@[i] == fetched->0@[i],
        known is Some && fetched is Some && fetched->0@.len() > 0 ==> r->0@.last().long_short_ratio
            == known->0 && r->0@.last().timestamp_ms == fetched->0@.last().timestamp_ms,
{
}

} // verus!
