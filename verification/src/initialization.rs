//! What is settled before the bot starts: buffer sizes and the quotes to trade in.
use vstd::prelude::*;

use crate::cache::{DepthCache, SymbolInfoCache};
use crate::config::{file_text, BotConfig, FileConfig};
use crate::connection::Connection;
use crate::decimal::{dec_of, Dec};
use crate::metrics_cache::MetricsCache;
use crate::text::same_text;

verus! {

/// How much each channel of the event bus buffers.
#[derive(Clone, Copy, Debug, PartialEq, Eq, Structural)]
pub struct EventBusConfig {
    pub market_tick_buffer: usize,
    pub trade_signal_buffer: usize,
    pub close_request_buffer: usize,
    pub order_update_buffer: usize,
    pub position_update_buffer: usize,
    pub balance_update_buffer: usize,
}

/// A setting of the event bus section: that of the file, else the default.
pub open spec fn buffer_or(o: Option<usize>, default: usize) -> usize {
    match o {
        Some(n) => n,
        None => default,
    }
}

/// The sizes that a file gives.
pub open spec fn buffers_of(file: FileConfig) -> EventBusConfig {
    match file.event_bus {
        Some(e) => EventBusConfig {
            market_tick_buffer: buffer_or(e.market_tick_buffer, 2000),
            trade_signal_buffer: buffer_or(e.trade_signal_buffer, 500),
            close_request_buffer: buffer_or(e.close_request_buffer, 500),
            order_update_buffer: buffer_or(e.order_update_buffer, 1000),
            position_update_buffer: buffer_or(e.position_update_buffer, 500),
            balance_update_buffer: buffer_or(e.balance_update_buffer, 100),
        },
        None => EventBusConfig {
            market_tick_buffer: 2000,
            trade_signal_buffer: 500,
            close_request_buffer: 500,
            order_update_buffer: 1000,
            position_update_buffer: 500,
            balance_update_buffer: 100,
        },
    }
}

fn or_default(o: Option<usize>, default: usize) -> (r: usize)
    ensures
        r == buffer_or(o, default),
{
    match o {
        Some(n) => n,
        None => default,
    }
}

impl EventBusConfig {
    pub fn from_file_config(file_cfg: &FileConfig) -> (r: EventBusConfig)
        ensures
            r == buffers_of(*file_cfg),
    {
        match &file_cfg.event_bus {
            Some(e) => EventBusConfig {
                market_tick_buffer: or_default(e.market_tick_buffer, 2000),
                trade_signal_buffer: or_default(e.trade_signal_buffer, 500),
                close_request_buffer: or_default(e.close_request_buffer, 500),
                order_update_buffer: or_default(e.order_update_buffer, 1000),
                position_update_buffer: or_default(e.position_update_buffer, 500),
                balance_update_buffer: or_default(e.balance_update_buffer, 100),
            },
            None => EventBusConfig {
                market_tick_buffer: 2000,
                trade_signal_buffer: 500,
                close_request_buffer: 500,
                order_update_buffer: 1000,
                position_update_buffer: 500,
                balance_update_buffer: 100,
            },
        }
    }
}

/// How often, in seconds, the metrics cache is updated.
pub open spec fn update_interval(file: FileConfig) -> u64 {
    match file.event_bus {
        Some(e) => match e.metrics_cache_update_interval_secs {
            Some(n) => n,
            None => 300,
        },
        None => 300,
    }
}

/// How often, in seconds, the metrics cache is updated.
pub fn metrics_cache_interval(file_cfg: &FileConfig) -> (r: u64)
    ensures
        r == update_interval(*file_cfg),
{
    match &file_cfg.event_bus {
        Some(e) => match e.metrics_cache_update_interval_secs {
            Some(n) => n,
            None => 300,
        },
        None => 300,
    }
}

/// The texts of a list.
pub open spec fn texts(v: Seq<String>) -> Seq<Seq<char>> {
    v.map_values(|s: String| s@)
}

/// The quote assets that a file allows.
pub open spec fn allowed_quotes(file: FileConfig) -> Seq<Seq<char>> {
    if file.allow_usdt_quote == Some(true) {
        seq!["USDT"@, "USDC"@]
    } else {
        match file_text(file.quote_asset) {
            Some(q) => seq![q],
            None => seq!["USDT"@],
        }
    }
}

/// Both dollar quotes where the file allows them, else the one quote of the file, else USDT.
pub fn determine_allowed_quotes(file_cfg: &FileConfig) -> (r: Vec<String>)
    ensures
        texts(r@) == allowed_quotes(*file_cfg),
{
    let mut v: Vec<String> = Vec::new();
    let both = match file_cfg.allow_usdt_quote {
        Some(b) => b,
        None => false,
    };
    if both {
        v.push("USDT".to_owned());
        v.push("USDC".to_owned());
    } else {
        match &file_cfg.quote_asset {
            Some(q) => v.push(q.as_str().to_owned()),
            None => v.push("USDT".to_owned()),
        }
    }
    assert(texts(v@) =~= allowed_quotes(*file_cfg));
    v
}

/// An asset of the account and how much of it is free.
#[derive(Clone, Debug)]
pub struct BalanceSnapshot {
    pub asset: String,
    pub free: Dec,
}

/// What is free of an asset: the first balance of that name, else nothing.
pub open spec fn free_of(b: Seq<BalanceSnapshot>, asset: Seq<char>) -> Dec
    decreases b.len(),
{
    if b.len() == 0 {
        dec_of(0, 0)
    } else if b[0].asset@ == asset {
        b[0].free
    } else {
        free_of(b.skip(1), asset)
    }
}

/// What is free of an asset.
pub fn free_balance(balances: &Vec<BalanceSnapshot>, asset: &str) -> (r: Dec)
    ensures
        r == free_of(balances@, asset@),
{
    let mut i: usize = 0;
    assert(balances@.skip(0) =~= balances@);
    while i < balances.len()
        invariant
            i <= balances.len(),
            free_of(balances@, asset@) == free_of(balances@.skip(i as int), asset@),
        decreases balances.len() - i,
    {
        if same_text(balances[i].asset.as_str(), asset) {
            return balances[i].free;
        }
        assert(balances@.skip(i as int).skip(1) =~= balances@.skip(i as int + 1));
        i += 1;
    }
    Dec::new(0, 0)
}

/// The quotes to trade in: those allowed that hold at least the threshold, USDT
/// before USDC; USDT where none does.
pub open spec fn quotes_in_use(
    allowed: Seq<Seq<char>>,
    usdt: int,
    usdc: int,
    threshold: int,
) -> Seq<Seq<char>> {
    let a = if allowed.contains("USDT"@) && usdt >= threshold {
        seq!["USDT"@]
    } else {
        Seq::empty()
    };
    let b = if allowed.contains("USDC"@) && usdc >= threshold {
        seq!["USDC"@]
    } else {
        Seq::empty()
    };
    if (a + b).len() == 0 {
        seq!["USDT"@]
    } else {
        a + b
    }
}

/// Whether a text is in a list.
pub fn list_contains(v: &Vec<String>, s: &str) -> (r: bool)
    ensures
        r == texts(v@).contains(s@),
{
    let mut i: usize = 0;
    while i < v.len()
        invariant
            i <= v.len(),
            forall|j: int| 0 <= j < i ==> (#[trigger] v@[j])@ != s@,
        decreases v.len() - i,
    {
        if same_text(v[i].as_str(), s) {
            assert(texts(v@)[i as int] == s@);
            return true;
        }
        i += 1;
    }
    proof {
        if texts(v@).contains(s@) {
            let k = texts(v@).index_of(s@);
            assert(v@[k]@ == s@);
        }
    }
    false
}

/// The quotes to trade in, from the balances at the start.
pub fn select_quotes(
    allowed: &Vec<String>,
    usdt_balance: Dec,
    usdc_balance: Dec,
    threshold: Dec,
) -> (r: Vec<String>)
    ensures
        texts(r@) == quotes_in_use(
            texts(allowed@),
            usdt_balance@,
            usdc_balance@,
            threshold@,
        ),
{
    let mut v: Vec<String> = Vec::new();
    if list_contains(allowed, "USDT") && threshold.le(&usdt_balance) {
        v.push("USDT".to_owned());
    }
    if list_contains(allowed, "USDC") && threshold.le(&usdc_balance) {
        v.push("USDC".to_owned());
    }
    if v.len() == 0 {
        v.push("USDT".to_owned());
    }
    assert(texts(v@) =~= quotes_in_use(
        texts(allowed@),
        usdt_balance@,
        usdc_balance@,
        threshold@,
    ));
    v
}

/// What the bot starts with.
pub struct AppComponents {
    pub connection: Connection,
    pub symbol_cache: SymbolInfoCache,
    pub depth_cache: DepthCache,
    pub metrics_cache: MetricsCache,
    /// The quote assets to trade in.
    pub quotes: Vec<String>,
    pub file_config: FileConfig,
}

/// The balances that were fetched; none where they could not be.
pub open spec fn told_balances(balances: Option<Vec<BalanceSnapshot>>) -> Seq<BalanceSnapshot> {
    match balances {
        Some(b) => b@,
        None => Seq::empty(),
    }
}

/// What the bot starts with: empty caches, and the quotes of which the account holds
/// at least the threshold. Balances that could not be fetched count as nothing.
pub fn initialize_app(
    config: BotConfig,
    file_config: FileConfig,
    balances: Option<Vec<BalanceSnapshot>>,
    threshold: Dec,
) -> (r: AppComponents)
    ensures
        r.connection.config == config,
        r.symbol_cache.wf(),
        forall|s: Seq<char>| #[trigger] r.symbol_cache.info(s) is None,
        r.depth_cache.wf(),
        forall|s: Seq<char>| #[trigger] r.depth_cache.last_prices(s) is None,
        r.metrics_cache.wf(),
        forall|s: Seq<char>| #[trigger] r.metrics_cache.metrics(s) is None,
        r.metrics_cache.symbols@.len() == 0,
        r.metrics_cache.update_interval_secs == update_interval(file_config),
        texts(r.quotes@) == quotes_in_use(
            allowed_quotes(file_config),
            free_of(told_balances(balances), "USDT"@)@,
            free_of(told_balances(balances), "USDC"@)@,
            threshold@,
        ),
        r.file_config == file_config,
{
    let known: Vec<BalanceSnapshot> = match balances {
        Some(b) => b,
        None => Vec::new(),
    };
    assert(known@ =~= told_balances(balances));
    let usdt = free_balance(&known, "USDT");
    let usdc = free_balance(&known, "USDC");
    let quotes = select_quotes(&determine_allowed_quotes(&file_config), usdt, usdc, threshold);
    AppComponents {
        connection: Connection::new(config),
        symbol_cache: SymbolInfoCache::new(),
        depth_cache: DepthCache::new(),
        metrics_cache: MetricsCache::new(metrics_cache_interval(&file_config)),
        quotes,
        file_config,
    }
}

/// There is always a quote to trade in, and it is USDT or USDC.
pub proof fn law_a_quote_is_in_use(
    allowed: Seq<Seq<char>>,
    usdt: int,
    usdc: int,
    threshold: int,
)
    ensures
        1 <= quotes_in_use(allowed, usdt, usdc, threshold).len() <= 2,
        forall|i: int|
            0 <= i < quotes_in_use(allowed, usdt, usdc, threshold).len() ==> {
                ||| #[trigger] quotes_in_use(allowed, usdt, usdc, threshold)[i] == "USDT"@
                ||| quotes_in_use(allowed, usdt, usdc, threshold)[i] == "USDC"@
            },
{
}

/// A coin is in use where it is allowed and there is enough of it, the dollar coin of the first kind
/// before the other; where neither is, that of the first kind is.
pub proof fn law_coins_in_use(allowed: Seq<Seq<char>>, usdt: int, usdc: int, threshold: int)
    ensures
        ({
            let q = quotes_in_use(allowed, usdt, usdc, threshold);
            let a = allowed.contains("USDT"@) && usdt >= threshold;
            let b = allowed.contains("USDC"@) && usdc >= threshold;
            &&& a && b ==> q == seq!["USDT"@, "USDC"@]
            &&& a && !b ==> q == seq!["USDT"@]
            &&& !a && b ==> q == seq!["USDC"@]
            &&& !a && !b ==> q == seq!["USDT"@]
        }),
{
    let q = quotes_in_use(allowed, usdt, usdc, threshold);
    let a = allowed.contains("USDT"@) && usdt >= threshold;
    let b = allowed.contains("USDC"@) && usdc >= threshold;
    if a && b {
        assert(q =~= seq!["USDT"@, "USDC"@]);
    } else if b {
        assert(q =~= seq!["USDC"@]);
    } else {
        assert(q =~= seq!["USDT"@]);
    }
}

/// What is free of an asset is told by its first entry; nothing without one.
pub proof fn law_free_balances(b: Seq<BalanceSnapshot>, asset: Seq<char>, i: int)
    requires
        0 <= i < b.len(),
        b[i].asset@ == asset,
        forall|j: int| 0 <= j < i ==> (#[trigger] b[j]).asset@ != asset,
    ensures
        free_of(b, asset) == b[i].free,
    decreases i,
{
    if i > 0 {
        assert(b[0].asset@ != asset);
        let rest = b.skip(1);
        assert(rest[i - 1] == b[i]);
        assert forall|j: int| 0 <= j < i - 1 implies (#[trigger] rest[j]).asset@ != asset by {
            assert(rest[j] == b[j + 1]);
        }
        law_free_balances(rest, asset, i - 1);
    }
}

/// What holds where the file says nothing: how much each channel holds, and that metrics are
/// fetched every five minutes. What it says is taken.
pub proof fn law_buffers(file: FileConfig)
    ensures
        ({
            let b = buffers_of(file);
            &&& file.event_bus is None ==> b.market_tick_buffer == 2000 && b.trade_signal_buffer
                == 500 && b.close_request_buffer == 500 && b.order_update_buffer == 1000
                && b.position_update_buffer == 500 && b.balance_update_buffer == 100
                && update_interval(file) == 300
            &&& file.event_bus matches Some(e) ==> {
                &&& b.market_tick_buffer == e.market_tick_buffer.unwrap_or(2000)
                &&& b.trade_signal_buffer == e.trade_signal_buffer.unwrap_or(500)
                &&& b.close_request_buffer == e.close_request_buffer.unwrap_or(500)
                &&& b.order_update_buffer == e.order_update_buffer.unwrap_or(1000)
                &&& b.position_update_buffer == e.position_update_buffer.unwrap_or(500)
                &&& b.balance_update_buffer == e.balance_update_buffer.unwrap_or(100)
                &&& update_interval(file) == e.metrics_cache_update_interval_secs.unwrap_or(300)
            }
        }),
{
}

/// Both coins are allowed only where that is said; otherwise the one that is named, or the first.
pub proof fn law_allowed_coins(file: FileConfig)
    ensures
        file.allow_usdt_quote == Some(true) ==> allowed_quotes(file) == seq!["USDT"@, "USDC"@],
        file.allow_usdt_quote != Some(true) ==> allowed_quotes(file).len() == 1,
        file.allow_usdt_quote != Some(true) && file.quote_asset is None ==> allowed_quotes(file)
            == seq!["USDT"@],
        file.allow_usdt_quote != Some(true) ==> (file.quote_asset matches Some(q)
            ==> allowed_quotes(file) == seq![q@]),
{
}

} // verus!
