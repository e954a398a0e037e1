//! The settings of the bot: where each comes from, and which are refused.
//!
//! A setting is taken from the environment, else from the configuration file,
//! else it has a default. Numbers with a fraction are decimal numbers.
use vstd::prelude::*;

use crate::decimal::{dec_of, lemma_powers, lemma_value, one, Dec};
use crate::numbers::{
    parse_i64, parse_u64, parse_usize, plain_number, read_plain, signed_i64, unsigned_up_to,
};
use crate::text::{lowercase, same_text};

verus! {

/// The exchange section of the configuration file.
#[derive(Clone, Debug, Default)]
pub struct BinanceFile {
    pub api_key: Option<String>,
    pub secret_key: Option<String>,
    pub futures_base: Option<String>,
    pub recv_window_ms: Option<u64>,
}

/// The signal section of the configuration file.
#[derive(Clone, Copy, Debug, Default)]
pub struct TrendingFile {
    pub ema_fast_period: Option<usize>,
    pub ema_slow_period: Option<usize>,
    pub rsi_period: Option<usize>,
    pub atr_period: Option<usize>,
    pub rsi_lower_long: Option<Dec>,
    pub rsi_upper_long: Option<Dec>,
    pub atr_sl_multiplier: Option<Dec>,
    pub atr_tp_multiplier: Option<Dec>,
    pub signal_cooldown_seconds: Option<i64>,
    pub warmup_min_ticks: Option<usize>,
    pub hft_mode: Option<bool>,
    pub base_min_score: Option<Dec>,
    pub trend_threshold_hft: Option<Dec>,
    pub trend_threshold_normal: Option<Dec>,
    pub weak_trend_score_multiplier: Option<Dec>,
    pub regime_multiplier_trending: Option<Dec>,
    pub regime_multiplier_ranging: Option<Dec>,
    pub enable_enhanced_scoring: Option<bool>,
    pub enhanced_score_excellent: Option<Dec>,
    pub enhanced_score_good: Option<Dec>,
    pub enhanced_score_marginal: Option<Dec>,
    pub enable_order_flow: Option<bool>,
    pub fee_bps_round_trip: Option<Dec>,
    pub max_holding_bars: Option<usize>,
    pub slippage_bps: Option<Dec>,
    pub min_holding_bars: Option<usize>,
    pub min_volume_ratio: Option<Dec>,
    pub max_volatility_pct: Option<Dec>,
    pub max_price_change_5bars_pct: Option<Dec>,
    pub enable_signal_quality_filter: Option<bool>,
    pub market_tick_stale_tolerance_secs: Option<i64>,
}

/// The risk section of the configuration file.
#[derive(Clone, Copy, Debug, Default)]
pub struct RiskFile {
    pub liq_window_secs: Option<u64>,
    pub use_isolated_margin: Option<bool>,
    pub max_position_notional_usd: Option<Dec>,
    pub ws_disconnect_close_positions: Option<bool>,
    pub ws_disconnect_timeout_secs: Option<i64>,
}

/// The paper trading section of the configuration file.
#[derive(Clone, Debug, Default)]
pub struct PaperTradingFile {
    pub enabled: Option<bool>,
    pub log_file: Option<String>,
}

/// The event bus section of the configuration file.
#[derive(Clone, Copy, Debug, Default)]
pub struct EventBusFile {
    pub market_tick_buffer: Option<usize>,
    pub trade_signal_buffer: Option<usize>,
    pub close_request_buffer: Option<usize>,
    pub order_update_buffer: Option<usize>,
    pub position_update_buffer: Option<usize>,
    pub balance_update_buffer: Option<usize>,
    pub metrics_cache_update_interval_secs: Option<u64>,
}

/// The configuration file.
#[derive(Clone, Debug, Default)]
pub struct FileConfig {
    pub binance: Option<BinanceFile>,
    pub trending: Option<TrendingFile>,
    pub risk: Option<RiskFile>,
    pub paper_trading: Option<PaperTradingFile>,
    pub event_bus: Option<EventBusFile>,
    pub symbols: Vec<String>,
    pub allow_usdt_quote: Option<bool>,
    pub quote_asset: Option<String>,
    pub leverage: Option<Dec>,
    pub take_profit_pct: Option<Dec>,
    pub stop_loss_pct: Option<Dec>,
    pub max_usd_per_order: Option<Dec>,
    pub min_margin_usd: Option<Dec>,
    pub min_quote_balance_usd: Option<Dec>,
}

/// The variables of the environment, each a name and a value.
#[derive(Clone, Debug, Default)]
pub struct Environment {
    pub vars: Vec<(String, String)>,
}

/// The value of the first variable that is named `key`.
pub open spec fn lookup(vars: Seq<(String, String)>, key: Seq<char>) -> Option<Seq<char>>
    decreases vars.len(),
{
    if vars.len() == 0 {
        None
    } else if vars[0].0@ == key {
        Some(vars[0].1@)
    } else {
        lookup(vars.skip(1), key)
    }
}

impl Environment {
    /// The value of a variable.
    pub open spec fn value(self, key: Seq<char>) -> Option<Seq<char>> {
        lookup(self.vars@, key)
    }

    /// The value of a variable.
    pub fn get(&self, key: &str) -> (r: Option<&str>)
        ensures
            r is Some <==> self.value(key@) is Some,
            r matches Some(v) ==> self.value(key@) == Some(v@),
    {
        let mut i: usize = 0;
        assert(self.vars@.skip(0) =~= self.vars@);
        while i < self.vars.len()
            invariant
                i <= self.vars.len(),
                self.value(key@) == lookup(self.vars@.skip(i as int), key@),
            decreases self.vars.len() - i,
        {
            assert(self.vars@.skip(i as int)[0] == self.vars@[i as int]);
            assert(self.vars@.skip(i as int).skip(1) =~= self.vars@.skip(i as int + 1));
            if same_text(self.vars[i].0.as_str(), key) {
                return Some(self.vars[i].1.as_str());
            }
            i += 1;
        }
        None
    }
}

/// A text of the configuration file.
pub open spec fn file_text(o: Option<String>) -> Option<Seq<char>> {
    match o {
        Some(s) => Some(s@),
        None => None,
    }
}

/// A text: the variable unless it is missing or empty, else the file, else the default.
pub open spec fn text_setting(
    env: Environment,
    key: Seq<char>,
    file: Option<Seq<char>>,
    default: Seq<char>,
) -> Seq<char> {
    match env.value(key) {
        Some(v) if v.len() > 0 => v,
        _ => match file {
            Some(f) => f,
            None => default,
        },
    }
}

/// A number: what could be read from a variable, else the file, else the default.
pub open spec fn setting<T>(read: Option<T>, file: Option<T>, default: T) -> T {
    match read {
        Some(v) => v,
        None => match file {
            Some(f) => f,
            None => default,
        },
    }
}

/// The decimal number that a variable holds.
pub open spec fn env_dec(env: Environment, key: Seq<char>) -> Option<Dec> {
    match env.value(key) {
        Some(v) => plain_number(v),
        None => None,
    }
}

/// The unsigned integer up to `max` that a variable holds.
pub open spec fn env_nat(env: Environment, key: Seq<char>, max: nat) -> Option<nat> {
    match env.value(key) {
        Some(v) => unsigned_up_to(v, max),
        None => None,
    }
}

/// The count that a variable holds.
pub open spec fn env_usize(env: Environment, key: Seq<char>) -> Option<usize> {
    match env_nat(env, key, usize::MAX as nat) {
        Some(n) => Some(n as usize),
        None => None,
    }
}

/// The unsigned integer that a variable holds.
pub open spec fn env_u64(env: Environment, key: Seq<char>) -> Option<u64> {
    match env_nat(env, key, u64::MAX as nat) {
        Some(n) => Some(n as u64),
        None => None,
    }
}

/// The signed integer that a variable holds.
pub open spec fn env_i64(env: Environment, key: Seq<char>) -> Option<i64> {
    match env.value(key) {
        Some(v) => match signed_i64(v) {
            Some(n) => Some(n as i64),
            None => None,
        },
        None => None,
    }
}

/// What a text says of a switch: `true` or `false`, and in any case `true`, `1`,
/// `yes`, `false`, `0` or `no`.
pub open spec fn switch_of(v: Seq<char>) -> Option<bool> {
    if v == "true"@ {
        Some(true)
    } else if v == "false"@ {
        Some(false)
    } else {
        let l = lowercase(v);
        if l == "true"@ || l == "1"@ || l == "yes"@ {
            Some(true)
        } else if l == "false"@ || l == "0"@ || l == "no"@ {
            Some(false)
        } else {
            None
        }
    }
}

/// The switch that a variable holds.
pub open spec fn env_bool(env: Environment, key: Seq<char>) -> Option<bool> {
    match env.value(key) {
        Some(v) => switch_of(v),
        None => None,
    }
}

fn string_setting(env: &Environment, key: &str, file: &Option<String>, default: &str) -> (r: String)
    ensures
        r@ == text_setting(*env, key@, file_text(*file), default@),
{
    if let Some(v) = env.get(key) {
        if !v.is_empty() {
            return v.to_owned();
        }
    }
    match file {
        Some(f) => f.as_str().to_owned(),
        None => default.to_owned(),
    }
}

fn decimal_setting(env: &Environment, key: &str, file: Option<Dec>, default: Dec) -> (r: Dec)
    ensures
        r == setting(env_dec(*env, key@), file, default),
{
    match read_decimal(env, key) {
        Some(v) => v,
        None => match file {
            Some(f) => f,
            None => default,
        },
    }
}

fn read_decimal(env: &Environment, key: &str) -> (r: Option<Dec>)
    ensures
        r == env_dec(*env, key@),
{
    match env.get(key) {
        Some(v) => read_plain(v),
        None => None,
    }
}

fn usize_setting(env: &Environment, key: &str, file: Option<usize>, default: usize) -> (r: usize)
    ensures
        r == setting(env_usize(*env, key@), file, default),
{
    if let Some(v) = env.get(key) {
        if let Some(n) = parse_usize(v) {
            return n;
        }
    }
    match file {
        Some(f) => f,
        None => default,
    }
}

fn u64_setting(env: &Environment, key: &str, file: Option<u64>, default: u64) -> (r: u64)
    ensures
        r == setting(env_u64(*env, key@), file, default),
{
    if let Some(v) = env.get(key) {
        if let Some(n) = parse_u64(v) {
            return n;
        }
    }
    match file {
        Some(f) => f,
        None => default,
    }
}

fn i64_setting(env: &Environment, key: &str, file: Option<i64>, default: i64) -> (r: i64)
    ensures
        r == setting(env_i64(*env, key@), file, default),
{
    if let Some(v) = env.get(key) {
        if let Some(n) = parse_i64(v) {
            return n;
        }
    }
    match file {
        Some(f) => f,
        None => default,
    }
}

fn bool_setting(env: &Environment, key: &str, file: Option<bool>, default: bool) -> (r: bool)
    ensures
        r == setting(env_bool(*env, key@), file, default),
{
    if let Some(v) = env.get(key) {
        if same_text(v, "true") {
            return true;
        }
        if same_text(v, "false") {
            return false;
        }
        let l = v.to_lowercase();
        if same_text(l.as_str(), "true") || same_text(l.as_str(), "1") || same_text(
            l.as_str(),
            "yes",
        ) {
            return true;
        }
        if same_text(l.as_str(), "false") || same_text(l.as_str(), "0") || same_text(
            l.as_str(),
            "no",
        ) {
            return false;
        }
    }
    match file {
        Some(f) => f,
        None => default,
    }
}

/// The settings of the bot.
#[derive(Clone, Debug)]
pub struct BotConfig {
    pub api_key: String,
    pub api_secret: String,
    pub base_url: String,
    pub ws_base_url: String,
    pub symbol: String,
    pub quote_asset: String,
    pub leverage: Dec,
    pub tp_percent: Dec,
    pub sl_percent: Dec,
    pub position_size_quote: Dec,
    pub ema_fast_period: usize,
    pub ema_slow_period: usize,
    pub rsi_period: usize,
    pub atr_period: usize,
    pub rsi_long_min: Dec,
    pub rsi_short_max: Dec,
    pub atr_rising_factor: Dec,
    pub atr_sl_multiplier: Dec,
    pub atr_tp_multiplier: Dec,
    pub obi_long_min: Dec,
    pub obi_short_max: Dec,
    pub funding_max_for_long: Dec,
    pub funding_min_for_short: Dec,
    pub long_min_score: usize,
    pub short_min_score: usize,
    pub signal_cooldown_secs: i64,
    pub warmup_min_ticks: usize,
    pub recv_window_ms: u64,
    pub liq_long_cluster_min: Option<Dec>,
    pub liq_short_cluster_min: Option<Dec>,
    pub liq_window_secs: u64,
    pub use_isolated_margin: bool,
    pub min_margin_usd: Dec,
    pub max_position_notional_usd: Dec,
    pub min_quote_balance_usd: Dec,
    pub max_slippage_bps: Dec,
    pub hft_mode: bool,
    pub base_min_score: Dec,
    pub trend_threshold_hft: Dec,
    pub trend_threshold_normal: Dec,
    pub weak_trend_score_multiplier: Dec,
    pub regime_multiplier_trending: Dec,
    pub regime_multiplier_ranging: Dec,
    pub enable_enhanced_scoring: bool,
    pub enhanced_score_excellent: Dec,
    pub enhanced_score_good: Dec,
    pub enhanced_score_marginal: Dec,
    pub enable_order_flow: bool,
    pub fee_bps_round_trip: Dec,
    pub max_holding_bars: usize,
    pub slippage_bps: Dec,
    pub min_holding_bars: usize,
    pub min_volume_ratio: Dec,
    pub max_volatility_pct: Dec,
    pub max_price_change_5bars_pct: Dec,
    pub enable_signal_quality_filter: bool,
    pub paper_trading_enabled: bool,
    pub paper_trading_log_file: String,
    pub market_tick_stale_tolerance_secs: i64,
    pub ws_disconnect_close_positions: bool,
    pub ws_disconnect_timeout_secs: i64,
}

/// The settings that signals are generated with.
#[derive(Clone, Copy, Debug)]
pub struct TrendParams {
    pub leverage: Dec,
    pub position_size_quote: Dec,
    pub ema_fast_period: usize,
    pub ema_slow_period: usize,
    pub rsi_period: usize,
    pub atr_period: usize,
    pub rsi_long_min: Dec,
    pub rsi_short_max: Dec,
    pub atr_rising_factor: Dec,
    pub atr_sl_multiplier: Dec,
    pub atr_tp_multiplier: Dec,
    pub obi_long_min: Dec,
    pub obi_short_max: Dec,
    pub funding_max_for_long: Dec,
    pub funding_min_for_short: Dec,
    pub long_min_score: usize,
    pub short_min_score: usize,
    pub signal_cooldown_secs: i64,
    pub warmup_min_ticks: usize,
    pub hft_mode: bool,
    pub base_min_score: Dec,
    pub trend_threshold_hft: Dec,
    pub trend_threshold_normal: Dec,
    pub weak_trend_score_multiplier: Dec,
    pub regime_multiplier_trending: Dec,
    pub regime_multiplier_ranging: Dec,
    pub enable_enhanced_scoring: bool,
    pub enhanced_score_excellent: Dec,
    pub enhanced_score_good: Dec,
    pub enhanced_score_marginal: Dec,
    pub enable_order_flow: bool,
    pub fee_bps_round_trip: Dec,
    pub max_holding_bars: usize,
    pub slippage_bps: Dec,
    pub min_holding_bars: usize,
    pub min_volume_ratio: Dec,
    pub max_volatility_pct: Dec,
    pub max_price_change_5bars_pct: Dec,
    pub enable_signal_quality_filter: bool,
    pub market_tick_stale_tolerance_secs: i64,
}

/// A trending section without a setting.
pub open spec fn no_trending() -> TrendingFile {
    TrendingFile {
        ema_fast_period: None,
        ema_slow_period: None,
        rsi_period: None,
        atr_period: None,
        rsi_lower_long: None,
        rsi_upper_long: None,
        atr_sl_multiplier: None,
        atr_tp_multiplier: None,
        signal_cooldown_seconds: None,
        warmup_min_ticks: None,
        hft_mode: None,
        base_min_score: None,
        trend_threshold_hft: None,
        trend_threshold_normal: None,
        weak_trend_score_multiplier: None,
        regime_multiplier_trending: None,
        regime_multiplier_ranging: None,
        enable_enhanced_scoring: None,
        enhanced_score_excellent: None,
        enhanced_score_good: None,
        enhanced_score_marginal: None,
        enable_order_flow: None,
        fee_bps_round_trip: None,
        max_holding_bars: None,
        slippage_bps: None,
        min_holding_bars: None,
        min_volume_ratio: None,
        max_volatility_pct: None,
        max_price_change_5bars_pct: None,
        enable_signal_quality_filter: None,
        market_tick_stale_tolerance_secs: None,
    }
}

fn trending_section(file: &FileConfig) -> (r: TrendingFile)
    ensures
        r == trending_of(*file),
{
    match file.trending {
        Some(s) => s,
        None => TrendingFile {
            ema_fast_period: None,
            ema_slow_period: None,
            rsi_period: None,
            atr_period: None,
            rsi_lower_long: None,
            rsi_upper_long: None,
            atr_sl_multiplier: None,
            atr_tp_multiplier: None,
            signal_cooldown_seconds: None,
            warmup_min_ticks: None,
            hft_mode: None,
            base_min_score: None,
            trend_threshold_hft: None,
            trend_threshold_normal: None,
            weak_trend_score_multiplier: None,
            regime_multiplier_trending: None,
            regime_multiplier_ranging: None,
            enable_enhanced_scoring: None,
            enhanced_score_excellent: None,
            enhanced_score_good: None,
            enhanced_score_marginal: None,
            enable_order_flow: None,
            fee_bps_round_trip: None,
            max_holding_bars: None,
            slippage_bps: None,
            min_holding_bars: None,
            min_volume_ratio: None,
            max_volatility_pct: None,
            max_price_change_5bars_pct: None,
            enable_signal_quality_filter: None,
            market_tick_stale_tolerance_secs: None,
        },
    }
}

/// The trending section of a file.
pub open spec fn trending_of(file: FileConfig) -> TrendingFile {
    match file.trending {
        Some(s) => s,
        None => no_trending(),
    }
}

/// A risk section without a setting.
pub open spec fn no_risk() -> RiskFile {
    RiskFile {
        liq_window_secs: None,
        use_isolated_margin: None,
        max_position_notional_usd: None,
        ws_disconnect_close_positions: None,
        ws_disconnect_timeout_secs: None,
    }
}

fn risk_section(file: &FileConfig) -> (r: RiskFile)
    ensures
        r == risk_of(*file),
{
    match file.risk {
        Some(s) => s,
        None => RiskFile {
            liq_window_secs: None,
            use_isolated_margin: None,
            max_position_notional_usd: None,
            ws_disconnect_close_positions: None,
            ws_disconnect_timeout_secs: None,
        },
    }
}

/// The risk section of a file.
pub open spec fn risk_of(file: FileConfig) -> RiskFile {
    match file.risk {
        Some(s) => s,
        None => no_risk(),
    }
}

/// `binance.api_key` of a file.
pub open spec fn binance_api_key(file: FileConfig) -> Option<Seq<char>> {
    match file.binance {
        Some(s) => file_text(s.api_key),
        None => None,
    }
}

/// `binance.secret_key` of a file.
pub open spec fn binance_secret_key(file: FileConfig) -> Option<Seq<char>> {
    match file.binance {
        Some(s) => file_text(s.secret_key),
        None => None,
    }
}

/// `binance.futures_base` of a file.
pub open spec fn binance_futures_base(file: FileConfig) -> Option<Seq<char>> {
    match file.binance {
        Some(s) => file_text(s.futures_base),
        None => None,
    }
}

/// `binance.recv_window_ms` of a file.
pub open spec fn binance_recv_window_ms(file: FileConfig) -> Option<u64> {
    match file.binance {
        Some(s) => s.recv_window_ms,
        None => None,
    }
}

/// `paper_trading.enabled` of a file.
pub open spec fn paper_trading_enabled(file: FileConfig) -> Option<bool> {
    match file.paper_trading {
        Some(s) => s.enabled,
        None => None,
    }
}

/// `paper_trading.log_file` of a file.
pub open spec fn paper_trading_log_file(file: FileConfig) -> Option<Seq<char>> {
    match file.paper_trading {
        Some(s) => file_text(s.log_file),
        None => None,
    }
}

/// The first symbol of a file.
pub open spec fn first_symbol(file: FileConfig) -> Option<Seq<char>> {
    if file.symbols@.len() == 0 {
        None
    } else {
        Some(file.symbols@[0]@)
    }
}

/// `cfg` holds the settings that the environment and the file give.
pub open spec fn configured(cfg: BotConfig, env: Environment, file: FileConfig) -> bool {
    &&& cfg.api_key@ == text_setting(env, "BINANCE_API_KEY"@, binance_api_key(file), ""@)
    &&& cfg.api_secret@ == text_setting(env, "BINANCE_API_SECRET"@, binance_secret_key(file), ""@)
    &&& cfg.base_url@ == text_setting(env, "BINANCE_BASE_URL"@, binance_futures_base(file), "https://fapi.binance.com"@)
    &&& cfg.ws_base_url@ == text_setting(env, "BINANCE_WS_URL"@, None, "wss://fstream.binance.com"@)
    &&& cfg.symbol@ == text_setting(env, "BOT_SYMBOL"@, first_symbol(file), "BTCUSDT"@)
    &&& cfg.quote_asset@ == text_setting(env, "BOT_QUOTE_ASSET"@, file_text(file.quote_asset), "USDT"@)
    &&& cfg.leverage == setting(env_dec(env, "BOT_LEVERAGE"@), file.leverage, dec_of(10, 0))
    &&& cfg.tp_percent == setting(env_dec(env, "BOT_TP_PERCENT"@), file.take_profit_pct, dec_of(1, 0))
    &&& cfg.sl_percent == setting(env_dec(env, "BOT_SL_PERCENT"@), file.stop_loss_pct, dec_of(5, 1))
    &&& cfg.position_size_quote == setting(
        env_dec(env, "BOT_POSITION_SIZE_QUOTE"@),
        Some(setting(env_dec(env, "BOT_MAX_POSITION_USDT"@), file.max_usd_per_order, dec_of(50, 0))),
        dec_of(50, 0),
    )
    &&& cfg.ema_fast_period == setting(env_usize(env, "BOT_EMA_FAST_PERIOD"@), trending_of(file).ema_fast_period, 21usize)
    &&& cfg.ema_slow_period == setting(env_usize(env, "BOT_EMA_SLOW_PERIOD"@), trending_of(file).ema_slow_period, 55usize)
    &&& cfg.rsi_period == setting(env_usize(env, "BOT_RSI_PERIOD"@), trending_of(file).rsi_period, 14usize)
    &&& cfg.atr_period == setting(env_usize(env, "BOT_ATR_PERIOD"@), trending_of(file).atr_period, 14usize)
    &&& cfg.rsi_long_min == setting(env_dec(env, "BOT_RSI_LONG_MIN"@), trending_of(file).rsi_lower_long, dec_of(55, 0))
    &&& cfg.rsi_short_max == setting(env_dec(env, "BOT_RSI_SHORT_MAX"@), trending_of(file).rsi_upper_long, dec_of(45, 0))
    &&& cfg.atr_rising_factor == setting(env_dec(env, "BOT_ATR_RISING_FACTOR"@), None, dec_of(102, 2))
    &&& cfg.atr_sl_multiplier == setting(env_dec(env, "BOT_ATR_SL_MULTIPLIER"@), trending_of(file).atr_sl_multiplier, dec_of(2, 0))
    &&& cfg.atr_tp_multiplier == setting(env_dec(env, "BOT_ATR_TP_MULTIPLIER"@), trending_of(file).atr_tp_multiplier, dec_of(4, 0))
    &&& cfg.obi_long_min == setting(env_dec(env, "BOT_OBI_LONG_MIN"@), None, dec_of(115, 2))
    &&& cfg.obi_short_max == setting(env_dec(env, "BOT_OBI_SHORT_MAX"@), None, dec_of(85, 2))
    &&& cfg.funding_max_for_long == setting(env_dec(env, "BOT_FUNDING_MAX_FOR_LONG"@), None, dec_of(0, 0))
    &&& cfg.funding_min_for_short == setting(env_dec(env, "BOT_FUNDING_MIN_FOR_SHORT"@), None, dec_of(0, 0))
    &&& cfg.long_min_score == setting(env_usize(env, "BOT_LONG_MIN_SCORE"@), None, 4usize)
    &&& cfg.short_min_score == setting(env_usize(env, "BOT_SHORT_MIN_SCORE"@), None, 4usize)
    &&& cfg.signal_cooldown_secs == setting(env_i64(env, "BOT_SIGNAL_COOLDOWN_SECS"@), trending_of(file).signal_cooldown_seconds, 30i64)
    &&& cfg.warmup_min_ticks == setting(env_usize(env, "BOT_WARMUP_MIN_TICKS"@), trending_of(file).warmup_min_ticks, (cfg.ema_slow_period + 10) as usize)
    &&& cfg.recv_window_ms == setting(env_u64(env, "BINANCE_RECV_WINDOW_MS"@), binance_recv_window_ms(file), 2500u64)
    &&& cfg.liq_long_cluster_min == env_dec(env, "BOT_LIQ_LONG_CLUSTER_MIN"@)
    &&& cfg.liq_short_cluster_min == env_dec(env, "BOT_LIQ_SHORT_CLUSTER_MIN"@)
    &&& cfg.liq_window_secs == setting(env_u64(env, "BOT_LIQ_WINDOW_SECS"@), risk_of(file).liq_window_secs, 30u64)
    &&& cfg.use_isolated_margin == setting(env_bool(env, "BOT_USE_ISOLATED_MARGIN"@), risk_of(file).use_isolated_margin, false)
    &&& cfg.min_margin_usd == setting(env_dec(env, "BOT_MIN_MARGIN_USD"@), file.min_margin_usd, dec_of(10, 0))
    &&& cfg.max_position_notional_usd == setting(env_dec(env, "BOT_MAX_POSITION_NOTIONAL_USD"@), risk_of(file).max_position_notional_usd, dec_of(30000, 0))
    &&& cfg.min_quote_balance_usd == setting(env_dec(env, "BOT_MIN_QUOTE_BALANCE_USD"@), file.min_quote_balance_usd, dec_of(20, 0))
    &&& cfg.max_slippage_bps == setting(env_dec(env, "BOT_MAX_SLIPPAGE_BPS"@), None, dec_of(25, 0))
    &&& cfg.hft_mode == setting(env_bool(env, "BOT_HFT_MODE"@), trending_of(file).hft_mode, false)
    &&& cfg.base_min_score == setting(env_dec(env, "BOT_BASE_MIN_SCORE"@), trending_of(file).base_min_score, dec_of(65, 1))
    &&& cfg.trend_threshold_hft == setting(env_dec(env, "BOT_TREND_THRESHOLD_HFT"@), trending_of(file).trend_threshold_hft, dec_of(5, 1))
    &&& cfg.trend_threshold_normal == setting(env_dec(env, "BOT_TREND_THRESHOLD_NORMAL"@), trending_of(file).trend_threshold_normal, dec_of(6, 1))
    &&& cfg.weak_trend_score_multiplier == setting(env_dec(env, "BOT_WEAK_TREND_SCORE_MULTIPLIER"@), trending_of(file).weak_trend_score_multiplier, dec_of(115, 2))
    &&& cfg.regime_multiplier_trending == setting(env_dec(env, "BOT_REGIME_MULTIPLIER_TRENDING"@), trending_of(file).regime_multiplier_trending, dec_of(9, 1))
    &&& cfg.regime_multiplier_ranging == setting(env_dec(env, "BOT_REGIME_MULTIPLIER_RANGING"@), trending_of(file).regime_multiplier_ranging, dec_of(115, 2))
    &&& cfg.enable_enhanced_scoring == setting(env_bool(env, "BOT_ENABLE_ENHANCED_SCORING"@), trending_of(file).enable_enhanced_scoring, false)
    &&& cfg.enhanced_score_excellent == setting(env_dec(env, "BOT_ENHANCED_SCORE_EXCELLENT"@), trending_of(file).enhanced_score_excellent, dec_of(80, 0))
    &&& cfg.enhanced_score_good == setting(env_dec(env, "BOT_ENHANCED_SCORE_GOOD"@), trending_of(file).enhanced_score_good, dec_of(65, 0))
    &&& cfg.enhanced_score_marginal == setting(env_dec(env, "BOT_ENHANCED_SCORE_MARGINAL"@), trending_of(file).enhanced_score_marginal, dec_of(50, 0))
    &&& cfg.enable_order_flow == setting(env_bool(env, "BOT_ENABLE_ORDER_FLOW"@), trending_of(file).enable_order_flow, true)
    &&& cfg.fee_bps_round_trip == setting(env_dec(env, "BOT_FEE_BPS_ROUND_TRIP"@), trending_of(file).fee_bps_round_trip, dec_of(8, 0))
    &&& cfg.max_holding_bars == setting(env_usize(env, "BOT_MAX_HOLDING_BARS"@), trending_of(file).max_holding_bars, 48usize)
    &&& cfg.slippage_bps == setting(env_dec(env, "BOT_SLIPPAGE_BPS"@), trending_of(file).slippage_bps, dec_of(0, 0))
    &&& cfg.min_holding_bars == setting(env_usize(env, "BOT_MIN_HOLDING_BARS"@), trending_of(file).min_holding_bars, 3usize)
    &&& cfg.min_volume_ratio == setting(env_dec(env, "BOT_MIN_VOLUME_RATIO"@), trending_of(file).min_volume_ratio, dec_of(15, 1))
    &&& cfg.max_volatility_pct == setting(env_dec(env, "BOT_MAX_VOLATILITY_PCT"@), trending_of(file).max_volatility_pct, dec_of(2, 0))
    &&& cfg.max_price_change_5bars_pct == setting(env_dec(env, "BOT_MAX_PRICE_CHANGE_5BARS_PCT"@), trending_of(file).max_price_change_5bars_pct, dec_of(3, 0))
    &&& cfg.enable_signal_quality_filter == setting(env_bool(env, "BOT_ENABLE_SIGNAL_QUALITY_FILTER"@), trending_of(file).enable_signal_quality_filter, true)
    &&& cfg.paper_trading_enabled == setting(env_bool(env, "BOT_PAPER_TRADING_ENABLED"@), paper_trading_enabled(file), false)
    &&& cfg.paper_trading_log_file@ == text_setting(env, "BOT_PAPER_TRADING_LOG_FILE"@, paper_trading_log_file(file), "paper_trading_orders.log"@)
    &&& cfg.market_tick_stale_tolerance_secs == setting(env_i64(env, "BOT_MARKET_TICK_STALE_TOLERANCE_SECS"@), trending_of(file).market_tick_stale_tolerance_secs, 30i64)
    &&& cfg.ws_disconnect_close_positions == setting(env_bool(env, "BOT_WS_DISCONNECT_CLOSE_POSITIONS"@), risk_of(file).ws_disconnect_close_positions, false)
    &&& cfg.ws_disconnect_timeout_secs == setting(env_i64(env, "BOT_WS_DISCONNECT_TIMEOUT_SECS"@), risk_of(file).ws_disconnect_timeout_secs, 60i64)
}

/// The number of slow periods that the environment and the file give.
pub open spec fn slow_period(env: Environment, file: FileConfig) -> usize {
    setting(env_usize(env, "BOT_EMA_SLOW_PERIOD"@), trending_of(file).ema_slow_period, 55usize)
}

/// Why settings are refused.
#[derive(Clone, Copy, Debug, PartialEq, Eq, Structural)]
pub enum ConfigError {
    LeverageNotPositive,
    TpPercentNotPositive,
    SlPercentNotPositive,
    PositionSizeNotPositive,
    EmaFastPeriodZero,
    RsiPeriodZero,
    AtrPeriodZero,
    ObiLongMinNotPositive,
    ObiShortMaxNotPositive,
    MinMarginNotPositive,
    MinQuoteBalanceNotPositive,
    MaxPositionNotionalNotPositive,
    LiqWindowZero,
    SlPercentTooHigh,
    EmaSlowNotAboveFast,
    RsiLongMinOutOfRange,
    RsiShortMaxOutOfRange,
    RecvWindowTooLarge,
    SignalCooldownNegative,
}

/// What is doubtful about settings that are not refused.
#[derive(Clone, Copy, Debug, PartialEq, Eq, Structural)]
pub enum ConfigWarning {
    TpPercentVeryHigh,
    RsiLongMinNotAboveShortMax,
    ObiShortMaxNotBelowLongMin,
    RecvWindowVeryLow,
    RecvWindowLarge,
    LongMinScoreZero,
    ShortMinScoreZero,
    LiqWindowVeryLow,
    LiqWindowVeryHigh,
    HftFeeTooLow,
    HftCooldownVeryLow,
    FeeVeryLow,
}

/// The first check that refuses the settings, of those that come before the warnings.
pub open spec fn refused_first(cfg: BotConfig) -> Option<ConfigError> {
    if cfg.leverage@ <= 0 {
        Some(ConfigError::LeverageNotPositive)
    } else if cfg.tp_percent@ <= 0 {
        Some(ConfigError::TpPercentNotPositive)
    } else if cfg.sl_percent@ <= 0 {
        Some(ConfigError::SlPercentNotPositive)
    } else if cfg.position_size_quote@ <= 0 {
        Some(ConfigError::PositionSizeNotPositive)
    } else if cfg.ema_fast_period == 0 {
        Some(ConfigError::EmaFastPeriodZero)
    } else if cfg.rsi_period == 0 {
        Some(ConfigError::RsiPeriodZero)
    } else if cfg.atr_period == 0 {
        Some(ConfigError::AtrPeriodZero)
    } else if cfg.obi_long_min@ <= 0 {
        Some(ConfigError::ObiLongMinNotPositive)
    } else if cfg.obi_short_max@ <= 0 {
        Some(ConfigError::ObiShortMaxNotPositive)
    } else if cfg.min_margin_usd@ <= 0 {
        Some(ConfigError::MinMarginNotPositive)
    } else if cfg.min_quote_balance_usd@ <= 0 {
        Some(ConfigError::MinQuoteBalanceNotPositive)
    } else if cfg.max_position_notional_usd@ <= 0 {
        Some(ConfigError::MaxPositionNotionalNotPositive)
    } else if cfg.liq_window_secs == 0 {
        Some(ConfigError::LiqWindowZero)
    } else if cfg.sl_percent@ >= dec_of(100, 0)@ {
        Some(ConfigError::SlPercentTooHigh)
    } else if cfg.ema_slow_period <= cfg.ema_fast_period {
        Some(ConfigError::EmaSlowNotAboveFast)
    } else if cfg.rsi_long_min@ < 0 || cfg.rsi_long_min@ > dec_of(100, 0)@ {
        Some(ConfigError::RsiLongMinOutOfRange)
    } else if cfg.rsi_short_max@ < 0 || cfg.rsi_short_max@ > dec_of(100, 0)@ {
        Some(ConfigError::RsiShortMaxOutOfRange)
    } else if cfg.recv_window_ms > 60000 {
        Some(ConfigError::RecvWindowTooLarge)
    } else {
        None
    }
}

/// The first check that refuses the settings: the cooldown is looked at last.
pub open spec fn refused(cfg: BotConfig) -> Option<ConfigError> {
    match refused_first(cfg) {
        Some(e) => Some(e),
        None => if cfg.signal_cooldown_secs < 0 {
            Some(ConfigError::SignalCooldownNegative)
        } else {
            None
        },
    }
}

/// `w` where `doubtful`, else nothing.
pub open spec fn warn_if(doubtful: bool, w: ConfigWarning) -> Seq<ConfigWarning> {
    if doubtful {
        seq![w]
    } else {
        Seq::empty()
    }
}

/// All that is doubtful about the settings, in order.
pub open spec fn doubts(cfg: BotConfig) -> Seq<ConfigWarning> {
    warn_if(cfg.tp_percent@ > dec_of(100, 0)@, ConfigWarning::TpPercentVeryHigh)
        + warn_if(cfg.rsi_long_min@ <= cfg.rsi_short_max@, ConfigWarning::RsiLongMinNotAboveShortMax)
        + warn_if(cfg.obi_short_max@ >= cfg.obi_long_min@, ConfigWarning::ObiShortMaxNotBelowLongMin)
        + warn_if(cfg.recv_window_ms < 1000, ConfigWarning::RecvWindowVeryLow)
        + warn_if(cfg.recv_window_ms > 5000, ConfigWarning::RecvWindowLarge)
        + warn_if(cfg.long_min_score == 0, ConfigWarning::LongMinScoreZero)
        + warn_if(cfg.short_min_score == 0, ConfigWarning::ShortMinScoreZero)
        + warn_if(cfg.liq_window_secs < 5, ConfigWarning::LiqWindowVeryLow)
        + warn_if(cfg.liq_window_secs > 300, ConfigWarning::LiqWindowVeryHigh)
        + warn_if(cfg.hft_mode && cfg.fee_bps_round_trip@ < dec_of(8, 0)@, ConfigWarning::HftFeeTooLow)
        + warn_if(cfg.hft_mode && cfg.signal_cooldown_secs < 10, ConfigWarning::HftCooldownVeryLow)
        + warn_if(cfg.fee_bps_round_trip@ < dec_of(5, 0)@, ConfigWarning::FeeVeryLow)
}

/// What is warned of when the settings are checked: nothing where they are refused at once.
pub open spec fn warned_of(cfg: BotConfig) -> Seq<ConfigWarning> {
    if refused_first(cfg) is Some {
        Seq::empty()
    } else {
        doubts(cfg)
    }
}

/// Settings that passed the checks, and what is doubtful about them.
#[derive(Clone, Debug)]
pub struct LoadedConfig {
    pub config: BotConfig,
    pub warnings: Vec<ConfigWarning>,
}

/// Why no settings can be loaded.
#[derive(Clone, Debug)]
pub enum LoadError {
    /// No warm-up of so many periods can be counted.
    SlowPeriodTooLarge,
    Refused { error: ConfigError, warnings: Vec<ConfigWarning> },
}

/// The outcome of checking settings.
#[derive(Clone, Debug)]
pub struct Validation {
    pub warnings: Vec<ConfigWarning>,
    pub error: Option<ConfigError>,
}

fn add_warning(v: &mut Vec<ConfigWarning>, doubtful: bool, w: ConfigWarning)
    ensures
        final(v)@ == old(v)@ + warn_if(doubtful, w),
{
    if doubtful {
        v.push(w);
    }
    assert(v@ =~= old(v)@ + warn_if(doubtful, w));
}

/// The first check that refuses the settings, of those that come before the warnings.
fn first_refusal(cfg: &BotConfig) -> (r: Option<ConfigError>)
    ensures
        r == refused_first(*cfg),
{
    if !cfg.leverage.is_positive() {
        Some(ConfigError::LeverageNotPositive)
    } else if !cfg.tp_percent.is_positive() {
        Some(ConfigError::TpPercentNotPositive)
    } else if !cfg.sl_percent.is_positive() {
        Some(ConfigError::SlPercentNotPositive)
    } else if !cfg.position_size_quote.is_positive() {
        Some(ConfigError::PositionSizeNotPositive)
    } else if cfg.ema_fast_period == 0 {
        Some(ConfigError::EmaFastPeriodZero)
    } else if cfg.rsi_period == 0 {
        Some(ConfigError::RsiPeriodZero)
    } else if cfg.atr_period == 0 {
        Some(ConfigError::AtrPeriodZero)
    } else if !cfg.obi_long_min.is_positive() {
        Some(ConfigError::ObiLongMinNotPositive)
    } else if !cfg.obi_short_max.is_positive() {
        Some(ConfigError::ObiShortMaxNotPositive)
    } else if !cfg.min_margin_usd.is_positive() {
        Some(ConfigError::MinMarginNotPositive)
    } else if !cfg.min_quote_balance_usd.is_positive() {
        Some(ConfigError::MinQuoteBalanceNotPositive)
    } else if !cfg.max_position_notional_usd.is_positive() {
        Some(ConfigError::MaxPositionNotionalNotPositive)
    } else if cfg.liq_window_secs == 0 {
        Some(ConfigError::LiqWindowZero)
    } else if Dec::new(100, 0).le(&cfg.sl_percent) {
        Some(ConfigError::SlPercentTooHigh)
    } else if cfg.ema_slow_period <= cfg.ema_fast_period {
        Some(ConfigError::EmaSlowNotAboveFast)
    } else if cfg.rsi_long_min.is_sign_negative() || Dec::new(100, 0).lt(&cfg.rsi_long_min) {
        Some(ConfigError::RsiLongMinOutOfRange)
    } else if cfg.rsi_short_max.is_sign_negative() || Dec::new(100, 0).lt(&cfg.rsi_short_max) {
        Some(ConfigError::RsiShortMaxOutOfRange)
    } else if cfg.recv_window_ms > 60000 {
        Some(ConfigError::RecvWindowTooLarge)
    } else {
        None
    }
}

impl BotConfig {
    /// The settings that the environment and the configuration file give.
    pub fn from_env(env: &Environment, file: &FileConfig) -> (cfg: BotConfig)
        requires
            slow_period(*env, *file) + 10 <= usize::MAX,
        ensures
            configured(cfg, *env, *file),
    {
        let trending = trending_section(file);
        let risk = risk_section(file);
        let (api_key_file, secret_file, base_file, recv_file) = binance_section(file);
        let (paper_enabled, paper_log) = paper_section(file);
        let symbol_file = first_symbol_of(file);
        let ema_slow_period: usize = usize_setting(
            env,
            "BOT_EMA_SLOW_PERIOD",
            trending.ema_slow_period,
            55usize,
        );
        let max_position = decimal_setting(
            env,
            "BOT_MAX_POSITION_USDT",
            file.max_usd_per_order,
            Dec::new(50, 0),
        );
        BotConfig {
            api_key: string_setting(env, "BINANCE_API_KEY", &api_key_file, ""),
            api_secret: string_setting(env, "BINANCE_API_SECRET", &secret_file, ""),
            base_url: string_setting(env, "BINANCE_BASE_URL", &base_file, "https://fapi.binance.com"),
            ws_base_url: string_setting(env, "BINANCE_WS_URL", &None, "wss://fstream.binance.com"),
            symbol: string_setting(env, "BOT_SYMBOL", &symbol_file, "BTCUSDT"),
            quote_asset: string_setting(env, "BOT_QUOTE_ASSET", &file.quote_asset, "USDT"),
            leverage: decimal_setting(env, "BOT_LEVERAGE", file.leverage, Dec::new(10, 0)),
            tp_percent: decimal_setting(env, "BOT_TP_PERCENT", file.take_profit_pct, Dec::new(1, 0)),
            sl_percent: decimal_setting(env, "BOT_SL_PERCENT", file.stop_loss_pct, Dec::new(5, 1)),
            position_size_quote: decimal_setting(env, "BOT_POSITION_SIZE_QUOTE", Some(max_position), Dec::new(50, 0)),
            ema_fast_period: usize_setting(env, "BOT_EMA_FAST_PERIOD", trending.ema_fast_period, 21),
            ema_slow_period,
            rsi_period: usize_setting(env, "BOT_RSI_PERIOD", trending.rsi_period, 14),
            atr_period: usize_setting(env, "BOT_ATR_PERIOD", trending.atr_period, 14),
            rsi_long_min: decimal_setting(env, "BOT_RSI_LONG_MIN", trending.rsi_lower_long, Dec::new(55, 0)),
            rsi_short_max: decimal_setting(env, "BOT_RSI_SHORT_MAX", trending.rsi_upper_long, Dec::new(45, 0)),
            atr_rising_factor: decimal_setting(env, "BOT_ATR_RISING_FACTOR", None, Dec::new(102, 2)),
            atr_sl_multiplier: decimal_setting(env, "BOT_ATR_SL_MULTIPLIER", trending.atr_sl_multiplier, Dec::new(2, 0)),
            atr_tp_multiplier: decimal_setting(env, "BOT_ATR_TP_MULTIPLIER", trending.atr_tp_multiplier, Dec::new(4, 0)),
            obi_long_min: decimal_setting(env, "BOT_OBI_LONG_MIN", None, Dec::new(115, 2)),
            obi_short_max: decimal_setting(env, "BOT_OBI_SHORT_MAX", None, Dec::new(85, 2)),
            funding_max_for_long: decimal_setting(env, "BOT_FUNDING_MAX_FOR_LONG", None, Dec::new(0, 0)),
            funding_min_for_short: decimal_setting(env, "BOT_FUNDING_MIN_FOR_SHORT", None, Dec::new(0, 0)),
            long_min_score: usize_setting(env, "BOT_LONG_MIN_SCORE", None, 4),
            short_min_score: usize_setting(env, "BOT_SHORT_MIN_SCORE", None, 4),
            signal_cooldown_secs: i64_setting(env, "BOT_SIGNAL_COOLDOWN_SECS", trending.signal_cooldown_seconds, 30),
            warmup_min_ticks: usize_setting(env, "BOT_WARMUP_MIN_TICKS", trending.warmup_min_ticks, ema_slow_period + 10),
            recv_window_ms: u64_setting(env, "BINANCE_RECV_WINDOW_MS", recv_file, 2500),
            liq_long_cluster_min: read_decimal(env, "BOT_LIQ_LONG_CLUSTER_MIN"),
            liq_short_cluster_min: read_decimal(env, "BOT_LIQ_SHORT_CLUSTER_MIN"),
            liq_window_secs: u64_setting(env, "BOT_LIQ_WINDOW_SECS", risk.liq_window_secs, 30),
            use_isolated_margin: bool_setting(env, "BOT_USE_ISOLATED_MARGIN", risk.use_isolated_margin, false),
            min_margin_usd: decimal_setting(env, "BOT_MIN_MARGIN_USD", file.min_margin_usd, Dec::new(10, 0)),
            max_position_notional_usd: decimal_setting(env, "BOT_MAX_POSITION_NOTIONAL_USD", risk.max_position_notional_usd, Dec::new(30000, 0)),
            min_quote_balance_usd: decimal_setting(env, "BOT_MIN_QUOTE_BALANCE_USD", file.min_quote_balance_usd, Dec::new(20, 0)),
            max_slippage_bps: decimal_setting(env, "BOT_MAX_SLIPPAGE_BPS", None, Dec::new(25, 0)),
            hft_mode: bool_setting(env, "BOT_HFT_MODE", trending.hft_mode, false),
            base_min_score: decimal_setting(env, "BOT_BASE_MIN_SCORE", trending.base_min_score, Dec::new(65, 1)),
            trend_threshold_hft: decimal_setting(env, "BOT_TREND_THRESHOLD_HFT", trending.trend_threshold_hft, Dec::new(5, 1)),
            trend_threshold_normal: decimal_setting(env, "BOT_TREND_THRESHOLD_NORMAL", trending.trend_threshold_normal, Dec::new(6, 1)),
            weak_trend_score_multiplier: decimal_setting(env, "BOT_WEAK_TREND_SCORE_MULTIPLIER", trending.weak_trend_score_multiplier, Dec::new(115, 2)),
            regime_multiplier_trending: decimal_setting(env, "BOT_REGIME_MULTIPLIER_TRENDING", trending.regime_multiplier_trending, Dec::new(9, 1)),
            regime_multiplier_ranging: decimal_setting(env, "BOT_REGIME_MULTIPLIER_RANGING", trending.regime_multiplier_ranging, Dec::new(115, 2)),
            enable_enhanced_scoring: bool_setting(env, "BOT_ENABLE_ENHANCED_SCORING", trending.enable_enhanced_scoring, false),
            enhanced_score_excellent: decimal_setting(env, "BOT_ENHANCED_SCORE_EXCELLENT", trending.enhanced_score_excellent, Dec::new(80, 0)),
            enhanced_score_good: decimal_setting(env, "BOT_ENHANCED_SCORE_GOOD", trending.enhanced_score_good, Dec::new(65, 0)),
            enhanced_score_marginal: decimal_setting(env, "BOT_ENHANCED_SCORE_MARGINAL", trending.enhanced_score_marginal, Dec::new(50, 0)),
            enable_order_flow: bool_setting(env, "BOT_ENABLE_ORDER_FLOW", trending.enable_order_flow, true),
            fee_bps_round_trip: decimal_setting(env, "BOT_FEE_BPS_ROUND_TRIP", trending.fee_bps_round_trip, Dec::new(8, 0)),
            max_holding_bars: usize_setting(env, "BOT_MAX_HOLDING_BARS", trending.max_holding_bars, 48),
            slippage_bps: decimal_setting(env, "BOT_SLIPPAGE_BPS", trending.slippage_bps, Dec::new(0, 0)),
            min_holding_bars: usize_setting(env, "BOT_MIN_HOLDING_BARS", trending.min_holding_bars, 3),
            min_volume_ratio: decimal_setting(env, "BOT_MIN_VOLUME_RATIO", trending.min_volume_ratio, Dec::new(15, 1)),
            max_volatility_pct: decimal_setting(env, "BOT_MAX_VOLATILITY_PCT", trending.max_volatility_pct, Dec::new(2, 0)),
            max_price_change_5bars_pct: decimal_setting(env, "BOT_MAX_PRICE_CHANGE_5BARS_PCT", trending.max_price_change_5bars_pct, Dec::new(3, 0)),
            enable_signal_quality_filter: bool_setting(env, "BOT_ENABLE_SIGNAL_QUALITY_FILTER", trending.enable_signal_quality_filter, true),
            paper_trading_enabled: bool_setting(env, "BOT_PAPER_TRADING_ENABLED", paper_enabled, false),
            paper_trading_log_file: string_setting(env, "BOT_PAPER_TRADING_LOG_FILE", &paper_log, "paper_trading_orders.log"),
            market_tick_stale_tolerance_secs: i64_setting(env, "BOT_MARKET_TICK_STALE_TOLERANCE_SECS", trending.market_tick_stale_tolerance_secs, 30),
            ws_disconnect_close_positions: bool_setting(env, "BOT_WS_DISCONNECT_CLOSE_POSITIONS", risk.ws_disconnect_close_positions, false),
            ws_disconnect_timeout_secs: i64_setting(env, "BOT_WS_DISCONNECT_TIMEOUT_SECS", risk.ws_disconnect_timeout_secs, 60),
        }
    }

    /// Checks the settings. Those that are refused at once leave no warnings; the
    /// cooldown is looked at after them.
    pub fn validate(&self) -> (r: Validation)
        ensures
            r.error == refused(*self),
            r.warnings@ == warned_of(*self),
    {
        let cfg = self;
        let mut warnings: Vec<ConfigWarning> = Vec::new();
        if let Some(e) = first_refusal(cfg) {
            return Validation { warnings, error: Some(e) };
        }
        add_warning(&mut warnings, Dec::new(100, 0).lt(&cfg.tp_percent), ConfigWarning::TpPercentVeryHigh);
        add_warning(&mut warnings, cfg.rsi_long_min.le(&cfg.rsi_short_max), ConfigWarning::RsiLongMinNotAboveShortMax);
        add_warning(&mut warnings, cfg.obi_long_min.le(&cfg.obi_short_max), ConfigWarning::ObiShortMaxNotBelowLongMin);
        add_warning(&mut warnings, cfg.recv_window_ms < 1000, ConfigWarning::RecvWindowVeryLow);
        add_warning(&mut warnings, cfg.recv_window_ms > 5000, ConfigWarning::RecvWindowLarge);
        add_warning(&mut warnings, cfg.long_min_score == 0, ConfigWarning::LongMinScoreZero);
        add_warning(&mut warnings, cfg.short_min_score == 0, ConfigWarning::ShortMinScoreZero);
        add_warning(&mut warnings, cfg.liq_window_secs < 5, ConfigWarning::LiqWindowVeryLow);
        add_warning(&mut warnings, cfg.liq_window_secs > 300, ConfigWarning::LiqWindowVeryHigh);
        add_warning(&mut warnings, cfg.hft_mode && cfg.fee_bps_round_trip.lt(&Dec::new(8, 0)), ConfigWarning::HftFeeTooLow);
        add_warning(&mut warnings, cfg.hft_mode && cfg.signal_cooldown_secs < 10, ConfigWarning::HftCooldownVeryLow);
        add_warning(&mut warnings, cfg.fee_bps_round_trip.lt(&Dec::new(5, 0)), ConfigWarning::FeeVeryLow);
        assert(warnings@ =~= doubts(*self));
        let error = if self.signal_cooldown_secs < 0 {
            Some(ConfigError::SignalCooldownNegative)
        } else {
            None
        };
        Validation { warnings, error }
    }

    /// The settings that the environment and the configuration file give, if they pass the
    /// checks; else the first check that refuses them.
    pub fn load(env: &Environment, file: &FileConfig) -> (r: Result<LoadedConfig, LoadError>)
        ensures
            r matches Err(LoadError::SlowPeriodTooLarge) <==> slow_period(*env, *file) + 10
                > usize::MAX,
            r matches Ok(v) ==> {
                &&& configured(v.config, *env, *file)
                &&& refused(v.config) is None
                &&& v.warnings@ == doubts(v.config)
            },
            forall|cfg: BotConfig| #[trigger]
                configured(cfg, *env, *file) ==> match r {
                    Ok(_) => refused(cfg) is None,
                    Err(LoadError::Refused { error, warnings }) => refused(cfg) == Some(error)
                        && warnings@ == warned_of(cfg),
                    Err(LoadError::SlowPeriodTooLarge) => true,
                },
            r matches Err(LoadError::Refused { .. }) ==> exists|cfg: BotConfig|
                #[trigger] configured(cfg, *env, *file),
    {
        let trending = trending_section(file);
        let slow: usize = usize_setting(
            env,
            "BOT_EMA_SLOW_PERIOD",
            trending.ema_slow_period,
            55usize,
        );
        if slow > usize::MAX - 10 {
            return Err(LoadError::SlowPeriodTooLarge);
        }
        let config = BotConfig::from_env(env, file);
        let checked = config.validate();
        proof {
            assert forall|cfg: BotConfig| #[trigger] configured(cfg, *env, *file) implies refused(
                cfg,
            ) == refused(config) && warned_of(cfg) == warned_of(config) by {
                law_settings_are_judged_alike(cfg, config, *env, *file);
            }
        }
        match checked.error {
            Some(error) => Err(LoadError::Refused { error, warnings: checked.warnings }),
            None => Ok(LoadedConfig { config, warnings: checked.warnings }),
        }
    }

    /// The settings that signals are generated with.
    pub fn trend_params(&self) -> (r: TrendParams)
        ensures
            r == trend_params_of(*self),
    {
        TrendParams {
            leverage: self.leverage,
            position_size_quote: self.position_size_quote,
            ema_fast_period: self.ema_fast_period,
            ema_slow_period: self.ema_slow_period,
            rsi_period: self.rsi_period,
            atr_period: self.atr_period,
            rsi_long_min: self.rsi_long_min,
            rsi_short_max: self.rsi_short_max,
            atr_rising_factor: self.atr_rising_factor,
            atr_sl_multiplier: self.atr_sl_multiplier,
            atr_tp_multiplier: self.atr_tp_multiplier,
            obi_long_min: self.obi_long_min,
            obi_short_max: self.obi_short_max,
            funding_max_for_long: self.funding_max_for_long,
            funding_min_for_short: self.funding_min_for_short,
            long_min_score: self.long_min_score,
            short_min_score: self.short_min_score,
            signal_cooldown_secs: self.signal_cooldown_secs,
            warmup_min_ticks: self.warmup_min_ticks,
            hft_mode: self.hft_mode,
            base_min_score: self.base_min_score,
            trend_threshold_hft: self.trend_threshold_hft,
            trend_threshold_normal: self.trend_threshold_normal,
            weak_trend_score_multiplier: self.weak_trend_score_multiplier,
            regime_multiplier_trending: self.regime_multiplier_trending,
            regime_multiplier_ranging: self.regime_multiplier_ranging,
            enable_enhanced_scoring: self.enable_enhanced_scoring,
            enhanced_score_excellent: self.enhanced_score_excellent,
            enhanced_score_good: self.enhanced_score_good,
            enhanced_score_marginal: self.enhanced_score_marginal,
            enable_order_flow: self.enable_order_flow,
            fee_bps_round_trip: self.fee_bps_round_trip,
            max_holding_bars: self.max_holding_bars,
            slippage_bps: self.slippage_bps,
            min_holding_bars: self.min_holding_bars,
            min_volume_ratio: self.min_volume_ratio,
            max_volatility_pct: self.max_volatility_pct,
            max_price_change_5bars_pct: self.max_price_change_5bars_pct,
            enable_signal_quality_filter: self.enable_signal_quality_filter,
            market_tick_stale_tolerance_secs: self.market_tick_stale_tolerance_secs,
        }
    }
}

/// The settings that signals are generated with.
pub open spec fn trend_params_of(cfg: BotConfig) -> TrendParams {
    TrendParams {
        leverage: cfg.leverage,
        position_size_quote: cfg.position_size_quote,
        ema_fast_period: cfg.ema_fast_period,
        ema_slow_period: cfg.ema_slow_period,
        rsi_period: cfg.rsi_period,
        atr_period: cfg.atr_period,
        rsi_long_min: cfg.rsi_long_min,
        rsi_short_max: cfg.rsi_short_max,
        atr_rising_factor: cfg.atr_rising_factor,
        atr_sl_multiplier: cfg.atr_sl_multiplier,
        atr_tp_multiplier: cfg.atr_tp_multiplier,
        obi_long_min: cfg.obi_long_min,
        obi_short_max: cfg.obi_short_max,
        funding_max_for_long: cfg.funding_max_for_long,
        funding_min_for_short: cfg.funding_min_for_short,
        long_min_score: cfg.long_min_score,
        short_min_score: cfg.short_min_score,
        signal_cooldown_secs: cfg.signal_cooldown_secs,
        warmup_min_ticks: cfg.warmup_min_ticks,
        hft_mode: cfg.hft_mode,
        base_min_score: cfg.base_min_score,
        trend_threshold_hft: cfg.trend_threshold_hft,
        trend_threshold_normal: cfg.trend_threshold_normal,
        weak_trend_score_multiplier: cfg.weak_trend_score_multiplier,
        regime_multiplier_trending: cfg.regime_multiplier_trending,
        regime_multiplier_ranging: cfg.regime_multiplier_ranging,
        enable_enhanced_scoring: cfg.enable_enhanced_scoring,
        enhanced_score_excellent: cfg.enhanced_score_excellent,
        enhanced_score_good: cfg.enhanced_score_good,
        enhanced_score_marginal: cfg.enhanced_score_marginal,
        enable_order_flow: cfg.enable_order_flow,
        fee_bps_round_trip: cfg.fee_bps_round_trip,
        max_holding_bars: cfg.max_holding_bars,
        slippage_bps: cfg.slippage_bps,
        min_holding_bars: cfg.min_holding_bars,
        min_volume_ratio: cfg.min_volume_ratio,
        max_volatility_pct: cfg.max_volatility_pct,
        max_price_change_5bars_pct: cfg.max_price_change_5bars_pct,
        enable_signal_quality_filter: cfg.enable_signal_quality_filter,
        market_tick_stale_tolerance_secs: cfg.market_tick_stale_tolerance_secs,
    }
}

/// A copy of a text of the file.
fn copied(o: &Option<String>) -> (r: Option<String>)
    ensures
        file_text(r) == file_text(*o),
{
    match o {
        Some(s) => Some(s.as_str().to_owned()),
        None => None,
    }
}

fn binance_section(file: &FileConfig) -> (r: (
    Option<String>,
    Option<String>,
    Option<String>,
    Option<u64>,
))
    ensures
        file_text(r.0) == binance_api_key(*file),
        file_text(r.1) == binance_secret_key(*file),
        file_text(r.2) == binance_futures_base(*file),
        r.3 == binance_recv_window_ms(*file),
{
    match &file.binance {
        Some(b) => (
            copied(&b.api_key),
            copied(&b.secret_key),
            copied(&b.futures_base),
            b.recv_window_ms,
        ),
        None => (None, None, None, None),
    }
}

fn paper_section(file: &FileConfig) -> (r: (Option<bool>, Option<String>))
    ensures
        r.0 == paper_trading_enabled(*file),
        file_text(r.1) == paper_trading_log_file(*file),
{
    match &file.paper_trading {
        Some(p) => (p.enabled, copied(&p.log_file)),
        None => (None, None),
    }
}

fn first_symbol_of(file: &FileConfig) -> (r: Option<String>)
    ensures
        file_text(r) == first_symbol(*file),
{
    if file.symbols.len() == 0 {
        None
    } else {
        Some(file.symbols[0].as_str().to_owned())
    }
}

/// Two settings agree in all that is checked.
spec fn checked_alike(a: BotConfig, b: BotConfig) -> bool {
    &&& a.leverage == b.leverage
    &&& a.tp_percent == b.tp_percent
    &&& a.sl_percent == b.sl_percent
    &&& a.position_size_quote == b.position_size_quote
    &&& a.ema_fast_period == b.ema_fast_period
    &&& a.ema_slow_period == b.ema_slow_period
    &&& a.rsi_period == b.rsi_period
    &&& a.atr_period == b.atr_period
    &&& a.rsi_long_min == b.rsi_long_min
    &&& a.rsi_short_max == b.rsi_short_max
    &&& a.obi_long_min == b.obi_long_min
    &&& a.obi_short_max == b.obi_short_max
    &&& a.min_margin_usd == b.min_margin_usd
    &&& a.min_quote_balance_usd == b.min_quote_balance_usd
    &&& a.max_position_notional_usd == b.max_position_notional_usd
    &&& a.liq_window_secs == b.liq_window_secs
    &&& a.recv_window_ms == b.recv_window_ms
    &&& a.long_min_score == b.long_min_score
    &&& a.short_min_score == b.short_min_score
    &&& a.hft_mode == b.hft_mode
    &&& a.fee_bps_round_trip == b.fee_bps_round_trip
    &&& a.signal_cooldown_secs == b.signal_cooldown_secs
}

proof fn lemma_checked_fields(a: BotConfig, b: BotConfig, env: Environment, file: FileConfig)
    requires
        configured(a, env, file),
        configured(b, env, file),
    ensures
        checked_alike(a, b),
{
}

proof fn lemma_refused_alike(a: BotConfig, b: BotConfig)
    requires
        checked_alike(a, b),
    ensures
        refused_first(a) == refused_first(b),
        refused(a) == refused(b),
{
}

proof fn lemma_doubted_alike(a: BotConfig, b: BotConfig)
    requires
        checked_alike(a, b),
        refused_first(a) == refused_first(b),
    ensures
        warned_of(a) == warned_of(b),
{
    assert(doubts(a) == doubts(b));
}

/// What the checks say of settings follows from the environment and the file alone.
pub proof fn law_settings_are_judged_alike(
    a: BotConfig,
    b: BotConfig,
    env: Environment,
    file: FileConfig,
)
    requires
        configured(a, env, file),
        configured(b, env, file),
    ensures
        refused(a) == refused(b),
        warned_of(a) == warned_of(b),
{
    lemma_checked_fields(a, b, env, file);
    lemma_refused_alike(a, b);
    lemma_doubted_alike(a, b);
}

/// Settings that pass the checks have room between their limits: every amount
/// and period is positive, the slow average is slower than the fast one, and
/// losses stop short of the whole margin.
pub proof fn law_accepted_settings(cfg: BotConfig)
    requires
        refused(cfg) is None,
    ensures
        cfg.leverage@ > 0,
        cfg.tp_percent@ > 0,
        0 < cfg.sl_percent@ < dec_of(100, 0)@,
        cfg.position_size_quote@ > 0,
        0 < cfg.ema_fast_period < cfg.ema_slow_period,
        cfg.rsi_period > 0,
        cfg.atr_period > 0,
        0 <= cfg.rsi_long_min@ <= dec_of(100, 0)@,
        0 <= cfg.rsi_short_max@ <= dec_of(100, 0)@,
        cfg.recv_window_ms <= 60000,
        cfg.signal_cooldown_secs >= 0,
        cfg.obi_long_min@ > 0,
        cfg.obi_short_max@ > 0,
        cfg.min_margin_usd@ > 0,
        cfg.min_quote_balance_usd@ > 0,
        cfg.max_position_notional_usd@ > 0,
        cfg.liq_window_secs > 0,
{
}

/// A variable comes before the file, and the file before the default; an empty text counts as none.
pub proof fn law_order_of_settings<T>(
    read: Option<T>,
    file: Option<T>,
    default: T,
    env: Environment,
    key: Seq<char>,
    text: Option<Seq<char>>,
    fallback: Seq<char>,
)
    ensures
        read is Some ==> setting(read, file, default) == read->0,
        read is None && file is Some ==> setting(read, file, default) == file->0,
        read is None && file is None ==> setting(read, file, default) == default,
        env.value(key) is Some && env.value(key)->0.len() > 0 ==> text_setting(
            env,
            key,
            text,
            fallback,
        ) == env.value(key)->0,
        env.value(key) is None || env.value(key)->0.len() == 0 ==> text_setting(
            env,
            key,
            text,
            fallback,
        ) == if text is Some {
            text->0
        } else {
            fallback
        },
{
}

/// What holds where nothing else is said, in units and percent: a leverage of ten, a target of one
/// percent and a stop of half of that, fifty dollars to a position, the periods of the averages,
/// and the limits of the market and of the margin.
pub proof fn law_defaults(cfg: BotConfig, env: Environment, file: FileConfig)
    requires
        configured(cfg, env, file),
        forall|key: Seq<char>| #[trigger] env.value(key) is None,
        file.trending is None,
        file.risk is None,
        file.leverage is None,
        file.take_profit_pct is None,
        file.stop_loss_pct is None,
        file.max_usd_per_order is None,
        file.min_margin_usd is None,
        file.min_quote_balance_usd is None,
    ensures
        cfg.leverage@ == 10 * one(),
        cfg.tp_percent@ == one(),
        2 * cfg.sl_percent@ == one(),
        cfg.position_size_quote@ == 50 * one(),
        cfg.ema_fast_period == 21 && cfg.ema_slow_period == 55,
        cfg.rsi_period == 14 && cfg.atr_period == 14,
        cfg.rsi_long_min@ == 55 * one() && cfg.rsi_short_max@ == 45 * one(),
        100 * cfg.atr_rising_factor@ == 102 * one(),
        cfg.atr_sl_multiplier@ == 2 * one() && cfg.atr_tp_multiplier@ == 4 * one(),
        100 * cfg.obi_long_min@ == 115 * one() && 100 * cfg.obi_short_max@ == 85 * one(),
        cfg.funding_max_for_long@ == 0 && cfg.funding_min_for_short@ == 0,
        cfg.long_min_score == 4 && cfg.short_min_score == 4,
        cfg.signal_cooldown_secs == 30 && cfg.warmup_min_ticks == 65,
        cfg.liq_window_secs == 30 && !cfg.use_isolated_margin && !cfg.hft_mode,
        cfg.min_margin_usd@ == 10 * one() && cfg.min_quote_balance_usd@ == 20 * one(),
        cfg.max_position_notional_usd@ == 30_000 * one() && cfg.max_slippage_bps@ == 25 * one(),
        2 * cfg.base_min_score@ == 13 * one() && cfg.fee_bps_round_trip@ == 8 * one(),
        2 * cfg.trend_threshold_hft@ == one() && 10 * cfg.trend_threshold_normal@ == 6 * one(),
        100 * cfg.weak_trend_score_multiplier@ == 115 * one() && 10 * cfg.regime_multiplier_trending@
            == 9 * one() && 100 * cfg.regime_multiplier_ranging@ == 115 * one(),
        !cfg.enable_enhanced_scoring && cfg.enable_order_flow && cfg.enable_signal_quality_filter,
        cfg.enhanced_score_excellent@ == 80 * one() && cfg.enhanced_score_good@ == 65 * one()
            && cfg.enhanced_score_marginal@ == 50 * one(),
        cfg.max_holding_bars == 48 && cfg.min_holding_bars == 3 && cfg.slippage_bps@ == 0,
        2 * cfg.min_volume_ratio@ == 3 * one() && cfg.max_volatility_pct@ == 2 * one()
            && cfg.max_price_change_5bars_pct@ == 3 * one(),
        cfg.market_tick_stale_tolerance_secs == 30 && !cfg.ws_disconnect_close_positions
            && cfg.ws_disconnect_timeout_secs == 60,
{
    lemma_powers();
    lemma_value(0, 0);
    lemma_value(1, 0);
    lemma_value(2, 0);
    lemma_value(3, 0);
    lemma_value(4, 0);
    lemma_value(8, 0);
    lemma_value(10, 0);
    lemma_value(20, 0);
    lemma_value(25, 0);
    lemma_value(45, 0);
    lemma_value(50, 0);
    lemma_value(55, 0);
    lemma_value(65, 0);
    lemma_value(80, 0);
    lemma_value(30000, 0);
    lemma_value(5, 1);
    lemma_value(6, 1);
    lemma_value(9, 1);
    lemma_value(15, 1);
    lemma_value(65, 1);
    lemma_value(85, 2);
    lemma_value(102, 2);
    lemma_value(115, 2);
}

/// Settings are accepted wherever every amount and period is above zero, the slow average is slower,
/// both limits of strength are within a hundred, losses stop short of a hundred percent, a
/// request is good for a minute at most and the cooldown is not negative.
pub proof fn law_settings_that_pass(cfg: BotConfig)
    ensures
        refused(cfg) is None <==> {
            &&& cfg.leverage@ > 0 && cfg.tp_percent@ > 0 && cfg.position_size_quote@ > 0
            &&& 0 < cfg.sl_percent@ < 100 * one()
            &&& 0 < cfg.ema_fast_period < cfg.ema_slow_period
            &&& cfg.rsi_period > 0 && cfg.atr_period > 0 && cfg.liq_window_secs > 0
            &&& cfg.obi_long_min@ > 0 && cfg.obi_short_max@ > 0
            &&& cfg.min_margin_usd@ > 0 && cfg.min_quote_balance_usd@ > 0
                && cfg.max_position_notional_usd@ > 0
            &&& 0 <= cfg.rsi_long_min@ <= 100 * one() && 0 <= cfg.rsi_short_max@ <= 100 * one()
            &&& cfg.recv_window_ms <= 60_000 && cfg.signal_cooldown_secs >= 0
        },
{
    lemma_powers();
    lemma_value(100, 0);
}

/// Each doubt is warned of once: a target above a hundred percent, limits that overlap, a request
/// that is good for less than one second or more than five, scores of zero, a window of
/// liquidations below five seconds or above five minutes, fees below five basis points, and in
/// fast mode fees below eight and a cooldown below ten seconds.
pub proof fn law_doubts(cfg: BotConfig)
    ensures
        doubts(cfg).len() == one_if(cfg.tp_percent@ > 100 * one()) + one_if(
            cfg.rsi_long_min@ <= cfg.rsi_short_max@,
        ) + one_if(cfg.obi_short_max@ >= cfg.obi_long_min@) + one_if(
            cfg.recv_window_ms < 1000 || cfg.recv_window_ms > 5000,
        ) + one_if(cfg.long_min_score == 0) + one_if(cfg.short_min_score == 0) + one_if(
            cfg.liq_window_secs < 5 || cfg.liq_window_secs > 300,
        ) + one_if(cfg.hft_mode && cfg.fee_bps_round_trip@ < 8 * one()) + one_if(
            cfg.hft_mode && cfg.signal_cooldown_secs < 10,
        ) + one_if(cfg.fee_bps_round_trip@ < 5 * one()),
{
    lemma_powers();
    lemma_value(100, 0);
    lemma_value(8, 0);
    lemma_value(5, 0);
}

pub open spec fn one_if(b: bool) -> int {
    if b {
        1
    } else {
        0
    }
}

} // verus!
