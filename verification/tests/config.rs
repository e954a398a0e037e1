use trading_bot::config::{
    BinanceFile, BotConfig, ConfigError, ConfigWarning, Environment, EventBusFile, FileConfig,
    LoadError, RiskFile, TrendingFile,
};
use trading_bot::decimal::Dec;
use trading_bot::event_bus::{EventBus, Topic};
use trading_bot::initialization::{
    determine_allowed_quotes, free_balance, initialize_app, metrics_cache_interval, select_quotes,
    BalanceSnapshot, EventBusConfig,
};
use trading_bot::rules::str_dec;

fn dec(s: &str) -> Dec {
    str_dec(s)
}

fn assert_same(a: Dec, b: &str) {
    assert!(a.same(&dec(b)), "{a:?} is not {b}");
}

fn env(vars: &[(&str, &str)]) -> Environment {
    Environment { vars: vars.iter().map(|(k, v)| (k.to_string(), v.to_string())).collect() }
}

fn defaults() -> BotConfig {
    BotConfig::from_env(&Environment::default(), &FileConfig::default())
}

#[test]
fn settings_without_a_source() {
    let cfg = defaults();
    assert_eq!(cfg.base_url, "https://fapi.binance.com");
    assert_eq!(cfg.ws_base_url, "wss://fstream.binance.com");
    assert_eq!(cfg.symbol, "BTCUSDT");
    assert_eq!(cfg.quote_asset, "USDT");
    assert_same(cfg.leverage, "10");
    assert_same(cfg.sl_percent, "0.5");
    assert_same(cfg.position_size_quote, "50");
    assert_eq!(cfg.ema_slow_period, 55);
    assert_eq!(cfg.warmup_min_ticks, 65);
    assert_eq!(cfg.recv_window_ms, 2500);
    assert_same(cfg.atr_rising_factor, "1.02");
    assert_same(cfg.obi_long_min, "1.15");
    assert!(cfg.liq_long_cluster_min.is_none());
    assert!(!cfg.hft_mode);
    assert!(cfg.enable_order_flow);
    assert_eq!(cfg.paper_trading_log_file, "paper_trading_orders.log");
    let v = cfg.validate();
    assert_eq!(v.error, None);
    assert_eq!(v.warnings, []);
}

#[test]
fn a_variable_comes_before_the_file() {
    let file = FileConfig {
        binance: Some(BinanceFile {
            api_key: Some("file-key".to_string()),
            recv_window_ms: Some(3000),
            ..Default::default()
        }),
        trending: Some(TrendingFile {
            ema_slow_period: Some(80),
            hft_mode: Some(true),
            ..Default::default()
        }),
        risk: Some(RiskFile { liq_window_secs: Some(45), ..Default::default() }),
        symbols: vec!["ETHUSDT".to_string(), "BTCUSDT".to_string()],
        leverage: Some(dec("5")),
        max_usd_per_order: Some(dec("75")),
        ..Default::default()
    };
    let cfg = BotConfig::from_env(&Environment::default(), &file);
    assert_eq!(cfg.api_key, "file-key");
    assert_eq!(cfg.recv_window_ms, 3000);
    assert_eq!(cfg.ema_slow_period, 80);
    assert_eq!(cfg.warmup_min_ticks, 90);
    assert!(cfg.hft_mode);
    assert_eq!(cfg.liq_window_secs, 45);
    assert_eq!(cfg.symbol, "ETHUSDT");
    assert_same(cfg.leverage, "5");
    assert_same(cfg.position_size_quote, "75");

    let vars = env(&[
        ("BINANCE_API_KEY", "env-key"),
        ("BINANCE_RECV_WINDOW_MS", "4000"),
        ("BOT_EMA_SLOW_PERIOD", "x"),
        ("BOT_HFT_MODE", "No"),
        ("BOT_SYMBOL", ""),
        ("BOT_LEVERAGE", "7.5"),
        ("BOT_MAX_POSITION_USDT", "90"),
        ("BOT_SIGNAL_COOLDOWN_SECS", "-1"),
        ("BOT_LIQ_LONG_CLUSTER_MIN", "0.001"),
    ]);
    let cfg = BotConfig::from_env(&vars, &file);
    assert_eq!(cfg.api_key, "env-key");
    assert_eq!(cfg.recv_window_ms, 4000);
    assert_eq!(cfg.ema_slow_period, 80);
    assert!(!cfg.hft_mode);
    assert_eq!(cfg.symbol, "ETHUSDT");
    assert_same(cfg.leverage, "7.5");
    assert_same(cfg.position_size_quote, "90");
    assert_eq!(cfg.signal_cooldown_secs, -1);
    assert_same(cfg.liq_long_cluster_min.unwrap(), "0.001");
    assert_eq!(cfg.validate().error, Some(ConfigError::SignalCooldownNegative));
}

#[test]
fn switches_are_read_in_any_case() {
    for (word, on) in [("true", true), ("TRUE", true), ("1", true), ("Yes", true), ("false", false), ("0", false), ("NO", false)] {
        let cfg = BotConfig::from_env(&env(&[("BOT_HFT_MODE", word)]), &FileConfig::default());
        assert_eq!(cfg.hft_mode, on, "{word}");
    }
    let cfg = BotConfig::from_env(&env(&[("BOT_ENABLE_ORDER_FLOW", "maybe")]), &FileConfig::default());
    assert!(cfg.enable_order_flow);
}

fn error_of(change: impl Fn(&mut BotConfig)) -> Option<ConfigError> {
    let mut cfg = defaults();
    change(&mut cfg);
    let v = cfg.validate();
    if v.error.is_some() && v.error != Some(ConfigError::SignalCooldownNegative) {
        assert_eq!(v.warnings, []);
    }
    v.error
}

#[test]
fn settings_that_are_refused() {
    let zero = dec("0");
    assert_eq!(error_of(|c| c.leverage = zero), Some(ConfigError::LeverageNotPositive));
    assert_eq!(error_of(|c| c.tp_percent = zero), Some(ConfigError::TpPercentNotPositive));
    assert_eq!(error_of(|c| c.sl_percent = zero), Some(ConfigError::SlPercentNotPositive));
    assert_eq!(error_of(|c| c.position_size_quote = zero), Some(ConfigError::PositionSizeNotPositive));
    assert_eq!(error_of(|c| c.ema_fast_period = 0), Some(ConfigError::EmaFastPeriodZero));
    assert_eq!(error_of(|c| c.rsi_period = 0), Some(ConfigError::RsiPeriodZero));
    assert_eq!(error_of(|c| c.atr_period = 0), Some(ConfigError::AtrPeriodZero));
    assert_eq!(error_of(|c| c.obi_long_min = zero), Some(ConfigError::ObiLongMinNotPositive));
    assert_eq!(error_of(|c| c.obi_short_max = zero), Some(ConfigError::ObiShortMaxNotPositive));
    assert_eq!(error_of(|c| c.min_margin_usd = zero), Some(ConfigError::MinMarginNotPositive));
    assert_eq!(error_of(|c| c.min_quote_balance_usd = zero), Some(ConfigError::MinQuoteBalanceNotPositive));
    assert_eq!(error_of(|c| c.max_position_notional_usd = zero), Some(ConfigError::MaxPositionNotionalNotPositive));
    assert_eq!(error_of(|c| c.liq_window_secs = 0), Some(ConfigError::LiqWindowZero));
    assert_eq!(error_of(|c| c.sl_percent = dec("100")), Some(ConfigError::SlPercentTooHigh));
    assert_eq!(error_of(|c| c.ema_slow_period = 21), Some(ConfigError::EmaSlowNotAboveFast));
    assert_eq!(error_of(|c| c.rsi_long_min = dec("100.1")), Some(ConfigError::RsiLongMinOutOfRange));
    assert_eq!(error_of(|c| c.rsi_short_max = dec("-1")), Some(ConfigError::RsiShortMaxOutOfRange));
    assert_eq!(error_of(|c| c.recv_window_ms = 60001), Some(ConfigError::RecvWindowTooLarge));
    assert_eq!(error_of(|c| c.signal_cooldown_secs = -1), Some(ConfigError::SignalCooldownNegative));
    assert_eq!(error_of(|_| ()), None);
}

#[test]
fn settings_that_are_doubtful() {
    let mut cfg = defaults();
    cfg.tp_percent = dec("101");
    cfg.rsi_long_min = dec("45");
    cfg.obi_short_max = dec("1.15");
    cfg.recv_window_ms = 999;
    cfg.long_min_score = 0;
    cfg.short_min_score = 0;
    cfg.liq_window_secs = 4;
    cfg.hft_mode = true;
    cfg.fee_bps_round_trip = dec("4");
    cfg.signal_cooldown_secs = 9;
    assert_eq!(
        cfg.validate().warnings,
        [
            ConfigWarning::TpPercentVeryHigh,
            ConfigWarning::RsiLongMinNotAboveShortMax,
            ConfigWarning::ObiShortMaxNotBelowLongMin,
            ConfigWarning::RecvWindowVeryLow,
            ConfigWarning::LongMinScoreZero,
            ConfigWarning::ShortMinScoreZero,
            ConfigWarning::LiqWindowVeryLow,
            ConfigWarning::HftFeeTooLow,
            ConfigWarning::HftCooldownVeryLow,
            ConfigWarning::FeeVeryLow,
        ]
    );
    let mut cfg = defaults();
    cfg.recv_window_ms = 5001;
    cfg.liq_window_secs = 301;
    assert_eq!(
        cfg.validate().warnings,
        [ConfigWarning::RecvWindowLarge, ConfigWarning::LiqWindowVeryHigh]
    );
}

#[test]
fn signals_are_made_with_the_same_settings() {
    let mut cfg = defaults();
    cfg.atr_period = 17;
    let p = cfg.trend_params();
    assert_eq!(p.atr_period, 17);
    assert_eq!(p.ema_slow_period, 55);
    assert_same(p.leverage, "10");
    assert_eq!(p.market_tick_stale_tolerance_secs, 30);
}

#[test]
fn buffers_of_the_event_bus() {
    let plain = EventBusConfig::from_file_config(&FileConfig::default());
    assert_eq!(plain.market_tick_buffer, 2000);
    assert_eq!(plain.trade_signal_buffer, 500);
    assert_eq!(plain.close_request_buffer, 500);
    assert_eq!(plain.order_update_buffer, 1000);
    assert_eq!(plain.position_update_buffer, 500);
    assert_eq!(plain.balance_update_buffer, 100);
    let file = FileConfig {
        event_bus: Some(EventBusFile {
            market_tick_buffer: Some(7),
            metrics_cache_update_interval_secs: Some(60),
            ..Default::default()
        }),
        ..Default::default()
    };
    assert_eq!(EventBusConfig::from_file_config(&file).market_tick_buffer, 7);
    assert_eq!(EventBusConfig::from_file_config(&file).order_update_buffer, 1000);
    assert_eq!(metrics_cache_interval(&file), 60);
    assert_eq!(metrics_cache_interval(&FileConfig::default()), 300);
}

#[test]
fn quotes_to_trade_in() {
    let mut file = FileConfig::default();
    assert_eq!(determine_allowed_quotes(&file), ["USDT"]);
    file.quote_asset = Some("USDC".to_string());
    assert_eq!(determine_allowed_quotes(&file), ["USDC"]);
    file.allow_usdt_quote = Some(true);
    let both = determine_allowed_quotes(&file);
    assert_eq!(both, ["USDT", "USDC"]);
    assert_eq!(select_quotes(&both, dec("20"), dec("30"), dec("20")), ["USDT", "USDC"]);
    assert_eq!(select_quotes(&both, dec("19"), dec("30"), dec("20")), ["USDC"]);
    assert_eq!(select_quotes(&both, dec("1"), dec("1"), dec("20")), ["USDT"]);
    let list = vec![
        BalanceSnapshot { asset: "USDT".to_string(), free: dec("5") },
        BalanceSnapshot { asset: "USDT".to_string(), free: dec("6") },
    ];
    assert_same(free_balance(&list, "USDT"), "5");
    assert_same(free_balance(&list, "USDC"), "0");
}

#[test]
fn channels_lead_to_their_topics() {
    let mut bus = EventBus::new(1, 2, 3, 4, 5, 6);
    assert_eq!(bus.buffers().balance_update_buffer, 6);
    assert_eq!(bus.trending_channels().signal_tx.topic, Topic::TradeSignal);
    assert_eq!(bus.follow_channels().close_tx.topic, Topic::CloseRequest);
    assert_eq!(bus.balance_channels().balance_tx.topic, Topic::Balance);
    assert_eq!(bus.connection_channels().market_tx.topic, Topic::MarketTick);
    assert_eq!(bus.rotation_channels().rotation_rx.topic, Topic::Rotation);
    assert_eq!(bus.rotation_sender().topic, Topic::Rotation);
    assert_eq!(bus.market_receiver().topic, Topic::MarketTick);
    assert!(bus.signal_rx_available());
    assert!(bus.close_rx_available());
    let o = bus.ordering_channels();
    assert_eq!(o.signal_rx.topic, Topic::TradeSignal);
    assert_eq!(o.close_rx.topic, Topic::CloseRequest);
    assert!(!bus.signal_rx_available());
    assert!(!bus.close_rx_available());
    let mut bus = EventBus::new(1, 2, 3, 4, 5, 6);
    let l = bus.logging_channels();
    assert_eq!(l.balance_rx.topic, Topic::Balance);
    assert!(!bus.signal_rx_available());
    assert!(bus.close_rx_available());
}

#[test]
fn what_the_bot_starts_with() {
    let list = vec![
        BalanceSnapshot { asset: "USDC".to_string(), free: dec("200") },
        BalanceSnapshot { asset: "USDT".to_string(), free: dec("5") },
    ];
    let settings = || BotConfig::from_env(&Environment::default(), &FileConfig::default());
    let mut file = FileConfig::default();
    file.allow_usdt_quote = Some(true);
    let c = initialize_app(settings(), file, Some(list), dec("100"));
    assert_eq!(c.quotes, ["USDC"]);
    assert_eq!(c.metrics_cache.update_interval_secs, 300);
    assert!(c.symbol_cache.get("BTCUSDT").is_none());
    assert!(!c.depth_cache.is_available("BTCUSDT", 0));
    assert_eq!(c.connection.config().symbol, settings().symbol);
    let c = initialize_app(settings(), FileConfig::default(), None, dec("100"));
    assert_eq!(c.quotes, ["USDT"]);
}

#[test]
fn only_valid_settings_are_loaded() {
    let loaded = BotConfig::load(&Environment::default(), &FileConfig::default()).unwrap();
    assert_eq!(loaded.config.ema_slow_period, 55);
    assert_eq!(loaded.warnings, []);

    let vars = env(&[("BOT_SIGNAL_COOLDOWN_SECS", "5"), ("BOT_HFT_MODE", "true")]);
    let loaded = BotConfig::load(&vars, &FileConfig::default()).unwrap();
    assert!(loaded.config.hft_mode);
    assert_eq!(loaded.warnings, [ConfigWarning::HftCooldownVeryLow]);

    let vars = env(&[("BOT_LEVERAGE", "0"), ("BOT_SIGNAL_COOLDOWN_SECS", "-1")]);
    match BotConfig::load(&vars, &FileConfig::default()) {
        Err(LoadError::Refused { error, warnings }) => {
            assert_eq!(error, ConfigError::LeverageNotPositive);
            assert_eq!(warnings, []);
        }
        other => panic!("{other:?}"),
    }
    let vars = env(&[("BOT_SIGNAL_COOLDOWN_SECS", "-1"), ("BOT_LONG_MIN_SCORE", "0")]);
    match BotConfig::load(&vars, &FileConfig::default()) {
        Err(LoadError::Refused { error, warnings }) => {
            assert_eq!(error, ConfigError::SignalCooldownNegative);
            assert_eq!(warnings, [ConfigWarning::LongMinScoreZero]);
        }
        other => panic!("{other:?}"),
    }
    let slow = usize::MAX.to_string();
    let vars = env(&[("BOT_EMA_SLOW_PERIOD", slow.as_str())]);
    let told = BotConfig::load(&vars, &FileConfig::default());
    assert!(matches!(told, Err(LoadError::SlowPeriodTooLarge)));
}
