use trading_bot::decimal::Dec;
use trading_bot::rules::str_dec;
use trading_bot::strategy::{
    guard_ask, guard_bid, skew_price, Context, DynMm, DynMmCfg, ManipulationOpportunity, Skews,
    Strategy,
};
use trading_bot::types::{BookLevel, OrderBook, Px, Qty, Quotes};

fn dec(s: &str) -> Dec {
    str_dec(s)
}

fn float(d: Dec) -> f64 {
    d.mantissa() as f64 / 10f64.powi(d.scale() as i32)
}

fn middle(a: Dec, b: Dec) -> f64 {
    (float(a) + float(b)) / 2.0
}

fn create_test_strategy() -> DynMm {
    DynMm::from_config(&DynMmCfg::with_defaults(
        dec("120"),
        dec("40"),
        dec("20"),
        dec("0.5"),
    ))
}

fn level(px: &str, qty: &str) -> Option<BookLevel> {
    Some(BookLevel {
        px: Px(dec(px)),
        qty: Qty(dec(qty)),
    })
}

fn create_test_context(bid: &str, ask: &str, inv: &str, liq_gap_bps: &str) -> Context {
    let mid = (middle(dec(bid), dec(ask)) * 100.0).round() as i64;
    Context {
        ob: OrderBook {
            best_bid: level(bid, "0.1"),
            best_ask: level(ask, "0.1"),
            top_bids: None,
            top_asks: None,
        },
        sigma: dec("0.5"),
        inv: Qty(dec(inv)),
        liq_gap_bps: dec(liq_gap_bps),
        funding_rate: None,
        next_funding_time: None,
        mark_price: Px(Dec::new(mid, 2)),
        tick_size: Some(dec("0.01")),
    }
}

const NOW: u64 = 1_700_000_000_000;

fn tick(strategy: &mut DynMm, ctx: &Context) -> Quotes {
    strategy.on_tick(ctx, NOW).expect("numbers that can be held")
}

#[test]
fn test_microprice_calculation() {
    let strategy = create_test_strategy();

    // Equal volumes: the middle.
    let bid = dec("50000");
    let ask = dec("50010");
    let bid_vol = dec("0.1");
    let ask_vol = dec("0.1");
    let microprice = strategy.calculate_microprice(bid, ask, bid_vol, ask_vol).unwrap();
    let mid = middle(bid, ask);
    assert!((float(microprice) - mid).abs() < 0.01);

    // More volume to buy: between the middle and the ask.
    let bid_vol_heavy = dec("0.2");
    let ask_vol_light = dec("0.05");
    let microprice_bid_heavy =
        float(strategy.calculate_microprice(bid, ask, bid_vol_heavy, ask_vol_light).unwrap());
    assert!(microprice_bid_heavy > mid && microprice_bid_heavy <= float(ask));
    // (50010 * 0.2 + 50000 * 0.05) / 0.25
    assert_eq!(microprice_bid_heavy, 50008.0);

    // More volume to sell: between the bid and the middle.
    let bid_vol_light = dec("0.05");
    let ask_vol_heavy = dec("0.2");
    let microprice_ask_heavy =
        float(strategy.calculate_microprice(bid, ask, bid_vol_light, ask_vol_heavy).unwrap());
    assert!(microprice_ask_heavy < mid && microprice_ask_heavy >= float(bid));
    assert_eq!(microprice_ask_heavy, 50002.0);
}

#[test]
fn test_imbalance_calculation() {
    let strategy = create_test_strategy();

    let imbalance = float(strategy.calculate_imbalance(dec("0.1"), dec("0.1")).unwrap());
    assert!((imbalance - 0.0).abs() < 0.001);

    let imbalance_bid = float(strategy.calculate_imbalance(dec("0.2"), dec("0.1")).unwrap());
    assert!(imbalance_bid > 0.0);
    assert!((imbalance_bid - 0.333).abs() < 0.01);

    let imbalance_ask = float(strategy.calculate_imbalance(dec("0.1"), dec("0.2")).unwrap());
    assert!(imbalance_ask < 0.0);
    assert!((imbalance_ask + 0.333).abs() < 0.01);
}

#[test]
fn test_volatility_update() {
    let mut strategy = create_test_strategy();
    let initial_vol = float(strategy.ewma_volatility);

    assert!(strategy.update_volatility(dec("50000")));
    assert!(float(strategy.ewma_volatility) >= initial_vol);

    // A rise by two percent.
    let vol_before = float(strategy.ewma_volatility);
    assert!(strategy.update_volatility(dec("51000")));
    assert!(float(strategy.ewma_volatility) > vol_before);

    // A small change.
    assert!(strategy.update_volatility(dec("51010")));
    assert!(float(strategy.ewma_volatility) > 0.0);
}

#[test]
fn test_inventory_decision() {
    let strategy = create_test_strategy();
    let inv_cap = strategy.inv_cap.0;
    let part = |ratio: &str| Qty(dec(&format!("{}", float(inv_cap) * float(dec(ratio)))));

    // At the target: both sides.
    let target = Qty(dec("0"));
    let current = Qty(dec("0"));
    let (should_bid, should_ask) = strategy.inventory_decision(current, target).unwrap();
    assert!(should_bid);
    assert!(should_ask);

    // Below the target: the bid only.
    let target = part("0.5");
    let current = Qty(dec("0"));
    let (should_bid, should_ask) = strategy.inventory_decision(current, target).unwrap();
    assert!(should_bid);
    assert!(!should_ask);

    // Above the target: the ask only.
    let target = Qty(dec("0"));
    let current = part("0.5");
    let (should_bid, should_ask) = strategy.inventory_decision(current, target).unwrap();
    assert!(!should_bid);
    assert!(should_ask);

    // Near the target: both sides.
    let target = part("0.5");
    let current = part("0.48");
    let (should_bid, should_ask) = strategy.inventory_decision(current, target).unwrap();
    assert!(should_bid);
    assert!(should_ask);
}

#[test]
fn test_adaptive_spread() {
    let mut strategy = create_test_strategy();

    // Hardly any volatility.
    strategy.ewma_volatility = dec("0.000001");
    strategy.ofi_signal = dec("0");
    let spread = float(strategy.calculate_adaptive_spread(dec("10"), dec("1")).unwrap());
    assert!(spread >= 1.0);
    assert!(spread >= 10.0);

    // More volatility.
    strategy.ewma_volatility = dec("0.01");
    let spread_high_vol = float(strategy.calculate_adaptive_spread(dec("10"), dec("1")).unwrap());
    assert!(spread_high_vol >= 1.0);

    // A strong order flow.
    strategy.ewma_volatility = dec("0.0001");
    strategy.ofi_signal = dec("1");
    let spread_high_ofi = float(strategy.calculate_adaptive_spread(dec("10"), dec("1")).unwrap());
    assert!(spread_high_ofi >= 1.0);
}

#[test]
fn test_trend_detection() {
    let mut strategy = create_test_strategy();

    // Not enough prices.
    let trend = float(strategy.detect_trend().unwrap());
    assert_eq!(trend, 0.0);

    for i in 0..15u64 {
        let price = Dec::new(50000 + i as i64 * 100, 0);
        strategy.price_history.push((NOW + i * 1000, price));
    }
    let trend_up = float(strategy.detect_trend().unwrap());
    assert!(trend_up != 0.0, "Trend should be non-zero with price changes, got: {}", trend_up);

    strategy.price_history.clear();
    for i in 0..15u64 {
        let price = Dec::new(501400 - i as i64 * 100, 0);
        strategy.price_history.push((NOW + i * 1000, price));
    }
    let trend_down = float(strategy.detect_trend().unwrap());
    assert!(trend_down != 0.0, "Trend should be non-zero with price changes");
    assert!(trend_down != trend_up, "Uptrend and downtrend should be different");
}

#[test]
fn test_strategy_on_tick_basic() {
    let mut strategy = create_test_strategy();
    let ctx = create_test_context("50000", "50050", "0", "500");

    let quotes = tick(&mut strategy, &ctx);

    if let Some((bid_px, _)) = quotes.bid {
        assert!(bid_px.0.is_positive());
    }
    if let Some((ask_px, _)) = quotes.ask {
        assert!(ask_px.0.is_positive());
    }
    if let (Some((bid_px, _)), Some((ask_px, _))) = (quotes.bid, quotes.ask) {
        assert!(float(bid_px.0) < float(ask_px.0));
    }
}

#[test]
fn test_strategy_no_orderbook() {
    let mut strategy = create_test_strategy();
    let ctx = Context {
        ob: OrderBook::default(),
        sigma: dec("0.5"),
        inv: Qty(dec("0")),
        liq_gap_bps: dec("500"),
        funding_rate: None,
        next_funding_time: None,
        mark_price: Px(dec("50000")),
        tick_size: Some(dec("0.01")),
    };

    let quotes = tick(&mut strategy, &ctx);
    assert!(quotes.bid.is_none());
    assert!(quotes.ask.is_none());
}

#[test]
fn test_strategy_wide_spread_rejection() {
    let mut strategy = create_test_strategy();
    // A spread of five percent.
    let ctx = create_test_context("50000", "52500", "0", "500");

    let quotes = tick(&mut strategy, &ctx);
    assert!(quotes.bid.is_none());
    assert!(quotes.ask.is_none());
}

#[test]
fn test_target_inventory_calculation() {
    let strategy = create_test_strategy();

    let target = strategy.calculate_target_inventory(Some(dec("0.01")), dec("0")).unwrap();
    assert!(float(target.0) > 0.0);

    let target = strategy.calculate_target_inventory(Some(dec("-0.01")), dec("0")).unwrap();
    assert!(float(target.0) < 0.0);

    let target = strategy.calculate_target_inventory(None, dec("100")).unwrap();
    assert!(float(target.0) >= 0.0);

    let target = strategy.calculate_target_inventory(None, dec("-100")).unwrap();
    assert!(float(target.0) <= 0.0);
}

#[test]
fn test_strategy_produces_quotes_when_no_position() {
    let mut strategy = create_test_strategy();

    for i in 0..10u64 {
        let price = Dec::new(50000 + i as i64, 0);
        strategy.price_history.push((NOW - (10 - i) * 1000, price));
    }

    let ctx = create_test_context("50000", "50010", "0", "500");
    let quotes = tick(&mut strategy, &ctx);

    assert!(
        quotes.bid.is_some() || quotes.ask.is_some(),
        "Strategy should produce at least one quote when no position and normal market conditions. bid={:?}, ask={:?}",
        quotes.bid,
        quotes.ask
    );
}

#[test]
fn test_target_inventory_with_no_funding_no_trend() {
    let strategy = create_test_strategy();

    let target = strategy.calculate_target_inventory(None, dec("0")).unwrap();
    assert!(
        target.0.same(&dec("0")),
        "Target inventory should be zero when no funding and no trend"
    );
}

#[test]
fn test_inventory_decision_when_target_and_current_both_zero() {
    let strategy = create_test_strategy();

    let target = Qty(dec("0"));
    let current = Qty(dec("0"));
    let (should_bid, should_ask) = strategy.inventory_decision(current, target).unwrap();

    assert!(should_bid, "Should bid when target and current are both zero (market making)");
    assert!(should_ask, "Should ask when target and current are both zero (market making)");
}

#[test]
fn test_strategy_with_sufficient_liquidity() {
    let mut strategy = create_test_strategy();

    let ctx = Context {
        ob: OrderBook {
            best_bid: level("50000", "1.0"),
            best_ask: level("50010", "1.0"),
            top_bids: None,
            top_asks: None,
        },
        sigma: dec("0.5"),
        inv: Qty(dec("0")),
        liq_gap_bps: dec("500"),
        funding_rate: None,
        next_funding_time: None,
        mark_price: Px(dec("50005")),
        tick_size: Some(dec("0.01")),
    };

    let quotes = tick(&mut strategy, &ctx);

    assert!(
        quotes.bid.is_some() || quotes.ask.is_some(),
        "Strategy should produce quotes when liquidity is sufficient"
    );
}

#[test]
fn test_spread_bps_to_ratio_conversion() {
    let spread_bps = 100.0f64;
    let half_spread_bps = spread_bps / 2.0;
    let half_ratio = half_spread_bps / 1e4;
    assert!((half_ratio - 0.005f64).abs() < 1e-6, "50 bps should be 0.005 ratio");

    let ratio = 0.01f64;
    let bps = ratio * 1e4;
    assert!((bps - 100.0f64).abs() < 1e-6, "0.01 ratio should be 100 bps");

    // What a funding rate moves prices by, in hundredths of a percent.
    let strategy = create_test_strategy();
    let funding_skew_bps = float(strategy.funding_bias(Some(dec("0.0001"))).unwrap());
    assert_eq!(funding_skew_bps, 0.0001f64 * 10000.0);
    let funding_skew_ratio = funding_skew_bps / 1e4;
    assert!(
        (funding_skew_ratio - 0.0001f64).abs() < 1e-6,
        "funding skew conversion should be correct"
    );

    let inv_skew_bps = 20.0f64;
    let inv_skew_ratio = inv_skew_bps / 1e4;
    assert!((inv_skew_ratio - 0.002f64).abs() < 1e-6, "inv_skew conversion should be correct");

    let imbalance_skew_bps = 10.0f64;
    let imbalance_skew_ratio = imbalance_skew_bps / 1e4;
    assert!(
        (imbalance_skew_ratio - 0.001f64).abs() < 1e-6,
        "imbalance_skew conversion should be correct"
    );
}

#[test]
fn test_price_calculation_with_skews() {
    let microprice = dec("50000");
    // Half of 100, and 10, 5 and -3 hundredths of a percent.
    let skews = Skews {
        half: dec("0.005"),
        skew: dec("0.001"),
        inv_skew: dec("0.0005"),
        imb_skew: dec("-0.0003"),
    };

    let bid_px = float(skew_price(microprice, &skews, true).unwrap());
    let ask_px = float(skew_price(microprice, &skews, false).unwrap());

    let spread_bps_calc = (ask_px - bid_px) / float(microprice) * 1e4;
    let expected_spread_bps = 2.0 * (50.0 + 10.0 + 5.0 - 3.0);
    assert!(
        (spread_bps_calc - expected_spread_bps).abs() < 1.0,
        "Spread should be approximately {} bps, got {} bps",
        expected_spread_bps,
        spread_bps_calc
    );
    assert!(bid_px < ask_px, "Bid should be less than ask");
    assert_eq!(bid_px, 49690.0);
    assert_eq!(ask_px, 50310.0);
}

#[test]
fn quotes_stay_off_the_market() {
    assert!(guard_bid(dec("101"), dec("100"), dec("0.5")).unwrap().same(&dec("99.5")));
    assert!(guard_bid(dec("99"), dec("100"), dec("0.5")).unwrap().same(&dec("99")));
    assert!(guard_bid(dec("101"), dec("0.1"), dec("0.5")).unwrap().same(&dec("0")));
    assert!(guard_ask(dec("99"), dec("100"), dec("0.5")).unwrap().same(&dec("100.5")));
    assert!(guard_ask(dec("101"), dec("100"), dec("0.5")).unwrap().same(&dec("101")));
    // A tick that is lost beside the price leaves the price as it is.
    let large = dec("70000000000000000000000000000");
    assert!(guard_bid(large, large, dec("0.1")).unwrap().same(&large));
    assert!(guard_ask(large, large, dec("0.1")).unwrap().same(&large));
}

/// A market maker that has seen these prices, and volumes that grew tenfold.
fn after_prices(prices: &[&str]) -> DynMm {
    let mut strategy = create_test_strategy();
    for p in prices {
        strategy.price_history.push((NOW - 1000, dec(p)));
    }
    for v in ["1", "1", "1", "1", "1", "10", "10", "10", "10", "10"] {
        strategy.volume_history.push(dec(v));
    }
    strategy
}

#[test]
fn a_fall_is_bought() {
    let mut strategy = after_prices(&["50000", "48000", "50000"]);
    let ctx = create_test_context("48000", "48010", "0", "500");
    strategy.on_tick(&ctx, NOW).unwrap();
    assert!(strategy.flash_crash_detected);
    assert!(matches!(
        strategy.manipulation_opportunity,
        Some(ManipulationOpportunity::FlashCrashLong { .. })
    ));
    assert!(strategy.is_opportunity_mode());
    assert!((float(strategy.flash_crash_direction) + 399.0).abs() < 1e-9);
}

#[test]
fn a_rise_is_sold() {
    let mut strategy = after_prices(&["50000", "52000", "50000"]);
    let ctx = create_test_context("52000", "52010", "0", "500");
    strategy.on_tick(&ctx, NOW).unwrap();
    assert!(matches!(
        strategy.manipulation_opportunity,
        Some(ManipulationOpportunity::FlashPumpShort { .. })
    ));
}

#[test]
fn a_jump_that_is_not_taken_back_is_no_opportunity() {
    let mut strategy = after_prices(&["50000", "50000", "50000"]);
    let ctx = create_test_context("48000", "48010", "0", "500");
    strategy.on_tick(&ctx, NOW).unwrap();
    assert!(!strategy.flash_crash_detected);
    assert!(strategy.manipulation_opportunity.is_none());
    assert!(!strategy.is_opportunity_mode());
}

#[test]
fn a_wide_spread_is_earned_on_both_sides() {
    let mut strategy = create_test_strategy();
    // 60 hundredths of a percent.
    let ctx = create_test_context("49850", "50150", "0", "500");
    let quotes = tick(&mut strategy, &ctx);
    assert!(matches!(
        strategy.manipulation_opportunity,
        Some(ManipulationOpportunity::WideSpreadArbitrage { .. })
    ));
    let (bid, qty) = quotes.bid.unwrap();
    let (ask, _) = quotes.ask.unwrap();
    assert!(float(bid.0) < 49850.0);
    assert!(float(ask.0) > 50150.0);
    // 100 dollars, and a fifth more for the opportunity, at 50000.
    assert_eq!(float(qty.0), 0.0024);
}

#[test]
fn volumes_that_grow_follow_the_trend() {
    let mut strategy = create_test_strategy();
    for p in ["50000", "50001"] {
        strategy.price_history.push((NOW - 1000, dec(p)));
    }
    for _ in 0..10 {
        strategy.volume_history.push(dec("0.01"));
    }
    for _ in 0..9 {
        strategy.volume_history.push(dec("0.2"));
    }
    let ctx = create_test_context("50000", "50010", "0", "500");
    let quotes = tick(&mut strategy, &ctx);
    assert!(matches!(
        strategy.manipulation_opportunity,
        Some(ManipulationOpportunity::VolumeAnomalyTrend { up: true, .. })
    ));
    assert!(quotes.bid.is_some());
    assert!(quotes.ask.is_none());
}

#[test]
fn a_breakout_without_volume_is_gone_against() {
    let mut strategy = create_test_strategy();
    for (i, (p, v)) in [("50000", "1"), ("50100", "1"), ("50300", "1"), ("50500", "1")]
        .iter()
        .enumerate()
    {
        strategy.momentum_history.push((NOW - 1000 + i as u64, dec(p), dec(v)));
    }
    let ctx = create_test_context("51000", "51010", "0", "500");
    let quotes = tick(&mut strategy, &ctx);
    assert!(matches!(
        strategy.manipulation_opportunity,
        Some(ManipulationOpportunity::MomentumManipulationReversal { breakout_up: true, .. })
    ));
    assert!(quotes.bid.is_none());
    assert!(quotes.ask.is_some());
}

#[test]
fn a_sudden_wall_is_gone_against() {
    let mut strategy = create_test_strategy();
    strategy.last_liquidity_level = dec("100");
    let mut ctx = create_test_context("50000", "50010", "0", "500");
    ctx.ob.best_bid = level("50000", "1");
    let quotes = tick(&mut strategy, &ctx);
    assert!(matches!(
        strategy.manipulation_opportunity,
        Some(ManipulationOpportunity::SpoofingOpportunity { bid_wall: true, .. })
    ));
    assert!(quotes.bid.is_none());
    assert!(quotes.ask.is_some());
}

#[test]
fn what_was_withdrawn_counts_where_the_spread_is_wide() {
    let mut strategy = create_test_strategy();
    strategy.last_liquidity_level = dec("1000000");
    strategy.cfg.spread_arbitrage_min_bps = dec("1");
    strategy.cfg.spread_arbitrage_max_bps = dec("1.5");
    let ctx = create_test_context("50000", "50010", "0", "500");
    tick(&mut strategy, &ctx);
    assert!(matches!(
        strategy.manipulation_opportunity,
        Some(ManipulationOpportunity::LiquidityWithdrawal { .. })
    ));
}

#[test]
fn a_side_to_lose_on_is_not_quoted() {
    let mut strategy = create_test_strategy();
    // The earlier five prices are above the later five: the trend is up.
    for i in 0..10u64 {
        let price = if i < 5 { "51000" } else { "50000" };
        strategy.price_history.push((NOW - 10_000 + i, dec(price)));
    }
    strategy.cfg.price_jump_threshold_bps = dec("100000");
    strategy.cfg.fake_breakout_threshold_bps = dec("100000");
    strategy.cfg.inventory_threshold_ratio = dec("10");
    strategy.last_volumes = Some((dec("0.1"), dec("10.1")));
    strategy.cfg.ofi_coefficient = dec("0");
    let ctx = create_test_context("50000", "50010", "0", "500");
    let quotes = tick(&mut strategy, &ctx);
    assert!(strategy.last_adverse_ask);
    assert!(!strategy.last_adverse_bid);
    assert!(quotes.bid.is_some());
    assert!(quotes.ask.is_none());
}

#[test]
fn what_the_volumes_grow_by_moves_the_flow() {
    let mut strategy = create_test_strategy();
    assert!(strategy.update_ofi(dec("1"), dec("1"), NOW));
    let before = float(strategy.ofi_signal);
    assert!(strategy.update_ofi(dec("3"), dec("1"), NOW + 100));
    assert!(float(strategy.ofi_signal) > before);
}

#[test]
fn a_history_is_bounded() {
    let mut strategy = create_test_strategy();
    let ctx = create_test_context("50000", "50010", "0", "500");
    for i in 0..400 {
        strategy.on_tick(&ctx, NOW + i * 100).unwrap();
    }
    assert_eq!(strategy.price_history.len(), 100);
    assert_eq!(strategy.volume_history.len(), 50);
    assert_eq!(strategy.price_history[99].0, NOW + 399 * 100);
}

#[test]
fn the_imbalance_turns_with_the_sides() {
    let strategy = create_test_strategy();
    let imbalance = |x: &str, y: &str| strategy.calculate_imbalance(dec(x), dec(y)).unwrap();
    let third = imbalance("0.2", "0.1");
    assert_eq!((third.mantissa(), third.scale()), (3_333_333_333_333_333_333_333_333_333, 28));
    assert!(imbalance("0.1", "0.2").same(&third.neg()));
    assert!(imbalance("5", "0").same(&dec("1")));
    assert!(imbalance("0", "5").same(&dec("-1")));
    assert!(imbalance("0", "0").same(&dec("0")));
    assert!(imbalance("0.7", "0.7").same(&dec("0")));
}

#[test]
fn the_spread_grows_with_what_it_depends_on() {
    let mut strategy = create_test_strategy();
    let c1 = float(strategy.cfg.volatility_coefficient);
    let c2 = float(strategy.cfg.ofi_coefficient);
    strategy.ewma_volatility = dec("0.0004");
    strategy.ofi_signal = dec("-0.3");
    let spread = float(strategy.calculate_adaptive_spread(dec("1"), dec("2")).unwrap());
    assert!((spread - (c1 * 200.0 + c2 * 30.0)).abs() < 1e-9);
    strategy.ewma_volatility = dec("0.0005");
    let wider = float(strategy.calculate_adaptive_spread(dec("1"), dec("2")).unwrap());
    assert!(wider > spread);
    strategy.ofi_signal = dec("0.4");
    assert!(float(strategy.calculate_adaptive_spread(dec("1"), dec("2")).unwrap()) > wider);
    let base = float(strategy.calculate_adaptive_spread(dec("100000"), dec("2")).unwrap());
    assert_eq!(base, 100000.0);
    let narrowest = float(strategy.calculate_adaptive_spread(dec("1"), dec("200000")).unwrap());
    assert_eq!(narrowest, 200000.0);
}

#[test]
fn the_target_stays_within_the_cap() {
    let strategy = create_test_strategy();
    let target = |f: &str, t: &str| {
        strategy.calculate_target_inventory(Some(dec(f)), dec(t)).unwrap().0
    };
    assert!(target("0.01", "0").same(&dec("0.25")));
    assert!(target("-0.01", "0").same(&dec("-0.25")));
    assert!(target("1", "0").same(&dec("0.5")));
    assert!(target("-1", "0").same(&dec("-0.5")));
    assert!(target("0.02", "0").same(&target("-0.02", "0").neg()));
    assert!(target("0.01", "0").le(&target("0.01", "7")));
    assert!(target("0.01", "7").le(&target("0.02", "7")));
}

#[test]
fn a_book_heavy_on_the_bid_side_narrows_the_quotes() {
    let width = |bid_qty: &str, ask_qty: &str, base: f64| {
        let mut strategy = create_test_strategy();
        let mut ctx = create_test_context("50000", "50010", "0", "500");
        ctx.ob.best_bid = level("50000", bid_qty);
        ctx.ob.best_ask = level("50010", ask_qty);
        let quotes = tick(&mut strategy, &ctx);
        let bid = float(quotes.bid.expect("a bid").0 .0);
        let ask = float(quotes.ask.expect("an ask").0 .0);
        (ask - bid) / base
    };
    // The imbalance is a half on one side or the other: five basis points each way.
    let heavy_bid = width("0.3", "0.1", 50007.5);
    let heavy_ask = width("0.1", "0.3", 50002.5);
    assert!((heavy_ask - heavy_bid - 0.002).abs() < 1e-9, "{heavy_bid} {heavy_ask}");
}
