use trading_bot::cache::{DepthCache, PositionCache, SymbolInfoCache};
use trading_bot::decimal::Dec;
use trading_bot::depth::{
    fetch_depth_obi, fetch_snapshot, parse_mark_price, populate_tick_with_depth, DepthState,
};
use trading_bot::liquidation::{
    fetch_liquidation_clusters, force_order_value, ForceOrder, LiqState,
};
use trading_bot::metrics_cache::{
    FundingRate, LongShortRatioPoint, MetricsCache, OpenInterestPoint,
};
use trading_bot::positions::FutPosition;
use trading_bot::rules::str_dec;
use trading_bot::user_stream::to_position_update;

fn dec(s: &str) -> Dec {
    str_dec(s)
}

fn assert_same(a: Dec, b: &str) {
    assert!(a.same(&dec(b)), "{a:?} is not {b}");
}

fn levels(list: &[(&str, &str)]) -> Vec<(String, String)> {
    list.iter().map(|(p, q)| (p.to_string(), q.to_string())).collect()
}

fn prices(side: &[(Dec, Dec)]) -> Vec<f64> {
    side.iter().map(|(p, _)| p.mantissa() as f64 / 10f64.powi(p.scale() as i32)).collect()
}

#[test]
fn a_book_is_changed_level_by_level() {
    let mut book = DepthState::new(3);
    assert!(book.obi().is_none());
    assert!(book.best_bid().is_none());
    book.update(
        &levels(&[("99", "1"), ("100", "2"), ("98", "1"), ("97", "1"), ("x", "1")]),
        &levels(&[("103", "1"), ("101", "4")]),
    );
    assert_eq!(prices(&book.bids), [100.0, 99.0, 98.0]);
    assert_eq!(prices(&book.asks), [101.0, 103.0]);
    // Four to buy and five to sell.
    assert_same(book.obi().unwrap(), "0.8");
    assert_same(book.best_bid().unwrap().0, "100");
    assert_same(book.best_ask().unwrap().1, "4");

    book.update(&levels(&[("100", "0"), ("99", "5")]), &levels(&[]));
    assert_eq!(prices(&book.bids), [99.0, 98.0]);
    assert_same(book.bids[0].1, "5");
    assert_same(book.depth_notional_usd(true, 1).unwrap(), "495");
    assert_same(book.depth_notional_usd(true, 0).unwrap(), "495");
    assert_same(book.depth_notional_usd(true, 10).unwrap(), "593");
    assert!(DepthState::new(3).depth_notional_usd(false, 10).is_none());
}

#[test]
fn a_book_is_taken_as_it_is() {
    let mut book = DepthState::new(2);
    book.reset_with_snapshot(
        &levels(&[("99", "1"), ("100", "2"), ("98", "1")]),
        &levels(&[("101", "x"), ("102", "6")]),
    );
    assert_eq!(prices(&book.bids), [99.0, 100.0]);
    assert_eq!(prices(&book.asks), [102.0]);
    assert_same(book.obi().unwrap(), "0.5");
}

#[test]
fn the_balance_of_a_book() {
    assert_same(
        fetch_depth_obi(&levels(&[("1", "3"), ("1", "1")]), &levels(&[("2", "2")])).unwrap(),
        "2",
    );
    assert!(fetch_depth_obi(&levels(&[("1", "3")]), &levels(&[])).is_none());
}

#[test]
fn ticks() {
    let mut t = parse_mark_price("BTCUSDT", "50000.5", Some("0.0001"), 17).unwrap();
    assert_eq!(t.symbol, "BTCUSDT");
    assert_same(t.price, "50000.5");
    assert_same(t.bid, "50000.5");
    assert_same(t.ask, "50000.5");
    assert_same(t.volume, "0");
    assert_eq!(t.ts_ms, 17);
    assert_same(t.funding_rate.unwrap(), "0.0001");
    assert!(t.obi.is_none());
    assert!(parse_mark_price("BTCUSDT", "x", None, 17).is_none());

    let mut book = DepthState::new(20);
    populate_tick_with_depth(&book, &mut t);
    assert_same(t.bid, "50000.5");
    assert!(t.bid_depth_usd.is_none());
    book.update(&levels(&[("50000", "2")]), &levels(&[("50001", "1")]));
    populate_tick_with_depth(&book, &mut t);
    assert_same(t.bid, "50000");
    assert_same(t.ask, "50001");
    assert_same(t.bid_depth_usd.unwrap(), "100000");
    assert_same(t.ask_depth_usd.unwrap(), "50001");

    let s = fetch_snapshot("BTCUSDT", "7", None, 17, Some(dec("2")), Some((Some(dec("3")), None))).unwrap();
    assert_same(s.obi.unwrap(), "2");
    assert_same(s.liq_long_cluster.unwrap(), "3");
    assert!(s.liq_short_cluster.is_none());
    assert!(fetch_snapshot("BTCUSDT", "7", None, 17, None, None).unwrap().obi.is_none());
    assert!(fetch_snapshot("BTCUSDT", "x", None, 17, None, None).is_none());
}

#[test]
fn liquidations_in_a_window() {
    let mut s = LiqState::new(10);
    assert!(!s.record("SELL", dec("5"), 1000));
    s.set_open_interest(dec("100"));
    s.set_open_interest(dec("0"));
    assert_same(s.open_interest, "100");
    assert!(!s.record("SELL", dec("0"), 1000));
    assert!(s.record("sell", dec("5"), 1000));
    assert!(s.record("BUY", dec("2"), 2000));
    assert!(s.record("SELL", dec("1"), 11_000));
    let (long, short) = s.snapshot();
    assert_same(long.unwrap(), "0.06");
    assert_same(short.unwrap(), "0.02");
    // The first is older than ten seconds now.
    s.prune(11_001);
    let (long, short) = s.snapshot();
    assert_same(long.unwrap(), "0.01");
    assert_same(short.unwrap(), "0.02");
    s.prune(60_000);
    assert!(s.entries.is_empty());
    let (long, short) = s.snapshot();
    assert!(long.is_none() && short.is_none());
}

fn forced(side: &str, executed: Option<&str>, price: Option<&str>) -> ForceOrder {
    ForceOrder {
        symbol: "BTCUSDT".to_string(),
        side: side.to_string(),
        last_filled: None,
        executed_qty: executed.map(|s| s.to_string()),
        orig_qty: Some("10".to_string()),
        avg_price: price.map(|s| s.to_string()),
        price: Some("100".to_string()),
    }
}

#[test]
fn forced_orders() {
    assert_same(force_order_value(&forced("SELL", Some("2"), Some("50")), "BTCUSDT").unwrap(), "100");
    assert_same(force_order_value(&forced("SELL", None, None), "BTCUSDT").unwrap(), "1000");
    assert!(force_order_value(&forced("SELL", None, None), "ETHUSDT").is_none());
    assert!(force_order_value(&forced("SELL", Some("x"), None), "BTCUSDT").is_none());
    let mut last = forced("SELL", Some("2"), Some("50"));
    last.last_filled = Some("1".to_string());
    assert_same(force_order_value(&last, "BTCUSDT").unwrap(), "50");

    let list = vec![
        forced("SELL", Some("2"), Some("50")),
        forced("BUY", Some("3"), None),
        forced("SELL", Some("1"), Some("50")),
        forced("other", Some("1"), Some("50")),
    ];
    let (long, short) = fetch_liquidation_clusters(&list, dec("1000"));
    assert_same(long.unwrap(), "0.15");
    assert_same(short.unwrap(), "0.3");
    let (long, short) = fetch_liquidation_clusters(&list, dec("0"));
    assert!(long.is_none() && short.is_none());
}

#[test]
fn what_is_known_of_symbols() {
    let mut c = SymbolInfoCache::new();
    assert!(c.get("BTCUSDT").is_none());
    c.warmup("BTCUSDT", dec("0.001"), dec("0.002"), dec("100"), dec("0.1"), 17);
    let i = c.get("BTCUSDT").unwrap();
    assert_same(i.step_size, "0.001");
    assert_same(i.min_quantity, "0.002");
    assert_same(i.max_quantity, "100");
    assert_same(i.tick_size, "0.1");
    assert!(!c.is_margin_mode_set("BTCUSDT"));
    c.mark_margin_mode_set("BTCUSDT", 18);
    c.update_leverage("BTCUSDT", dec("20"), 19);
    assert!(c.is_margin_mode_set("BTCUSDT"));
    assert_same(c.get_leverage("BTCUSDT").unwrap(), "20");
    assert!(!c.is_margin_mode_set("ETHUSDT"));
}

#[test]
fn prices_are_fresh_for_a_second() {
    let mut c = DepthCache::new();
    assert!(!c.is_available("BTCUSDT", 0));
    c.update("BTCUSDT", dec("100"), dec("101"), 1000);
    let (bid, ask) = c.get_best_prices("BTCUSDT", 1500).unwrap();
    assert_same(bid, "100");
    assert_same(ask, "101");
    assert!(c.is_available("BTCUSDT", 1500));
    assert!(c.get_best_prices("BTCUSDT", 5000).is_none());
    assert!(c.get_best_prices("ETHUSDT", 1500).is_none());
}

#[test]
fn metrics_of_symbols() {
    let mut c = MetricsCache::new(300);
    c.set_symbols(vec!["BTCUSDT".to_string()]);
    c.update_symbol_metrics("BTCUSDT", Some("0.0001"), Some(dec("5")), None, 17);
    assert_same(c.get_funding_rate("BTCUSDT").unwrap(), "0.0001");
    assert_same(c.get_open_interest("BTCUSDT").unwrap(), "5");
    assert!(c.get_long_short_ratio("BTCUSDT").is_none());
    assert!(c.get_metrics("ETHUSDT").is_none());
    let wanted = vec!["BTCUSDT".to_string(), "ETHUSDT".to_string()];
    assert_eq!(c.symbols_to_warm(&wanted), ["ETHUSDT"]);
    c.track(&wanted);
    assert_eq!(c.symbols, ["BTCUSDT", "ETHUSDT"]);
}

#[test]
fn ratios_that_are_known_and_fetched() {
    let point = |r: &str| LongShortRatioPoint {
        timestamp_ms: 1,
        long_short_ratio: dec(r),
        long_account_pct: dec("60"),
        short_account_pct: dec("40"),
    };
    let mut c = MetricsCache::new(300);
    assert!(c.get_top_long_short_ratio("BTCUSDT", None, 17).is_none());
    let kept = c.get_top_long_short_ratio("BTCUSDT", Some(vec![point("1")]), 17).unwrap();
    assert_same(kept[0].long_short_ratio, "1");
    c.update_symbol_metrics("BTCUSDT", None, None, Some(dec("2")), 5);
    let made = c.get_top_long_short_ratio("BTCUSDT", None, 17).unwrap();
    assert_eq!(made.len(), 1);
    assert_eq!(made[0].timestamp_ms, 17);
    assert_same(made[0].long_short_ratio, "2");
    assert_same(made[0].long_account_pct, "50");
    let both = Some(vec![point("1"), point("1.5")]);
    let merged = c.get_top_long_short_ratio("BTCUSDT", both, 17).unwrap();
    assert_same(merged[0].long_short_ratio, "1");
    assert_same(merged[1].long_short_ratio, "2");
    assert_same(merged[1].long_account_pct, "60");
}

#[test]
fn rates_and_interest_that_are_known_and_fetched() {
    let mut c = MetricsCache::new(300);
    assert!(c.get_funding_rates("BTCUSDT", None, 17).is_none());
    let told = FundingRate {
        symbol: "BTCUSDT".to_string(),
        funding_rate: "0.0002".to_string(),
        funding_time_ms: 3,
    };
    let kept = c.get_funding_rates("BTCUSDT", Some(vec![told]), 17).unwrap();
    assert_eq!((kept[0].funding_rate.as_str(), kept[0].funding_time_ms), ("0.0002", 3));
    assert!(c.get_open_interest_hist("BTCUSDT", None, 17).is_none());
    c.update_symbol_metrics("BTCUSDT", Some("0.00010000"), Some(dec("500")), None, 5);
    let known = c.get_funding_rates("BTCUSDT", None, 17).unwrap();
    assert_eq!(known.len(), 1);
    assert_eq!(known[0].symbol, "BTCUSDT");
    assert_eq!((known[0].funding_rate.as_str(), known[0].funding_time_ms), ("0.0001", 17));
    let fetched = OpenInterestPoint { timestamp_ms: 3, open_interest: dec("400") };
    let known = c.get_open_interest_hist("BTCUSDT", Some(vec![fetched]), 17).unwrap();
    assert_same(known[0].open_interest, "500");
    assert_eq!(known[0].timestamp_ms, 17);
}

#[test]
fn a_side_holds_the_best_prices_once() {
    let mut book = DepthState::new(2);
    let changes = levels(&[("99", "1"), ("100", "2"), ("99.0", "3"), ("98", "1"), ("100", "0")]);
    book.update(&changes, &levels(&[]));
    assert_eq!(prices(&book.bids), [99.0, 98.0]);
    assert_same(book.bids[0].1, "3");
    book.update(&levels(&[("97", "5"), ("101", "1")]), &levels(&[]));
    assert_eq!(prices(&book.bids), [101.0, 99.0]);
    book.update(&levels(&[("1_02", "1")]), &levels(&[]));
    assert_eq!(prices(&book.bids), [101.0, 99.0]);
}

#[test]
fn pruning_twice_changes_nothing() {
    let mut s = LiqState::new(10);
    s.set_open_interest(dec("1000"));
    assert!(s.record("SELL", dec("10"), 1_000));
    assert!(s.record("BUY", dec("20"), 2_000));
    assert!(s.record("SELL", dec("30"), 9_000));
    s.prune(12_000);
    assert_eq!(s.entries.len(), 2);
    assert_same(s.long_sum, "0.03");
    assert_same(s.short_sum, "0.02");
    s.prune(12_000);
    assert_eq!(s.entries.len(), 2);
    assert_same(s.long_sum, "0.03");
    assert_same(s.short_sum, "0.02");
}

#[test]
fn a_position_is_asked_for_once() {
    let listed = |symbol: &str, amount: &str| FutPosition {
        symbol: symbol.to_string(),
        position_amt: amount.to_string(),
        entry_price: "100".to_string(),
        leverage: "5".to_string(),
        liquidation_price: "0".to_string(),
        position_side: None,
    };
    let mut cache = PositionCache::new();
    assert!(cache.get("BTCUSDT").is_none());
    assert!(cache.learn(&vec![listed("ETHUSDT", "1")], "BTCUSDT", false).is_err());
    assert!(cache.get("BTCUSDT").is_none());
    let told = vec![listed("btcusdt", "1"), listed("BTCUSDT", "2")];
    let position = cache.learn(&told, "BTCUSDT", false).unwrap();
    assert_same(position.qty.0, "3");
    let known = cache.get("BTCUSDT").unwrap();
    assert_same(known.qty.0, "3");
    assert_eq!((known.symbol.as_str(), known.leverage), ("BTCUSDT", 5));
    assert!(known.liq_px.is_none());
    cache.put("ETHUSDT", known);
    cache.forget("BTCUSDT");
    assert!(cache.get("BTCUSDT").is_none());
    assert!(cache.get("ETHUSDT").is_some());
}

#[test]
fn positions_are_followed() {
    let update = |amount: &str, leverage: &str| {
        to_position_update("BTCUSDT", amount, "100", "0", dec(leverage)).unwrap()
    };
    let mut cache = PositionCache::new();
    cache.follow(&update("-2", "20.0"));
    let p = cache.get("BTCUSDT").unwrap();
    assert_same(p.qty.0, "-2");
    assert_same(p.entry.0, "100");
    assert_eq!((p.symbol.as_str(), p.leverage), ("BTCUSDT", 20));
    cache.follow(&update("3", "2.5"));
    let p = cache.get("BTCUSDT").unwrap();
    assert_same(p.qty.0, "3");
    assert_eq!(p.leverage, 1);
    cache.follow(&update("0", "20"));
    assert!(cache.get("BTCUSDT").is_none());
}
