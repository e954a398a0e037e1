use trading_bot::arith::{add_opt, mul_opt};
use trading_bot::decimal::Dec;
use trading_bot::quant::{
    checked_floor_to_step, checked_qty_from_quote, checked_snap_price, decimal_places,
    format_decimal_fixed, BpsDiff, quant_utils_bps_diff, quant_utils_ceil_to_step, quant_utils_floor_to_step,
    quant_utils_qty_from_quote, quant_utils_snap_price, quantize_decimal, scale_from_step,
};
use trading_bot::rules::str_dec;

fn dec(s: &str) -> Dec {
    str_dec(s)
}

fn assert_same(a: Dec, b: &str) {
    assert!(a.same(&dec(b)), "{a:?} is not {b}");
}

#[test]
fn test_quantize_price() {
    let price = dec("0.2593620616072499999728690579");
    let tick = dec("0.001");
    let result = quantize_decimal(price, tick);
    assert_same(result, "0.259");

    let result = quantize_decimal(price, dec("0.1"));
    assert_same(result, "0.2");
}

#[test]
fn test_quantize_qty() {
    let qty = dec("76.4964620386307103672152152");
    let step = dec("0.001");
    let result = quantize_decimal(qty, step);
    assert_same(result, "76.496");
}

#[test]
fn test_format_decimal_fixed() {
    assert_eq!(format_decimal_fixed(dec("0.123456"), 3), "0.123");
    assert_eq!(format_decimal_fixed(dec("5"), 0), "5");
    assert_eq!(format_decimal_fixed(dec("1.2000"), 4), "1.2000");
    assert_eq!(format_decimal_fixed(dec("0.00000001"), 8), "0.00000001");

    assert_eq!(format_decimal_fixed(dec("950.649470"), 2), "950.64");
    assert_eq!(format_decimal_fixed(dec("950.649470"), 3), "950.649");
    assert_eq!(format_decimal_fixed(dec("956.370530"), 2), "956.37");
    assert_eq!(format_decimal_fixed(dec("956.370530"), 3), "956.370");

    assert_eq!(format_decimal_fixed(dec("202.129776525"), 2), "202.12");
    assert_eq!(format_decimal_fixed(dec("202.129776525"), 3), "202.129");
    assert_eq!(format_decimal_fixed(dec("0.08082180550260300"), 4), "0.0808");
    assert_eq!(format_decimal_fixed(dec("0.08082180550260300"), 5), "0.08082");

    assert_eq!(format_decimal_fixed(dec("100.5"), 0), "100");
    assert_eq!(format_decimal_fixed(dec("1000"), 0), "1000");
}

#[test]
fn test_scale_from_step() {
    assert_eq!(scale_from_step(dec("0.1")), 1);
    assert_eq!(scale_from_step(dec("0.01")), 2);
    assert_eq!(scale_from_step(dec("0.001")), 3);
    assert_eq!(scale_from_step(dec("0.0001")), 4);
    assert_eq!(scale_from_step(dec("1")), 0);
    assert_eq!(scale_from_step(dec("10")), 0);
    assert_eq!(scale_from_step(dec("0.000001")), 6);
}

#[test]
fn steps_below_and_above() {
    assert_same(quant_utils_floor_to_step(dec("10.37"), dec("0.25")), "10.25");
    assert_same(quant_utils_ceil_to_step(dec("10.37"), dec("0.25")), "10.50");
    assert_same(quant_utils_floor_to_step(dec("10.5"), dec("0.25")), "10.5");
    assert_same(quant_utils_ceil_to_step(dec("10.5"), dec("0.25")), "10.5");
    assert_same(quant_utils_floor_to_step(dec("-10.37"), dec("0.25")), "-10.5");
}

#[test]
fn a_step_that_is_not_positive_changes_nothing() {
    assert_same(quantize_decimal(dec("1.234"), dec("0")), "1.234");
    assert_same(quantize_decimal(dec("1.234"), dec("-1")), "1.234");
}

#[test]
fn a_buyer_pays_less_and_a_seller_gets_more() {
    assert_same(quant_utils_snap_price(dec("100.123"), dec("0.01"), true), "100.12");
    assert_same(quant_utils_snap_price(dec("100.123"), dec("0.01"), false), "100.13");
}

#[test]
fn a_quantity_is_bought_for_an_amount() {
    assert_same(quant_utils_qty_from_quote(dec("100"), dec("30"), dec("0.001")), "3.333");
}

#[test]
fn the_distance_of_two_prices_in_basis_points() {
    assert_same(quant_utils_bps_diff(dec("100"), dec("101")).unwrap().bps().unwrap(), "100");
    assert_same(quant_utils_bps_diff(dec("100"), dec("99")).unwrap().bps().unwrap(), "100");
    assert_same(quant_utils_bps_diff(dec("-100"), dec("-99")).unwrap().bps().unwrap(), "-100");
}

#[test]
fn from_a_price_of_zero_every_price_is_infinitely_far() {
    for new in ["1", "-1", "0"] {
        let diff = quant_utils_bps_diff(dec("0"), dec(new)).unwrap();
        assert!(matches!(diff, BpsDiff::Infinite));
        assert!(diff.bps().is_none());
    }
    // A share that can be held is kept, though the basis points cannot be counted.
    let small = Dec::from_parts(1, 28).unwrap();
    match quant_utils_bps_diff(small, dec("2")).unwrap() {
        BpsDiff::Finite { share } => assert_same(share, "19999999999999999999999999999"),
        other => panic!("{other:?}"),
    }
    assert!(quant_utils_bps_diff(small, dec("2")).unwrap().bps().is_none());
    assert!(quant_utils_bps_diff(small, dec("8")).is_none());
}

#[test]
fn steps_whose_count_is_rounded() {
    assert_same(quant_utils_floor_to_step(dec("10"), dec("3")), "9");
    assert_same(quant_utils_ceil_to_step(dec("10"), dec("3")), "12");
    assert_same(quant_utils_floor_to_step(dec("-10"), dec("3")), "-12");
    assert_same(quantize_decimal(dec("10"), dec("0.7")), "9.8");
    let large = "70000000000000000000000000000";
    assert_same(quant_utils_floor_to_step(dec(large), dec("1.0")), large);
    assert_same(quant_utils_ceil_to_step(dec(large), dec("1.0")), large);
    // Here the count of steps is rounded up to an integer, and so is the value to a step.
    assert_same(quantize_decimal(dec("6.9999999999999999999999999999"), dec("7")), "7");
}

#[test]
fn what_cannot_be_held_is_refused() {
    let large = Dec::from_parts(79_228_162_514_264_337_593_543_950_335, 0).unwrap();
    let small = Dec::from_parts(1, 28).unwrap();
    assert!(checked_floor_to_step(large, small).is_none());
    assert!(checked_snap_price(large, small, true).is_none());
    assert!(checked_qty_from_quote(large, small, dec("1")).is_none());
    assert!(Dec::from_parts(79_228_162_514_264_337_593_543_950_336, 0).is_none());
    assert!(Dec::from_parts(1, 29).is_none());
}

#[test]
fn places_that_are_needed() {
    assert_eq!(decimal_places(dec("0.010")), 2);
    assert_eq!(decimal_places(dec("5")), 0);
}

#[test]
fn quantizing_twice_changes_nothing() {
    for v in ["0.2593", "-0.2593", "76.4964", "1", "0"] {
        let once = quantize_decimal(dec(v), dec("0.001"));
        assert!(quantize_decimal(once, dec("0.001")).same(&once));
        assert!(once.le(&dec(v)));
    }
    assert_same(quantize_decimal(dec("-0.2593"), dec("0.001")), "-0.260");
    let low = quantize_decimal(dec("0.2589"), dec("0.001"));
    assert!(low.le(&quantize_decimal(dec("0.2591"), dec("0.001"))));
}

#[test]
fn above_is_below_turned_round() {
    for v in ["10.37", "-10.37", "10.5", "0"] {
        let up = quant_utils_ceil_to_step(dec(v), dec("0.25"));
        let down = quant_utils_floor_to_step(dec(v).neg(), dec("0.25"));
        assert!(up.same(&down.neg()));
    }
    assert_same(quant_utils_ceil_to_step(dec("10.37"), dec("0")), "10.37");
}

#[test]
fn a_snapped_price_stays() {
    for is_buy in [true, false] {
        let price = quant_utils_snap_price(dec("100.123"), dec("0.01"), is_buy);
        assert!(quant_utils_snap_price(price, dec("0.01"), true).same(&price));
        assert!(quant_utils_snap_price(price, dec("0.01"), false).same(&price));
    }
}

#[test]
fn a_quantity_costs_no_more_than_the_amount() {
    for (quote, price, lot) in [("100", "30", "0.001"), ("10", "4", "0.5"), ("7", "3", "1")] {
        let qty = quant_utils_qty_from_quote(dec(quote), dec(price), dec(lot));
        let cost = mul_opt(Some(qty), Some(dec(price))).unwrap();
        let more = mul_opt(add_opt(Some(qty), Some(dec(lot))), Some(dec(price))).unwrap();
        assert!(cost.le(&dec(quote)));
        assert!(!more.le(&dec(quote)));
    }
    assert_same(quant_utils_qty_from_quote(dec("100"), dec("0"), dec("0.001")), "0");
}

#[test]
fn a_fixed_text_has_its_digits() {
    assert_eq!(format_decimal_fixed(dec("-1.239"), 2), "-1.23");
    assert_eq!(format_decimal_fixed(dec("-0.0004"), 3), "0.000");
    assert_eq!(format_decimal_fixed(dec("12"), 3), "12.000");
    assert_eq!(format_decimal_fixed(dec("1.5"), 40), format_decimal_fixed(dec("1.5"), 28));
    assert_eq!(format_decimal_fixed(dec("1.5"), 28).len(), 30);
}
