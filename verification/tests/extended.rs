use trading_bot::decimal::Dec;
use trading_bot::extended::Extended;
use trading_bot::rules::str_dec;

fn dec(s: &str) -> Dec {
    str_dec(s)
}

fn finite(s: &str) -> Extended {
    Extended::Finite(dec(s))
}

fn words(x: Option<Extended>) -> String {
    x.unwrap().money_text()
}

#[test]
fn division_by_zero() {
    assert_eq!(words(finite("1").over(&dec("0"))), "inf");
    assert_eq!(words(finite("-1").over(&dec("0"))), "-inf");
    assert_eq!(words(finite("0").over(&dec("0"))), "NaN");
    assert_eq!(words(finite("1").over(&dec("4"))), "0.25");
    assert_eq!(words(Extended::Infinity.over(&dec("0"))), "inf");
    assert_eq!(words(Extended::Infinity.over(&dec("-2"))), "-inf");
    assert_eq!(words(Extended::MinusInfinity.over(&dec("-2"))), "inf");
    assert_eq!(words(Extended::NotANumber.over(&dec("1"))), "NaN");
}

#[test]
fn infinities_times_numbers() {
    assert_eq!(words(Extended::Infinity.times(&dec("2"))), "inf");
    assert_eq!(words(Extended::Infinity.times(&dec("-2"))), "-inf");
    assert_eq!(words(Extended::Infinity.times(&dec("0"))), "NaN");
    assert_eq!(words(Extended::MinusInfinity.times(&dec("-2"))), "inf");
    assert_eq!(words(finite("2").times(&dec("1.5"))), "3.00");
    let large = dec("79228162514264337593543950335");
    assert!(Extended::Finite(large).times(&dec("2")).is_none());
}

#[test]
fn sums_with_infinities() {
    assert_eq!(words(finite("1").plus(&finite("2"))), "3.00");
    assert_eq!(words(finite("1").plus(&Extended::Infinity)), "inf");
    assert_eq!(words(Extended::MinusInfinity.plus(&finite("1"))), "-inf");
    assert_eq!(words(Extended::Infinity.plus(&Extended::MinusInfinity)), "NaN");
    assert_eq!(words(Extended::NotANumber.plus(&Extended::Infinity)), "NaN");
    assert_eq!(Extended::MinusInfinity.abs().money_text(), "inf");
    assert_eq!(finite("-2").abs().money_text(), "2.00");
}

#[test]
fn the_order_of_extended_numbers() {
    let line = [Extended::MinusInfinity, finite("-1"), finite("2"), Extended::Infinity];
    for (i, a) in line.iter().enumerate() {
        for (j, b) in line.iter().enumerate() {
            assert_eq!(a.is_above(b), i > j);
            assert_eq!(a.is_not_below(b), i >= j);
            assert_eq!(a.or_larger(b).money_text(), line[i.max(j)].money_text());
            assert_eq!(a.or_smaller(b).money_text(), line[i.min(j)].money_text());
        }
        let nan = Extended::NotANumber;
        assert!(!a.is_above(&nan) && !nan.is_above(a));
        assert!(!a.is_not_below(&nan) && !nan.is_not_below(a));
        assert_eq!(a.or_larger(&nan).money_text(), a.money_text());
        assert_eq!(nan.or_smaller(a).money_text(), a.money_text());
    }
}
