use trading_bot::api_errors::{
    contains_min_notional, exponential_backoff, is_leverage_refused, is_margin_type_unchanged,
    is_min_notional_error, is_order_unknown, is_permanent_error, is_position_already_closed_error,
    is_position_mode_unchanged, is_position_not_found_error, is_transient_error, rate_limit_wait,
    report_level, rule_breach, ReportLevel, RuleBreach,
};
use trading_bot::numbers::{parse_i64, parse_u32, parse_u64, parse_usize};
use trading_bot::text::{
    chars_of, contains_text, copy_of, glue3, glue5, i64_text, joined, same_ignoring_ascii_case,
    same_text, text_of, u128_text, u64_text,
};

#[test]
fn what_may_pass_and_what_does_not() {
    for status in [408, 429, 500, 502, 503, 504, 599] {
        assert!(is_transient_error(status), "{status}");
        assert!(!is_permanent_error(status, "busy"), "{status}");
    }
    for status in [200, 400, 401, 403, 404] {
        assert!(!is_transient_error(status), "{status}");
    }
    assert!(is_permanent_error(400, "{\"code\":-2019,\"msg\":\"Margin is insufficient.\"}"));
    assert!(is_permanent_error(400, "INVALID symbol"));
    assert!(is_permanent_error(400, "Insufficient balance"));
    assert!(!is_permanent_error(400, "invalid: precision is over the maximum"));
    assert!(!is_permanent_error(400, "invalid: min notional"));
    assert!(!is_permanent_error(401, "invalid key"));
}

#[test]
fn rules_that_an_order_broke() {
    assert_eq!(rule_breach("Precision is over the maximum"), Some(RuleBreach::Precision));
    assert_eq!(rule_breach("{\"code\":-1111}"), Some(RuleBreach::Precision));
    assert_eq!(rule_breach("{\"code\":-1013,\"msg\":\"MIN_NOTIONAL\"}"), Some(RuleBreach::MinNotional));
    assert_eq!(rule_breach("busy"), None);
    assert!(contains_min_notional("filter failure: min_notional"));
    assert!(is_min_notional_error("Filter failure: MIN_NOTIONAL"));
    assert!(!is_min_notional_error("busy"));
}

#[test]
fn errors_with_a_meaning() {
    assert!(is_leverage_refused("Leverage 125 is not valid"));
    assert!(is_leverage_refused("-4028: leverage"));
    assert!(!is_leverage_refused("not valid"));
    assert!(is_position_mode_unchanged("code -4059"));
    assert!(is_position_mode_unchanged("No need to change position side."));
    assert!(!is_position_mode_unchanged("no need to change position side."));
    assert!(is_margin_type_unchanged("code -4046"));
    assert!(is_margin_type_unchanged("No need to change margin type."));
    assert!(is_order_unknown("Order Does Not Exist"));
    assert!(is_position_not_found_error("Position Not Found"));
    assert!(is_position_already_closed_error("code -2022"));
    assert!(!is_position_already_closed_error("busy"));
}

#[test]
fn words_are_found_in_any_case() {
    // A letter outside of ASCII has a lower case too.
    assert!(is_position_not_found_error("\u{c9}rr: POSITION NOT FOUND"));
}

#[test]
fn how_long_to_wait() {
    assert_eq!(rate_limit_wait(429, Some(7)), 7);
    assert_eq!(rate_limit_wait(429, None), 1);
    assert_eq!(rate_limit_wait(500, Some(7)), 0);
    assert_eq!(exponential_backoff(0, 100, 3), 100);
    assert_eq!(exponential_backoff(3, 100, 3), 2700);
}

#[test]
fn how_loud_an_answer_is_reported() {
    assert_eq!(report_level(400, "code -4046"), ReportLevel::Debug);
    assert_eq!(report_level(400, "code -4059"), ReportLevel::Debug);
    assert_eq!(report_level(400, "code -4028"), ReportLevel::Warn);
    assert_eq!(report_level(400, "Leverage 125 is not valid"), ReportLevel::Warn);
    assert_eq!(report_level(429, "busy"), ReportLevel::Silent);
    assert_eq!(report_level(500, "busy"), ReportLevel::Error);
}

#[test]
fn whole_numbers_are_read() {
    assert_eq!(parse_u64("18446744073709551615"), Some(u64::MAX));
    assert_eq!(parse_u64("18446744073709551616"), None);
    assert_eq!(parse_u64("+7"), Some(7));
    assert_eq!(parse_u64("-7"), None);
    assert_eq!(parse_u64(""), None);
    assert_eq!(parse_u64("+"), None);
    assert_eq!(parse_u64(" 7"), None);
    assert_eq!(parse_u32("4294967295"), Some(u32::MAX));
    assert_eq!(parse_u32("4294967296"), None);
    assert_eq!(parse_usize("12"), Some(12));
    assert_eq!(parse_i64("-9223372036854775808"), Some(i64::MIN));
    assert_eq!(parse_i64("9223372036854775807"), Some(i64::MAX));
    assert_eq!(parse_i64("9223372036854775808"), None);
    assert_eq!(parse_i64("-"), None);
    for t in ["0", "7", "-7", "+7", "007", "-0", "x", "1.5", "--1", "99999999999999999999"] {
        assert_eq!(parse_i64(t), t.parse::<i64>().ok(), "{t}");
        assert_eq!(parse_u64(t), t.parse::<u64>().ok(), "{t}");
    }
}

#[test]
fn whole_numbers_are_written() {
    for n in [0, 7, 10, 12345, u64::MAX] {
        assert_eq!(u64_text(n), n.to_string());
    }
    for n in [0, -1, 12345, i64::MIN, i64::MAX] {
        assert_eq!(i64_text(n), n.to_string());
    }
    assert_eq!(u128_text(u128::MAX), u128::MAX.to_string());
}

#[test]
fn texts_are_put_together_and_searched() {
    assert_eq!(joined("ab", "c"), "abc");
    assert_eq!(glue3("a", "b", "c"), "abc");
    assert_eq!(glue5("a", "b", "c", "d", "e"), "abcde");
    assert_eq!(copy_of("ab"), "ab");
    assert_eq!(text_of(&chars_of("\u{e9}t\u{e9}")), "\u{e9}t\u{e9}");
    assert!(contains_text("abcabd", "abd"));
    assert!(contains_text("abc", ""));
    assert!(!contains_text("ab", "abc"));
    assert!(same_text("ab", "ab"));
    assert!(!same_text("ab", "aB"));
    assert!(same_ignoring_ascii_case("aB", "Ab"));
    assert!(!same_ignoring_ascii_case("\u{e9}", "\u{c9}"));
}
