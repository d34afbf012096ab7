//! Lenient and strict decimal parsing, trimming, searching, and decimal
//! rendering.

use uil_results::text::{
    contains_substring, eq_ignore_case, find_substring, i8_to_string, lenient_i16, lenient_milli,
    parse_i16, parse_u8, trim_str, u64_to_string,
};

#[test]
fn lenient_score_plain_integers() {
    assert_eq!(lenient_i16("0"), 0);
    assert_eq!(lenient_i16("12"), 12);
    assert_eq!(lenient_i16("+5"), 5);
    assert_eq!(lenient_i16("-7"), -7);
}

#[test]
fn lenient_score_truncates_fractions_toward_zero() {
    assert_eq!(lenient_i16("12.7"), 12);
    assert_eq!(lenient_i16("-2.7"), -2);
    assert_eq!(lenient_i16("1."), 1);
    assert_eq!(lenient_i16(".5"), 0);
}

#[test]
fn lenient_score_non_numeric_yields_zero() {
    assert_eq!(lenient_i16("abc"), 0);
    assert_eq!(lenient_i16(""), 0);
    assert_eq!(lenient_i16("-"), 0);
    assert_eq!(lenient_i16("."), 0);
    assert_eq!(lenient_i16("1 2"), 0);
    assert_eq!(lenient_i16("3e4"), 0);
}

#[test]
fn lenient_score_saturates() {
    assert_eq!(lenient_i16("99999"), 32767);
    assert_eq!(lenient_i16("-99999"), -32768);
    assert_eq!(lenient_i16("32767"), 32767);
    assert_eq!(lenient_i16("-32768"), -32768);
}

#[test]
fn lenient_points_keeps_three_fraction_digits() {
    assert_eq!(lenient_milli("13.5"), 13500);
    assert_eq!(lenient_milli("1.25"), 1250);
    assert_eq!(lenient_milli("1.2345"), 1234);
    assert_eq!(lenient_milli("2"), 2000);
    assert_eq!(lenient_milli("-1.5"), -1500);
    assert_eq!(lenient_milli("bogus"), 0);
}

#[test]
fn strict_u8_matches_std() {
    assert_eq!(parse_u8("0"), Some(0));
    assert_eq!(parse_u8("255"), Some(255));
    assert_eq!(parse_u8("256"), None);
    assert_eq!(parse_u8("+3"), Some(3));
    assert_eq!(parse_u8("-1"), None);
    assert_eq!(parse_u8("3a"), None);
    assert_eq!(parse_u8(""), None);
    assert_eq!(parse_u8(" 3"), None);
}

#[test]
fn strict_i16_matches_std() {
    assert_eq!(parse_i16("-32768"), Some(-32768));
    assert_eq!(parse_i16("-32769"), None);
    assert_eq!(parse_i16("32767"), Some(32767));
    assert_eq!(parse_i16("32768"), None);
    assert_eq!(parse_i16("12"), Some(12));
    assert_eq!(parse_i16("1.0"), None);
}

#[test]
fn trim_removes_surrounding_whitespace() {
    assert_eq!(trim_str("  a b  "), "a b");
    assert_eq!(trim_str("\t x\r\n"), "x");
    assert_eq!(trim_str("\u{a0}nb\u{a0}"), "nb");
    assert_eq!(trim_str("   "), "");
    assert_eq!(trim_str(""), "");
}

#[test]
fn substring_search() {
    assert_eq!(find_substring("hello", "ll"), Some(2));
    assert_eq!(find_substring("hello", "lo"), Some(3));
    assert_eq!(find_substring("hello", "x"), None);
    assert_eq!(find_substring("hello", ""), Some(0));
    assert!(contains_substring("abcdef", "cde"));
    assert!(!contains_substring("abcdef", "gh"));
}

#[test]
fn decimal_rendering() {
    assert_eq!(u64_to_string(0), "0");
    assert_eq!(u64_to_string(7), "7");
    assert_eq!(u64_to_string(1234), "1234");
    assert_eq!(u64_to_string(2024), "2024");
    assert_eq!(i8_to_string(-1), "-1");
    assert_eq!(i8_to_string(12), "12");
    assert_eq!(i8_to_string(-128), "-128");
}

#[test]
fn case_insensitive_keyword_match() {
    assert!(eq_ignore_case("MaTh", "math"));
    assert!(eq_ignore_case("math", "math"));
    assert!(!eq_ignore_case("mathematics", "math"));
    assert!(!eq_ignore_case("mat", "math"));
}
