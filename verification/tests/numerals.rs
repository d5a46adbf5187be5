//! The exact decimal-numeral parser, at its picodollar and integer scales.

use llm_cost_estimator::numerals::{parse_int64, parse_pico};

#[test]
fn whole_dollars_scale_to_picodollars() {
    assert_eq!(parse_pico("0"), Some(0));
    assert_eq!(parse_pico("1"), Some(1_000_000_000_000));
    assert_eq!(parse_pico("3"), Some(3_000_000_000_000));
}

#[test]
fn plain_decimals_are_exact() {
    assert_eq!(parse_pico("0.01"), Some(10_000_000_000));
    assert_eq!(parse_pico("0.1"), Some(100_000_000_000));
    assert_eq!(parse_pico("0.000001"), Some(1_000_000));
    assert_eq!(parse_pico("0.000000000001"), Some(1));
    assert_eq!(parse_pico("12.345"), Some(12_345_000_000_000));
}

#[test]
fn scientific_notation_is_exact() {
    assert_eq!(parse_pico("2.5e-7"), Some(250_000));
    assert_eq!(parse_pico("2.5E-7"), Some(250_000));
    assert_eq!(parse_pico("1e-12"), Some(1));
    assert_eq!(parse_pico("1e+2"), Some(100_000_000_000_000));
    assert_eq!(parse_pico("4e-8"), Some(40_000));
    assert_eq!(parse_pico("1000000000000000000000000000000e-30"), Some(1_000_000_000_000));
}

#[test]
fn sub_picodollar_precision_is_rejected() {
    assert_eq!(parse_pico("1e-13"), None);
    assert_eq!(parse_pico("0.0000000000001"), None);
    assert_eq!(parse_pico("0.0000000000015"), None);
}

#[test]
fn negative_amounts_are_rejected_but_negative_zero_is_zero() {
    assert_eq!(parse_pico("-0.01"), None);
    assert_eq!(parse_pico("-0"), Some(0));
    assert_eq!(parse_pico("-0.000"), Some(0));
}

#[test]
fn out_of_range_amounts_are_rejected() {
    // The magnitude must stay below 2^64 picodollars.
    assert_eq!(parse_pico("18446744.073709551615"), Some(u64::MAX));
    assert_eq!(parse_pico("18446744.073709551616"), None);
    assert_eq!(parse_pico("1e999"), None);
    assert_eq!(parse_pico("1e99999999999999999999999999"), None);
}

#[test]
fn zero_swallows_any_exponent() {
    assert_eq!(parse_pico("0e999999999999999999999999"), Some(0));
    assert_eq!(parse_pico("0.000e-999999999999999999999999"), Some(0));
}

#[test]
fn malformed_numerals_are_rejected() {
    assert_eq!(parse_pico(""), None);
    assert_eq!(parse_pico("."), None);
    assert_eq!(parse_pico("1."), None);
    assert_eq!(parse_pico(".5"), None);
    assert_eq!(parse_pico("1e"), None);
    assert_eq!(parse_pico("1e+"), None);
    assert_eq!(parse_pico("--1"), None);
    assert_eq!(parse_pico("+1"), None);
    assert_eq!(parse_pico("1.2.3"), None);
    assert_eq!(parse_pico("cheap"), None);
}

#[test]
fn integers_parse_at_scale_one() {
    assert_eq!(parse_int64("8192"), Some(8192));
    assert_eq!(parse_int64("0"), Some(0));
    assert_eq!(parse_int64("-5"), Some(-5));
    assert_eq!(parse_int64("8.192e3"), Some(8192));
    assert_eq!(parse_int64("1e3"), Some(1000));
}

#[test]
fn non_integral_values_are_rejected_as_integers() {
    assert_eq!(parse_int64("2.5"), None);
    assert_eq!(parse_int64("1e-1"), None);
}

#[test]
fn integer_bounds_are_exact() {
    assert_eq!(parse_int64("9223372036854775807"), Some(i64::MAX));
    assert_eq!(parse_int64("9223372036854775808"), None);
    assert_eq!(parse_int64("-9223372036854775808"), Some(i64::MIN));
    assert_eq!(parse_int64("-9223372036854775809"), None);
}
