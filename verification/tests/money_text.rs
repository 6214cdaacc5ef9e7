//! Money text: rendering, parsing, rounding, and the identifier and
//! string helpers.
use budget_tracker::ids::simple_id;
use budget_tracker::money::{money_round, money_to_string, parse_money, try_into_money};
use budget_tracker::text::{str_contains, str_ends_with, str_eq};

#[test]
fn renders_whole_units_without_fraction() {
    assert_eq!(money_to_string(75000), "75");
    assert_eq!(money_to_string(0), "0");
    assert_eq!(money_to_string(-3000), "-3");
}

#[test]
fn renders_fractions_with_trailing_zeros_dropped() {
    assert_eq!(money_to_string(74995), "74.995");
    assert_eq!(money_to_string(-20500), "-20.5");
    assert_eq!(money_to_string(1230), "1.23");
    assert_eq!(money_to_string(100), "0.1");
    assert_eq!(money_to_string(5), "0.005");
    assert_eq!(money_to_string(-25005), "-25.005");
}

#[test]
fn parses_plain_and_fractional_amounts() {
    assert_eq!(parse_money("75"), 75000);
    assert_eq!(parse_money("74.995"), 74995);
    assert_eq!(parse_money("-25.005"), -25005);
    assert_eq!(parse_money("-20.5"), -20500);
    assert_eq!(parse_money("0"), 0);
    assert_eq!(parse_money(".5"), 500);
    assert_eq!(parse_money("5."), 5000);
}

#[test]
fn malformed_amounts_default_to_zero() {
    assert_eq!(parse_money(""), 0);
    assert_eq!(parse_money("abc"), 0);
    assert_eq!(parse_money("1e5"), 0);
    assert_eq!(parse_money("12.3456"), 0);
    assert_eq!(parse_money("-"), 0);
    assert_eq!(parse_money("."), 0);
    assert_eq!(parse_money("1.2.3"), 0);
    assert_eq!(parse_money("9999999999999999999999"), 0);
}

#[test]
fn money_text_round_trips() {
    for m in [0i64, 1, -1, 75000, 74995, -20500, 123456789, -5] {
        assert_eq!(parse_money(&money_to_string(m)), m);
    }
}

#[test]
fn interactive_entry_retries_then_defaults() {
    assert_eq!(try_into_money(&String::from("12")), 12000);
    assert_eq!(try_into_money(&String::from("12.34")), 12340);
    assert_eq!(try_into_money(&String::from("nonsense")), 0);
}

#[test]
fn rounds_half_away_from_zero() {
    assert_eq!(money_round(74995), 75000);
    assert_eq!(money_round(-74995), -75000);
    assert_eq!(money_round(74994), 74990);
    assert_eq!(money_round(5), 10);
    assert_eq!(money_round(-5), -10);
    assert_eq!(money_round(4), 0);
    assert_eq!(money_round(-4), 0);
    assert_eq!(money_round(0), 0);
}

#[test]
fn simple_id_is_six_leading_hex_digits() {
    let id: u128 = 0xabcdef ^ 0; // low bits only
    assert_eq!(simple_id(id << 104), "abcdef");
    assert_eq!(simple_id(0), "000000");
    assert_eq!(simple_id(u128::MAX), "ffffff");
}

#[test]
fn string_helpers_behave_like_std() {
    assert!(str_eq("abc", "abc"));
    assert!(!str_eq("abc", "abd"));
    assert!(str_contains("abcdef", "cde"));
    assert!(str_contains("abcdef", ""));
    assert!(!str_contains("abc", "abcd"));
    assert!(str_ends_with("Account.cls", ".cls"));
    assert!(!str_ends_with("cls", "Account.cls"));
}
