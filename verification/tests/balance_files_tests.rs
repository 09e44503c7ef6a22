use client_service::balance_files::{balance_file_name, chars_of, counter_in_file_name, parse_u32};
use client_service::client_model::{CalendarDate, Client};

fn day(year: i32, month: u32, day: u32) -> CalendarDate {
    CalendarDate { year, month, day }
}

fn parse(s: &str) -> Option<u32> {
    parse_u32(&chars_of(s))
}

#[test]
fn parse_plain_digits() {
    assert_eq!(parse("0"), Some(0));
    assert_eq!(parse("42"), Some(42));
    assert_eq!(parse("007"), Some(7));
}

#[test]
fn parse_accepts_plus_sign() {
    assert_eq!(parse("+7"), Some(7));
    assert_eq!(parse("+"), None);
    assert_eq!(parse("++7"), None);
}

#[test]
fn parse_rejects_empty_and_signs() {
    assert_eq!(parse(""), None);
    assert_eq!(parse("-1"), None);
    assert_eq!(parse(" 1"), None);
    assert_eq!(parse("12a"), None);
}

#[test]
fn parse_limits_of_u32() {
    assert_eq!(parse("4294967295"), Some(u32::MAX));
    assert_eq!(parse("4294967296"), None);
    assert_eq!(parse("99999999999999999999"), None);
}

#[test]
fn parse_agrees_with_std() {
    for s in ["1", "+12", "", "+", "-3", "4294967295", "4294967296", "1x", "000", "x"] {
        assert_eq!(parse(s), s.parse::<u32>().ok(), "{}", s);
    }
}

#[test]
fn counter_of_stored_balance_file() {
    assert_eq!(counter_in_file_name("01012024_3.DAT"), Some(3));
    assert_eq!(counter_in_file_name("31122023_17.DAT"), Some(17));
}

#[test]
fn counter_needs_dat_extension() {
    assert_eq!(counter_in_file_name("01012024_3.dat"), None);
    assert_eq!(counter_in_file_name("01012024_3.txt"), None);
    assert_eq!(counter_in_file_name("01012024_3"), None);
    assert_eq!(counter_in_file_name(".DAT"), None);
}

#[test]
fn counter_uses_last_underscore_piece() {
    assert_eq!(counter_in_file_name("a_b_9.DAT"), Some(9));
    assert_eq!(counter_in_file_name("5.DAT"), Some(5));
    assert_eq!(counter_in_file_name("a_b.DAT"), None);
    assert_eq!(counter_in_file_name("a_.DAT"), None);
}

#[test]
fn counter_removes_every_dat() {
    assert_eq!(counter_in_file_name("x_1.DAT2.DAT"), Some(12));
    assert_eq!(counter_in_file_name("x_4.DAT.DAT"), Some(4));
}

#[test]
fn last_counter_is_largest() {
    let names: Vec<String> = vec![
        "01012024_3.DAT".to_string(),
        "notes.txt".to_string(),
        "02012024_11.DAT".to_string(),
        "02012024_x.DAT".to_string(),
        "03012024_7.DAT".to_string(),
    ];
    assert_eq!(Client::last_counter(&names), 11);
}

#[test]
fn last_counter_of_no_files_is_zero() {
    let names: Vec<String> = vec![];
    assert_eq!(Client::last_counter(&names), 0);
    let names: Vec<String> = vec!["readme".to_string()];
    assert_eq!(Client::last_counter(&names), 0);
}

#[test]
fn next_file_name() {
    assert_eq!(balance_file_name(day(2024, 1, 1), 0), "data/01012024_1.DAT");
    assert_eq!(balance_file_name(day(2024, 6, 15), 9), "data/15062024_10.DAT");
    assert_eq!(balance_file_name(day(2024, 6, 15), 4294967294), "data/15062024_4294967295.DAT");
}

#[test]
fn next_file_is_read_back_with_its_counter() {
    let mut names: Vec<String> = vec!["01012024_3.DAT".to_string(), "01012024_8.DAT".to_string()];
    let last = Client::last_counter(&names);
    let path = balance_file_name(day(2024, 1, 2), last);
    let base = path.strip_prefix("data/").unwrap().to_string();
    assert!(!names.contains(&base));
    assert_eq!(counter_in_file_name(&base), Some(last + 1));
    names.push(base);
    assert_eq!(Client::last_counter(&names), 9);
}

#[test]
fn date_stamp_pads_day_month_and_year() {
    assert_eq!(balance_file_name(day(2023, 12, 31), 1), "data/31122023_2.DAT");
    assert_eq!(balance_file_name(day(987, 3, 4), 1), "data/04030987_2.DAT");
    assert_eq!(balance_file_name(day(5, 11, 9), 1), "data/09110005_2.DAT");
}

#[test]
fn date_stamp_signs_years_beyond_four_digits() {
    assert_eq!(balance_file_name(day(10000, 2, 29), 0), "data/2902+10000_1.DAT");
    assert_eq!(balance_file_name(day(-44, 3, 15), 0), "data/1503-0044_1.DAT");
    assert_eq!(balance_file_name(day(0, 1, 1), 0), "data/01010000_1.DAT");
}
