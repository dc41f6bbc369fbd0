use time_ledger::cli::{parse_date, requested_week_number_date};
use time_ledger::date::Date;

fn date(y: i32, m: u32, d: u32) -> Date {
    Date::from_ymd(y, m, d).expect("valid test date")
}

#[test]
fn cli_requested_week_number_date_uses_today_when_value_missing() {
    let today = date(2026, 2, 8);
    let r = requested_week_number_date(Some(None), today);
    assert_eq!(r.map(|d| d.day_number()), Some(today.day_number()));
}

#[test]
fn cli_requested_week_number_date_uses_explicit_date_when_present() {
    let given = parse_date("2026-02-01").expect("flag should parse");
    let r = requested_week_number_date(Some(Some(given)), date(2026, 2, 8));
    assert_eq!(r.map(|d| d.day_number()), Some(date(2026, 2, 1).day_number()));
}

#[test]
fn cli_requested_week_number_date_is_none_when_flag_absent() {
    assert!(requested_week_number_date(None, date(2026, 2, 8)).is_none());
}

#[test]
fn cli_week_number_with_date_sets_date() {
    let d = parse_date("2026-02-08").expect("flag with date should parse");
    assert_eq!(d.day_number(), date(2026, 2, 8).day_number());
    assert_eq!(d.iso_week(), (2026, 6));
}

#[test]
fn cli_week_number_rejects_invalid_date_format() {
    let err = parse_date("02/08/2026").expect_err("invalid date format should error");
    assert_eq!(err, "expected date in YYYY-MM-DD format");
}
