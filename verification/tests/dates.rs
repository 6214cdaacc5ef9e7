//! The calendar type and its canonical timestamp text.
use budget_tracker::date::{date_to_rfc3339, first_of_month, parse_date, Date};
use budget_tracker::transaction::Transaction;

fn day(year: u16, month: u8, day: u8) -> Date {
    Date { year, month, day, hour: 0, minute: 0, second: 0, milli: 0 }
}

#[test]
fn renders_canonical_timestamp() {
    assert_eq!(date_to_rfc3339(&day(2023, 1, 15)), "2023-01-15T00:00:00.000Z");
    let d = Date { year: 987, month: 12, day: 3, hour: 23, minute: 59, second: 58, milli: 7 };
    assert_eq!(date_to_rfc3339(&d), "0987-12-03T23:59:58.007Z");
}

#[test]
fn timestamp_round_trips_at_millisecond_precision() {
    let d = Date { year: 2024, month: 2, day: 29, hour: 13, minute: 5, second: 9, milli: 250 };
    assert_eq!(parse_date(&date_to_rfc3339(&d)), Some(d));
}

#[test]
fn rejects_malformed_dates() {
    assert_eq!(parse_date(""), None);
    assert_eq!(parse_date("garbage"), None);
    assert_eq!(parse_date("2023-01-15T00:00:00.000"), None);
    assert_eq!(parse_date("2023/01/15T00:00:00.000Z"), None);
    assert_eq!(parse_date("2023-01-15 00:00:00.000Z"), None);
    assert_eq!(parse_date("2023-01-15T00:00:00.00xZ"), None);
}

#[test]
fn rejects_impossible_calendar_days() {
    assert_eq!(parse_date("2023-02-29T00:00:00.000Z"), None);
    assert!(parse_date("2024-02-29T00:00:00.000Z").is_some());
    assert_eq!(parse_date("2023-04-31T00:00:00.000Z"), None);
    assert_eq!(parse_date("2023-00-01T00:00:00.000Z"), None);
    assert_eq!(parse_date("2023-13-01T00:00:00.000Z"), None);
    assert_eq!(parse_date("2023-01-00T00:00:00.000Z"), None);
    assert_eq!(parse_date("2023-01-15T24:00:00.000Z"), None);
}

#[test]
fn first_of_month_is_midnight_day_one() {
    let d = first_of_month(2023, 7);
    assert_eq!(d, day(2023, 7, 1));
}

#[test]
fn transaction_date_displays_as_month_day_year() {
    let t = Transaction::build(
        day(2023, 1, 15),
        0,
        String::from("A"),
        String::from("C"),
        String::from("d"),
    );
    assert_eq!(t.get_date(), "01/15/2023");
}
