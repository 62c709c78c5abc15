use taz_reader::dates::{normalize_date, parse_article_date, parse_date_input, CalendarDate};

#[test]
fn normalize_date_already_normalized() {
    assert_eq!(normalize_date("2025-03-24"), "2025-03-24");
}

#[test]
fn normalize_date_iso_timestamp() {
    assert_eq!(normalize_date("2025-03-24T10:00:00+01:00"), "2025-03-24");
}

#[test]
fn normalize_date_german_format() {
    assert_eq!(normalize_date("24.03.2025"), "2025-03-24");
}

#[test]
fn normalize_date_unparseable_returns_as_is() {
    assert_eq!(normalize_date("not a date"), "not a date");
}

#[test]
fn normalize_date_whitespace_trimmed() {
    assert_eq!(normalize_date("  2025-03-24  "), "2025-03-24");
}

#[test]
fn parse_date_input_valid() {
    let result = parse_date_input("2025-03-24").unwrap().unwrap();
    assert_eq!(result.to_iso_string(), "2025-03-24");
}

#[test]
fn parse_date_input_empty_is_none() {
    assert!(parse_date_input("").unwrap().is_none());
}

#[test]
fn parse_date_input_bad_format() {
    assert!(parse_date_input("24/03/2025").is_err());
}

#[test]
fn parse_article_date_iso() {
    let date = parse_article_date("2025-03-24").unwrap();
    assert_eq!(date.to_iso_string(), "2025-03-24");
}

#[test]
fn parse_article_date_iso_timestamp() {
    let date = parse_article_date("2025-03-24T10:00:00").unwrap();
    assert_eq!(date.to_iso_string(), "2025-03-24");
}

#[test]
fn parse_article_date_german() {
    let date = parse_article_date("24.03.2025").unwrap();
    assert_eq!(date.to_iso_string(), "2025-03-24");
}

#[test]
fn parse_article_date_invalid() {
    assert!(parse_article_date("not a date").is_none());
}

#[test]
fn iso_text_pads_fields() {
    let d = CalendarDate { year: 987, month: 1, day: 5 };
    assert_eq!(d.to_iso_string(), "0987-01-05");
    let d = CalendarDate { year: 12345, month: 12, day: 31 };
    assert_eq!(d.to_iso_string(), "+12345-12-31");
}

#[test]
fn dates_compare_by_calendar() {
    let a = CalendarDate { year: 2024, month: 12, day: 31 };
    let b = CalendarDate { year: 2025, month: 1, day: 1 };
    assert!(a.is_before(&b));
    assert!(!b.is_before(&a));
    assert!(!a.is_before(&a));
}

#[test]
fn invalid_calendar_day_is_refused() {
    assert!(parse_date_input("2025-02-30").is_err());
    assert!(parse_article_date("31.04.2025").is_none());
}
