use cassette::dates::{daily_format_error, session_day, session_stamp};
use chrono::{DateTime, Datelike, Local, Timelike};

#[test]
fn a_created_stamp_reads_as_its_local_date_and_time() {
    let created = "2026-09-15T09:05:07.25+02:00";
    let local = DateTime::parse_from_rfc3339(created).unwrap().with_timezone(&Local).naive_local();
    let s = session_stamp(created).expect("RFC 3339");
    assert_eq!((s.year, s.month, s.day), (local.year(), local.month(), local.day()));
    assert_eq!(s.secs, local.num_seconds_from_midnight());
    assert_eq!(s.nanos, 250_000_000);
    assert_eq!(s.text, local.format("%Y-%m-%d %H:%M").to_string());
    let d = session_day(created).expect("RFC 3339");
    assert_eq!(d.num, local.date().num_days_from_ce());
    assert_eq!(d.text, local.date().to_string());
}

#[test]
fn a_stamp_that_is_not_rfc3339_reads_as_nothing() {
    assert!(session_stamp("yesterday").is_none());
    assert!(session_day("2026-09-15 09:05").is_none());
}

#[test]
fn a_daily_format_must_be_a_strftime_format() {
    assert_eq!(daily_format_error("%Y-%m-%d"), None);
    assert_eq!(
        daily_format_error("%Q").as_deref(),
        Some("invalid daily_format '%Q' in config.toml \u{2014} expected a chrono date format like %Y-%m-%d")
    );
}
