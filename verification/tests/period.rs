use amem::period::{
    activity_date_from_rel, date_in_period, date_matches_period, entry_matches_period,
    is_supported_period, parse_leading_day, validate_period, DayStamp, EntryPeriodError,
};
use chrono::{Datelike, NaiveDate};

fn stamp(y: i32, m: u32, d: u32) -> DayStamp {
    let date = NaiveDate::from_ymd_opt(y, m, d).unwrap();
    DayStamp::new(date.num_days_from_ce(), date.year(), date.month())
}

#[test]
fn periods_are_validated() {
    for ok in ["today", " Yesterday ", "WEEK", "month", "2026-02-21", " 2026-02-21\n"] {
        assert!(validate_period(ok).is_ok(), "{ok}");
    }
    for bad in ["foo", "", "weeks", "2026-02-30", "21-02-2026x", "to day"] {
        let e = validate_period(bad).unwrap_err();
        assert_eq!(e.raw, bad);
        assert_eq!(
            e.message(),
            format!("unsupported period: {bad}. use today|yesterday|week|month|yyyy-mm-dd")
        );
    }
}

#[test]
fn days_are_matched_against_periods() {
    let today = stamp(2026, 3, 2);
    assert_eq!(date_matches_period(stamp(2026, 3, 2), today, "today").unwrap(), true);
    assert_eq!(date_matches_period(stamp(2026, 3, 1), today, "today").unwrap(), false);
    assert_eq!(date_matches_period(stamp(2026, 3, 1), today, "Yesterday").unwrap(), true);
    assert_eq!(date_matches_period(stamp(2026, 3, 2), today, "yesterday").unwrap(), false);
    assert_eq!(date_matches_period(stamp(2026, 2, 24), today, "week").unwrap(), true);
    assert_eq!(date_matches_period(stamp(2026, 2, 23), today, "week").unwrap(), false);
    assert_eq!(date_matches_period(stamp(2026, 3, 2), today, " week ").unwrap(), true);
    assert_eq!(date_matches_period(stamp(2026, 3, 3), today, "week").unwrap(), false);
    assert_eq!(date_matches_period(stamp(2026, 3, 31), today, "month").unwrap(), true);
    assert_eq!(date_matches_period(stamp(2026, 2, 28), today, "month").unwrap(), false);
    assert_eq!(date_matches_period(stamp(2025, 3, 2), today, "month").unwrap(), false);
    assert_eq!(date_matches_period(stamp(2026, 2, 21), today, "2026-02-21").unwrap(), true);
    assert_eq!(date_matches_period(stamp(2026, 2, 22), today, "2026-02-21").unwrap(), false);
    let e = date_matches_period(stamp(2026, 2, 22), today, "foo").unwrap_err();
    assert_eq!(e.raw, "foo");
}

#[test]
fn periods_follow_what_the_parser_said() {
    let today = stamp(2026, 3, 2);
    assert_eq!(date_in_period(today, today, "someday", Some(today)), Some(true));
    assert_eq!(date_in_period(today, today, "someday", None), None);
    assert_eq!(date_in_period(today, today, "Today", None), None);
    assert_eq!(date_in_period(DayStamp::new(i32::MIN, 0, 1), DayStamp::new(i32::MIN, 0, 1), "week", None), Some(true));
    assert!(is_supported_period("week", false));
    assert!(is_supported_period("anything", true));
    assert!(!is_supported_period("Week", false));
}

#[test]
fn summaries_are_settled_by_file_then_body() {
    let today = stamp(2026, 3, 2);
    let past = stamp(2026, 3, 1);
    let resolve = amem::daily::resolve_daily_summary;
    assert_eq!(resolve(Some("  given  "), "- a\n- b", past, today), "given");
    assert_eq!(resolve(Some("  "), "- a\n- b", past, today), "a / b");
    assert_eq!(resolve(None, "- a\n- b", past, today), "a / b");
    assert_eq!(resolve(None, "- a\n- b", today, today), "");
    assert_eq!(resolve(Some(""), "- a", stamp(2026, 3, 3), today), "");
}

#[test]
fn entries_are_held_against_periods() {
    let today = stamp(2026, 3, 2);
    assert_eq!(entry_matches_period("2026-03-02 09:50", today, "today").unwrap(), true);
    assert_eq!(entry_matches_period("2026-03-01 08:40", today, "today").unwrap(), false);
    assert_eq!(entry_matches_period("2026-03-01 08:40", today, "week").unwrap(), true);
    assert_eq!(entry_matches_period("2026-03-01", today, "2026-03-01").unwrap(), true);
    assert_eq!(entry_matches_period("short", today, "nonsense").unwrap(), false);
    match entry_matches_period("not a day at all", today, "today") {
        Err(EntryPeriodError::InvalidTimestamp { timestamp }) => assert_eq!(timestamp, "not a day at all"),
        other => panic!("{:?}", other),
    }
    match entry_matches_period("2026-03-01 08:40", today, "foo") {
        Err(EntryPeriodError::Unsupported { raw }) => assert_eq!(raw, "foo"),
        other => panic!("{:?}", other),
    }
}

#[test]
fn daily_files_are_named_after_their_day() {
    assert_eq!(activity_date_from_rel("agent/activity/2026/02/2026-02-21.md"), Some(stamp(2026, 2, 21)));
    assert_eq!(activity_date_from_rel("2026-02-21-notes.md"), Some(stamp(2026, 2, 21)));
    assert_eq!(activity_date_from_rel("2026-02-21/summary.md"), None);
    assert_eq!(activity_date_from_rel("agent/activity/2026-02-31.md"), None);
    assert_eq!(activity_date_from_rel("open.md"), None);
    assert_eq!(parse_leading_day("2026-02-21 10:00"), Some(stamp(2026, 2, 21)));
    assert_eq!(parse_leading_day("2026-2-21"), None);
}
