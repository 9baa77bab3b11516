//! Days as text, and the clock of the office.
use lnms_invoice::dates::{day_before, office_moment, parse_day, write_day, EARLIEST, LATEST};

#[test]
fn the_day_before() {
    assert_eq!(day_before("2026-08-15").as_deref(), Some("2026-08-14"));
    assert_eq!(day_before("2026-03-01").as_deref(), Some("2026-02-28"));
    assert_eq!(day_before("2024-03-01").as_deref(), Some("2024-02-29"));
    assert_eq!(day_before("2000-03-01").as_deref(), Some("2000-02-29"));
    assert_eq!(day_before("1900-03-01").as_deref(), Some("1900-02-28"));
    assert_eq!(day_before("2026-01-01").as_deref(), Some("2025-12-31"));
    assert_eq!(day_before("2026-02-30"), None);
    assert_eq!(day_before("August"), None);
}

#[test]
fn days_are_read_back() {
    for s in ["2026-08-15", "0001-01-01", "9999-12-31"] {
        assert_eq!(write_day(&parse_day(s).unwrap()), s);
    }
    assert!(parse_day("2026-13-01").is_none());
    assert!(parse_day("2026-00-01").is_none());
}

#[test]
fn text_orders_as_days_do() {
    let mut day = "2026-03-02".to_string();
    for _ in 0..800 {
        let before = day_before(&day).unwrap();
        assert!(before < day);
        day = before;
    }
    assert_eq!(day, "2023-12-23");
}

#[test]
fn the_office_is_eight_hours_ahead() {
    let m = office_moment(0).unwrap();
    assert_eq!((m.year, m.month, m.day, m.hour), (1970, 1, 1, 8));
    let m = office_moment(1_785_513_600).unwrap();
    assert_eq!((m.year, m.month, m.day, m.hour), (2026, 8, 1, 0));
    let m = office_moment(1_785_513_599).unwrap();
    assert_eq!((m.year, m.month, m.day, m.hour), (2026, 7, 31, 23));
    let m = office_moment(253_402_271_999).unwrap();
    assert_eq!((m.year, m.month, m.day, m.hour), (9999, 12, 31, 23));
    let m = office_moment(253_402_272_000).unwrap();
    assert_eq!((m.year, m.month, m.day, m.hour), (10000, 1, 1, 0));
    let m = office_moment(-28_801).unwrap();
    assert_eq!((m.year, m.month, m.day, m.hour), (1969, 12, 31, 23));
    let m = office_moment(EARLIEST).unwrap();
    assert_eq!((m.year, m.month, m.day, m.hour), (-262143, 1, 1, 8));
    let m = office_moment(LATEST).unwrap();
    assert_eq!((m.year, m.month, m.day, m.hour), (262143, 1, 1, 7));
    assert!(office_moment(EARLIEST - 1).is_none());
    assert!(office_moment(LATEST + 1).is_none());
    assert!(office_moment(i64::MAX).is_none());
}
