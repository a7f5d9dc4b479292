use investment_returns::date::Date;
use investment_returns::error::ReturnError;
use investment_returns::timeframe::get_timeframe_days;
use investment_returns::timeframe::resolve_window;

#[test]
fn iso_dates_are_read_as_day_numbers() {
    assert_eq!(Date::parse_iso("2024-12-31"), Some(Date { days: 739251 }));
    assert_eq!(Date::parse_iso("1970-01-01"), Some(Date { days: 719163 }));
    assert_eq!(Date::parse_iso("0001-01-01"), Some(Date { days: 1 }));
}

#[test]
fn day_first_dates_are_read_as_day_numbers() {
    assert_eq!(Date::parse_day_first("31/12/2024"), Some(Date { days: 739251 }));
    assert_eq!(Date::parse_day_first("01/09/2024"), Date::parse_iso("2024-09-01"));
}

#[test]
fn the_two_formats_are_not_mixed_up() {
    assert_eq!(Date::parse_iso("31/12/2024"), None);
    assert_eq!(Date::parse_day_first("2024-12-31"), None);
    assert_eq!(Date::parse_day_first("12/31/2024"), None);
}

#[test]
fn texts_that_are_no_dates_are_refused() {
    assert_eq!(Date::parse_iso(""), None);
    assert_eq!(Date::parse_iso("2024-02-30"), None);
    assert_eq!(Date::parse_iso("2023-02-29"), None);
    assert_eq!(Date::parse_iso("2024-13-01"), None);
    assert_eq!(Date::parse_iso("2024-12-31 "), None);
    assert_eq!(Date::parse_iso("yesterday"), None);
}

#[test]
fn calendar_dates_are_day_numbers() {
    assert_eq!(Date::from_ymd(2024, 12, 31), Some(Date { days: 739251 }));
    assert_eq!(Date::from_ymd(2024, 2, 29), Date::parse_iso("2024-02-29"));
    assert_eq!(Date::from_ymd(2023, 2, 29), None);
    assert_eq!(Date::from_ymd(2024, 0, 1), None);
    assert_eq!(Date::from_ymd(400000, 1, 1), None);
}

#[test]
fn later_dates_have_larger_numbers() {
    let a = Date::parse_iso("2024-06-28").unwrap();
    let b = Date::parse_iso("2024-07-01").unwrap();
    assert!(a.before(&b));
    assert!(!b.before(&a));
    assert!(!a.before(&a));
    assert_eq!(b.days - a.days, 3);
    assert_eq!(Date::from_days(7).days, 7);
}

#[test]
fn days_earlier_crosses_months_and_years() {
    let end = Date::parse_iso("2024-12-31").unwrap();
    assert_eq!(end.days_earlier(1), Date::parse_iso("2024-12-30").unwrap());
    assert_eq!(end.days_earlier(182), Date::parse_iso("2024-07-02").unwrap());
    assert_eq!(end.days_earlier(365), Date::parse_iso("2024-01-01").unwrap());
    assert_eq!(end.days_earlier(366), Date::parse_iso("2023-12-31").unwrap());
}

#[test]
fn recognized_timeframes_have_their_day_counts() {
    assert_eq!(get_timeframe_days("1 day"), Some(1));
    assert_eq!(get_timeframe_days("5 days"), Some(5));
    assert_eq!(get_timeframe_days("6 months"), Some(182));
    assert_eq!(get_timeframe_days("1 year"), Some(365));
}

#[test]
fn other_labels_are_not_timeframes() {
    assert_eq!(get_timeframe_days(""), None);
    assert_eq!(get_timeframe_days("1 Day"), None);
    assert_eq!(get_timeframe_days("1 day "), None);
    assert_eq!(get_timeframe_days("2 days"), None);
    assert_eq!(get_timeframe_days("1 month"), None);
    assert_eq!(get_timeframe_days("365"), None);
}

#[test]
fn windows_start_the_day_count_before_they_end() {
    let end = Date::parse_iso("2024-12-31").unwrap();
    for (label, days) in [("1 day", 1), ("5 days", 5), ("6 months", 182), ("1 year", 365)] {
        let (start, last) = resolve_window(label, end).unwrap();
        assert_eq!(last, end);
        assert_eq!(last.days - start.days, days);
        assert!(start.before(&last));
    }
}

#[test]
fn a_window_of_an_unknown_label_is_an_error() {
    let end = Date::parse_iso("2024-12-31").unwrap();
    assert_eq!(resolve_window("3 weeks", end), Err(ReturnError::InvalidTimeframe));
}
