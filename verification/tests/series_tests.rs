use investment_returns::date::Date;
use investment_returns::error::ReturnError;
use investment_returns::models::PricePoint;
use investment_returns::ratio::Ratio;
use investment_returns::series::find_date;
use investment_returns::series::get_last_close_date;
use investment_returns::series::locate_trading_day;
use investment_returns::series::overlay;
use investment_returns::series::price_on;
use investment_returns::series::record_point;

fn on(text: &str) -> Date {
    Date::parse_iso(text).unwrap()
}

fn point(text: &str, close: i64) -> PricePoint {
    PricePoint { date: on(text), close: Ratio::from_int(close) }
}

fn week() -> Vec<PricePoint> {
    vec![
        point("2024-06-27", 99),
        point("2024-07-02", 102),
        point("2024-06-28", 100),
        point("2024-07-01", 101),
    ]
}

#[test]
fn a_priced_date_is_its_own_trading_day() {
    assert_eq!(locate_trading_day(&week(), on("2024-07-01")), Ok(on("2024-07-01")));
    assert_eq!(locate_trading_day(&week(), on("2024-06-27")), Ok(on("2024-06-27")));
}

#[test]
fn an_unpriced_date_falls_back_to_the_latest_earlier_one() {
    assert_eq!(locate_trading_day(&week(), on("2024-06-30")), Ok(on("2024-06-28")));
    assert_eq!(locate_trading_day(&week(), on("2024-06-29")), Ok(on("2024-06-28")));
    assert_eq!(locate_trading_day(&week(), on("2025-01-01")), Ok(on("2024-07-02")));
}

#[test]
fn no_earlier_price_is_an_error() {
    assert_eq!(
        locate_trading_day(&week(), on("2024-06-26")),
        Err(ReturnError::NoPriorTradingDay)
    );
    assert_eq!(locate_trading_day(&Vec::new(), on("2024-06-26")), Err(ReturnError::NoPriorTradingDay));
}

#[test]
fn locating_twice_changes_nothing() {
    for text in ["2024-06-27", "2024-06-29", "2024-06-30", "2024-07-01", "2024-08-15"] {
        let found = locate_trading_day(&week(), on(text)).unwrap();
        assert_eq!(locate_trading_day(&week(), found), Ok(found));
    }
}

#[test]
fn last_close_date_is_strictly_earlier() {
    assert_eq!(get_last_close_date(&week(), on("2024-07-01")), Some(on("2024-06-28")));
    assert_eq!(get_last_close_date(&week(), on("2024-06-28")), Some(on("2024-06-27")));
    assert_eq!(get_last_close_date(&week(), on("2024-06-27")), None);
    assert_eq!(get_last_close_date(&Vec::new(), on("2024-06-27")), None);
}

#[test]
fn prices_are_found_by_date() {
    assert_eq!(price_on(&week(), on("2024-06-28")), Ok(Ratio::from_int(100)));
    assert_eq!(price_on(&week(), on("2024-06-29")), Err(ReturnError::PriceNotFound));
    assert_eq!(find_date(&week(), on("2024-06-28")), Some(2));
    assert_eq!(find_date(&week(), on("2024-06-29")), None);
}

#[test]
fn recording_a_price_again_replaces_it() {
    let mut series = week();
    record_point(&mut series, point("2024-06-28", 111));
    assert_eq!(series.len(), 4);
    assert_eq!(price_on(&series, on("2024-06-28")), Ok(Ratio::from_int(111)));
    record_point(&mut series, point("2024-07-03", 103));
    assert_eq!(series.len(), 5);
    assert_eq!(series[4], point("2024-07-03", 103));
}

#[test]
fn overlay_keeps_both_histories_and_the_last_write() {
    let mut base = vec![point("2024-06-27", 99), point("2024-06-28", 100)];
    let other = vec![point("2024-06-28", 55), point("2024-06-26", 98)];
    overlay(&mut base, &other);
    assert_eq!(base.len(), 3);
    assert_eq!(price_on(&base, on("2024-06-26")), Ok(Ratio::from_int(98)));
    assert_eq!(price_on(&base, on("2024-06-27")), Ok(Ratio::from_int(99)));
    assert_eq!(price_on(&base, on("2024-06-28")), Ok(Ratio::from_int(55)));
}

#[test]
fn overlay_in_either_order_gives_the_same_days() {
    let a = vec![point("2024-06-27", 99), point("2024-06-28", 100)];
    let b = vec![point("2024-06-28", 55), point("2024-06-26", 98)];
    let mut ab = a.clone();
    overlay(&mut ab, &b);
    let mut ba = b.clone();
    overlay(&mut ba, &a);
    for text in ["2024-06-25", "2024-06-26", "2024-06-27", "2024-06-28", "2024-06-29"] {
        assert_eq!(find_date(&ab, on(text)).is_some(), find_date(&ba, on(text)).is_some());
    }
    assert_eq!(price_on(&ab, on("2024-06-28")), Ok(Ratio::from_int(55)));
    assert_eq!(price_on(&ba, on("2024-06-28")), Ok(Ratio::from_int(100)));
}
