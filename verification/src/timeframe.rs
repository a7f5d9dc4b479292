//! Named lookback periods and the window of dates each one spans.

use crate::date::Date;
use crate::error::ReturnError;
use vstd::prelude::*;

verus! {

/// The number of calendar days that a timeframe label stands for.
pub open spec fn timeframe_days(label: Seq<char>) -> Option<int> {
    if label == "1 day"@ {
        Some(1)
    } else if label == "5 days"@ {
        Some(5)
    } else if label == "6 months"@ {
        Some(182)
    } else if label == "1 year"@ {
        Some(365)
    } else {
        None
    }
}

/// The window that `label` spans when it ends on `as_of`: its first and
/// last day.
pub open spec fn window_of(label: Seq<char>, as_of: Date) -> Option<(Date, Date)> {
    match timeframe_days(label) {
        Some(days) => Some((Date { days: (as_of.days - days) as i32 }, as_of)),
        None => None,
    }
}

/// The number of calendar days that `timeframe_str` stands for, or `None`
/// for a label that is not recognized.
pub fn get_timeframe_days(timeframe_str: &str) -> (r: Option<i64>)
    ensures
        r matches Some(days) ==> timeframe_days(timeframe_str@) == Some(days as int),
        r is None ==> timeframe_days(timeframe_str@) is None,
        r matches Some(days) ==> days == 1 || days == 5 || days == 182 || days == 365,
{
    let label = timeframe_str.to_owned();
    if label == "1 day".to_owned() {
        Some(1)
    } else if label == "5 days".to_owned() {
        Some(5)
    } else if label == "6 months".to_owned() {
        Some(182)
    } else if label == "1 year".to_owned() {
        Some(365)
    } else {
        None
    }
}

/// The first and last day of the window that `label` spans when it ends on
/// `as_of`; `InvalidTimeframe` exactly for a label that is not recognized.
/// The first day is earlier than the last by the label's number of days.
pub fn resolve_window(label: &str, as_of: Date) -> (r: Result<(Date, Date), ReturnError>)
    requires
        as_of.days - 365 >= i32::MIN,
    ensures
        match r {
            Ok(window) => window_of(label@, as_of) == Some(window),
            Err(e) => e == ReturnError::InvalidTimeframe && window_of(label@, as_of) is None,
        },
        r matches Ok(window) ==> window.1 == as_of && window.0.days < window.1.days
            && timeframe_days(label@) == Some(window.1.days - window.0.days),
{
    match get_timeframe_days(label) {
        Some(days) => Ok((as_of.days_earlier(days as i32), as_of)),
        None => Err(ReturnError::InvalidTimeframe),
    }
}

/// The four recognized labels and their day counts.
pub proof fn lemma_recognized_timeframes()
    ensures
        timeframe_days("1 day"@) == Some(1int),
        timeframe_days("5 days"@) == Some(5int),
        timeframe_days("6 months"@) == Some(182int),
        timeframe_days("1 year"@) == Some(365int),
{
    reveal_strlit("1 day");
    reveal_strlit("5 days");
    reveal_strlit("6 months");
    reveal_strlit("1 year");
    assert("5 days"@.len() != "1 day"@.len());
    assert("6 months"@.len() != "1 day"@.len());
    assert("6 months"@.len() != "5 days"@.len());
    assert("1 year"@.len() != "1 day"@.len());
    assert("1 year"@[0] != "5 days"@[0]);
    assert("1 year"@.len() != "6 months"@.len());
}

} // verus!
