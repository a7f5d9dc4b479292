//! The price series of one ticker: prices by date, and the search for the
//! trading day that a window starts on.

use crate::date::Date;
use crate::error::ReturnError;
use crate::models::PricePoint;
use crate::ratio::Ratio;
use vstd::prelude::*;

verus! {

/// The first position below `upto` of a price for `date`.
pub open spec fn date_position(points: Seq<PricePoint>, date: Date, upto: int) -> Option<int>
    decreases upto,
{
    if upto <= 0 {
        None
    } else {
        match date_position(points, date, upto - 1) {
            Some(i) => Some(i),
            None => if points[upto - 1].date == date {
                Some(upto - 1)
            } else {
                None
            },
        }
    }
}

/// Whether the series has a price for `date`: whether `date` is a trading
/// day.
pub open spec fn has_date(points: Seq<PricePoint>, date: Date) -> bool {
    date_position(points, date, points.len() as int) is Some
}

/// The price of `date`, if it is a trading day.
pub open spec fn price_at(points: Seq<PricePoint>, date: Date) -> Option<Ratio> {
    match date_position(points, date, points.len() as int) {
        Some(i) => Some(points[i].close),
        None => None,
    }
}

/// The series with the price of `point.date` set to `point.close`: a date
/// the series has keeps its place, a new date goes last.
pub open spec fn with_point(points: Seq<PricePoint>, point: PricePoint) -> Seq<PricePoint> {
    match date_position(points, point.date, points.len() as int) {
        Some(i) => points.update(i, point),
        None => points.push(point),
    }
}

/// `base` with the first `upto` points of `other` written over it one after
/// the other: on a date that both have, the price of `other` stands.
pub open spec fn overlaid(base: Seq<PricePoint>, other: Seq<PricePoint>, upto: int) -> Seq<
    PricePoint,
>
    decreases upto,
{
    if upto <= 0 {
        base
    } else {
        with_point(overlaid(base, other, upto - 1), other[upto - 1])
    }
}

/// `base` with all of `other` written over it.
pub open spec fn merged(base: Seq<PricePoint>, other: Seq<PricePoint>) -> Seq<PricePoint> {
    overlaid(base, other, other.len() as int)
}

/// The latest date strictly before `target` among the first `upto` points.
pub open spec fn latest_before(points: Seq<PricePoint>, target: Date, upto: int) -> Option<Date>
    decreases upto,
{
    if upto <= 0 {
        None
    } else {
        let rest = latest_before(points, target, upto - 1);
        let d = points[upto - 1].date;
        if d.days < target.days && (rest is None || rest->0.days < d.days) {
            Some(d)
        } else {
            rest
        }
    }
}

/// The trading day a window that asks for `target` starts on: `target` if
/// it is priced, else the latest priced date before it.
pub open spec fn trading_day(points: Seq<PricePoint>, target: Date) -> Option<Date> {
    if has_date(points, target) {
        Some(target)
    } else {
        latest_before(points, target, points.len() as int)
    }
}

/// `date_position` finds the first point of the date, and finds one whenever
/// there is one.
pub proof fn lemma_date_position(points: Seq<PricePoint>, date: Date, upto: int)
    requires
        0 <= upto <= points.len(),
    ensures
        match date_position(points, date, upto) {
            Some(i) => 0 <= i < upto && points[i].date == date && forall|j: int|
                0 <= j < i ==> (#[trigger] points[j]).date != date,
            None => forall|j: int| 0 <= j < upto ==> (#[trigger] points[j]).date != date,
        },
    decreases upto,
{
    if upto > 0 {
        lemma_date_position(points, date, upto - 1);
    }
}

/// A date is a trading day exactly when some point carries it.
pub proof fn lemma_has_date(points: Seq<PricePoint>, date: Date)
    ensures
        has_date(points, date) <==> exists|i: int|
            0 <= i < points.len() && (#[trigger] points[i]).date == date,
{
    lemma_date_position(points, date, points.len() as int);
    if has_date(points, date) {
        let i = date_position(points, date, points.len() as int)->0;
        assert(0 <= i < points.len() && points[i].date == date);
    }
}

/// What `latest_before` finds is a date of the series before `target`, and
/// no date of the series before `target` is later; it finds one whenever
/// the series has a date before `target`.
pub proof fn lemma_latest_before(points: Seq<PricePoint>, target: Date, upto: int)
    requires
        0 <= upto <= points.len(),
    ensures
        match latest_before(points, target, upto) {
            Some(d) => d.days < target.days && (exists|i: int|
                0 <= i < upto && (#[trigger] points[i]).date == d) && forall|j: int|
                0 <= j < upto && (#[trigger] points[j]).date.days < target.days
                    ==> points[j].date.days <= d.days,
            None => forall|j: int|
                0 <= j < upto ==> (#[trigger] points[j]).date.days >= target.days,
        },
    decreases upto,
{
    if upto > 0 {
        lemma_latest_before(points, target, upto - 1);
        let rest = latest_before(points, target, upto - 1);
        let d = points[upto - 1].date;
        if d.days < target.days && (rest is None || rest->0.days < d.days) {
            assert(points[upto - 1].date == d);
        } else if rest is Some {
            let i = choose|i: int| 0 <= i < upto - 1 && (#[trigger] points[i]).date == rest->0;
            assert(0 <= i < upto && points[i].date == rest->0);
        }
    }
}

/// The position of the price of `date`.
pub fn find_date(points: &Vec<PricePoint>, date: Date) -> (r: Option<usize>)
    ensures
        r matches Some(i) ==> i < points@.len() && date_position(
            points@,
            date,
            points@.len() as int,
        ) == Some(i as int),
        r is None ==> date_position(points@, date, points@.len() as int) is None,
{
    let mut i: usize = 0;
    while i < points.len()
        invariant
            i <= points@.len(),
            forall|j: int| 0 <= j < i ==> (#[trigger] points@[j]).date != date,
        decreases points@.len() - i,
    {
        if points[i].date.days == date.days {
            proof {
                lemma_date_position(points@, date, points@.len() as int);
            }
            return Some(i);
        }
        i += 1;
    }
    proof {
        lemma_date_position(points@, date, points@.len() as int);
    }
    None
}

/// The price of `date`; `PriceNotFound` exactly when the series has none.
pub fn price_on(points: &Vec<PricePoint>, date: Date) -> (r: Result<Ratio, ReturnError>)
    ensures
        match r {
            Ok(price) => price_at(points@, date) == Some(price),
            Err(e) => e == ReturnError::PriceNotFound && price_at(points@, date) is None,
        },
{
    match find_date(points, date) {
        Some(i) => Ok(points[i].close),
        None => Err(ReturnError::PriceNotFound),
    }
}

/// Sets the price of `point.date`.
pub fn record_point(points: &mut Vec<PricePoint>, point: PricePoint)
    ensures
        final(points)@ == with_point(old(points)@, point),
{
    match find_date(points, point.date) {
        Some(i) => {
            points.set(i, point);
        },
        None => {
            points.push(point);
        },
    }
}

/// Writes every price of `other` over `base`.
pub fn overlay(base: &mut Vec<PricePoint>, other: &Vec<PricePoint>)
    ensures
        final(base)@ == merged(old(base)@, other@),
{
    let mut i: usize = 0;
    while i < other.len()
        invariant
            i <= other@.len(),
            base@ == overlaid(old(base)@, other@, i as int),
        decreases other@.len() - i,
    {
        record_point(base, other[i]);
        i += 1;
    }
}

/// The latest trading day strictly before `start_date`, if there is one.
pub fn get_last_close_date(ticker_prices: &Vec<PricePoint>, start_date: Date) -> (r: Option<
    Date,
>)
    ensures
        r == latest_before(ticker_prices@, start_date, ticker_prices@.len() as int),
        r matches Some(d) ==> has_date(ticker_prices@, d) && d.days < start_date.days,
        r matches Some(d) ==> forall|other: Date|
            #[trigger] has_date(ticker_prices@, other) && other.days < start_date.days
                ==> other.days <= d.days,
        r is None ==> forall|other: Date|
            #[trigger] has_date(ticker_prices@, other) ==> other.days >= start_date.days,
{
    let mut last_date: Option<Date> = None;
    let mut i: usize = 0;
    while i < ticker_prices.len()
        invariant
            i <= ticker_prices@.len(),
            last_date == latest_before(ticker_prices@, start_date, i as int),
        decreases ticker_prices@.len() - i,
    {
        let date = ticker_prices[i].date;
        if date.days < start_date.days {
            let later = match last_date {
                Some(found) => found.days < date.days,
                None => true,
            };
            if later {
                last_date = Some(date);
            }
        }
        i += 1;
    }
    proof {
        lemma_trading_day(ticker_prices@, start_date);
    }
    last_date
}

/// The trading day a window that asks for `target` starts on;
/// `NoPriorTradingDay` exactly when `target` is not priced and no earlier
/// date is.
pub fn locate_trading_day(points: &Vec<PricePoint>, target: Date) -> (r: Result<
    Date,
    ReturnError,
>)
    ensures
        match r {
            Ok(d) => trading_day(points@, target) == Some(d),
            Err(e) => e == ReturnError::NoPriorTradingDay && trading_day(points@, target) is None,
        },
        r matches Ok(d) ==> has_date(points@, d) && d.days <= target.days,
        r matches Ok(d) ==> (has_date(points@, target) ==> d == target),
        r matches Ok(d) ==> (!has_date(points@, target) ==> d.days < target.days),
        r matches Ok(d) ==> forall|other: Date|
            #[trigger] has_date(points@, other) && other.days <= target.days ==> other.days
                <= d.days,
        r is Err ==> forall|other: Date|
            #[trigger] has_date(points@, other) ==> other.days > target.days,
{
    proof {
        lemma_trading_day(points@, target);
    }
    match find_date(points, target) {
        Some(_) => Ok(target),
        None => match get_last_close_date(points, target) {
            Some(d) => Ok(d),
            None => Err(ReturnError::NoPriorTradingDay),
        },
    }
}

/// What `trading_day` and `latest_before` find, said over the trading days
/// of the series.
pub proof fn lemma_trading_day(points: Seq<PricePoint>, target: Date)
    ensures
        match latest_before(points, target, points.len() as int) {
            Some(d) => has_date(points, d) && d.days < target.days && forall|other: Date|
                #[trigger] has_date(points, other) && other.days < target.days ==> other.days
                    <= d.days,
            None => forall|other: Date|
                #[trigger] has_date(points, other) ==> other.days >= target.days,
        },
        match trading_day(points, target) {
            Some(d) => has_date(points, d) && d.days <= target.days && (has_date(points, target)
                ==> d == target) && forall|other: Date|
                #[trigger] has_date(points, other) && other.days <= target.days ==> other.days
                    <= d.days,
            None => forall|other: Date|
                #[trigger] has_date(points, other) ==> other.days > target.days,
        },
{
    let n = points.len() as int;
    lemma_latest_before(points, target, n);
    match latest_before(points, target, n) {
        Some(d) => {
            lemma_has_date(points, d);
        },
        None => {},
    }
    assert forall|other: Date| #[trigger] has_date(points, other) implies exists|i: int|
        0 <= i < points.len() && (#[trigger] points[i]).date == other by {
        lemma_has_date(points, other);
    }
}

/// Locating is idempotent: the day found for any target is the day found
/// for itself.
pub proof fn lemma_trading_day_idempotent(points: Seq<PricePoint>, target: Date)
    ensures
        trading_day(points, target) matches Some(d) ==> trading_day(points, d) == Some(d),
{
    lemma_trading_day(points, target);
}

/// The price of the last of the first `upto` points that carries `date`.
pub open spec fn last_price_at(points: Seq<PricePoint>, date: Date, upto: int) -> Option<Ratio>
    decreases upto,
{
    if upto <= 0 {
        None
    } else if points[upto - 1].date == date {
        Some(points[upto - 1].close)
    } else {
        last_price_at(points, date, upto - 1)
    }
}

/// A date has a last price exactly when it is a trading day.
pub proof fn lemma_last_price_at(points: Seq<PricePoint>, date: Date, upto: int)
    requires
        0 <= upto <= points.len(),
    ensures
        last_price_at(points, date, upto) is Some <==> date_position(points, date, upto) is Some,
    decreases upto,
{
    if upto > 0 {
        lemma_last_price_at(points, date, upto - 1);
    }
}

/// Setting the price of a day changes the price of that day and of no
/// other.
pub proof fn lemma_with_point(points: Seq<PricePoint>, point: PricePoint, date: Date)
    ensures
        price_at(with_point(points, point), date) == if date == point.date {
            Some(point.close)
        } else {
            price_at(points, date)
        },
        has_date(with_point(points, point), date) <==> date == point.date || has_date(
            points,
            date,
        ),
{
    let after = with_point(points, point);
    let n = points.len() as int;
    lemma_date_position(points, point.date, n);
    lemma_date_position(points, date, n);
    lemma_date_position(after, date, after.len() as int);
    let at = match date_position(points, point.date, n) {
        Some(i) => i,
        None => n,
    };
    assert(after[at] == point);
    assert forall|j: int| 0 <= j < n && j != at implies after[j] == points[j] by {}
    match date_position(points, date, n) {
        Some(k) => {
            assert(after[k].date == date || k == at);
        },
        None => {},
    }
    match date_position(after, date, after.len() as int) {
        Some(k) => {
            assert(k == at || points[k].date == date);
        },
        None => {},
    }
}

/// Last write wins: after writing `other` over `base`, a day that `other`
/// prices has the last price that `other` gives it, and every other day
/// has the price it had in `base`.
pub proof fn lemma_overlaid(
    base: Seq<PricePoint>,
    other: Seq<PricePoint>,
    upto: int,
    date: Date,
)
    requires
        0 <= upto <= other.len(),
    ensures
        price_at(overlaid(base, other, upto), date) == match last_price_at(other, date, upto) {
            Some(price) => Some(price),
            None => price_at(base, date),
        },
    decreases upto,
{
    if upto > 0 {
        lemma_overlaid(base, other, upto - 1, date);
        lemma_with_point(overlaid(base, other, upto - 1), other[upto - 1], date);
    }
}

/// The trading days of a merged series are those of either series,
/// whichever is written over the other.
pub proof fn lemma_merged_dates(base: Seq<PricePoint>, other: Seq<PricePoint>, date: Date)
    ensures
        has_date(merged(base, other), date) <==> has_date(base, date) || has_date(other, date),
        has_date(merged(base, other), date) <==> has_date(merged(other, base), date),
        !has_date(other, date) ==> price_at(merged(base, other), date) == price_at(base, date),
        has_date(other, date) ==> price_at(merged(base, other), date) == last_price_at(
            other,
            date,
            other.len() as int,
        ),
{
    lemma_overlaid(base, other, other.len() as int, date);
    lemma_overlaid(other, base, base.len() as int, date);
    lemma_last_price_at(other, date, other.len() as int);
    lemma_last_price_at(base, date, base.len() as int);
}

} // verus!
