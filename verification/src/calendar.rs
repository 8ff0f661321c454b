//! Calendar dates, and the window of a month from its first second to its
//! last. Calendar arithmetic is done by `chrono`.

use vstd::prelude::*;
use chrono::{Datelike, NaiveDate};

verus! {

/// The first year that `chrono` can hold.
pub const MIN_YEAR: i32 = -262_143;

/// The last year that `chrono` can hold.
pub const MAX_YEAR: i32 = 262_142;

/// Whether `year` is a leap year of the proleptic Gregorian calendar.
pub open spec fn is_leap_year(year: int) -> bool {
    year % 4 == 0 && (year % 100 != 0 || year % 400 == 0)
}

/// The number of days of a month of the proleptic Gregorian calendar.
pub open spec fn days_in_month(year: int, month: int) -> int {
    if month == 2 {
        if is_leap_year(year) {
            29
        } else {
            28
        }
    } else if month == 4 || month == 6 || month == 9 || month == 11 {
        30
    } else {
        31
    }
}

/// A calendar date without a time zone.
#[derive(Clone, Copy, Debug, PartialEq, Eq, Structural)]
pub struct CalendarDate {
    pub year: i32,
    pub month: u32,
    pub day: u32,
}

/// The date exists and its year is one that `chrono` can hold.
pub open spec fn is_date(year: int, month: int, day: int) -> bool {
    &&& MIN_YEAR <= year <= MAX_YEAR
    &&& 1 <= month <= 12
    &&& 1 <= day <= days_in_month(year, month)
}

/// The date before `date`; none before the first day of the first year.
pub open spec fn previous_date(date: CalendarDate) -> Option<CalendarDate> {
    if date.day > 1 {
        Some(CalendarDate { year: date.year, month: date.month, day: (date.day - 1) as u32 })
    } else if date.month > 1 {
        Some(
            CalendarDate {
                year: date.year,
                month: (date.month - 1) as u32,
                day: days_in_month(date.year as int, date.month - 1) as u32,
            },
        )
    } else if date.year > MIN_YEAR {
        Some(CalendarDate { year: (date.year - 1) as i32, month: 12, day: 31 })
    } else {
        None
    }
}

/// `NaiveDate::from_ymd_opt`: the date of the given year, month and day,
/// where that day exists in the calendar and the year is in range.
#[verifier::external_body]
fn date_from_ymd(year: i32, month: u32, day: u32) -> (date: Option<CalendarDate>)
    ensures
        date is Some <==> is_date(year as int, month as int, day as int),
        date matches Some(d) ==> d == (CalendarDate { year, month, day }),
{
    let made = NaiveDate::from_ymd_opt(year, month, day)?;
    Some(CalendarDate { year: made.year(), month: made.month(), day: made.day() })
}

/// `NaiveDate::pred_opt`: the previous calendar date, none for the first
/// date that can be held.
#[verifier::external_body]
fn day_before(date: CalendarDate) -> (previous: Option<CalendarDate>)
    requires
        is_date(date.year as int, date.month as int, date.day as int),
    ensures
        previous == previous_date(date),
{
    let given = NaiveDate::from_ymd_opt(date.year, date.month, date.day)?;
    let made = given.pred_opt()?;
    Some(CalendarDate { year: made.year(), month: made.month(), day: made.day() })
}

/// The last day of the month: the day before the first of the month that
/// follows.
pub fn last_day_of_month(year: i32, month: u32) -> (day: u32)
    requires
        1 <= month <= 12,
        MIN_YEAR <= year <= MAX_YEAR,
        month == 12 ==> year < MAX_YEAR,
    ensures
        day == days_in_month(year as int, month as int),
{
    let following = match date_from_ymd(year, month + 1, 1) {
        Some(first) => first,
        None => match date_from_ymd(year + 1, 1, 1) {
            Some(first) => first,
            None => {
                assert(false);
                CalendarDate { year, month, day: 1 }
            },
        },
    };
    match day_before(following) {
        Some(last) => last.day,
        None => {
            assert(false);
            1
        },
    }
}

/// Whether the month can be given a window: it is a month of a year that
/// `chrono` can hold, and so is the day after its last.
pub open spec fn is_month(year: int, month: int) -> bool {
    &&& 1 <= month <= 12
    &&& MIN_YEAR <= year <= MAX_YEAR
    &&& month == 12 ==> year < MAX_YEAR
}

/// A point of a day, without a time zone.
#[derive(Clone, Copy, Debug, PartialEq, Eq, Structural)]
pub struct Moment {
    pub date: CalendarDate,
    pub hour: u32,
    pub minute: u32,
    pub second: u32,
}

/// The first and the last second of a month, in local time.
#[derive(Clone, Copy, Debug, PartialEq, Eq, Structural)]
pub struct Window {
    pub start: Moment,
    pub end: Moment,
}

/// The window of the given month: from the first day at 00:00:00 to the last
/// day at 23:59:59.
pub open spec fn window_of(year: i32, month: u32) -> Window {
    Window {
        start: Moment {
            date: CalendarDate { year, month, day: 1 },
            hour: 0,
            minute: 0,
            second: 0,
        },
        end: Moment {
            date: CalendarDate {
                year,
                month,
                day: days_in_month(year as int, month as int) as u32,
            },
            hour: 23,
            minute: 59,
            second: 59,
        },
    }
}

/// The window of the given month.
pub fn month_window(year: i32, month: u32) -> (window: Window)
    requires
        is_month(year as int, month as int),
    ensures
        window == window_of(year, month),
{
    Window {
        start: Moment {
            date: CalendarDate { year, month, day: 1 },
            hour: 0,
            minute: 0,
            second: 0,
        },
        end: Moment {
            date: CalendarDate { year, month, day: last_day_of_month(year, month) },
            hour: 23,
            minute: 59,
            second: 59,
        },
    }
}

} // verus!
