//! The date window of a run as the time-tracking service wants it: two
//! instants written in the account's time zone. The time zone data and the
//! formatting are those of `chrono` and `chrono_tz`.

use vstd::prelude::*;
use std::str::FromStr;
use chrono::TimeZone;
use chrono_tz::Tz;
use crate::calendar::{is_month, month_window, window_of, Moment, MAX_YEAR, MIN_YEAR};

verus! {

/// The seconds of a week.
pub const SECONDS_PER_WEEK: i64 = 604_800;

/// Whether `chrono_tz` knows a time zone of the name `zone`.
pub uninterp spec fn is_zone(zone: Seq<char>) -> bool;

/// The instant, in seconds since 1970-01-01 00:00:00 UTC, at which the
/// clocks of `zone` show the given date and time; none where the zone is
/// unknown, or where its clocks show that time never or twice.
pub uninterp spec fn zone_instant(
    zone: Seq<char>,
    year: int,
    month: int,
    day: int,
    hour: int,
    minute: int,
    second: int,
) -> Option<int>;

/// The instant written as date, time and offset of `zone` in the format of
/// ISO 8601; none where the zone is unknown or the instant is out of the
/// range of `chrono`.
pub uninterp spec fn zone_text(zone: Seq<char>, instant: int) -> Option<Seq<char>>;

/// The instant at which `zone` shows `moment`.
pub open spec fn instant_of(zone: Seq<char>, moment: Moment) -> Option<int> {
    zone_instant(
        zone,
        moment.date.year as int,
        moment.date.month as int,
        moment.date.day as int,
        moment.hour as int,
        moment.minute as int,
        moment.second as int,
    )
}

/// `Tz::from_str`: whether the name is that of a time zone.
#[verifier::external_body]
fn known_zone(zone: &str) -> (known: bool)
    ensures
        known == is_zone(zone@),
{
    Tz::from_str(zone).is_ok()
}

/// `TimeZone::with_ymd_and_hms` of the zone of that name, as a timestamp;
/// none unless the local time maps to a single instant.
#[verifier::external_body]
fn instant_in_zone(zone: &str, moment: Moment) -> (instant: Option<i64>)
    ensures
        instant is Some <==> instant_of(zone@, moment) is Some,
        instant matches Some(at) ==> Some(at as int) == zone_instant(
            zone@,
            moment.date.year as int,
            moment.date.month as int,
            moment.date.day as int,
            moment.hour as int,
            moment.minute as int,
            moment.second as int,
        ),
{
    let tz = Tz::from_str(zone).ok()?;
    let date = moment.date;
    let made = tz.with_ymd_and_hms(
        date.year,
        date.month,
        date.day,
        moment.hour,
        moment.minute,
        moment.second,
    );
    Some(made.single()?.timestamp())
}

/// `DateTime::format` with `%+`, for the instant in the zone of that name.
#[verifier::external_body]
fn text_in_zone(zone: &str, instant: i64) -> (text: Option<String>)
    ensures
        text is Some <==> zone_text(zone@, instant as int) is Some,
        text matches Some(written) ==> zone_text(zone@, instant as int) == Some(written@),
{
    let tz = Tz::from_str(zone).ok()?;
    let made = tz.timestamp_opt(instant, 0).single()?;
    Some(made.format("%+").to_string())
}

/// Why a window cannot be given.
#[derive(Clone, Copy, Debug, PartialEq, Eq, Structural)]
pub enum WindowError {
    /// The name is not that of a time zone.
    UnknownZone,
    /// The month or an instant of the window is out of range.
    OutOfRange,
    /// The clocks of the zone show the first or the last second of the month
    /// never or twice.
    NoSingleLocalTime,
}

/// The two ends of a window, written in the account's time zone.
#[derive(Clone, Debug, PartialEq, Eq)]
pub struct Bounds {
    pub begin: String,
    pub end: String,
}

/// The instant that lies `weeks` whole weeks before `instant`.
pub open spec fn weeks_before(instant: int, weeks: int) -> int {
    instant - weeks * SECONDS_PER_WEEK
}

/// The instant `lookback_weeks` whole weeks before `instant`, where it fits
/// in 64 bits.
pub fn back_dated(instant: i64, lookback_weeks: u32) -> (earlier: Option<i64>)
    ensures
        earlier == (if weeks_before(instant as int, lookback_weeks as int) >= i64::MIN {
            Some(weeks_before(instant as int, lookback_weeks as int) as i64)
        } else {
            None
        }),
{
    let span: i64 = (lookback_weeks as i64) * SECONDS_PER_WEEK;
    instant.checked_sub(span)
}

/// What [`window_bounds`] returns: the error that it meets first, or the two
/// ends of the window written in the zone.
pub open spec fn bounds_of(zone: Seq<char>, year: i32, month: u32, lookback_weeks: u32) -> Result<
    (Seq<char>, Seq<char>),
    WindowError,
> {
    let window = window_of(year, month);
    let start = instant_of(zone, window.start);
    let end = instant_of(zone, window.end);
    if !is_month(year as int, month as int) {
        Err(WindowError::OutOfRange)
    } else if !is_zone(zone) {
        Err(WindowError::UnknownZone)
    } else if start is None || end is None {
        Err(WindowError::NoSingleLocalTime)
    } else if weeks_before(start->0, lookback_weeks as int) < i64::MIN {
        Err(WindowError::OutOfRange)
    } else if zone_text(zone, weeks_before(start->0, lookback_weeks as int)) is None || zone_text(
        zone,
        end->0,
    ) is None {
        Err(WindowError::OutOfRange)
    } else {
        Ok(
            (
                zone_text(zone, weeks_before(start->0, lookback_weeks as int))->0,
                zone_text(zone, end->0)->0,
            ),
        )
    }
}

/// The date window of the given month in the time zone `zone`: from the
/// first day at 00:00:00, moved back by `lookback_weeks` whole weeks, to the
/// last day at 23:59:59.
pub fn window_bounds(zone: &str, year: i32, month: u32, lookback_weeks: u32) -> (result: Result<
    Bounds,
    WindowError,
>)
    ensures
        match result {
            Ok(bounds) => bounds_of(zone@, year, month, lookback_weeks) == Ok::<
                (Seq<char>, Seq<char>),
                WindowError,
            >((bounds.begin@, bounds.end@)),
            Err(error) => bounds_of(zone@, year, month, lookback_weeks) == Err::<
                (Seq<char>, Seq<char>),
                WindowError,
            >(error),
        },
{
    if month < 1 || month > 12 || year < MIN_YEAR || year > MAX_YEAR || (month == 12 && year
        >= MAX_YEAR) {
        return Err(WindowError::OutOfRange);
    }
    if !known_zone(zone) {
        return Err(WindowError::UnknownZone);
    }
    let window = month_window(year, month);
    let start: i64 = match instant_in_zone(zone, window.start) {
        Some(instant) => instant,
        None => {
            return Err(WindowError::NoSingleLocalTime);
        },
    };
    let end: i64 = match instant_in_zone(zone, window.end) {
        Some(instant) => instant,
        None => {
            return Err(WindowError::NoSingleLocalTime);
        },
    };
    let earlier: i64 = match back_dated(start, lookback_weeks) {
        Some(instant) => instant,
        None => {
            return Err(WindowError::OutOfRange);
        },
    };
    let begin = match text_in_zone(zone, earlier) {
        Some(text) => text,
        None => {
            return Err(WindowError::OutOfRange);
        },
    };
    let end = match text_in_zone(zone, end) {
        Some(text) => text,
        None => {
            return Err(WindowError::OutOfRange);
        },
    };
    Ok(Bounds { begin, end })
}

} // verus!
