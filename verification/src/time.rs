//! Calendar and schedule facts that only the date-time crates can
//! compute: the civil parts of a UNIX timestamp, and the next instant of
//! a cron expression.

use vstd::prelude::*;
use chrono::{Datelike, Timelike};
use core::str::FromStr;

verus! {

/// Civil date-time parts of a UNIX timestamp, in UTC; `weekday` counts
/// days since Sunday.
#[derive(Debug, Clone, Copy, PartialEq, Eq, Structural)]
pub struct DateParts {
    pub year: i32,
    pub month: u8,
    pub day: u8,
    pub weekday: u8,
    pub hour: u8,
    pub minute: u8,
}

/// Whether a number of seconds lies in the range that the calendar
/// conversion accepts.
pub uninterp spec fn ts_in_civil_range(ts: int) -> bool;

pub uninterp spec fn civil_year_of(ts: int) -> int;

pub uninterp spec fn civil_month_of(ts: int) -> int;

pub uninterp spec fn civil_day_of(ts: int) -> int;

pub uninterp spec fn civil_weekday_of(ts: int) -> int;

pub uninterp spec fn civil_hour_of(ts: int) -> int;

pub uninterp spec fn civil_minute_of(ts: int) -> int;

/// The civil parts of an in-range timestamp, as one record.
pub open spec fn spec_civil_parts(ts: int) -> DateParts {
    DateParts {
        year: civil_year_of(ts) as i32,
        month: civil_month_of(ts) as u8,
        day: civil_day_of(ts) as u8,
        weekday: civil_weekday_of(ts) as u8,
        hour: civil_hour_of(ts) as u8,
        minute: civil_minute_of(ts) as u8,
    }
}

/// Relies on chrono: `DateTime::<Utc>::from_timestamp` returns `Some`
/// exactly for an in-range number of seconds, and the `Datelike` and
/// `Timelike` accessors `year`, `month` (1..=12), `day` (1..=31),
/// `weekday().num_days_from_sunday()` (0..=6), `hour` (0..=23) and
/// `minute` (0..=59) depend on the timestamp alone.
#[verifier::external_body]
pub fn civil_parts(ts: i64) -> (r: Option<DateParts>)
    ensures
        r is Some <==> ts_in_civil_range(ts as int),
        r matches Some(p) ==> {
            &&& p.year as int == civil_year_of(ts as int)
            &&& p.month as int == civil_month_of(ts as int)
            &&& p.day as int == civil_day_of(ts as int)
            &&& p.weekday as int == civil_weekday_of(ts as int)
            &&& p.hour as int == civil_hour_of(ts as int)
            &&& p.minute as int == civil_minute_of(ts as int)
            &&& 1 <= p.month <= 12
            &&& 1 <= p.day <= 31
            &&& p.weekday < 7
            &&& p.hour < 24
            &&& p.minute < 60
        },
{
    match chrono::DateTime::<chrono::Utc>::from_timestamp(ts, 0) {
        None => None,
        Some(dt) => Some(
            DateParts {
                year: dt.year(),
                month: dt.month() as u8,
                day: dt.day() as u8,
                weekday: dt.weekday().num_days_from_sunday() as u8,
                hour: dt.hour() as u8,
                minute: dt.minute() as u8,
            },
        ),
    }
}

/// Whether a cron expression is well-formed; parsing succeeds on the
/// expression alone.
pub uninterp spec fn cron_parses(e: Seq<char>) -> bool;

/// Relies on cron's `Schedule::from_str`, which fails exactly on a
/// malformed expression, and `Schedule::upcoming` over chrono's `Utc`:
/// the next matching instant after now, if any, as a UNIX timestamp.
/// What `upcoming` yields depends on the clock, so nothing is stated of
/// the value.
#[verifier::external_body]
pub fn cron_next_timestamp(expr: &str) -> (r: Result<Option<i64>, ()>)
    ensures
        r is Ok <==> cron_parses(expr@),
{
    match cron::Schedule::from_str(expr) {
        Err(_) => Err(()),
        Ok(schedule) => match schedule.upcoming(chrono::Utc).next() {
            None => Ok(None),
            Some(dt) => Ok(Some(dt.timestamp())),
        },
    }
}

} // verus!
