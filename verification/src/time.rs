//! Calendar arithmetic over epoch-second timestamps. Hour-of-day and
//! day-of-week are plain integer arithmetic in UTC; year, month, day and
//! day-of-year come from the calendar crate through one trusted wrapper.

use chrono::Datelike;
use vstd::prelude::*;

verus! {

/// Largest timestamp the ledger accepts: 9999-12-31T23:59:59 UTC, safely
/// inside the range the calendar crate converts.
pub const MAX_TS: i64 = 253_402_300_799;

pub const SECS_PER_DAY: i64 = 86_400;

pub const SECS_PER_HOUR: i64 = 3_600;

/// A timestamp the ledger accepts: a non-negative epoch second that the
/// calendar can place.
pub open spec fn valid_ts(ts: int) -> bool {
    0 <= ts <= MAX_TS
}

/// Hour of day (0..=23) of an epoch second, in UTC.
pub open spec fn hour_of(ts: int) -> int {
    (ts % 86400) / 3600
}

/// Day of week (0..=6, Sunday first) of an epoch second, in UTC.
/// Day zero of the epoch was a Thursday.
pub open spec fn weekday_of(ts: int) -> int {
    (ts / 86400 + 4) % 7
}

/// Civil date of an epoch second in UTC, as the calendar crate computes it:
/// (year, month 1..=12, day 1..=31, day-of-year 1..=366).
pub uninterp spec fn civil_of(ts: int) -> (int, int, int, int);

/// A civil calendar date in UTC.
#[derive(Debug, Clone, Copy, PartialEq, Eq, Structural)]
pub struct Date {
    pub year: i64,
    pub month: i64,
    pub day: i64,
}

/// Day of the month (1..=31) of an epoch second, in UTC.
pub open spec fn civil_day_of(ts: int) -> int {
    civil_of(ts).2
}

/// Day of the year (1..=366) of an epoch second, in UTC.
pub open spec fn day_of_year_of(ts: int) -> int {
    civil_of(ts).3
}

/// Relies on chrono::DateTime::<Utc>::from_timestamp, which is Some for any
/// in-range second count, and on chrono::Datelike's year, month (1..=12),
/// day (1..=31) and ordinal (1..=366) for the date in UTC.
#[verifier::external_body]
pub(crate) fn civil_date_of(ts: i64) -> (r: (i32, u32, u32, u32))
    requires
        valid_ts(ts as int),
    ensures
        civil_of(ts as int) == (r.0 as int, r.1 as int, r.2 as int, r.3 as int),
        1 <= r.1 <= 12,
        1 <= r.2 <= 31,
        1 <= r.3 <= 366,
{
    let dt = chrono::DateTime::from_timestamp(ts, 0).unwrap();
    (dt.year(), dt.month(), dt.day(), dt.ordinal())
}

/// Hour of day of a timestamp, 0..=23.
pub fn hour_of_ts(ts: i64) -> (r: i64)
    requires
        0 <= ts,
    ensures
        r == hour_of(ts as int),
        0 <= r < 24,
{
    (ts % SECS_PER_DAY) / SECS_PER_HOUR
}

/// Day of week of a timestamp, 0..=6, Sunday first.
pub fn weekday_of_ts(ts: i64) -> (r: i64)
    requires
        valid_ts(ts as int),
    ensures
        r == weekday_of(ts as int),
        0 <= r < 7,
{
    (ts / SECS_PER_DAY + 4) % 7
}

} // verus!
