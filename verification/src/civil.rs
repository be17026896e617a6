//! The calendar model: a timestamp's UTC calendar fields, validity of a
//! proleptic-Gregorian date, and the trusted conversions between epoch
//! milliseconds and calendar fields, which chrono performs.
//!
//! The library supports instants whose UTC year falls between 0 and 9999;
//! `MIN_EPOCH_MILLIS` and `MAX_EPOCH_MILLIS` bound that range.

use chrono::{Datelike, TimeZone, Timelike};
use vstd::prelude::*;

verus! {

/// Milliseconds at 0000-01-01T00:00:00Z, the earliest supported instant.
pub const MIN_EPOCH_MILLIS: i64 = -62167219200000;

/// Milliseconds at 9999-12-31T23:59:59.999Z, the latest supported instant.
pub const MAX_EPOCH_MILLIS: i64 = 253402300799999;

/// The UTC calendar fields of one instant, at whole-second precision.
#[derive(Clone, Copy, Debug, PartialEq, Eq, Structural)]
pub struct CivilDateTime {
    pub year: i32,
    pub month: u32,
    pub day: u32,
    pub hour: u32,
    pub minute: u32,
    pub second: u32,
}

impl CivilDateTime {
    /// The fields as one tuple of integers, the form the calendar
    /// specifications speak about.
    pub open spec fn fields(self) -> (int, int, int, int, int, int) {
        (
            self.year as int,
            self.month as int,
            self.day as int,
            self.hour as int,
            self.minute as int,
            self.second as int,
        )
    }
}

/// A leap year of the proleptic Gregorian calendar.
pub open spec fn is_leap_year(y: int) -> bool {
    y % 4 == 0 && (y % 100 != 0 || y % 400 == 0)
}

/// Days in a month of the proleptic Gregorian calendar.
pub open spec fn days_in_month(y: int, m: int) -> int
    recommends
        1 <= m <= 12,
{
    if m == 2 {
        if is_leap_year(y) {
            29
        } else {
            28
        }
    } else if m == 4 || m == 6 || m == 9 || m == 11 {
        30
    } else {
        31
    }
}

/// The fields name a real date and time of day in the proleptic Gregorian
/// calendar (the year is unconstrained here; the supported year range is a
/// separate check).
pub open spec fn valid_civil(y: int, mo: int, d: int, h: int, mi: int, s: int) -> bool {
    &&& 1 <= mo <= 12
    &&& 1 <= d <= days_in_month(y, mo)
    &&& 0 <= h <= 23
    &&& 0 <= mi <= 59
    &&& 0 <= s <= 59
}

/// The UTC calendar fields (year, month, day, hour, minute, second) of the
/// instant at the given milliseconds since the Unix epoch, as chrono's
/// `DateTime::from_timestamp_millis` computes them.
pub uninterp spec fn civil_of_millis(ms: int) -> (int, int, int, int, int, int);

/// The milliseconds since the Unix epoch of the single UTC instant with the
/// given calendar fields, as chrono's `with_ymd_and_hms` over `Utc` computes
/// it; `None` when the fields name no such instant.
pub uninterp spec fn millis_of_civil(y: int, mo: int, d: int, h: int, mi: int, s: int) -> Option<
    int,
>;

/// The milliseconds since the Unix epoch of the instant an ISO-8601 /
/// RFC 3339 string with an explicit offset denotes, as chrono's `FromStr`
/// for `DateTime<Utc>` computes it; `None` when the string does not parse.
pub uninterp spec fn iso_millis_of(s: Seq<char>) -> Option<int>;

/// Relies on chrono's `DateTime::from_timestamp_millis` and the `Datelike` /
/// `Timelike` accessors: for an in-range timestamp the conversion succeeds,
/// the fields are a valid calendar date-time with a four-digit year, and
/// `with_ymd_and_hms` on those fields recovers the timestamp rounded down
/// to whole seconds (chrono documents the round trip with
/// `timestamp_millis`).
#[verifier::external_body]
pub(crate) fn millis_to_civil(ms: i64) -> (r: CivilDateTime)
    requires
        MIN_EPOCH_MILLIS <= ms <= MAX_EPOCH_MILLIS,
    ensures
        r.fields() == civil_of_millis(ms as int),
        0 <= r.year <= 9999,
        valid_civil(
            r.year as int,
            r.month as int,
            r.day as int,
            r.hour as int,
            r.minute as int,
            r.second as int,
        ),
        millis_of_civil(
            r.year as int,
            r.month as int,
            r.day as int,
            r.hour as int,
            r.minute as int,
            r.second as int,
        ) == Some(1000 * (ms as int / 1000)),
{
    let dt = chrono::DateTime::from_timestamp_millis(ms).unwrap();
    CivilDateTime {
        year: dt.year(),
        month: dt.month(),
        day: dt.day(),
        hour: dt.hour(),
        minute: dt.minute(),
        second: dt.second(),
    }
}

/// Relies on chrono's `with_ymd_and_hms` over `Utc` and `timestamp_millis`:
/// a valid date-time with a year between 0 and 9999 maps to a single UTC
/// instant, invalid fields map to none, and `Utc` is never ambiguous.
#[verifier::external_body]
pub(crate) fn civil_to_millis(
    year: i32,
    month: u32,
    day: u32,
    hour: u32,
    minute: u32,
    second: u32,
) -> (r: Option<i64>)
    ensures
        r is Some <==> millis_of_civil(
            year as int,
            month as int,
            day as int,
            hour as int,
            minute as int,
            second as int,
        ) is Some,
        r matches Some(v) ==> millis_of_civil(
            year as int,
            month as int,
            day as int,
            hour as int,
            minute as int,
            second as int,
        ) == Some(v as int),
        valid_civil(
            year as int,
            month as int,
            day as int,
            hour as int,
            minute as int,
            second as int,
        ) && 0 <= year <= 9999 ==> r is Some,
        !valid_civil(
            year as int,
            month as int,
            day as int,
            hour as int,
            minute as int,
            second as int,
        ) ==> r is None,
{
    chrono::Utc.with_ymd_and_hms(year, month, day, hour, minute, second).single().map(
        |dt| dt.timestamp_millis(),
    )
}

/// Relies on chrono's `FromStr` for `DateTime<Utc>` (relaxed RFC 3339 with
/// an explicit offset) and `timestamp_millis`: the result depends on the
/// string alone.
#[verifier::external_body]
pub(crate) fn parse_iso_utc(s: &str) -> (r: Option<i64>)
    ensures
        r matches Some(v) ==> iso_millis_of(s@) == Some(v as int),
        r is None <==> iso_millis_of(s@) is None,
{
    match s.parse::<chrono::DateTime<chrono::Utc>>() {
        Ok(dt) => Some(dt.timestamp_millis()),
        Err(_) => None,
    }
}

/// Whether the fields name a real date and time of day; mirrors
/// `valid_civil`.
pub fn check_valid_civil(year: i32, month: u32, day: u32, hour: u32, minute: u32, second: u32) -> (r:
    bool)
    ensures
        r == valid_civil(
            year as int,
            month as int,
            day as int,
            hour as int,
            minute as int,
            second as int,
        ),
{
    if month < 1 || month > 12 {
        return false;
    }
    let leap = (year % 4 == 0) && (year % 100 != 0 || year % 400 == 0);
    proof {
        assert(leap == is_leap_year(year as int));
    }
    let dim: u32 = if month == 2 {
        if leap {
            29
        } else {
            28
        }
    } else if month == 4 || month == 6 || month == 9 || month == 11 {
        30
    } else {
        31
    };
    day >= 1 && day <= dim && hour <= 23 && minute <= 59 && second <= 59
}

} // verus!
