//! Instants in UTC and the Gregorian calendar year that holds them.

use chrono::Datelike;
use vstd::prelude::*;

verus! {

/// The first second of year 0 (midnight UTC, January 1), in seconds since the Unix epoch.
pub const EARLIEST_SECS: i64 = -62167219200;

/// The first second of year 10000, in seconds since the Unix epoch.
pub const END_SECS: i64 = 253402300800;

/// An instant in UTC: whole seconds since the Unix epoch and the nanoseconds past them.
#[derive(Clone, Copy, Debug, PartialEq, Eq, Structural)]
pub struct Timestamp {
    pub secs: i64,
    pub nanos: u32,
}

impl Timestamp {
    /// `self` is at or before `other`.
    pub open spec fn spec_le(self, other: Timestamp) -> bool {
        self.secs < other.secs || (self.secs == other.secs && self.nanos <= other.nanos)
    }

    /// The instant falls in one of the years 0 to 9999.
    pub open spec fn in_calendar_range(self) -> bool {
        EARLIEST_SECS <= self.secs < END_SECS
    }

    pub fn le(&self, other: &Timestamp) -> (r: bool)
        ensures
            r == self.spec_le(*other),
    {
        self.secs < other.secs || (self.secs == other.secs && self.nanos <= other.nanos)
    }

    pub fn in_range(&self) -> (r: bool)
        ensures
            r == self.in_calendar_range(),
    {
        EARLIEST_SECS <= self.secs && self.secs < END_SECS
    }
}

/// Leap years among the years 1 to `y` of the proleptic Gregorian calendar
/// (counted with floor division, so that it also holds for `y <= 0`).
pub open spec fn leap_years_through(y: int) -> int {
    y / 4 - y / 100 + y / 400
}

/// Days from January 1, 1970 to January 1 of year `y`.
pub open spec fn days_before_year(y: int) -> int {
    365 * (y - 1970) + leap_years_through(y - 1) - leap_years_through(1969)
}

/// Midnight UTC opening January 1 of year `y`, in seconds since the Unix epoch.
pub open spec fn year_start_secs(y: int) -> int {
    86400 * days_before_year(y)
}

/// The second `secs` falls in calendar year `y` (UTC).
pub open spec fn is_year_of(y: int, secs: int) -> bool {
    year_start_secs(y) <= secs < year_start_secs(y + 1)
}

/// `till` is midnight UTC opening January 1 of the year after the one that holds `t`.
pub open spec fn is_next_new_year(t: Timestamp, till: Timestamp) -> bool {
    &&& till.nanos == 0
    &&& exists|y: int| #[trigger] is_year_of(y, t.secs as int) && till.secs == year_start_secs(y + 1)
}

/// Relies on chrono's `Utc::now` with `timestamp` and `timestamp_subsec_nanos`:
/// the current instant of the system clock.
#[verifier::external_body]
pub(crate) fn clock_now() -> (r: Timestamp) {
    let now = chrono::Utc::now();
    Timestamp { secs: now.timestamp(), nanos: now.timestamp_subsec_nanos() }
}

/// Relies on chrono's `DateTime::from_timestamp` and `Datelike::year`: the UTC
/// calendar year that holds the second `secs`.
#[verifier::external_body]
fn utc_year(secs: i64) -> (r: i32)
    requires
        EARLIEST_SECS <= secs < END_SECS,
    ensures
        is_year_of(r as int, secs as int),
        0 <= r <= 9999,
{
    chrono::DateTime::from_timestamp(secs, 0).expect("instant within chrono's range").year()
}

/// Midnight UTC opening January 1 of `year`, in seconds since the Unix epoch.
fn new_year_secs(year: i32) -> (r: i64)
    requires
        1 <= year <= 10000,
    ensures
        r == year_start_secs(year as int),
{
    let y = year as i64;
    let z = y - 1;
    let days = 365 * (y - 1970) + (z / 4 - z / 100 + z / 400) - (1969 / 4 - 1969 / 100 + 1969 / 400);
    86400 * days
}

/// Midnight UTC opening January 1 of the year after the one that holds `t`.
pub fn start_of_next_year(t: Timestamp) -> (r: Timestamp)
    requires
        t.in_calendar_range(),
    ensures
        is_next_new_year(t, r),
{
    let year = utc_year(t.secs);
    let secs = new_year_secs(year + 1);
    let r = Timestamp { secs, nanos: 0 };
    assert(is_year_of(year as int, t.secs as int));
    r
}

} // verus!
