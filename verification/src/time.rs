//! Calendar arithmetic on timestamps: the hour a message falls into and the
//! whole hours between two instants.

use crate::types::Timestamp;
use vstd::prelude::*;

verus! {

/// The microseconds of a second.
pub const MICROS_PER_SECOND: i64 = 1_000_000;

/// The microseconds of an hour.
pub const MICROS_PER_HOUR: i64 = 3_600_000_000;

/// The seconds of a day.
pub const SECONDS_PER_DAY: i64 = 86_400;

/// The seconds of an hour.
pub const SECONDS_PER_HOUR: i64 = 3_600;

/// 0000-01-01T00:00:00Z, in seconds from the epoch.
pub const MIN_CALENDAR_SECONDS: i64 = -62_167_219_200;

/// 9999-12-31T23:59:59Z, in seconds from the epoch.
pub const MAX_CALENDAR_SECONDS: i64 = 253_402_300_799;

/// The last whole second at or before the instant.
pub open spec fn whole_seconds(micros: int) -> int {
    micros / (MICROS_PER_SECOND as int)
}

/// Whether the instant lies in the years 0000 to 9999.
pub open spec fn on_calendar(micros: int) -> bool {
    MIN_CALENDAR_SECONDS <= whole_seconds(micros) <= MAX_CALENDAR_SECONDS
}

/// The hour of the UTC day, 0 to 23, that holds the given second.
pub open spec fn hour_of_day(seconds: int) -> int {
    (seconds % (SECONDS_PER_DAY as int)) / (SECONDS_PER_HOUR as int)
}

/// Whether `chrono` has a date-time for the given second. It has one for
/// every second of the years 0000 to 9999, and for many more; how many is
/// its own matter.
pub uninterp spec fn has_date_time(seconds: int) -> bool;

/// The bucket of an instant: its hour of the UTC day, or none where there is
/// no date-time for it.
pub open spec fn time_bucket(micros: int) -> Option<u32> {
    if has_date_time(whole_seconds(micros)) {
        Some(hour_of_day(whole_seconds(micros)) as u32)
    } else {
        None
    }
}

/// The whole hours in a span of microseconds, rounded toward zero.
pub open spec fn whole_hours(span: int) -> int {
    if span >= 0 {
        span / (MICROS_PER_HOUR as int)
    } else {
        -((-span) / (MICROS_PER_HOUR as int))
    }
}

/// `chrono::DateTime::from_timestamp` and then `chrono::Timelike::hour`: the
/// second alone decides whether there is a date-time for it, there is one for
/// every second of the years 0000 to 9999, and its hour is the second's
/// offset into its UTC day, divided by 3600.
#[verifier::external_body]
fn utc_hour(seconds: i64) -> (hour: Option<u32>)
    ensures
        hour is Some <==> has_date_time(seconds as int),
        hour matches Some(found) ==> found == hour_of_day(seconds as int),
        MIN_CALENDAR_SECONDS <= seconds <= MAX_CALENDAR_SECONDS ==> hour is Some,
{
    match chrono::DateTime::from_timestamp(seconds, 0) {
        Some(at) => Some(chrono::Timelike::hour(&at)),
        None => None,
    }
}

/// `chrono::TimeDelta::microseconds` and then `chrono::TimeDelta::num_hours`:
/// the whole hours of the span, rounded toward zero.
#[verifier::external_body]
fn hours_of_span(span: i64) -> (hours: i64)
    ensures
        hours == whole_hours(span as int),
{
    chrono::TimeDelta::microseconds(span).num_hours()
}

impl Timestamp {
    /// The last whole second at or before this instant.
    pub fn seconds(&self) -> (secs: i64)
        ensures
            secs == whole_seconds(self.micros as int),
    {
        if self.micros >= 0 {
            self.micros / MICROS_PER_SECOND
        } else {
            let below: i64 = -(self.micros + 1);
            -(below / MICROS_PER_SECOND) - 1
        }
    }

    /// The hour of the UTC day this instant falls into, 0 to 23. Every
    /// instant of the years 0000 to 9999 falls into one; far from these
    /// years, where there is no date-time for an instant, it falls into none.
    pub fn bucket(&self) -> (bucket: Option<u32>)
        ensures
            bucket == time_bucket(self.micros as int),
            on_calendar(self.micros as int) ==> bucket == Some(
                hour_of_day(whole_seconds(self.micros as int)) as u32,
            ),
            bucket matches Some(hour) ==> hour < 24,
    {
        utc_hour(self.seconds())
    }

    /// Whether fewer than `window` whole hours lie between `earlier` and
    /// this instant. An instant after this one lies within every window
    /// of at least one hour.
    pub fn within_hours(&self, earlier: Timestamp, window: i64) -> (within: bool)
        ensures
            within == (whole_hours(self.micros - earlier.micros) < window),
    {
        match self.micros.checked_sub(earlier.micros) {
            Some(span) => hours_of_span(span) < window,
            None => {
                // The span is wider than any that 64 bits can hold.
                if self.micros >= earlier.micros {
                    let span: i128 = self.micros as i128 - earlier.micros as i128;
                    span / (MICROS_PER_HOUR as i128) < window as i128
                } else {
                    let span: i128 = earlier.micros as i128 - self.micros as i128;
                    -(span / (MICROS_PER_HOUR as i128)) < window as i128
                }
            },
        }
    }
}

} // verus!
