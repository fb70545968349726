//! Instants on the UTC time line and the calendar month each one falls into.

use vstd::prelude::*;

verus! {

/// The calendar year (proleptic Gregorian, UTC) that holds the instant
/// `seconds` after 1970-01-01T00:00:00Z, or `None` for an instant outside the
/// range of the calendar.
pub uninterp spec fn civil_year(seconds: i64) -> Option<i32>;

/// The month of the year, counted from 1, that holds the instant `seconds`
/// after 1970-01-01T00:00:00Z, or `None` for an instant outside the range of
/// the calendar.
pub uninterp spec fn civil_month(seconds: i64) -> Option<u32>;

/// `chrono::DateTime::from_timestamp_secs`, then `chrono::Datelike::year` of
/// the date it gives.
///
/// Trusted: the result is the calendar's year of that instant, a function of
/// `seconds` alone.
#[verifier::external_body]
fn utc_year(seconds: i64) -> (year: Option<i32>)
    ensures
        year == civil_year(seconds),
{
    match chrono::DateTime::from_timestamp_secs(seconds) {
        Some(date) => Some(chrono::Datelike::year(&date)),
        None => None,
    }
}

/// `chrono::DateTime::from_timestamp_secs`, then `chrono::Datelike::month` of
/// the date it gives.
///
/// Trusted: the result is the calendar's month of that instant, a function of
/// `seconds` alone; it lies between 1 and 12, and it is there exactly where
/// the year is, both being read from the same date.
#[verifier::external_body]
fn utc_month(seconds: i64) -> (month: Option<u32>)
    ensures
        month == civil_month(seconds),
        month is Some <==> civil_year(seconds) is Some,
        month matches Some(m) ==> 1 <= m <= 12,
{
    match chrono::DateTime::from_timestamp_secs(seconds) {
        Some(date) => Some(chrono::Datelike::month(&date)),
        None => None,
    }
}

/// An instant, together with the calendar year and month (UTC) it falls into.
#[derive(Clone, Copy, Debug, PartialEq, Eq, Structural)]
pub struct Timestamp {
    seconds: i64,
    year: i32,
    month: u32,
}

impl Timestamp {
    pub closed spec fn spec_seconds(&self) -> i64 {
        self.seconds
    }

    pub closed spec fn spec_year(&self) -> i32 {
        self.year
    }

    pub closed spec fn spec_month(&self) -> u32 {
        self.month
    }

    /// The month is one of the twelve.
    pub open spec fn wf(&self) -> bool {
        1 <= self.month() <= 12
    }

    /// The year and month are the calendar's for this instant.
    pub open spec fn on_calendar(&self) -> bool {
        &&& civil_year(self.seconds()) == Some(self.year())
        &&& civil_month(self.seconds()) == Some(self.month())
    }

    /// The instant `seconds` after 1970-01-01T00:00:00Z with its calendar year
    /// and month, or `None` where the calendar does not reach that far.
    pub fn from_unix_seconds(seconds: i64) -> (r: Option<Timestamp>)
        ensures
            r is Some <==> civil_year(seconds) is Some,
            r matches Some(t) ==> t.wf() && t.on_calendar() && t.seconds() == seconds,
    {
        let year = utc_year(seconds);
        let month = utc_month(seconds);
        match (year, month) {
            (Some(year), Some(month)) => Some(Timestamp { seconds, year, month }),
            _ => None,
        }
    }

    /// Seconds since 1970-01-01T00:00:00Z.
    #[verifier::when_used_as_spec(spec_seconds)]
    pub fn seconds(&self) -> (s: i64)
        ensures
            s == self.seconds(),
    {
        self.seconds
    }

    /// The calendar year.
    #[verifier::when_used_as_spec(spec_year)]
    pub fn year(&self) -> (y: i32)
        ensures
            y == self.year(),
    {
        self.year
    }

    /// The month of the year, counted from 1.
    #[verifier::when_used_as_spec(spec_month)]
    pub fn month(&self) -> (m: u32)
        ensures
            m == self.month(),
    {
        self.month
    }
}

} // verus!
