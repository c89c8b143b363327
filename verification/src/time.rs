//! Instants and spans of time as plain integers.

use vstd::prelude::*;

verus! {

/// Seconds in one calendar day of the UTC time scale (leap seconds are not counted).
pub const SECS_PER_DAY: i64 = 86_400;

/// An instant: whole seconds since 1970-01-01T00:00:00 UTC, and the nanoseconds after them.
#[derive(Clone, Copy, Debug, PartialEq, Eq, Structural)]
pub struct Timestamp {
    pub secs: i64,
    pub nanos: u32,
}

/// A signed length of time: whole seconds and additional nanoseconds.
#[derive(Clone, Copy, Debug, PartialEq, Eq, Structural)]
pub struct Span {
    pub secs: i64,
    pub nanos: i32,
}

impl Timestamp {
    /// The instant as one number of nanoseconds since the epoch.
    pub open spec fn total_nanos(self) -> int {
        self.secs * 1_000_000_000 + self.nanos
    }

    /// The number of the UTC calendar day that holds the instant; day 0 is 1970-01-01.
    pub open spec fn day(self) -> int {
        self.secs as int / 86_400
    }

    /// The instant `nanos` nanoseconds after the second `secs`.
    pub fn new(secs: i64, nanos: u32) -> (t: Timestamp)
        ensures
            t.secs == secs,
            t.nanos == nanos,
    {
        Timestamp { secs, nanos }
    }

    /// Computes `total_nanos`.
    pub fn as_nanos(&self) -> (n: i128)
        ensures
            n == self.total_nanos(),
    {
        let s: i128 = self.secs as i128;
        let f: i128 = self.nanos as i128;
        s * 1_000_000_000 + f
    }

    /// Computes `day`: the floor of `secs / 86400`, also for instants before the epoch.
    pub fn day_number(&self) -> (d: i64)
        ensures
            d == self.day(),
    {
        if self.secs >= 0 {
            self.secs / SECS_PER_DAY
        } else {
            let back: i64 = -(self.secs + 1);
            -(back / SECS_PER_DAY) - 1
        }
    }
}

impl Span {
    /// The span as one number of nanoseconds.
    pub open spec fn total_nanos(self) -> int {
        self.secs * 1_000_000_000 + self.nanos
    }

    /// The span of `secs` whole seconds.
    pub fn seconds(secs: i64) -> (s: Span)
        ensures
            s.secs == secs,
            s.nanos == 0,
            s.total_nanos() == secs * 1_000_000_000,
    {
        Span { secs, nanos: 0 }
    }

    /// Computes `total_nanos`.
    pub fn as_nanos(&self) -> (n: i128)
        ensures
            n == self.total_nanos(),
    {
        let s: i128 = self.secs as i128;
        let f: i128 = self.nanos as i128;
        s * 1_000_000_000 + f
    }
}

/// The form in which a calendar date is written: year, month and day with hyphens
/// between them.
pub const DATE_FMT: &'static str = "%Y-%m-%d";

/// The UTC calendar date of the instant `secs` seconds after the epoch, written in
/// the form `fmt`; `None` for an instant outside the calendar's range.
pub uninterp spec fn utc_date_text(secs: int, fmt: Seq<char>) -> Option<Seq<char>>;

/// The date text of day number `day`; `None` where the day's first second does not
/// fit 64 bits or lies outside the calendar's range.
pub open spec fn date_stem_of(day: int) -> Option<Seq<char>> {
    if i64::MIN <= day * 86_400 <= i64::MAX {
        utc_date_text(day * 86_400, DATE_FMT@)
    } else {
        None
    }
}

/// Calls `chrono::DateTime::from_timestamp(secs, 0)` and, where that gives an instant,
/// formats its `date_naive()` with `fmt`. The contract gives the outcome the name
/// `utc_date_text(secs, fmt)` and claims nothing else of it. Formatting fails on a
/// malformed `fmt`, so only the date form is admitted.
#[verifier::external_body]
pub(crate) fn utc_date_stem(secs: i64, fmt: &str) -> (stem: Option<String>)
    requires
        fmt@ == DATE_FMT@,
    ensures
        match stem {
            Some(s) => utc_date_text(secs as int, fmt@) == Some(s@),
            None => utc_date_text(secs as int, fmt@) is None,
        },
{
    match chrono::DateTime::from_timestamp(secs, 0) {
        Some(t) => Some(t.date_naive().format(fmt).to_string()),
        None => None,
    }
}

/// Calls `chrono::Local::now` and hands on its `timestamp()` and
/// `timestamp_subsec_nanos()`. Nothing is claimed of the clock.
#[verifier::external_body]
pub(crate) fn clock_now() -> (t: Timestamp) {
    let now = chrono::Local::now();
    Timestamp { secs: now.timestamp(), nanos: now.timestamp_subsec_nanos() }
}

} // verus!
