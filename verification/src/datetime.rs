//! Instants as a query or a file name writes them.

use vstd::prelude::*;
use vstd::string::StrSliceExecFns;
use crate::time::Timestamp;

verus! {

/// A date alone: year, month and day.
pub const DATE_ONLY_FMT: &'static str = "%Y-%m-%d";

/// A date and a time to the minute, with a space between them.
pub const DATE_MINUTE_FMT: &'static str = "%Y-%m-%d %H:%M";

/// A date and a time to the second, with a space between them.
pub const DATE_SECOND_FMT: &'static str = "%Y-%m-%d %H:%M:%S";

/// A date and a time to the second, with a `T` between them.
pub const DATE_T_SECOND_FMT: &'static str = "%Y-%m-%dT%H:%M:%S";

/// A date and a time with a fraction of a second, with a `T` between them.
pub const DATE_T_FRACTION_FMT: &'static str = "%Y-%m-%dT%H:%M:%S%.f";

/// A date and a time with a fraction of a second and an offset from UTC.
pub const DATE_T_FRACTION_OFFSET_FMT: &'static str = "%Y-%m-%dT%H:%M:%S%.f%:z";

/// The form of the instant at the start of the name of an accounting snapshot.
pub const SNAPSHOT_NAME_FMT: &'static str = "%Y_%m_%d__%H_%M_%S";

/// The number of characters that an instant of the form `SNAPSHOT_NAME_FMT` takes.
pub const SNAPSHOT_NAME_LEN: usize = 20;

/// Why a text is no instant.
#[derive(Debug, Clone, Copy, PartialEq, Eq, Structural)]
pub enum DatetimeParseError {
    /// The text has none of the accepted forms.
    UnknownFormat,
}

/// What `input` gives when it is read as a date of the form `fmt`: the first second
/// of that date in UTC, in seconds since the epoch; `None` where it has not that form.
pub uninterp spec fn date_parsed(input: Seq<char>, fmt: Seq<char>) -> Option<int>;

/// What `input` gives when it is read as a date and time of the form `fmt`, taken as
/// UTC: seconds since the epoch and nanoseconds; `None` where it has not that form.
pub uninterp spec fn datetime_parsed(input: Seq<char>, fmt: Seq<char>) -> Option<(int, int)>;

/// What `input` gives when it is read as a date and time with an offset from UTC, of
/// the form `fmt`: the instant in seconds since the epoch and nanoseconds; `None`
/// where it has not that form.
pub uninterp spec fn offset_datetime_parsed(input: Seq<char>, fmt: Seq<char>) -> Option<(int, int)>;

/// The instant of a pair of seconds and nanoseconds.
pub open spec fn instant(parts: (int, int)) -> Timestamp {
    Timestamp { secs: parts.0 as i64, nanos: parts.1 as u32 }
}

/// The instant that a text stands for: the first of the accepted forms that the text
/// has decides, in the order date alone, to the minute, to the second, with `T`,
/// with a fraction, with an offset. Without an offset the time is taken as UTC.
pub open spec fn datetime_of(input: Seq<char>) -> Result<Timestamp, DatetimeParseError> {
    if let Some(secs) = date_parsed(input, DATE_ONLY_FMT@) {
        Ok(Timestamp { secs: secs as i64, nanos: 0 })
    } else if let Some(parts) = datetime_parsed(input, DATE_MINUTE_FMT@) {
        Ok(instant(parts))
    } else if let Some(parts) = datetime_parsed(input, DATE_SECOND_FMT@) {
        Ok(instant(parts))
    } else if let Some(parts) = datetime_parsed(input, DATE_T_SECOND_FMT@) {
        Ok(instant(parts))
    } else if let Some(parts) = datetime_parsed(input, DATE_T_FRACTION_FMT@) {
        Ok(instant(parts))
    } else if let Some(parts) = offset_datetime_parsed(input, DATE_T_FRACTION_OFFSET_FMT@) {
        Ok(instant(parts))
    } else {
        Err(DatetimeParseError::UnknownFormat)
    }
}

/// Calls `chrono::NaiveDate::parse_from_str` and hands on the date as the `timestamp()`
/// of its midnight in UTC. The contract gives the outcome the name `date_parsed`.
#[verifier::external_body]
fn parse_date(input: &str, fmt: &str) -> (r: Option<i64>)
    ensures
        match r {
            Some(secs) => date_parsed(input@, fmt@) == Some(secs as int),
            None => date_parsed(input@, fmt@) is None,
        },
{
    match chrono::NaiveDate::parse_from_str(input, fmt) {
        Ok(date) => Some(date.and_time(chrono::NaiveTime::MIN).and_utc().timestamp()),
        Err(_) => None,
    }
}

/// Calls `chrono::NaiveDateTime::parse_from_str` and hands on `timestamp()` and
/// `timestamp_subsec_nanos()` of the result taken as UTC. The contract gives the
/// outcome the name `datetime_parsed`.
#[verifier::external_body]
fn parse_naive(input: &str, fmt: &str) -> (r: Option<Timestamp>)
    ensures
        match r {
            Some(t) => datetime_parsed(input@, fmt@) == Some((t.secs as int, t.nanos as int)),
            None => datetime_parsed(input@, fmt@) is None,
        },
{
    match chrono::NaiveDateTime::parse_from_str(input, fmt) {
        Ok(naive) => Some(Timestamp { secs: naive.and_utc().timestamp(), nanos: naive.and_utc().timestamp_subsec_nanos() }),
        Err(_) => None,
    }
}

/// Calls `chrono::DateTime::parse_from_str` and hands on `timestamp()` and
/// `timestamp_subsec_nanos()` of the result. The contract gives the outcome the name
/// `offset_datetime_parsed`.
#[verifier::external_body]
fn parse_with_offset(input: &str, fmt: &str) -> (r: Option<Timestamp>)
    ensures
        match r {
            Some(t) => offset_datetime_parsed(input@, fmt@) == Some((t.secs as int, t.nanos as int)),
            None => offset_datetime_parsed(input@, fmt@) is None,
        },
{
    match chrono::DateTime::parse_from_str(input, fmt) {
        Ok(t) => Some(Timestamp { secs: t.timestamp(), nanos: t.timestamp_subsec_nanos() }),
        Err(_) => None,
    }
}

/// Reads an instant in one of the accepted forms.
pub fn parse_datetime(input: &str) -> (r: Result<Timestamp, DatetimeParseError>)
    ensures
        r == datetime_of(input@),
{
    if let Some(secs) = parse_date(input, DATE_ONLY_FMT) {
        return Ok(Timestamp::new(secs, 0));
    }
    if let Some(t) = parse_naive(input, DATE_MINUTE_FMT) {
        return Ok(t);
    }
    if let Some(t) = parse_naive(input, DATE_SECOND_FMT) {
        return Ok(t);
    }
    if let Some(t) = parse_naive(input, DATE_T_SECOND_FMT) {
        return Ok(t);
    }
    if let Some(t) = parse_naive(input, DATE_T_FRACTION_FMT) {
        return Ok(t);
    }
    if let Some(t) = parse_with_offset(input, DATE_T_FRACTION_OFFSET_FMT) {
        return Ok(t);
    }
    Err(DatetimeParseError::UnknownFormat)
}

/// The first `SNAPSHOT_NAME_LEN` characters of a name, or all of a shorter name.
pub open spec fn snapshot_prefix(name: Seq<char>) -> Seq<char> {
    if name.len() <= SNAPSHOT_NAME_LEN {
        name
    } else {
        name.take(SNAPSHOT_NAME_LEN as int)
    }
}

/// Reads the instant at the start of the name of an accounting snapshot; the time is
/// handed on as if it were UTC. `None` where the name does not start with an instant.
pub fn datetime_from_filename(name: &str) -> (r: Option<Timestamp>)
    ensures
        r == match datetime_parsed(snapshot_prefix(name@), SNAPSHOT_NAME_FMT@) {
            Some(parts) => Some(instant(parts)),
            None => None,
        },
{
    let len = name.unicode_len();
    let end = if len <= SNAPSHOT_NAME_LEN {
        len
    } else {
        SNAPSHOT_NAME_LEN
    };
    let part = name.substring_char(0, end);
    assert(part@ =~= snapshot_prefix(name@));
    parse_naive(part, SNAPSHOT_NAME_FMT)
}

/// The form in which the scheduler takes an instant: date and time of day with a
/// `T` between them, without an offset.
pub const SLURM_DATETIME_FMT: &'static str = "%Y-%m-%dT%H:%M:%S";

/// The instant `secs` seconds after the epoch as a clock shows it that is `offset`
/// seconds ahead of UTC, written in the form `fmt`; `None` for an instant outside the
/// calendar's range or an offset of a day or more.
pub uninterp spec fn local_datetime_text(secs: int, offset: int, fmt: Seq<char>) -> Option<Seq<char>>;

/// Calls `chrono::DateTime::from_timestamp(secs, 0)` and `chrono::FixedOffset::east_opt`,
/// and where both give a value formats the instant in that offset with `fmt`. The
/// contract gives the outcome the name `local_datetime_text(secs, offset, fmt)`.
/// Formatting fails on a malformed `fmt`, so only the scheduler's form is admitted.
#[verifier::external_body]
fn format_in_offset(secs: i64, offset: i32, fmt: &str) -> (text: Option<String>)
    requires
        fmt@ == SLURM_DATETIME_FMT@,
    ensures
        match text {
            Some(t) => local_datetime_text(secs as int, offset as int, fmt@) == Some(t@),
            None => local_datetime_text(secs as int, offset as int, fmt@) is None,
        },
{
    match (chrono::DateTime::from_timestamp(secs, 0), chrono::FixedOffset::east_opt(offset)) {
        (Some(t), Some(zone)) => Some(t.with_timezone(&zone).format(fmt).to_string()),
        _ => None,
    }
}

/// Writes an instant for the scheduler, as the local clock shows it: `offset` is the
/// number of seconds by which that clock is ahead of UTC.
pub fn format_datetime_for_slurm(date: Timestamp, offset: i32) -> (text: Option<String>)
    ensures
        match text {
            Some(t) => local_datetime_text(date.secs as int, offset as int, SLURM_DATETIME_FMT@) == Some(t@),
            None => local_datetime_text(date.secs as int, offset as int, SLURM_DATETIME_FMT@) is None,
        },
{
    format_in_offset(date.secs, offset, SLURM_DATETIME_FMT)
}

} // verus!
