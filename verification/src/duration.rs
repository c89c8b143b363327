//! Lengths of time as a configuration writes them: a whole number followed by one of
//! the units `ms`, `s`, `m` and `h`.

use vstd::prelude::*;
use vstd::string::StrSliceExecFns;
use crate::parse::{digits_value, is_digit};
use crate::time::Span;

verus! {

/// The longest span, in whole seconds, that can be told in milliseconds with 64 bits.
pub const MAX_SPAN_SECS: i64 = 9_223_372_036_854_775;

/// A unit of time that a duration text can end in.
#[derive(Debug, Clone, Copy, PartialEq, Eq, Structural)]
pub enum TimeUnit {
    Milliseconds,
    Seconds,
    Minutes,
    Hours,
}

/// Why a text is not a duration.
#[derive(Debug, Clone, Copy, PartialEq, Eq, Structural)]
pub enum DurationParseError {
    /// The text ends in none of `ms`, `s`, `m` and `h`.
    InvalidSuffix,
    /// What stands before the unit is not a whole number of 64 bits.
    InvalidNumber,
    /// The number of units is more than a span can hold.
    OutOfRange,
}

/// A span of time read from a text.
#[derive(Debug, Clone, Copy, PartialEq, Eq, Structural)]
pub struct DurationWrapper(pub Span);

/// The number part and the unit of a duration text: `ms` is tried before `s` and `m`.
pub open spec fn duration_parts(s: Seq<char>) -> Option<(Seq<char>, TimeUnit)> {
    let n = s.len() as int;
    if n >= 2 && s[n - 2] == 'm' && s[n - 1] == 's' {
        Some((s.take(n - 2), TimeUnit::Milliseconds))
    } else if n >= 1 && s[n - 1] == 's' {
        Some((s.take(n - 1), TimeUnit::Seconds))
    } else if n >= 1 && s[n - 1] == 'm' {
        Some((s.take(n - 1), TimeUnit::Minutes))
    } else if n >= 1 && s[n - 1] == 'h' {
        Some((s.take(n - 1), TimeUnit::Hours))
    } else {
        None
    }
}

/// `s` is one digit or more and nothing else.
pub open spec fn all_digits(s: Seq<char>) -> bool {
    s.len() > 0 && forall|i: int| 0 <= i < s.len() ==> is_digit(#[trigger] s[i])
}

/// The 64-bit integer that `s` writes in decimal, with an optional sign before the
/// digits, if it writes one.
pub open spec fn i64_of(s: Seq<char>) -> Option<i64> {
    if s.len() > 0 && s.first() == '-' {
        if all_digits(s.drop_first()) && digits_value(s.drop_first()) <= 0x8000_0000_0000_0000 {
            Some((-(digits_value(s.drop_first()) as int)) as i64)
        } else {
            None
        }
    } else {
        let d = if s.len() > 0 && s.first() == '+' {
            s.drop_first()
        } else {
            s
        };
        if all_digits(d) && digits_value(d) <= i64::MAX {
            Some(digits_value(d) as i64)
        } else {
            None
        }
    }
}

/// The span of `n` whole seconds, where it is not longer than `MAX_SPAN_SECS`.
pub open spec fn span_of_seconds(n: int) -> Option<Span> {
    if -MAX_SPAN_SECS <= n <= MAX_SPAN_SECS {
        Some(Span { secs: n as i64, nanos: 0 })
    } else {
        None
    }
}

/// The span of `n` milliseconds; seconds and nanoseconds carry the sign of `n`.
pub open spec fn span_of_millis(n: int) -> Option<Span> {
    if n < -i64::MAX {
        None
    } else if n >= 0 {
        Some(Span { secs: (n / 1000) as i64, nanos: ((n % 1000) * 1_000_000) as i32 })
    } else {
        Some(Span { secs: (-((-n) / 1000)) as i64, nanos: (-(((-n) % 1000) * 1_000_000)) as i32 })
    }
}

/// The span of `n` units.
pub open spec fn span_of(n: int, unit: TimeUnit) -> Option<Span> {
    match unit {
        TimeUnit::Milliseconds => span_of_millis(n),
        TimeUnit::Seconds => span_of_seconds(n),
        TimeUnit::Minutes => span_of_seconds(n * 60),
        TimeUnit::Hours => span_of_seconds(n * 3600),
    }
}

/// What a duration text stands for.
pub open spec fn duration_of(s: Seq<char>) -> Result<DurationWrapper, DurationParseError> {
    match duration_parts(s) {
        None => Err(DurationParseError::InvalidSuffix),
        Some((number, unit)) => match i64_of(number) {
            None => Err(DurationParseError::InvalidNumber),
            Some(n) => match span_of(n as int, unit) {
                Some(span) => Ok(DurationWrapper(span)),
                None => Err(DurationParseError::OutOfRange),
            },
        },
    }
}

/// Calls `str::parse::<i64>`: `Ok` with the number for an optional sign followed by
/// decimal digits whose value fits 64 bits, an error for every other text.
#[verifier::external_body]
pub(crate) fn parse_i64(s: &str) -> (r: Result<i64, core::num::ParseIntError>)
    ensures
        match r {
            Ok(n) => i64_of(s@) == Some(n),
            Err(_) => i64_of(s@) is None,
        },
{
    s.parse::<i64>()
}

/// Calls `chrono::TimeDelta::try_milliseconds` and hands on `num_seconds()` and
/// `subsec_nanos()` of what it gives: `None` below `-i64::MAX`, else the span of that
/// many milliseconds.
#[verifier::external_body]
fn try_milliseconds(n: i64) -> (r: Option<Span>)
    ensures
        r == span_of_millis(n as int),
{
    match chrono::TimeDelta::try_milliseconds(n) {
        Some(d) => Some(Span { secs: d.num_seconds(), nanos: d.subsec_nanos() }),
        None => None,
    }
}

/// Calls `chrono::TimeDelta::try_seconds` and hands on `num_seconds()` and
/// `subsec_nanos()` of what it gives: `None` beyond `MAX_SPAN_SECS` either way, else
/// the span of that many seconds.
#[verifier::external_body]
pub(crate) fn try_seconds(n: i64) -> (r: Option<Span>)
    ensures
        r == span_of_seconds(n as int),
{
    match chrono::TimeDelta::try_seconds(n) {
        Some(d) => Some(Span { secs: d.num_seconds(), nanos: d.subsec_nanos() }),
        None => None,
    }
}

/// Calls `chrono::TimeDelta::try_minutes` and hands on `num_seconds()` and
/// `subsec_nanos()` of what it gives: the span of sixty times as many seconds, `None`
/// where that is beyond `MAX_SPAN_SECS` either way.
#[verifier::external_body]
fn try_minutes(n: i64) -> (r: Option<Span>)
    ensures
        r == span_of_seconds(n * 60),
{
    match chrono::TimeDelta::try_minutes(n) {
        Some(d) => Some(Span { secs: d.num_seconds(), nanos: d.subsec_nanos() }),
        None => None,
    }
}

/// Calls `chrono::TimeDelta::try_hours` and hands on `num_seconds()` and
/// `subsec_nanos()` of what it gives: the span of 3600 times as many seconds, `None`
/// where that is beyond `MAX_SPAN_SECS` either way.
#[verifier::external_body]
fn try_hours(n: i64) -> (r: Option<Span>)
    ensures
        r == span_of_seconds(n * 3600),
{
    match chrono::TimeDelta::try_hours(n) {
        Some(d) => Some(Span { secs: d.num_seconds(), nanos: d.subsec_nanos() }),
        None => None,
    }
}

impl DurationWrapper {
    /// Reads a duration such as `35s`, `27m`, `3h` or `500ms`.
    pub fn try_from(value: &str) -> (r: Result<DurationWrapper, DurationParseError>)
        ensures
            r == duration_of(value@),
    {
        let len = value.unicode_len();
        if len == 0 {
            return Err(DurationParseError::InvalidSuffix);
        }
        let last = value.get_char(len - 1);
        let (digits, unit) = if len >= 2 && last == 's' && value.get_char(len - 2) == 'm' {
            (len - 2, TimeUnit::Milliseconds)
        } else if last == 's' {
            (len - 1, TimeUnit::Seconds)
        } else if last == 'm' {
            (len - 1, TimeUnit::Minutes)
        } else if last == 'h' {
            (len - 1, TimeUnit::Hours)
        } else {
            return Err(DurationParseError::InvalidSuffix);
        };
        let number = value.substring_char(0, digits);
        assert(number@ =~= value@.take(digits as int));
        assert(duration_parts(value@) == Some((number@, unit)));
        let n = match parse_i64(number) {
            Ok(n) => n,
            Err(_) => {
                return Err(DurationParseError::InvalidNumber);
            },
        };
        let span = match unit {
            TimeUnit::Milliseconds => try_milliseconds(n),
            TimeUnit::Seconds => try_seconds(n),
            TimeUnit::Minutes => try_minutes(n),
            TimeUnit::Hours => try_hours(n),
        };
        match span {
            Some(span) => Ok(DurationWrapper(span)),
            None => Err(DurationParseError::OutOfRange),
        }
    }

    /// The span that was read.
    pub fn deref(&self) -> (s: &Span)
        ensures
            *s == self.0,
    {
        &self.0
    }
}

} // verus!
