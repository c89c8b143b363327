//! Which of the stored measurements answer a query for a span of time.

use vstd::prelude::*;
use crate::datetime::{datetime_of, parse_datetime, DatetimeParseError};
use crate::measurement::Measurement;
use crate::time::Timestamp;

verus! {

/// Where a query without a start begins: one day after the epoch.
pub const DEFAULT_START_SECS: i64 = 86_400;

/// The measurement was made at `start`, at `end` or between them.
pub open spec fn in_window(m: Measurement, start: Timestamp, end: Timestamp) -> bool {
    start.total_nanos() <= m.time.total_nanos() <= end.total_nanos()
}

/// At most the first `limit` elements of `s`; all of them where no limit is set.
pub open spec fn limited<T>(s: Seq<T>, limit: Option<usize>) -> Seq<T> {
    match limit {
        Some(n) => if n < s.len() {
            s.take(n as int)
        } else {
            s
        },
        None => s,
    }
}

/// The measurements that a query asks for: those within the span, in their order,
/// cut off after `limit` of them.
pub open spec fn selection(data: Seq<Measurement>, start: Timestamp, end: Timestamp, limit: Option<usize>) -> Seq<
    Measurement,
> {
    limited(data.filter(|m: Measurement| in_window(m, start, end)), limit)
}

/// The span of time that a query asks for: from `start`, or from one day after the
/// epoch where none is given, to `end`, or to `now` where none is given. The start is
/// read first, so that its error comes first.
pub open spec fn window_of(start: Option<Seq<char>>, end: Option<Seq<char>>, now: Timestamp) -> Result<
    (Timestamp, Timestamp),
    DatetimeParseError,
> {
    let from = match start {
        Some(text) => datetime_of(text),
        None => Ok(Timestamp { secs: DEFAULT_START_SECS, nanos: 0 }),
    };
    let to = match end {
        Some(text) => datetime_of(text),
        None => Ok(now),
    };
    match (from, to) {
        (Err(e), _) => Err(e),
        (Ok(_), Err(e)) => Err(e),
        (Ok(from), Ok(to)) => Ok((from, to)),
    }
}

/// The measurements behind a sequence of references.
pub open spec fn pointed(refs: Seq<&Measurement>) -> Seq<Measurement> {
    Seq::new(refs.len(), |i: int| *refs[i])
}

/// The texts of two optional strings.
pub open spec fn opt_text(s: Option<&str>) -> Option<Seq<char>> {
    match s {
        Some(text) => Some(text@),
        None => None,
    }
}

/// Reads the span of time of a query.
pub fn window(start: Option<&str>, end: Option<&str>, now: Timestamp) -> (r: Result<
    (Timestamp, Timestamp),
    DatetimeParseError,
>)
    ensures
        r == window_of(opt_text(start), opt_text(end), now),
{
    let from = match start {
        Some(text) => match parse_datetime(text) {
            Ok(t) => t,
            Err(e) => {
                return Err(e);
            },
        },
        None => Timestamp::new(DEFAULT_START_SECS, 0),
    };
    let to = match end {
        Some(text) => match parse_datetime(text) {
            Ok(t) => t,
            Err(e) => {
                return Err(e);
            },
        },
        None => now,
    };
    Ok((from, to))
}

/// Picks the measurements within a span of time, at most `limit` of them.
pub fn filter_data<'a>(data: &'a Vec<Measurement>, start: Timestamp, end: Timestamp, limit: Option<usize>) -> (picked:
    Vec<&'a Measurement>)
    ensures
        pointed(picked@) == selection(data@, start, end, limit),
{
    let from = start.as_nanos();
    let to = end.as_nanos();
    let ghost pred = |m: Measurement| in_window(m, start, end);
    let mut picked: Vec<&'a Measurement> = Vec::new();
    let mut i: usize = 0;
    while i < data.len()
        invariant
            i <= data.len(),
            from == start.total_nanos(),
            to == end.total_nanos(),
            pred == |m: Measurement| in_window(m, start, end),
            picked.len() <= data@.take(i as int).filter(pred).len() <= i,
            pointed(picked@) == limited(data@.take(i as int).filter(pred), limit),
        decreases data.len() - i,
    {
        let m = &data[i];
        let at = m.time.as_nanos();
        proof {
            let seen = data@.take(i as int);
            assert(data@.take(i + 1) =~= seen.push(*m));
            seen.lemma_filter_push(*m, pred);
        }
        let ghost before = pointed(picked@);
        let open = match limit {
            Some(n) => picked.len() < n,
            None => true,
        };
        if from <= at && at <= to {
            if open {
                picked.push(m);
                assert(pointed(picked@) =~= before.push(*m));
                assert(pointed(picked@) =~= limited(data@.take(i + 1).filter(pred), limit));
            } else {
                assert(before =~= limited(data@.take(i + 1).filter(pred), limit));
            }
        }
        i = i + 1;
    }
    proof {
        assert(data@.take(i as int) =~= data@);
    }
    picked
}

} // verus!
