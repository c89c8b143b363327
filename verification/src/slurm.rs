//! What the cluster scheduler reports about its users.

use vstd::prelude::*;
use crate::duration::{i64_of, parse_i64, span_of_seconds, try_seconds};
use crate::parse::{trim_of, trimmed};
use crate::sacct::{char_rows, chars_of, lines_of, split, split_fields, split_lines, texts};
use crate::time::{Span, Timestamp};

verus! {

/// The login name of a user of the scheduler.
#[derive(Debug, Clone, PartialEq, Eq, Hash)]
pub struct SlurmUser(pub String);

/// Whole hours of reserved graphics processors.
#[derive(Debug, Clone, Copy, PartialEq, Eq, Hash, Structural)]
pub struct GpuHours(pub usize);

/// The hours of reserved graphics processors of one user.
#[derive(Debug, Clone)]
pub struct GpuHoursPerUser {
    pub user: SlurmUser,
    pub hours: GpuHours,
}

/// A span of time for which a number of graphics processors are reserved.
#[derive(Debug, Clone, Copy, PartialEq, Eq, Structural)]
pub struct GpuReservedTimeframe {
    pub num_cores: usize,
    pub start: Timestamp,
    pub end: Timestamp,
}

/// The time for which the scheduler has reserved graphics processors for one user.
#[derive(Debug, Clone, Copy, PartialEq, Eq, Structural)]
pub struct GpuTimeReportedBySlurm(pub Span);

/// Why a usage report cannot be read. Lines are counted from zero.
#[derive(Debug, Clone, Copy, PartialEq, Eq, Structural)]
pub enum SreportError {
    /// The line is not a login name and a number of seconds with one `|` between them.
    BadLine { line: usize },
    /// The seconds of the line are not a whole number of 64 bits.
    BadSeconds { line: usize },
    /// The seconds of the line are more than a span can hold.
    OutOfRange { line: usize },
}

/// The reserved time of each user that a usage report names.
#[derive(Debug)]
pub struct AllGpuTimesReportedBySlurm {
    entries: Vec<(String, GpuTimeReportedBySlurm)>,
}

/// What one line of a usage report says: a login name and the reserved time.
pub open spec fn entry_of(line: Seq<char>, at: nat) -> Result<(Seq<char>, Span), SreportError> {
    let fields = split(line, '|');
    if fields.len() != 2 {
        Err(SreportError::BadLine { line: at as usize })
    } else {
        match i64_of(fields[1]) {
            None => Err(SreportError::BadSeconds { line: at as usize }),
            Some(secs) => match span_of_seconds(secs as int) {
                None => Err(SreportError::OutOfRange { line: at as usize }),
                Some(span) => Ok((fields[0], span)),
            },
        }
    }
}

/// What the first `n` lines of a usage report say: the reserved time of each user,
/// where a later line of a user replaces an earlier one; or the error of the first
/// line that cannot be read.
pub open spec fn times_upto(lines: Seq<Seq<char>>, n: nat) -> Result<Map<Seq<char>, Span>, SreportError>
    decreases n,
{
    if n == 0 {
        Ok(Map::empty())
    } else {
        match times_upto(lines, (n - 1) as nat) {
            Err(e) => Err(e),
            Ok(times) => match entry_of(lines[n - 1], (n - 1) as nat) {
                Err(e) => Err(e),
                Ok((user, span)) => Ok(times.insert(user, span)),
            },
        }
    }
}

/// What a usage report says, white space around it aside.
pub open spec fn report_of(text: Seq<char>) -> Result<Map<Seq<char>, Span>, SreportError> {
    let lines = lines_of(trim_of(text));
    times_upto(lines, lines.len())
}

impl View for AllGpuTimesReportedBySlurm {
    type V = Map<Seq<char>, Span>;

    closed spec fn view(&self) -> Map<Seq<char>, Span> {
        Map::new(
            |user: Seq<char>| exists|i: int| 0 <= i < self.entries@.len() && (#[trigger] self.entries@[i]).0@ == user,
            |user: Seq<char>|
                {
                    let i = choose|i: int| 0 <= i < self.entries@.len() && (#[trigger] self.entries@[i]).0@ == user;
                    self.entries@[i].1.0
                },
        )
    }
}

impl AllGpuTimesReportedBySlurm {
    /// No user has two entries.
    #[verifier::type_invariant]
    spec fn distinct_users(&self) -> bool {
        forall|i: int, j: int|
            0 <= i < j < self.entries@.len() ==> (#[trigger] self.entries@[i]).0@ != (#[trigger] self.entries@[j]).0@
    }

    /// A report without users.
    pub fn new() -> (r: AllGpuTimesReportedBySlurm)
        ensures
            r@ == Map::<Seq<char>, Span>::empty(),
    {
        let r = AllGpuTimesReportedBySlurm { entries: Vec::new() };
        assert(r@ =~= Map::<Seq<char>, Span>::empty());
        r
    }

    fn position(&self, user: &String) -> (at: Option<usize>)
        ensures
            match at {
                Some(i) => i < self.entries@.len() && self.entries@[i as int].0@ == user@,
                None => forall|i: int| 0 <= i < self.entries@.len() ==> (#[trigger] self.entries@[i]).0@ != user@,
            },
    {
        let mut i: usize = 0;
        while i < self.entries.len()
            invariant
                i <= self.entries@.len(),
                forall|k: int| 0 <= k < i ==> (#[trigger] self.entries@[k]).0@ != user@,
            decreases self.entries.len() - i,
        {
            if self.entries[i].0 == *user {
                return Some(i);
            }
            i = i + 1;
        }
        None
    }

    /// The reserved time of a user, if the report names the user.
    pub fn get(&self, user: &String) -> (t: Option<GpuTimeReportedBySlurm>)
        ensures
            t == if self@.contains_key(user@) {
                Some(GpuTimeReportedBySlurm(self@[user@]))
            } else {
                None
            },
    {
        proof {
            use_type_invariant(self);
        }
        match self.position(user) {
            Some(i) => {
                assert(self@.contains_key(user@));
                Some(self.entries[i].1)
            },
            None => None,
        }
    }

    /// The number of users that the report names.
    pub fn len(&self) -> (n: usize)
        ensures
            n == self.users().len(),
    {
        self.entries.len()
    }

    /// The users in the order in which the report first names them.
    pub closed spec fn users(&self) -> Seq<Seq<char>> {
        Seq::new(self.entries@.len(), |i: int| self.entries@[i].0@)
    }

    /// The user at a place of that order, with the reserved time.
    pub fn entry(&self, i: usize) -> (e: (&String, GpuTimeReportedBySlurm))
        requires
            i < self.users().len(),
        ensures
            e.0@ == self.users()[i as int],
            self@.contains_key(e.0@),
            e.1 == GpuTimeReportedBySlurm(self@[e.0@]),
    {
        proof {
            use_type_invariant(self);
        }
        assert(self@.contains_key(self.entries@[i as int].0@));
        (&self.entries[i].0, self.entries[i].1)
    }

    /// Sets the reserved time of a user, in place of an earlier one if there is one.
    pub fn insert(&mut self, user: String, time: GpuTimeReportedBySlurm)
        ensures
            final(self)@ == old(self)@.insert(user@, time.0),
    {
        proof {
            use_type_invariant(&*self);
        }
        let ghost before = self.entries@;
        let ghost old_view = self@;
        let mut entries: Vec<(String, GpuTimeReportedBySlurm)> = Vec::new();
        core::mem::swap(&mut entries, &mut self.entries);
        let probe = AllGpuTimesReportedBySlurm { entries };
        let at = probe.position(&user);
        let mut entries = probe.entries;
        assert(entries@ == before);
        match at {
            Some(i) => {
                entries.remove(i);
                let ghost removed = entries@;
                entries.insert(i, (user, time));
                assert(entries@ =~= before.update(i as int, (user, time)));
            },
            None => {
                entries.push((user, time));
            },
        }
        let ghost after = entries@;
        assert forall|i: int, j: int| 0 <= i < j < after.len() implies (#[trigger] after[i]).0@ != (
        #[trigger] after[j]).0@ by {
            if i < before.len() {
                assert(after[i].0@ == before[i].0@);
            }
            if j < before.len() {
                assert(after[j].0@ == before[j].0@);
            }
        }
        self.entries = entries;
        proof {
            let wanted = old_view.insert(user@, time.0);
            assert forall|k: Seq<char>| self@.contains_key(k) <==> wanted.contains_key(k) by {
                if self@.contains_key(k) {
                    let i = choose|i: int| 0 <= i < after.len() && (#[trigger] after[i]).0@ == k;
                    if k != user@ {
                        assert(i < before.len() && before[i].0@ == k);
                    }
                }
                if wanted.contains_key(k) {
                    if k == user@ {
                        match at {
                            Some(i) => {
                                assert(after[i as int].0@ == k);
                            },
                            None => {
                                assert(after[before.len() as int].0@ == k);
                            },
                        }
                    } else {
                        let i = choose|i: int| 0 <= i < before.len() && (#[trigger] before[i]).0@ == k;
                        assert(after[i].0@ == k);
                    }
                }
            }
            assert forall|k: Seq<char>| self@.contains_key(k) implies self@[k] == wanted[k] by {
                let i = choose|i: int| 0 <= i < after.len() && (#[trigger] after[i]).0@ == k;
                if k != user@ {
                    assert(i < before.len() && before[i] == after[i]);
                    let j = choose|j: int| 0 <= j < before.len() && (#[trigger] before[j]).0@ == k;
                    assert(i == j);
                } else {
                    match at {
                        Some(p) => {
                            assert(after[p as int].0@ == k);
                            assert(i == p);
                        },
                        None => {
                            assert(after[before.len() as int].0@ == k);
                            assert(i == before.len());
                        },
                    }
                }
            }
            assert(self@ =~= wanted);
        }
    }

    /// Reads a usage report: one line for each user, the login name and the reserved
    /// seconds with a `|` between them.
    pub fn query(text: &str) -> (r: Result<AllGpuTimesReportedBySlurm, SreportError>)
        ensures
            match r {
                Ok(times) => report_of(text@) == Ok::<Map<Seq<char>, Span>, SreportError>(times@),
                Err(e) => report_of(text@) == Err::<Map<Seq<char>, Span>, SreportError>(e),
            },
    {
        let chars = chars_of(trimmed(text));
        let lines = split_lines(&chars);
        let ghost wanted = lines_of(trim_of(text@));
        let mut times = AllGpuTimesReportedBySlurm::new();
        let mut n: usize = 0;
        while n < lines.len()
            invariant
                n <= lines.len(),
                wanted == lines_of(trim_of(text@)),
                char_rows(lines@) == wanted,
                times_upto(wanted, n as nat) == Ok::<Map<Seq<char>, Span>, SreportError>(times@),
            decreases lines.len() - n,
        {
            assert(lines[n as int]@ == wanted[n as int]);
            let mut fields = split_fields(&lines[n]);
            assert(texts(fields@) == split(wanted[n as int], '|'));
            proof {
                assert(wanted.len() == lines.len());
                assert(texts(fields@).len() == fields.len());
                lemma_error_sticks(wanted, (n + 1) as nat, wanted.len());
                assert(times_upto(wanted, (n + 1) as nat) == match entry_of(wanted[n as int], n as nat) {
                    Err(e) => Err::<Map<Seq<char>, Span>, SreportError>(e),
                    Ok((user, span)) => Ok(times@.insert(user, span)),
                });
            }
            if fields.len() != 2 {
                return Err(SreportError::BadLine { line: n });
            }
            assert(fields[1]@ == texts(fields@)[1]);
            assert(fields[0]@ == texts(fields@)[0]);
            let secs = match parse_i64(fields[1].as_str()) {
                Ok(secs) => secs,
                Err(_) => {
                    return Err(SreportError::BadSeconds { line: n });
                },
            };
            let span = match try_seconds(secs) {
                Some(span) => span,
                None => {
                    return Err(SreportError::OutOfRange { line: n });
                },
            };
            fields.pop();
            let user = fields.pop().unwrap();
            times.insert(user, GpuTimeReportedBySlurm(span));
            n = n + 1;
        }
        Ok(times)
    }
}

/// Once a prefix of the lines cannot be read, no longer prefix can, and the error
/// stays that of the first line that cannot be read.
proof fn lemma_error_sticks(lines: Seq<Seq<char>>, n: nat, m: nat)
    requires
        n <= m,
    ensures
        times_upto(lines, n) is Err ==> times_upto(lines, m) == times_upto(lines, n),
    decreases m - n,
{
    if n < m {
        lemma_error_sticks(lines, n, (m - 1) as nat);
    }
}

} // verus!
