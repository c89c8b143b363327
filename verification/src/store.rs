//! The date-partitioned save files: how they are named, and which file of a date is
//! read back when some of them cannot be decoded.

use vstd::prelude::*;
use vstd::string::StringExecFns;

verus! {

/// The extension of a save file.
pub const SAVE_FILE_EXT: &'static str = "json.br";

/// How many numbered siblings of one canonical file may be tried: the numbers
/// below this bound.
pub const DEFAULT_SIBLING_LIMIT: u16 = 65_535;

/// One of the files that can hold the measurements of a date.
#[derive(Debug, Clone, Copy, PartialEq, Eq, Structural)]
pub enum Candidate {
    /// The file named by date and extension alone.
    Canonical,
    /// The sibling with this number between date and extension.
    Sibling(u16),
}

/// What was found at a candidate's path.
#[derive(Debug, Clone, Copy, PartialEq, Eq, Structural)]
pub enum ProbeOutcome {
    /// No file is there.
    Missing,
    /// The file is there and its content was decompressed and parsed.
    Decoded,
    /// The file is there, and decompressing or parsing it failed.
    Corrupt,
}

/// What the recovery procedure asks for, or has found.
#[derive(Debug, Clone, Copy, PartialEq, Eq, Structural)]
pub enum RecoveryAction {
    /// Look at this candidate and report what is there.
    Probe(Candidate),
    /// This candidate is the one to read and to write; `fresh` where nothing is there,
    /// so that the value is the empty default, and not `fresh` where what was decoded
    /// is the value.
    Resolved { candidate: Candidate, fresh: bool },
    /// Every candidate within the bound was corrupt.
    Exhausted,
}

/// The place of a candidate in the order of probing: the canonical file first, then
/// the siblings by number.
pub open spec fn position(c: Candidate) -> nat {
    match c {
        Candidate::Canonical => 0,
        Candidate::Sibling(n) => (n + 1) as nat,
    }
}

/// The candidate at a place of the order of probing.
pub open spec fn candidate_at(i: nat) -> Candidate {
    if i == 0 {
        Candidate::Canonical
    } else {
        Candidate::Sibling((i - 1) as u16)
    }
}

/// The candidate after `c`, if the bound admits one.
pub open spec fn successor(c: Candidate, limit: u16) -> Option<Candidate> {
    if position(c) < limit {
        Some(candidate_at(position(c) + 1))
    } else {
        None
    }
}

/// What follows when `found` is reported while `at` is the standing request.
/// A report that was not asked for changes nothing.
pub open spec fn after_probe(at: RecoveryAction, found: ProbeOutcome, limit: u16) -> RecoveryAction {
    match at {
        RecoveryAction::Probe(c) => match found {
            ProbeOutcome::Missing => RecoveryAction::Resolved { candidate: c, fresh: true },
            ProbeOutcome::Decoded => RecoveryAction::Resolved { candidate: c, fresh: false },
            ProbeOutcome::Corrupt => match successor(c, limit) {
                Some(next) => RecoveryAction::Probe(next),
                None => RecoveryAction::Exhausted,
            },
        },
        _ => at,
    }
}

/// What a directory holds at place `i` of the order of probing, where `found` lists
/// the first places and nothing exists beyond them.
pub open spec fn outcome_at(found: Seq<ProbeOutcome>, i: int) -> ProbeOutcome {
    if 0 <= i < found.len() {
        found[i]
    } else {
        ProbeOutcome::Missing
    }
}

/// The result of the recovery procedure on a directory, probing from place `i` on.
pub open spec fn resolution_from(found: Seq<ProbeOutcome>, i: nat, limit: u16) -> RecoveryAction
    decreases limit + 1 - i,
{
    if i > limit {
        RecoveryAction::Exhausted
    } else {
        match outcome_at(found, i as int) {
            ProbeOutcome::Missing => RecoveryAction::Resolved { candidate: candidate_at(i), fresh: true },
            ProbeOutcome::Decoded => RecoveryAction::Resolved { candidate: candidate_at(i), fresh: false },
            ProbeOutcome::Corrupt => resolution_from(found, i + 1, limit),
        }
    }
}

/// The result of the recovery procedure on a directory.
pub open spec fn resolution(found: Seq<ProbeOutcome>, limit: u16) -> RecoveryAction {
    resolution_from(found, 0, limit)
}

/// The recovery procedure for the save file of one date: a bounded walk over the
/// canonical file and its numbered siblings.
#[derive(Debug, Clone, Copy, PartialEq, Eq, Structural)]
pub struct Recovery {
    pub limit: u16,
    pub at: RecoveryAction,
}

impl Recovery {
    /// Starts at the canonical file, with `limit` siblings in reserve.
    pub fn new(limit: u16) -> (r: Recovery)
        ensures
            r.limit == limit,
            r.at == RecoveryAction::Probe(Candidate::Canonical),
    {
        Recovery { limit, at: RecoveryAction::Probe(Candidate::Canonical) }
    }

    /// The standing request.
    pub fn action(&self) -> (a: RecoveryAction)
        ensures
            a == self.at,
    {
        self.at
    }

    /// Takes the report on the candidate that was asked for, and says what follows.
    pub fn on_probe(&mut self, found: ProbeOutcome) -> (a: RecoveryAction)
        ensures
            final(self).limit == old(self).limit,
            final(self).at == after_probe(old(self).at, found, old(self).limit),
            a == final(self).at,
    {
        let next = match self.at {
            RecoveryAction::Probe(c) => match found {
                ProbeOutcome::Missing => RecoveryAction::Resolved { candidate: c, fresh: true },
                ProbeOutcome::Decoded => RecoveryAction::Resolved { candidate: c, fresh: false },
                ProbeOutcome::Corrupt => match c {
                    Candidate::Canonical => if self.limit > 0 {
                        RecoveryAction::Probe(Candidate::Sibling(0))
                    } else {
                        RecoveryAction::Exhausted
                    },
                    Candidate::Sibling(n) => if self.limit > 0 && n < self.limit - 1 {
                        RecoveryAction::Probe(Candidate::Sibling(n + 1))
                    } else {
                        RecoveryAction::Exhausted
                    },
                },
            },
            at => at,
        };
        self.at = next;
        next
    }
}

/// Runs the recovery procedure on a directory whose first candidates are in the
/// states that `found` lists, in the order of probing, and which holds no others.
pub fn resolve(found: &Vec<ProbeOutcome>, limit: u16) -> (r: RecoveryAction)
    ensures
        r == resolution(found@, limit),
        !(r is Probe),
{
    let mut walk = Recovery::new(limit);
    let mut i: usize = 0;
    loop
        invariant
            walk.limit == limit,
            i <= limit + 1,
            walk.at is Probe ==> i <= limit && walk.at == RecoveryAction::Probe(candidate_at(i as nat)),
            resolution(found@, limit) == if walk.at is Probe {
                resolution_from(found@, i as nat, limit)
            } else {
                walk.at
            },
        ensures
            !(walk.at is Probe),
            walk.at == resolution(found@, limit),
        decreases limit + 1 - i, if walk.at is Probe { 1nat } else { 0nat },
    {
        match walk.action() {
            RecoveryAction::Probe(_) => {
                let outcome = if i < found.len() {
                    found[i]
                } else {
                    ProbeOutcome::Missing
                };
                walk.on_probe(outcome);
                i = i + 1;
            },
            _ => {
                break ;
            },
        }
    }
    walk.at
}

/// The decimal digit of a number below ten.
pub open spec fn digit(d: nat) -> char {
    if d == 0 {
        '0'
    } else if d == 1 {
        '1'
    } else if d == 2 {
        '2'
    } else if d == 3 {
        '3'
    } else if d == 4 {
        '4'
    } else if d == 5 {
        '5'
    } else if d == 6 {
        '6'
    } else if d == 7 {
        '7'
    } else if d == 8 {
        '8'
    } else {
        '9'
    }
}

/// A number in decimal, without leading zeros.
pub open spec fn decimal(n: nat) -> Seq<char>
    decreases n,
{
    if n < 10 {
        seq![digit(n)]
    } else {
        decimal(n / 10).push(digit(n % 10))
    }
}

/// The name of a candidate's file: stem, a dot and the extension for the canonical
/// file; stem, a dot, the sibling's number, a dot and the extension for a sibling.
pub open spec fn file_name_of(stem: Seq<char>, ext: Seq<char>, c: Candidate) -> Seq<char> {
    match c {
        Candidate::Canonical => stem + seq!['.'] + ext,
        Candidate::Sibling(n) => stem + seq!['.'] + decimal(n as nat) + seq!['.'] + ext,
    }
}

fn digit_str(d: u16) -> (s: &'static str)
    requires
        d < 10,
    ensures
        s@ == seq![digit(d as nat)],
{
    proof {
        reveal_strlit("0");
        reveal_strlit("1");
        reveal_strlit("2");
        reveal_strlit("3");
        reveal_strlit("4");
        reveal_strlit("5");
        reveal_strlit("6");
        reveal_strlit("7");
        reveal_strlit("8");
        reveal_strlit("9");
    }
    let s = if d == 0 {
        "0"
    } else if d == 1 {
        "1"
    } else if d == 2 {
        "2"
    } else if d == 3 {
        "3"
    } else if d == 4 {
        "4"
    } else if d == 5 {
        "5"
    } else if d == 6 {
        "6"
    } else if d == 7 {
        "7"
    } else if d == 8 {
        "8"
    } else {
        "9"
    };
    assert(s@ =~= seq![digit(d as nat)]);
    s
}

/// Writes a number in decimal.
pub fn decimal_string(n: u16) -> (s: String)
    ensures
        s@ == decimal(n as nat),
    decreases n,
{
    if n < 10 {
        String::from_str(digit_str(n))
    } else {
        let mut s = decimal_string(n / 10);
        s.append(digit_str(n % 10));
        assert(s@ =~= decimal(n as nat));
        s
    }
}

/// Builds the name of a candidate's file.
pub fn file_name(stem: &str, ext: &str, c: Candidate) -> (name: String)
    ensures
        name@ == file_name_of(stem@, ext@, c),
{
    proof {
        reveal_strlit(".");
    }
    let mut name = String::from_str(stem);
    name.append(".");
    match c {
        Candidate::Canonical => {},
        Candidate::Sibling(n) => {
            let number = decimal_string(n);
            name.append(number.as_str());
            name.append(".");
        },
    }
    name.append(ext);
    assert(name@ =~= file_name_of(stem@, ext@, c));
    name
}

/// Where no canonical file exists, the canonical file is the one to use, with the
/// empty default as its value.
pub proof fn law_no_file(found: Seq<ProbeOutcome>, limit: u16)
    requires
        outcome_at(found, 0) is Missing,
    ensures
        resolution(found, limit) == (RecoveryAction::Resolved { candidate: Candidate::Canonical, fresh: true }),
{
}

/// Where every candidate before place `i` is corrupt and the one at place `i` is
/// not, that one is the one to use: with the empty default where it is missing, with
/// its decoded content where it was decoded.
pub proof fn law_first_readable(found: Seq<ProbeOutcome>, limit: u16, i: nat)
    requires
        i <= limit,
        forall|j: int| 0 <= j < i ==> outcome_at(found, j) is Corrupt,
        !(outcome_at(found, i as int) is Corrupt),
    ensures
        resolution(found, limit) == (RecoveryAction::Resolved {
            candidate: candidate_at(i),
            fresh: outcome_at(found, i as int) is Missing,
        }),
{
    lemma_skip_corrupt(found, limit, 0, i);
}

/// Where the canonical file and every sibling within the bound are corrupt, the
/// procedure gives up.
pub proof fn law_exhausted(found: Seq<ProbeOutcome>, limit: u16)
    requires
        forall|j: int| 0 <= j <= limit ==> outcome_at(found, j) is Corrupt,
    ensures
        resolution(found, limit) == RecoveryAction::Exhausted,
{
    lemma_skip_corrupt(found, limit, 0, (limit + 1) as nat);
}

/// The file that the procedure settles on is never one that failed to decode: no
/// corrupt file is handed out to be written over.
pub proof fn law_corrupt_files_untouched(found: Seq<ProbeOutcome>, limit: u16)
    ensures
        match resolution(found, limit) {
            RecoveryAction::Resolved { candidate, fresh } => {
                &&& position(candidate) <= limit
                &&& !(outcome_at(found, position(candidate) as int) is Corrupt)
                &&& fresh == (outcome_at(found, position(candidate) as int) is Missing)
                &&& forall|j: int| 0 <= j < position(candidate) ==> outcome_at(found, j) is Corrupt
            },
            RecoveryAction::Exhausted => forall|j: int| 0 <= j <= limit ==> outcome_at(found, j) is Corrupt,
            RecoveryAction::Probe(_) => false,
        },
{
    lemma_resolution_from(found, limit, 0);
}

proof fn lemma_skip_corrupt(found: Seq<ProbeOutcome>, limit: u16, from: nat, to: nat)
    requires
        from <= to <= limit + 1,
        forall|j: int| from <= j < to ==> outcome_at(found, j) is Corrupt,
    ensures
        resolution_from(found, from, limit) == resolution_from(found, to, limit),
    decreases to - from,
{
    if from < to {
        assert(outcome_at(found, from as int) is Corrupt);
        lemma_skip_corrupt(found, limit, from + 1, to);
    }
}

proof fn lemma_resolution_from(found: Seq<ProbeOutcome>, limit: u16, from: nat)
    requires
        from <= limit + 1,
    ensures
        match resolution_from(found, from, limit) {
            RecoveryAction::Resolved { candidate, fresh } => {
                &&& from <= position(candidate) <= limit
                &&& !(outcome_at(found, position(candidate) as int) is Corrupt)
                &&& fresh == (outcome_at(found, position(candidate) as int) is Missing)
                &&& forall|j: int| from <= j < position(candidate) ==> outcome_at(found, j) is Corrupt
            },
            RecoveryAction::Exhausted => forall|j: int| from <= j <= limit ==> outcome_at(found, j) is Corrupt,
            RecoveryAction::Probe(_) => false,
        },
    decreases limit + 1 - from,
{
    if from <= limit {
        if outcome_at(found, from as int) is Corrupt {
            lemma_resolution_from(found, limit, from + 1);
        }
    }
}

} // verus!
