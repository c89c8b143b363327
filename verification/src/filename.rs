//! The names of the save files, as the ingestion side writes them and the reporting
//! side reads them: the UTC date, a dot and the extension.

use vstd::prelude::*;
use vstd::string::StringExecFns;
use crate::store::{file_name, file_name_of, Candidate, SAVE_FILE_EXT};
use crate::time::{date_stem_of, utc_date_stem, Timestamp, DATE_FMT, SECS_PER_DAY};

verus! {

/// The format of the date in a file name.
pub const FILENAME_DATE_FMT: &'static str = DATE_FMT;

/// What follows the date and a dot in a file name.
pub const FILENAME_SUFFIX: &'static str = SAVE_FILE_EXT;

/// Why a file name is not that of a save file.
#[derive(Debug, Clone, Copy, PartialEq, Eq, Structural)]
pub enum FilenameError {
    /// The name does not begin with a date.
    NotADate,
    /// What follows the date is not a dot and the extension.
    WrongSuffix,
}

/// What the start of `name` gives when it is read as a date of the form `fmt`: the
/// first second of that date in UTC, in seconds since the epoch, and the rest of the
/// name; `None` where the name does not begin with such a date.
pub uninterp spec fn date_prefix(name: Seq<char>, fmt: Seq<char>) -> Option<(int, Seq<char>)>;

/// The day of a save file's name, or why the name is not one.
pub open spec fn day_of_filename(name: Seq<char>) -> Result<i64, FilenameError> {
    match date_prefix(name, FILENAME_DATE_FMT@) {
        None => Err(FilenameError::NotADate),
        Some((secs, rest)) => if rest == seq!['.'] + FILENAME_SUFFIX@ {
            Ok((secs / 86_400) as i64)
        } else {
            Err(FilenameError::WrongSuffix)
        },
    }
}

/// Calls `chrono::NaiveDate::parse_and_remainder` and hands on the date as the
/// `timestamp()` of its midnight in UTC, together with the remainder. The contract
/// gives the outcome the name `date_prefix(name, fmt)`.
#[verifier::external_body]
fn parse_date_prefix(name: &str, fmt: &str) -> (r: Option<(i64, String)>)
    ensures
        match r {
            Some((secs, rest)) => date_prefix(name@, fmt@) == Some((secs as int, rest@)),
            None => date_prefix(name@, fmt@) is None,
        },
{
    match chrono::NaiveDate::parse_and_remainder(name, fmt) {
        Ok((date, rest)) => Some((date.and_time(chrono::NaiveTime::MIN).and_utc().timestamp(), rest.to_string())),
        Err(_) => None,
    }
}

/// Judges what reading the start of a file name gave: the date's day number where
/// the rest is a dot and the extension.
pub fn check_suffix(parsed: Option<(i64, String)>) -> (r: Result<i64, FilenameError>)
    ensures
        r == match parsed {
            None => Err(FilenameError::NotADate),
            Some((secs, rest)) => if rest@ == seq!['.'] + FILENAME_SUFFIX@ {
                Ok((secs as int / 86_400) as i64)
            } else {
                Err(FilenameError::WrongSuffix)
            },
        },
{
    match parsed {
        None => Err(FilenameError::NotADate),
        Some((secs, rest)) => {
            proof {
                reveal_strlit(".");
            }
            let mut suffix = String::from_str(".");
            suffix.append(FILENAME_SUFFIX);
            assert(suffix@ =~= seq!['.'] + FILENAME_SUFFIX@);
            if rest == suffix {
                Ok(Timestamp::new(secs, 0).day_number())
            } else {
                Err(FilenameError::WrongSuffix)
            }
        },
    }
}

/// Reads the day of a save file from its name.
pub fn parse_filename(name: &str) -> (r: Result<i64, FilenameError>)
    ensures
        r == day_of_filename(name@),
{
    check_suffix(parse_date_prefix(name, FILENAME_DATE_FMT))
}

/// The name of the save file of a day; `None` for a day that the calendar cannot
/// express.
pub fn generate_filename(day: i64) -> (name: Option<String>)
    ensures
        match name {
            Some(n) => date_stem_of(day as int) matches Some(stem) && n@ == file_name_of(
                stem,
                FILENAME_SUFFIX@,
                Candidate::Canonical,
            ),
            None => date_stem_of(day as int) is None,
        },
{
    if day < i64::MIN / SECS_PER_DAY || day > i64::MAX / SECS_PER_DAY {
        return None;
    }
    match utc_date_stem(day * SECS_PER_DAY, DATE_FMT) {
        Some(stem) => Some(file_name(stem.as_str(), FILENAME_SUFFIX, Candidate::Canonical)),
        None => None,
    }
}

} // verus!
