//! Sizes of files as the scheduler's accounting prints them: a number of bytes, or a
//! number followed by one of the binary unit letters K, M, G, T and P.

use vstd::prelude::*;
use vstd::string::StrSliceExecFns;
use vstd::string::StringExecFns;

verus! {

/// Makes `core::num::ParseIntError` known as a type whose inside is not looked at.
#[verifier::external_type_specification]
#[verifier::external_body]
pub struct ExParseIntError(core::num::ParseIntError);

/// `ParseIntError::clone` gives an error equal to the one it was called on.
pub assume_specification[ <core::num::ParseIntError as Clone>::clone ](e: &core::num::ParseIntError) -> (r:
    core::num::ParseIntError)
    ensures
        r == *e,
;

/// A number of bytes.
#[derive(Debug, Clone, Copy, PartialEq, Eq, PartialOrd, Ord, Hash, Structural)]
pub struct FileSize(pub usize);

/// Why a text is not a file size. Empty means empty after trimming.
#[derive(Debug, Clone)]
pub enum FileSizeParseError {
    /// The text holds nothing but white space.
    Empty,
    /// The part before the unit letter is not a number that fits `usize`.
    InvalidInt(core::num::ParseIntError),
    /// The number of bytes does not fit `usize`.
    TooLarge,
}

/// Bytes in one kibibyte.
pub const KIB: u64 = 1024;

/// Bytes in one mebibyte.
pub const MIB: u64 = 1_048_576;

/// Bytes in one gibibyte.
pub const GIB: u64 = 1_073_741_824;

/// Bytes in one tebibyte.
pub const TIB: u64 = 1_099_511_627_776;

/// Bytes in one pebibyte.
pub const PIB: u64 = 1_125_899_906_842_624;

/// White space as the Unicode property `White_Space` defines it.
pub open spec fn is_white_space(c: char) -> bool {
    let u = c as u32;
    ||| 0x09 <= u <= 0x0d
    ||| u == 0x20
    ||| u == 0x85
    ||| u == 0xa0
    ||| u == 0x1680
    ||| 0x2000 <= u <= 0x200a
    ||| u == 0x2028
    ||| u == 0x2029
    ||| u == 0x202f
    ||| u == 0x205f
    ||| u == 0x3000
}

/// `s` without the white space at its start.
pub open spec fn trim_start_of(s: Seq<char>) -> Seq<char>
    decreases s.len(),
{
    if s.len() > 0 && is_white_space(s.first()) {
        trim_start_of(s.drop_first())
    } else {
        s
    }
}

/// `s` without the white space at its end.
pub open spec fn trim_end_of(s: Seq<char>) -> Seq<char>
    decreases s.len(),
{
    if s.len() > 0 && is_white_space(s.last()) {
        trim_end_of(s.drop_last())
    } else {
        s
    }
}

/// `s` without the white space at its start and at its end.
pub open spec fn trim_of(s: Seq<char>) -> Seq<char> {
    trim_end_of(trim_start_of(s))
}

/// One of the ten ASCII digits.
pub open spec fn is_digit(c: char) -> bool {
    0x30 <= c as u32 <= 0x39
}

/// The number that a run of ASCII digits writes in decimal.
pub open spec fn digits_value(s: Seq<char>) -> nat
    decreases s.len(),
{
    if s.len() == 0 {
        0
    } else {
        digits_value(s.drop_last()) * 10 + (s.last() as u32 - 0x30) as nat
    }
}

/// `s` without a plus sign at its start.
pub open spec fn unsigned_part(s: Seq<char>) -> Seq<char> {
    if s.len() > 0 && s.first() == '+' {
        s.drop_first()
    } else {
        s
    }
}

/// `s` is an unsigned decimal number: an optional plus sign, then one digit or more
/// and nothing else.
pub open spec fn is_unsigned_decimal(s: Seq<char>) -> bool {
    &&& unsigned_part(s).len() > 0
    &&& forall|i: int| 0 <= i < unsigned_part(s).len() ==> is_digit(#[trigger] unsigned_part(s)[i])
}

/// The `usize` that `s` writes, if it writes one.
pub open spec fn usize_of(s: Seq<char>) -> Option<usize> {
    if is_unsigned_decimal(s) && digits_value(unsigned_part(s)) <= usize::MAX {
        Some(digits_value(unsigned_part(s)) as usize)
    } else {
        None
    }
}

/// The number of bytes that a unit letter stands for.
pub open spec fn unit_of(c: char) -> Option<nat> {
    if c == 'K' {
        Some(1024nat)
    } else if c == 'M' {
        Some(1_048_576nat)
    } else if c == 'G' {
        Some(1_073_741_824nat)
    } else if c == 'T' {
        Some(1_099_511_627_776nat)
    } else if c == 'P' {
        Some(1_125_899_906_842_624nat)
    } else {
        None
    }
}

/// The number part and the unit of a size text, after trimming: the last character
/// is the unit where it is a unit letter, else the unit is one byte and the whole
/// text is the number. `None` where nothing is left after trimming.
pub open spec fn size_parts(input: Seq<char>) -> Option<(Seq<char>, nat)> {
    let text = trim_of(input);
    if text.len() == 0 {
        None
    } else {
        match unit_of(text.last()) {
            Some(unit) => Some((text.drop_last(), unit)),
            None => Some((text, 1nat)),
        }
    }
}

/// What a size text stands for, told apart by the kind of failure.
pub open spec fn size_verdict(input: Seq<char>) -> SizeVerdict {
    match size_parts(input) {
        None => SizeVerdict::Empty,
        Some((number, unit)) => match usize_of(number) {
            None => SizeVerdict::InvalidInt,
            Some(n) => if n as nat * unit <= usize::MAX {
                SizeVerdict::Bytes((n as nat * unit) as usize)
            } else {
                SizeVerdict::TooLarge
            },
        },
    }
}

/// The four things that a size text can be.
pub enum SizeVerdict {
    /// A size of this many bytes.
    Bytes(usize),
    /// Nothing but white space.
    Empty,
    /// A number part that is no number of `usize`.
    InvalidInt,
    /// A size of more bytes than `usize` holds.
    TooLarge,
}

/// The verdict that a result of `FileSize::parse` tells.
pub open spec fn verdict_of(r: Result<FileSize, FileSizeParseError>) -> SizeVerdict {
    match r {
        Ok(size) => SizeVerdict::Bytes(size.0),
        Err(FileSizeParseError::Empty) => SizeVerdict::Empty,
        Err(FileSizeParseError::InvalidInt(_)) => SizeVerdict::InvalidInt,
        Err(FileSizeParseError::TooLarge) => SizeVerdict::TooLarge,
    }
}

/// Calls `str::trim`: the text without leading and trailing white space.
#[verifier::external_body]
pub(crate) fn trimmed(s: &str) -> (t: &str)
    ensures
        t@ == trim_of(s@),
{
    s.trim()
}

/// Calls `str::parse::<usize>`: `Ok` with the number for an optional plus sign
/// followed by decimal digits whose value fits `usize`, an error for every other text.
#[verifier::external_body]
fn parse_usize(s: &str) -> (r: Result<usize, core::num::ParseIntError>)
    ensures
        match r {
            Ok(n) => usize_of(s@) == Some(n),
            Err(_) => usize_of(s@) is None,
        },
{
    s.parse::<usize>()
}

impl FileSize {
    /// The size in bytes.
    pub fn as_bytes(&self) -> (n: usize)
        ensures
            n == self.0,
    {
        self.0
    }

    /// The size of `val` bytes.
    pub fn from_bytes(val: usize) -> (s: FileSize)
        ensures
            s.0 == val,
    {
        FileSize(val)
    }

    /// The size of `val` units of `unit` bytes each.
    fn scaled(val: usize, unit: u64) -> (s: FileSize)
        requires
            val * unit <= usize::MAX,
        ensures
            s.0 == val * unit,
    {
        let wide: u128 = val as u128 * unit as u128;
        assert(wide == val * unit) by (nonlinear_arith)
            requires
                wide == (val as u128) * (unit as u128),
        ;
        FileSize(wide as usize)
    }

    /// The size of `val` kibibytes, where that many bytes fit `usize`.
    pub fn from_kib(val: usize) -> (s: FileSize)
        requires
            val * 1024 <= usize::MAX,
        ensures
            s.0 == val * 1024,
    {
        Self::scaled(val, KIB)
    }

    /// The size of `val` mebibytes, where that many bytes fit `usize`.
    pub fn from_mib(val: usize) -> (s: FileSize)
        requires
            val * 1_048_576 <= usize::MAX,
        ensures
            s.0 == val * 1_048_576,
    {
        Self::scaled(val, MIB)
    }

    /// The size of `val` gibibytes, where that many bytes fit `usize`.
    pub fn from_gib(val: usize) -> (s: FileSize)
        requires
            val * 1_073_741_824 <= usize::MAX,
        ensures
            s.0 == val * 1_073_741_824,
    {
        Self::scaled(val, GIB)
    }

    /// The size of `val` tebibytes, where that many bytes fit `usize`.
    pub fn from_tib(val: usize) -> (s: FileSize)
        requires
            val * 1_099_511_627_776 <= usize::MAX,
        ensures
            s.0 == val * 1_099_511_627_776,
    {
        Self::scaled(val, TIB)
    }

    /// The size of `val` pebibytes, where that many bytes fit `usize`.
    pub fn from_pib(val: usize) -> (s: FileSize)
        requires
            val * 1_125_899_906_842_624 <= usize::MAX,
        ensures
            s.0 == val * 1_125_899_906_842_624,
    {
        Self::scaled(val, PIB)
    }

    /// Reads a size: a decimal number of bytes, or a decimal number followed by one
    /// of the unit letters K, M, G, T and P; white space around it is ignored.
    pub fn parse(input: &str) -> (r: Result<FileSize, FileSizeParseError>)
        ensures
            verdict_of(r) == size_verdict(input@),
    {
        let text = trimmed(input);
        let len = text.unicode_len();
        if len == 0 {
            return Err(FileSizeParseError::Empty);
        }
        let last = text.get_char(len - 1);
        assert(text@.last() == last);
        let unit: u64 = if last == 'K' {
            KIB
        } else if last == 'M' {
            MIB
        } else if last == 'G' {
            GIB
        } else if last == 'T' {
            TIB
        } else if last == 'P' {
            PIB
        } else {
            assert(unit_of(last) is None);
            assert(size_parts(input@) == Some((text@, 1nat)));
            match parse_usize(text) {
                Ok(n) => {
                    assert(n as nat * 1nat == n);
                    return Ok(FileSize::from_bytes(n));
                },
                Err(e) => {
                    return Err(FileSizeParseError::InvalidInt(e));
                },
            }
        };
        let number = text.substring_char(0, len - 1);
        assert(number@ =~= text@.drop_last());
        assert(size_parts(input@) == Some((number@, unit as nat)));
        match parse_usize(number) {
            Ok(n) => {
                assert(unit <= PIB);
                assert((n as u128) * (unit as u128) <= 0xffff_ffff_ffff_ffff * 0x4_0000_0000_0000) by (nonlinear_arith)
                    requires
                        n <= 0xffff_ffff_ffff_ffff,
                        unit <= 0x4_0000_0000_0000,
                ;
                let wide: u128 = n as u128 * unit as u128;
                assert(wide == n as nat * unit as nat) by (nonlinear_arith)
                    requires
                        wide == (n as u128) * (unit as u128),
                ;
                if wide <= usize::MAX as u128 {
                    Ok(FileSize(wide as usize))
                } else {
                    Err(FileSizeParseError::TooLarge)
                }
            },
            Err(e) => Err(FileSizeParseError::InvalidInt(e)),
        }
    }
}

impl FileSizeParseError {
    /// The error in words.
    pub fn message(&self) -> (text: String)
        ensures
            text@ == match self {
                FileSizeParseError::Empty => "trying to parse an empty string"@,
                FileSizeParseError::InvalidInt(_) => "scalar part is not an usize"@,
                FileSizeParseError::TooLarge => "size does not fit an usize"@,
            },
    {
        match self {
            FileSizeParseError::Empty => String::from_str("trying to parse an empty string"),
            FileSizeParseError::InvalidInt(_) => String::from_str("scalar part is not an usize"),
            FileSizeParseError::TooLarge => String::from_str("size does not fit an usize"),
        }
    }
}

} // verus!
