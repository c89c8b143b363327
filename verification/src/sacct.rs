//! Tables as the scheduler's accounting tool prints them in its parsable form: one
//! line of column names, then one line for each record, the fields of a line
//! separated by `|`.

use vstd::prelude::*;
use vstd::string::StringExecFns;

verus! {

/// Why an accounting table, or one of its lines, cannot be read.
#[derive(Debug, Clone, Copy, PartialEq, Eq, Structural)]
pub enum SacctError {
    /// The text holds no line at all, so that the column names are missing.
    Empty,
    /// The record on this line, counted from zero after the line of column names,
    /// has more fields than there are column names.
    TooManyFields { line: usize },
}

/// The pieces of `s` between the occurrences of `sep`; a text without `sep` is one
/// piece, and `k` occurrences give `k + 1` pieces, some of which may be empty.
pub open spec fn split(s: Seq<char>, sep: char) -> Seq<Seq<char>>
    decreases s.len(),
{
    if s.len() == 0 {
        seq![Seq::empty()]
    } else {
        let head = split(s.drop_last(), sep);
        if s.last() == sep {
            head.push(Seq::empty())
        } else {
            head.drop_last().push(head.last().push(s.last()))
        }
    }
}

/// `p` without a carriage return at its end.
pub open spec fn strip_cr(p: Seq<char>) -> Seq<char> {
    if p.len() > 0 && p.last() == '\r' {
        p.drop_last()
    } else {
        p
    }
}

/// The lines of a text. A line ends with a line feed, or with a carriage return and a
/// line feed, neither of which belongs to the line; what follows the last line feed
/// is a line of its own unless it is empty.
pub open spec fn lines_of(s: Seq<char>) -> Seq<Seq<char>> {
    let pieces = split(s, '\n');
    let ended = Seq::new((pieces.len() - 1) as nat, |i: int| strip_cr(pieces[i]));
    if pieces.last().len() > 0 {
        ended.push(pieces.last())
    } else {
        ended
    }
}

/// The record that the fields of one line make under the column names: each field
/// with the name of its column, in the order of the line.
pub open spec fn row_of(header: Seq<Seq<char>>, fields: Seq<Seq<char>>, line: nat) -> Result<
    Seq<(Seq<char>, Seq<char>)>,
    SacctError,
> {
    if fields.len() > header.len() {
        Err(SacctError::TooManyFields { line: line as usize })
    } else {
        Ok(Seq::new(fields.len(), |i: int| (header[i], fields[i])))
    }
}

/// The texts of a sequence of strings.
pub open spec fn texts(v: Seq<String>) -> Seq<Seq<char>> {
    Seq::new(v.len(), |i: int| v[i]@)
}

/// The texts of a sequence of pairs of strings.
pub open spec fn pair_texts(v: Seq<(String, String)>) -> Seq<(Seq<char>, Seq<char>)> {
    Seq::new(v.len(), |i: int| (v[i].0@, v[i].1@))
}

/// What reading one line gave, as texts.
pub open spec fn row_texts(r: Result<Vec<(String, String)>, SacctError>) -> Result<
    Seq<(Seq<char>, Seq<char>)>,
    SacctError,
> {
    match r {
        Ok(pairs) => Ok(pair_texts(pairs@)),
        Err(e) => Err(e),
    }
}

/// The texts of a sequence of character vectors.
pub open spec fn char_rows(v: Seq<Vec<char>>) -> Seq<Seq<char>> {
    Seq::new(v.len(), |i: int| v[i]@)
}

/// Calls `String::push`, which appends one character to the string.
#[verifier::external_body]
fn push_char(s: &mut String, c: char)
    ensures
        final(s)@ == old(s)@.push(c),
{
    s.push(c)
}

pub(crate) fn text_of(chars: &Vec<char>) -> (s: String)
    ensures
        s@ == chars@,
{
    let mut s = String::new();
    let mut i: usize = 0;
    while i < chars.len()
        invariant
            i <= chars.len(),
            s@ == chars@.take(i as int),
        decreases chars.len() - i,
    {
        push_char(&mut s, chars[i]);
        assert(chars@.take(i + 1) =~= chars@.take(i as int).push(chars@[i as int]));
        i = i + 1;
    }
    assert(chars@.take(i as int) =~= chars@);
    s
}

pub(crate) fn chars_of(input: &str) -> (chars: Vec<char>)
    ensures
        chars@ == input@,
{
    let mut chars: Vec<char> = Vec::new();
    for c in it: input.chars()
        invariant
            it.seq() == input@,
            chars@ == input@.take(it.index() as int),
    {
        chars.push(c);
        assert(input@.take(it.index() + 1) =~= input@.take(it.index() as int).push(c));
    }
    assert(input@.take(input@.len() as int) =~= input@);
    chars
}

fn split_chars(chars: &Vec<char>, sep: char) -> (pieces: Vec<Vec<char>>)
    ensures
        char_rows(pieces@) == split(chars@, sep),
        pieces.len() >= 1,
{
    let mut done: Vec<Vec<char>> = Vec::new();
    let mut cur: Vec<char> = Vec::new();
    let mut i: usize = 0;
    while i < chars.len()
        invariant
            i <= chars.len(),
            char_rows(done@).push(cur@) == split(chars@.take(i as int), sep),
        decreases chars.len() - i,
    {
        let c = chars[i];
        proof {
            assert(chars@.take(i + 1).drop_last() =~= chars@.take(i as int));
            assert(chars@.take(i + 1).last() == c);
        }
        let ghost before = char_rows(done@).push(cur@);
        if c == sep {
            done.push(cur);
            cur = Vec::new();
            assert(char_rows(done@) =~= before);
        } else {
            cur.push(c);
            assert(char_rows(done@).push(cur@) =~= before.drop_last().push(before.last().push(c)));
        }
        i = i + 1;
    }
    proof {
        assert(chars@.take(i as int) =~= chars@);
    }
    let ghost before = char_rows(done@).push(cur@);
    done.push(cur);
    assert(char_rows(done@) =~= before);
    done
}

pub(crate) fn split_lines(chars: &Vec<char>) -> (lines: Vec<Vec<char>>)
    ensures
        char_rows(lines@) == lines_of(chars@),
{
    let mut pieces = split_chars(chars, '\n');
    let ghost all = char_rows(pieces@);
    let last = pieces.pop().unwrap();
    assert(last@ == all.last());
    let mut lines: Vec<Vec<char>> = Vec::new();
    let mut i: usize = 0;
    while i < pieces.len()
        invariant
            i <= pieces.len(),
            pieces.len() == all.len() - 1,
            forall|k: int| 0 <= k < pieces.len() ==> (#[trigger] pieces[k])@ == all[k],
            lines.len() == i,
            forall|k: int| 0 <= k < i ==> (#[trigger] lines[k])@ == strip_cr(all[k]),
        decreases pieces.len() - i,
    {
        let piece = &pieces[i];
        let mut line: Vec<char> = Vec::new();
        let keep = if piece.len() > 0 && piece[piece.len() - 1] == '\r' {
            piece.len() - 1
        } else {
            piece.len()
        };
        let mut j: usize = 0;
        while j < keep
            invariant
                j <= keep <= piece.len(),
                line@ == piece@.take(j as int),
            decreases keep - j,
        {
            line.push(piece[j]);
            assert(piece@.take(j + 1) =~= piece@.take(j as int).push(piece@[j as int]));
            j = j + 1;
        }
        assert(line@ =~= strip_cr(all[i as int])) by {
            assert(piece@.take(piece@.len() as int) =~= piece@);
        }
        lines.push(line);
        i = i + 1;
    }
    let ghost ended = char_rows(lines@);
    assert(ended =~= Seq::new((all.len() - 1) as nat, |i: int| strip_cr(all[i])));
    if last.len() > 0 {
        lines.push(last);
        assert(char_rows(lines@) =~= ended.push(all.last()));
    }
    lines
}

pub(crate) fn split_fields(line: &Vec<char>) -> (fields: Vec<String>)
    ensures
        texts(fields@) == split(line@, '|'),
        fields.len() >= 1,
{
    let pieces = split_chars(line, '|');
    let mut fields: Vec<String> = Vec::new();
    let mut i: usize = 0;
    while i < pieces.len()
        invariant
            i <= pieces.len(),
            fields.len() == i,
            forall|k: int| 0 <= k < i ==> (#[trigger] fields[k])@ == pieces[k]@,
        decreases pieces.len() - i,
    {
        fields.push(text_of(&pieces[i]));
        i = i + 1;
    }
    assert(texts(fields@) =~= char_rows(pieces@));
    fields
}

/// Pairs the fields of one line with the column names.
pub fn make_row(header: &Vec<String>, fields: Vec<String>, line: usize) -> (r: Result<
    Vec<(String, String)>,
    SacctError,
>)
    ensures
        row_texts(r) == row_of(texts(header@), texts(fields@), line as nat),
{
    if fields.len() > header.len() {
        return Err(SacctError::TooManyFields { line });
    }
    let ghost all = fields@;
    let n = fields.len();
    let mut row: Vec<(String, String)> = Vec::new();
    for value in it: fields
        invariant
            it.seq() == all,
            all.len() == n,
            n <= header.len(),
            row.len() == it.index(),
            forall|k: int| 0 <= k < row.len() ==> (#[trigger] row[k]).0@ == header[k]@ && row[k].1@ == all[k]@,
    {
        let name = header[row.len()].clone();
        row.push((name, value));
    }
    assert(pair_texts(row@) =~= Seq::new(all.len(), |i: int| (texts(header@)[i], texts(all)[i])));
    Ok(row)
}

/// Reads a table: the column names of the first line, and for each further line its
/// record, or the reason why the line has none.
pub fn sacct_csvlike(input: &str) -> (r: Result<
    (Vec<String>, Vec<Result<Vec<(String, String)>, SacctError>>),
    SacctError,
>)
    ensures
        match r {
            Err(e) => e == SacctError::Empty && lines_of(input@).len() == 0,
            Ok((header, rows)) => {
                let lines = lines_of(input@);
                &&& lines.len() > 0
                &&& texts(header@) == split(lines[0], '|')
                &&& rows.len() == lines.len() - 1
                &&& forall|k: int|
                    0 <= k < rows.len() ==> row_texts(#[trigger] rows[k]) == row_of(
                        split(lines[0], '|'),
                        split(lines[k + 1], '|'),
                        k as nat,
                    )
            },
        },
{
    let chars = chars_of(input);
    let lines = split_lines(&chars);
    if lines.len() == 0 {
        return Err(SacctError::Empty);
    }
    let ghost wanted = lines_of(input@);
    assert(lines[0]@ == wanted[0]);
    let header = split_fields(&lines[0]);
    let mut rows: Vec<Result<Vec<(String, String)>, SacctError>> = Vec::new();
    let mut k: usize = 1;
    while k < lines.len()
        invariant
            1 <= k <= lines.len(),
            char_rows(lines@) == wanted,
            texts(header@) == split(wanted[0], '|'),
            rows.len() == k - 1,
            forall|j: int|
                0 <= j < rows.len() ==> row_texts(#[trigger] rows[j]) == row_of(
                    split(wanted[0], '|'),
                    split(wanted[j + 1], '|'),
                    j as nat,
                ),
        decreases lines.len() - k,
    {
        assert(lines[k as int]@ == wanted[k as int]);
        let fields = split_fields(&lines[k]);
        let row = make_row(&header, fields, k - 1);
        rows.push(row);
        k = k + 1;
    }
    Ok((header, rows))
}

/// The name of the column that holds the identifier of a job.
pub const SACCT_HEADER_JOBID: &'static str = "JobID";

/// Why the jobs of a table cannot be counted.
#[derive(Debug, Clone, Copy, PartialEq, Eq, Structural)]
pub enum JobCountError {
    /// The table has no column of job identifiers.
    NoJobIds,
    /// The record at this place could not be read.
    BadRow { row: usize, cause: SacctError },
    /// The record at this place has no job identifier.
    MissingJobId { row: usize },
}

/// The value of a column in a record; the last one where the column occurs more
/// than once.
pub open spec fn value_of(row: Seq<(Seq<char>, Seq<char>)>, key: Seq<char>) -> Option<Seq<char>>
    decreases row.len(),
{
    if row.len() == 0 {
        None
    } else if row.last().0 == key {
        Some(row.last().1)
    } else {
        value_of(row.drop_last(), key)
    }
}

/// The identifier names a job itself, not one of its steps: it holds no dot.
pub open spec fn is_main_job_id(id: Seq<char>) -> bool {
    !id.contains('.')
}

/// What the record at place `at` adds to the count of jobs, or why it cannot be counted.
pub open spec fn counted(row: Result<Seq<(Seq<char>, Seq<char>)>, SacctError>, at: nat) -> Result<nat, JobCountError> {
    match row {
        Err(cause) => Err(JobCountError::BadRow { row: at as usize, cause }),
        Ok(pairs) => match value_of(pairs, SACCT_HEADER_JOBID@) {
            None => Err(JobCountError::MissingJobId { row: at as usize }),
            Some(id) => Ok(
                if is_main_job_id(id) {
                    1nat
                } else {
                    0nat
                },
            ),
        },
    }
}

/// The number of jobs among the first `n` records, or the error of the first record
/// that cannot be counted.
pub open spec fn jobs_upto(rows: Seq<Result<Seq<(Seq<char>, Seq<char>)>, SacctError>>, n: nat) -> Result<
    nat,
    JobCountError,
>
    decreases n,
{
    if n == 0 {
        Ok(0nat)
    } else {
        match jobs_upto(rows, (n - 1) as nat) {
            Err(e) => Err(e),
            Ok(count) => match counted(rows[n - 1], (n - 1) as nat) {
                Err(e) => Err(e),
                Ok(more) => Ok(count + more),
            },
        }
    }
}

/// The number of jobs of a table: the records whose identifier names a job itself.
pub open spec fn job_count(header: Seq<Seq<char>>, rows: Seq<Result<Seq<(Seq<char>, Seq<char>)>, SacctError>>) -> Result<
    nat,
    JobCountError,
> {
    if !header.contains(SACCT_HEADER_JOBID@) {
        Err(JobCountError::NoJobIds)
    } else {
        jobs_upto(rows, rows.len())
    }
}

/// What reading each line of a table gave, as texts.
pub open spec fn rows_texts(rows: Seq<Result<Vec<(String, String)>, SacctError>>) -> Seq<
    Result<Seq<(Seq<char>, Seq<char>)>, SacctError>,
> {
    Seq::new(rows.len(), |i: int| row_texts(rows[i]))
}

/// Looks a column up in a record.
pub fn lookup<'a>(row: &'a Vec<(String, String)>, key: &String) -> (v: Option<&'a String>)
    ensures
        match v {
            Some(value) => value_of(pair_texts(row@), key@) == Some(value@),
            None => value_of(pair_texts(row@), key@) is None,
        },
{
    let ghost pairs = pair_texts(row@);
    let mut i: usize = row.len();
    assert(pairs.take(i as int) =~= pairs);
    while i > 0
        invariant
            i <= row.len(),
            pairs == pair_texts(row@),
            value_of(pairs, key@) == value_of(pairs.take(i as int), key@),
        decreases i,
    {
        i = i - 1;
        proof {
            assert(pairs.take(i + 1).drop_last() =~= pairs.take(i as int));
            assert(pairs.take(i + 1).last() == pairs[i as int]);
        }
        if row[i].0 == *key {
            return Some(&row[i].1);
        }
    }
    None
}

/// Tells whether an identifier names a job itself.
pub fn is_main_job(id: &str) -> (b: bool)
    ensures
        b == is_main_job_id(id@),
{
    let chars = chars_of(id);
    let mut i: usize = 0;
    while i < chars.len()
        invariant
            i <= chars.len(),
            chars@ == id@,
            forall|k: int| 0 <= k < i ==> chars@[k] != '.',
        decreases chars.len() - i,
    {
        if chars[i] == '.' {
            assert(id@.contains('.'));
            return false;
        }
        i = i + 1;
    }
    true
}

/// Counts the jobs of a table.
pub fn count_main_jobs(header: &Vec<String>, rows: &Vec<Result<Vec<(String, String)>, SacctError>>) -> (r: Result<
    usize,
    JobCountError,
>)
    ensures
        match r {
            Ok(n) => job_count(texts(header@), rows_texts(rows@)) == Ok::<nat, JobCountError>(n as nat),
            Err(e) => job_count(texts(header@), rows_texts(rows@)) == Err::<nat, JobCountError>(e),
        },
{
    proof {
        reveal_strlit("JobID");
    }
    let key = String::from_str(SACCT_HEADER_JOBID);
    let mut has_ids = false;
    let mut h: usize = 0;
    while h < header.len()
        invariant
            h <= header.len(),
            key@ == SACCT_HEADER_JOBID@,
            has_ids <==> exists|k: int| 0 <= k < h && (#[trigger] header[k])@ == key@,
        decreases header.len() - h,
    {
        if header[h] == key {
            has_ids = true;
        }
        h = h + 1;
    }
    proof {
        let names = texts(header@);
        if has_ids {
            let k = choose|k: int| 0 <= k < header.len() && (#[trigger] header[k])@ == key@;
            assert(names[k] == key@);
        } else {
            assert forall|k: int| 0 <= k < names.len() implies names[k] != key@ by {
                assert(header[k]@ != key@);
            }
        }
    }
    if !has_ids {
        return Err(JobCountError::NoJobIds);
    }
    let ghost wanted = rows_texts(rows@);
    let mut count: usize = 0;
    let mut n: usize = 0;
    while n < rows.len()
        invariant
            n <= rows.len(),
            count <= n,
            key@ == SACCT_HEADER_JOBID@,
            wanted == rows_texts(rows@),
            texts(header@).contains(SACCT_HEADER_JOBID@),
            jobs_upto(wanted, n as nat) == Ok::<nat, JobCountError>(count as nat),
        decreases rows.len() - n,
    {
        proof {
            lemma_count_error_sticks(wanted, (n + 1) as nat, wanted.len());
            assert(wanted[n as int] == row_texts(rows[n as int]));
        }
        match &rows[n] {
            Err(cause) => {
                return Err(JobCountError::BadRow { row: n, cause: *cause });
            },
            Ok(pairs) => match lookup(pairs, &key) {
                None => {
                    return Err(JobCountError::MissingJobId { row: n });
                },
                Some(id) => {
                    if is_main_job(id.as_str()) {
                        count = count + 1;
                    }
                },
            },
        }
        n = n + 1;
    }
    Ok(count)
}

proof fn lemma_count_error_sticks(rows: Seq<Result<Seq<(Seq<char>, Seq<char>)>, SacctError>>, n: nat, m: nat)
    requires
        n <= m,
    ensures
        jobs_upto(rows, n) is Err ==> jobs_upto(rows, m) == jobs_upto(rows, n),
    decreases m - n,
{
    if n < m {
        lemma_count_error_sticks(rows, n, (m - 1) as nat);
    }
}

/// The name of the column that holds the state of a job.
pub const SACCT_HEADER_STATE: &'static str = "State";

/// The state of a job that is running.
pub const SACCT_STATE_RUNNING: &'static str = "RUNNING";

/// The ending of the name of a file that holds a table.
pub const SNAPSHOT_SUFFIX: &'static str = ".csv";

/// The record was read and tells of a running job.
pub open spec fn is_running_row(row: Result<Seq<(Seq<char>, Seq<char>)>, SacctError>) -> bool {
    match row {
        Ok(pairs) => value_of(pairs, SACCT_HEADER_STATE@) == Some(SACCT_STATE_RUNNING@),
        Err(_) => false,
    }
}

/// The places among the first `n` records that hold a running job, in rising order.
pub open spec fn running_upto(rows: Seq<Result<Seq<(Seq<char>, Seq<char>)>, SacctError>>, n: nat) -> Seq<usize>
    decreases n,
{
    if n == 0 {
        Seq::empty()
    } else if is_running_row(rows[n - 1]) {
        running_upto(rows, (n - 1) as nat).push((n - 1) as usize)
    } else {
        running_upto(rows, (n - 1) as nat)
    }
}

/// Tells whether a record tells of a running job.
pub fn is_running(row: &Result<Vec<(String, String)>, SacctError>) -> (b: bool)
    ensures
        b == is_running_row(row_texts(*row)),
{
    match row {
        Err(_) => false,
        Ok(pairs) => {
            let key = String::from_str(SACCT_HEADER_STATE);
            let running = String::from_str(SACCT_STATE_RUNNING);
            match lookup(pairs, &key) {
                Some(state) => *state == running,
                None => false,
            }
        },
    }
}

/// The records of a table that tell of running jobs, by their places.
pub fn running_rows(rows: &Vec<Result<Vec<(String, String)>, SacctError>>) -> (picked: Vec<usize>)
    ensures
        picked@ == running_upto(rows_texts(rows@), rows.len() as nat),
{
    let mut picked: Vec<usize> = Vec::new();
    let mut n: usize = 0;
    while n < rows.len()
        invariant
            n <= rows.len(),
            picked@ == running_upto(rows_texts(rows@), n as nat),
        decreases rows.len() - n,
    {
        assert(rows_texts(rows@)[n as int] == row_texts(rows[n as int]));
        if is_running(&rows[n]) {
            picked.push(n);
        }
        n = n + 1;
    }
    picked
}

/// The name ends as the name of a file that holds a table does.
pub open spec fn has_snapshot_suffix(name: Seq<char>) -> bool {
    name.len() >= SNAPSHOT_SUFFIX@.len() && name.skip(name.len() - SNAPSHOT_SUFFIX@.len()) == SNAPSHOT_SUFFIX@
}

/// Tells whether a file, by its name, holds a table.
pub fn is_snapshot_name(name: &str) -> (b: bool)
    ensures
        b == has_snapshot_suffix(name@),
{
    proof {
        reveal_strlit(".csv");
    }
    let chars = chars_of(name);
    let n = chars.len();
    if n < 4 {
        return false;
    }
    let b = chars[n - 4] == '.' && chars[n - 3] == 'c' && chars[n - 2] == 's' && chars[n - 1] == 'v';
    proof {
        let tail = name@.skip(n - 4);
        assert(tail.len() == 4);
        assert(tail[0] == chars@[n - 4] && tail[1] == chars@[n - 3] && tail[2] == chars@[n - 2] && tail[3] == chars@[n
            - 1]);
        if b {
            assert(tail =~= SNAPSHOT_SUFFIX@);
        }
    }
    b
}

} // verus!
