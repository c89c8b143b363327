//! What the tools on a compute node print, read into numbers: the processes of a
//! job, the processor on which each process last ran, and the graphics processors.

use vstd::prelude::*;
use std::collections::HashMap;
use vstd::string::StringExecFns;
use crate::measurement::{Cpu, CpuNode, CpuUsage, GpuInfo, Job, NodeInfo, NodeUsage};
use crate::parse::{digits_value, is_digit, is_white_space, trim_of, trimmed};
use crate::sacct::{char_rows, chars_of, lines_of, split_lines, text_of, texts};

verus! {

broadcast use vstd::std_specs::hash::group_hash_axioms;

/// Why the output of a tool cannot be read. Lines are counted from zero, after the
/// lines of headings that the tool prints first.
#[derive(Debug, Clone, Copy, PartialEq, Eq, Structural)]
pub enum AgentError {
    /// The line has fewer words than the reader needs.
    MissingField { line: usize },
    /// A word that is to be a number is not a whole number of 32 bits without sign.
    BadNumber { line: usize },
}

/// The words of a text: its longest runs of characters that are not white space,
/// in their order.
pub open spec fn words_of(s: Seq<char>) -> Seq<Seq<char>>
    decreases s.len(),
{
    if s.len() == 0 {
        Seq::empty()
    } else {
        let head = words_of(s.drop_last());
        if is_white_space(s.last()) {
            head
        } else if s.len() >= 2 && !is_white_space(s[s.len() - 2]) {
            head.drop_last().push(head.last().push(s.last()))
        } else {
            head.push(seq![s.last()])
        }
    }
}

/// The unsigned 32-bit integer that `s` writes in decimal, with an optional plus
/// sign before the digits, if it writes one.
pub open spec fn u32_of(s: Seq<char>) -> Option<u32> {
    let d = if s.len() > 0 && s.first() == '+' {
        s.drop_first()
    } else {
        s
    };
    if d.len() > 0 && (forall|i: int| 0 <= i < d.len() ==> is_digit(#[trigger] d[i])) && digits_value(d) <= u32::MAX {
        Some(digits_value(d) as u32)
    } else {
        None
    }
}

/// The words of each line of a text, the first `skip` lines left out.
pub open spec fn word_rows(text: Seq<char>, skip: nat) -> Seq<Seq<Seq<char>>> {
    let lines = lines_of(text);
    if lines.len() <= skip {
        Seq::empty()
    } else {
        Seq::new((lines.len() - skip) as nat, |i: int| words_of(lines[i + skip]))
    }
}

/// The texts of rows of strings.
pub open spec fn rows_of(rows: Seq<Vec<String>>) -> Seq<Seq<Seq<char>>> {
    Seq::new(rows.len(), |i: int| texts(rows[i]@))
}

/// Calls `str::parse::<u32>`: `Ok` with the number for an optional plus sign followed
/// by decimal digits whose value fits 32 bits, an error for every other text.
#[verifier::external_body]
fn parse_u32(s: &str) -> (r: Result<u32, core::num::ParseIntError>)
    ensures
        match r {
            Ok(n) => u32_of(s@) == Some(n),
            Err(_) => u32_of(s@) is None,
        },
{
    s.parse::<u32>()
}

/// Tells white space from other characters.
pub fn is_space(c: char) -> (b: bool)
    ensures
        b == is_white_space(c),
{
    let u: u32 = c as u32;
    (0x09 <= u && u <= 0x0d) || u == 0x20 || u == 0x85 || u == 0xa0 || u == 0x1680 || (0x2000 <= u && u <= 0x200a)
        || u == 0x2028 || u == 0x2029 || u == 0x202f || u == 0x205f || u == 0x3000
}

/// Splits a line into its words.
pub fn words(line: &Vec<char>) -> (found: Vec<String>)
    ensures
        texts(found@) == words_of(line@),
{
    let mut done: Vec<String> = Vec::new();
    let mut cur: Vec<char> = Vec::new();
    let mut i: usize = 0;
    while i < line.len()
        invariant
            i <= line.len(),
            i > 0 && !is_white_space(line@[i - 1]) ==> cur@.len() > 0 && texts(done@).push(cur@) == words_of(
                line@.take(i as int),
            ),
            i == 0 || is_white_space(line@[i - 1]) ==> cur@.len() == 0 && texts(done@) == words_of(line@.take(i as int)),
        decreases line.len() - i,
    {
        let c = line[i];
        proof {
            assert(line@.take(i + 1).drop_last() =~= line@.take(i as int));
            assert(line@.take(i + 1).last() == c);
            if i > 0 {
                assert(line@.take(i + 1)[i - 1] == line@[i - 1]);
            }
        }
        let ghost before = words_of(line@.take(i as int));
        if is_space(c) {
            if cur.len() > 0 {
                done.push(text_of(&cur));
                cur = Vec::new();
                assert(texts(done@) =~= before);
            }
        } else {
            let ghost word = cur@;
            cur.push(c);
            proof {
                if word.len() > 0 {
                    assert(texts(done@).push(cur@) =~= before.drop_last().push(before.last().push(c)));
                } else {
                    assert(cur@ =~= seq![c]);
                }
            }
        }
        i = i + 1;
    }
    proof {
        assert(line@.take(i as int) =~= line@);
    }
    if cur.len() > 0 {
        let ghost before = texts(done@).push(cur@);
        done.push(text_of(&cur));
        assert(texts(done@) =~= before);
    }
    done
}

/// Splits a text into lines and each line into words, the first `skip` lines left out.
pub fn split_rows(text: &str, skip: usize) -> (rows: Vec<Vec<String>>)
    ensures
        rows_of(rows@) == word_rows(text@, skip as nat),
{
    let chars = chars_of(text);
    let lines = split_lines(&chars);
    let ghost wanted = lines_of(text@);
    let mut rows: Vec<Vec<String>> = Vec::new();
    if lines.len() <= skip {
        assert(rows_of(rows@) =~= word_rows(text@, skip as nat));
        return rows;
    }
    let mut i: usize = skip;
    while i < lines.len()
        invariant
            skip <= i <= lines.len(),
            char_rows(lines@) == wanted,
            rows.len() == i - skip,
            forall|k: int| 0 <= k < rows.len() ==> texts((#[trigger] rows[k])@) == words_of(wanted[k + skip]),
        decreases lines.len() - i,
    {
        assert(lines[i as int]@ == wanted[i as int]);
        rows.push(words(&lines[i]));
        i = i + 1;
    }
    assert(rows_of(rows@) =~= word_rows(text@, skip as nat));
    rows
}

/// The process that a line of a list of processes names: its first word.
pub open spec fn pid_of(row: Seq<Seq<char>>, at: nat) -> Result<u32, AgentError> {
    if row.len() < 1 {
        Err(AgentError::MissingField { line: at as usize })
    } else {
        match u32_of(row[0]) {
            Some(pid) => Ok(pid),
            None => Err(AgentError::BadNumber { line: at as usize }),
        }
    }
}

/// The processes that the first `n` lines name, or the error of the first line that
/// cannot be read.
pub open spec fn pids_upto(rows: Seq<Seq<Seq<char>>>, n: nat) -> Result<Seq<u32>, AgentError>
    decreases n,
{
    if n == 0 {
        Ok(Seq::empty())
    } else {
        match pids_upto(rows, (n - 1) as nat) {
            Err(e) => Err(e),
            Ok(pids) => match pid_of(rows[n - 1], (n - 1) as nat) {
                Err(e) => Err(e),
                Ok(pid) => Ok(pids.push(pid)),
            },
        }
    }
}

impl Job {
    /// Reads the list of the processes of a job as the scheduler prints it: one line of
    /// headings, then one line for each process, which begins with the process number.
    pub fn get_process_per_job_id(output: &str) -> (r: Result<Vec<u32>, AgentError>)
        ensures
            match r {
                Ok(pids) => pids_upto(word_rows(output@, 1), word_rows(output@, 1).len()) == Ok::<Seq<u32>, AgentError>(
                    pids@,
                ),
                Err(e) => pids_upto(word_rows(output@, 1), word_rows(output@, 1).len()) == Err::<Seq<u32>, AgentError>(e),
            },
    {
        let rows = split_rows(output, 1);
        let ghost wanted = word_rows(output@, 1);
        let mut pids: Vec<u32> = Vec::new();
        let mut n: usize = 0;
        while n < rows.len()
            invariant
                n <= rows.len(),
                wanted == word_rows(output@, 1),
                rows_of(rows@) == wanted,
                pids_upto(wanted, n as nat) == Ok::<Seq<u32>, AgentError>(pids@),
            decreases rows.len() - n,
        {
            proof {
                assert(wanted.len() == rows.len());
                assert(wanted[n as int] == texts(rows[n as int]@));
                lemma_pid_error_sticks(wanted, (n + 1) as nat, wanted.len());
            }
            let row = &rows[n];
            if row.len() < 1 {
                return Err(AgentError::MissingField { line: n });
            }
            assert(texts(row@)[0] == row[0]@);
            match parse_u32(row[0].as_str()) {
                Ok(pid) => {
                    pids.push(pid);
                },
                Err(_) => {
                    return Err(AgentError::BadNumber { line: n });
                },
            }
            n = n + 1;
        }
        Ok(pids)
    }
}

/// The process and the processor that a line names: its first two words.
pub open spec fn pid_psr_of(row: Seq<Seq<char>>, at: nat) -> Result<(u32, u32), AgentError> {
    if row.len() < 2 {
        Err(AgentError::MissingField { line: at as usize })
    } else {
        match (u32_of(row[0]), u32_of(row[1])) {
            (Some(pid), Some(psr)) => Ok((pid, psr)),
            _ => Err(AgentError::BadNumber { line: at as usize }),
        }
    }
}

/// The processor of each process that the first `n` lines name, where a later line
/// of a process replaces an earlier one; or the error of the first line that cannot
/// be read.
pub open spec fn psr_upto(rows: Seq<Seq<Seq<char>>>, n: nat) -> Result<Map<u32, u32>, AgentError>
    decreases n,
{
    if n == 0 {
        Ok(Map::empty())
    } else {
        match psr_upto(rows, (n - 1) as nat) {
            Err(e) => Err(e),
            Ok(found) => match pid_psr_of(rows[n - 1], (n - 1) as nat) {
                Err(e) => Err(e),
                Ok((pid, psr)) => Ok(found.insert(pid, psr)),
            },
        }
    }
}

impl CpuUsage {
    /// Reads the table of processes and the processors on which they last ran: one line
    /// of headings, then one line for each process with its number and the number of
    /// the processor.
    pub fn get_pid_psr(output: &str) -> (r: Result<HashMap<u32, u32>, AgentError>)
        ensures
            match r {
                Ok(found) => psr_upto(word_rows(output@, 1), word_rows(output@, 1).len()) == Ok::<
                    Map<u32, u32>,
                    AgentError,
                >(found@),
                Err(e) => psr_upto(word_rows(output@, 1), word_rows(output@, 1).len()) == Err::<Map<u32, u32>, AgentError>(
                    e,
                ),
            },
    {
        let rows = split_rows(output, 1);
        let ghost wanted = word_rows(output@, 1);
        let mut found: HashMap<u32, u32> = HashMap::new();
        let mut n: usize = 0;
        while n < rows.len()
            invariant
                n <= rows.len(),
                wanted == word_rows(output@, 1),
                rows_of(rows@) == wanted,
                psr_upto(wanted, n as nat) == Ok::<Map<u32, u32>, AgentError>(found@),
            decreases rows.len() - n,
        {
            proof {
                assert(wanted.len() == rows.len());
                assert(wanted[n as int] == texts(rows[n as int]@));
                lemma_psr_error_sticks(wanted, (n + 1) as nat, wanted.len());
            }
            let row = &rows[n];
            if row.len() < 2 {
                return Err(AgentError::MissingField { line: n });
            }
            assert(texts(row@)[0] == row[0]@);
            assert(texts(row@)[1] == row[1]@);
            let pid = match parse_u32(row[0].as_str()) {
                Ok(pid) => pid,
                Err(_) => {
                    return Err(AgentError::BadNumber { line: n });
                },
            };
            let psr = match parse_u32(row[1].as_str()) {
                Ok(psr) => psr,
                Err(_) => {
                    return Err(AgentError::BadNumber { line: n });
                },
            };
            found.insert(pid, psr);
            n = n + 1;
        }
        Ok(found)
    }
}

/// `s` without its commas.
pub open spec fn without_commas(s: Seq<char>) -> Seq<char> {
    s.filter(|c: char| c != ',')
}

/// The graphics processor that a line names: its first word without commas is the
/// identifier, its second word the memory.
pub open spec fn gpu_of(row: Seq<Seq<char>>, at: nat) -> Result<(Seq<char>, u32), AgentError> {
    if row.len() < 2 {
        Err(AgentError::MissingField { line: at as usize })
    } else {
        match u32_of(row[1]) {
            Some(mem) => Ok((without_commas(row[0]), mem)),
            None => Err(AgentError::BadNumber { line: at as usize }),
        }
    }
}

/// The graphics processors that the first `n` lines name, or the error of the first
/// line that cannot be read.
pub open spec fn gpus_upto(rows: Seq<Seq<Seq<char>>>, n: nat) -> Result<Seq<(Seq<char>, u32)>, AgentError>
    decreases n,
{
    if n == 0 {
        Ok(Seq::empty())
    } else {
        match gpus_upto(rows, (n - 1) as nat) {
            Err(e) => Err(e),
            Ok(gpus) => match gpu_of(rows[n - 1], (n - 1) as nat) {
                Err(e) => Err(e),
                Ok(gpu) => Ok(gpus.push(gpu)),
            },
        }
    }
}

/// Identifier and memory of each of a sequence of graphics processors.
pub open spec fn gpu_views(gpus: Seq<GpuInfo>) -> Seq<(Seq<char>, u32)> {
    Seq::new(gpus.len(), |i: int| (gpus[i].id@, gpus[i].mem_total))
}

fn strip_commas(word: &String) -> (r: String)
    ensures
        r@ == without_commas(word@),
{
    let chars = chars_of(word.as_str());
    let ghost pred = |c: char| c != ',';
    let mut kept: Vec<char> = Vec::new();
    let mut i: usize = 0;
    while i < chars.len()
        invariant
            i <= chars.len(),
            pred == |c: char| c != ',',
            kept@ == chars@.take(i as int).filter(pred),
        decreases chars.len() - i,
    {
        proof {
            assert(chars@.take(i + 1) =~= chars@.take(i as int).push(chars@[i as int]));
            chars@.take(i as int).lemma_filter_push(chars@[i as int], pred);
        }
        if chars[i] != ',' {
            kept.push(chars[i]);
        }
        i = i + 1;
    }
    proof {
        assert(chars@.take(i as int) =~= chars@);
    }
    text_of(&kept)
}

impl GpuInfo {
    /// Reads the list of graphics processors as the driver's tool prints it without
    /// headings: one line for each, with the identifier, a comma and the memory.
    pub fn get_static_info(output: &str) -> (r: Result<Vec<GpuInfo>, AgentError>)
        ensures
            match r {
                Ok(gpus) => gpus_upto(word_rows(output@, 0), word_rows(output@, 0).len()) == Ok::<
                    Seq<(Seq<char>, u32)>,
                    AgentError,
                >(gpu_views(gpus@)),
                Err(e) => gpus_upto(word_rows(output@, 0), word_rows(output@, 0).len()) == Err::<
                    Seq<(Seq<char>, u32)>,
                    AgentError,
                >(e),
            },
    {
        let rows = split_rows(output, 0);
        let ghost wanted = word_rows(output@, 0);
        let mut gpus: Vec<GpuInfo> = Vec::new();
        let mut n: usize = 0;
        assert(gpu_views(gpus@) =~= Seq::<(Seq<char>, u32)>::empty());
        while n < rows.len()
            invariant
                n <= rows.len(),
                wanted == word_rows(output@, 0),
                rows_of(rows@) == wanted,
                gpus_upto(wanted, n as nat) == Ok::<Seq<(Seq<char>, u32)>, AgentError>(gpu_views(gpus@)),
            decreases rows.len() - n,
        {
            proof {
                assert(wanted.len() == rows.len());
                assert(wanted[n as int] == texts(rows[n as int]@));
                lemma_gpu_error_sticks(wanted, (n + 1) as nat, wanted.len());
            }
            let row = &rows[n];
            if row.len() < 2 {
                return Err(AgentError::MissingField { line: n });
            }
            assert(texts(row@)[0] == row[0]@);
            assert(texts(row@)[1] == row[1]@);
            let mem_total = match parse_u32(row[1].as_str()) {
                Ok(mem) => mem,
                Err(_) => {
                    return Err(AgentError::BadNumber { line: n });
                },
            };
            let ghost before = gpu_views(gpus@);
            let id = strip_commas(&row[0]);
            gpus.push(GpuInfo { id, mem_total });
            assert(gpu_views(gpus@) =~= before.push((without_commas(wanted[n as int][0]), mem_total)));
            n = n + 1;
        }
        Ok(gpus)
    }
}

proof fn lemma_pid_error_sticks(rows: Seq<Seq<Seq<char>>>, n: nat, m: nat)
    requires
        n <= m,
    ensures
        pids_upto(rows, n) is Err ==> pids_upto(rows, m) == pids_upto(rows, n),
    decreases m - n,
{
    if n < m {
        lemma_pid_error_sticks(rows, n, (m - 1) as nat);
    }
}

proof fn lemma_psr_error_sticks(rows: Seq<Seq<Seq<char>>>, n: nat, m: nat)
    requires
        n <= m,
    ensures
        psr_upto(rows, n) is Err ==> psr_upto(rows, m) == psr_upto(rows, n),
    decreases m - n,
{
    if n < m {
        lemma_psr_error_sticks(rows, n, (m - 1) as nat);
    }
}

proof fn lemma_gpu_error_sticks(rows: Seq<Seq<Seq<char>>>, n: nat, m: nat)
    requires
        n <= m,
    ensures
        gpus_upto(rows, n) is Err ==> gpus_upto(rows, m) == gpus_upto(rows, n),
    decreases m - n,
{
    if n < m {
        lemma_gpu_error_sticks(rows, n, (m - 1) as nat);
    }
}

/// The number by which every node tells of itself; the collector replaces it by the
/// number that its configuration gives the node.
pub const NODE_ID: u32 = 1;

/// The number of bytes in the unit in which memory is reported.
pub const BYTES_PER_UNIT: u64 = 1_000_000;

/// The process belongs to one of the jobs.
pub open spec fn in_a_job(jobs: Seq<Job>, pid: u32) -> bool {
    exists|j: int, k: int|
        0 <= j < jobs.len() && 0 <= k < jobs[j].processes@.len() && (#[trigger] jobs[j].processes@[k]) == pid
}

/// The memory that the processes of `pids` hold together, in bytes; a process that
/// `memory` does not know holds none, and a process named twice counts twice.
pub open spec fn memory_sum(pids: Seq<u32>, memory: Map<u32, u64>) -> nat
    decreases pids.len(),
{
    if pids.len() == 0 {
        0
    } else {
        let more: nat = if memory.contains_key(pids.last()) {
            memory[pids.last()] as nat
        } else {
            0
        };
        memory_sum(pids.drop_last(), memory) + more
    }
}

impl NodeInfo {
    /// The static facts of a node with `total_memory` bytes of memory.
    pub fn get_static_info(total_memory: u64) -> (info: NodeInfo)
        ensures
            info.id == NODE_ID,
            info.mem_total == total_memory / BYTES_PER_UNIT,
    {
        NodeInfo { id: NODE_ID, mem_total: total_memory / BYTES_PER_UNIT }
    }
}

/// The process numbers of all jobs, one job after the other.
fn job_processes(jobs: &Vec<Job>) -> (pids: Vec<u32>)
    ensures
        forall|pid: u32| pids@.contains(pid) <==> in_a_job(jobs@, pid),
{
    let mut pids: Vec<u32> = Vec::new();
    let mut j: usize = 0;
    while j < jobs.len()
        invariant
            j <= jobs.len(),
            forall|pid: u32| pids@.contains(pid) <==> in_a_job(jobs@.take(j as int), pid),
        decreases jobs.len() - j,
    {
        let ghost before = pids@;
        let ghost seen = jobs@.take(j as int);
        let ghost more = jobs@.take(j + 1);
        let mut k: usize = 0;
        while k < jobs[j].processes.len()
            invariant
                j < jobs.len(),
                k <= jobs[j as int].processes@.len(),
                pids@ == before + jobs[j as int].processes@.take(k as int),
            decreases jobs[j as int].processes.len() - k,
        {
            pids.push(jobs[j].processes[k]);
            assert(jobs[j as int].processes@.take(k + 1) =~= jobs[j as int].processes@.take(k as int).push(
                jobs[j as int].processes@[k as int],
            ));
            assert(pids@ =~= before + jobs[j as int].processes@.take(k + 1));
            k = k + 1;
        }
        proof {
            let own = jobs[j as int].processes@;
            assert(own.take(k as int) =~= own);
            assert forall|pid: u32| pids@.contains(pid) <==> in_a_job(more, pid) by {
                if pids@.contains(pid) {
                    let i = choose|i: int| 0 <= i < pids@.len() && pids@[i] == pid;
                    if i < before.len() {
                        assert(before[i] == pid);
                        assert(before.contains(pid));
                        let (a, b) = choose|a: int, b: int|
                            0 <= a < seen.len() && 0 <= b < seen[a].processes@.len() && (
                            #[trigger] seen[a].processes@[b]) == pid;
                        assert(more[a].processes@[b] == pid);
                    } else {
                        assert(more[j as int].processes@[i - before.len()] == pid);
                    }
                }
                if in_a_job(more, pid) {
                    let (a, b) = choose|a: int, b: int|
                        0 <= a < more.len() && 0 <= b < more[a].processes@.len() && (
                        #[trigger] more[a].processes@[b]) == pid;
                    if a < j {
                        assert(seen[a].processes@[b] == pid);
                        assert(before.contains(pid));
                        let i = choose|i: int| 0 <= i < before.len() && before[i] == pid;
                        assert(pids@[i] == pid);
                    } else {
                        assert(pids@[before.len() + b] == pid);
                    }
                }
            }
        }
        j = j + 1;
    }
    proof {
        assert(jobs@.take(j as int) =~= jobs@);
    }
    pids
}

/// The processes of `all` that belong to none of the jobs, in the order of `all`.
pub fn processes_without_job(all: &Vec<u32>, jobs: &Vec<Job>) -> (free: Vec<u32>)
    ensures
        free@ == all@.filter(|pid: u32| !in_a_job(jobs@, pid)),
{
    let taken = job_processes(jobs);
    let ghost pred = |pid: u32| !in_a_job(jobs@, pid);
    let mut free: Vec<u32> = Vec::new();
    let mut i: usize = 0;
    while i < all.len()
        invariant
            i <= all.len(),
            pred == |pid: u32| !in_a_job(jobs@, pid),
            forall|pid: u32| taken@.contains(pid) <==> in_a_job(jobs@, pid),
            free@ == all@.take(i as int).filter(pred),
        decreases all.len() - i,
    {
        let pid = all[i];
        proof {
            assert(all@.take(i + 1) =~= all@.take(i as int).push(pid));
            all@.take(i as int).lemma_filter_push(pid, pred);
        }
        let mut found = false;
        let mut k: usize = 0;
        while k < taken.len()
            invariant
                k <= taken.len(),
                found <==> exists|m: int| 0 <= m < k && taken@[m] == pid,
            decreases taken.len() - k,
        {
            if taken[k] == pid {
                found = true;
            }
            k = k + 1;
        }
        assert(found == taken@.contains(pid));
        if !found {
            free.push(pid);
        }
        i = i + 1;
    }
    proof {
        assert(all@.take(i as int) =~= all@);
    }
    free
}

/// The memory in use by a set of processes: by the processes of the job `job_id`, or
/// by the processes outside all jobs where `job_id` is `None`. `memory` gives the
/// bytes that each living process holds. `None` where the bytes together are more
/// than 64 bits hold.
pub fn node_usage(pids: &Vec<u32>, memory: &HashMap<u32, u64>, job_id: Option<String>, timestamp: String) -> (r:
    Option<NodeUsage>)
    ensures
        match r {
            Some(usage) => {
                &&& memory_sum(pids@, memory@) <= u64::MAX
                &&& usage.mem_alloc == memory_sum(pids@, memory@) / BYTES_PER_UNIT as nat
                &&& usage.node_id == NODE_ID
                &&& usage.job_id == job_id
                &&& usage.timestamp == timestamp
            },
            None => memory_sum(pids@, memory@) > u64::MAX,
        },
{
    let mut sum: u64 = 0;
    let mut i: usize = 0;
    while i < pids.len()
        invariant
            i <= pids.len(),
            sum == memory_sum(pids@.take(i as int), memory@),
        decreases pids.len() - i,
    {
        proof {
            assert(pids@.take(i + 1).drop_last() =~= pids@.take(i as int));
            assert(pids@.take(i + 1).last() == pids@[i as int]);
            lemma_memory_sum_grows(pids@, memory@, (i + 1) as nat);
        }
        match memory.get(&pids[i]) {
            Some(bytes) => {
                match sum.checked_add(*bytes) {
                    Some(next) => {
                        sum = next;
                    },
                    None => {
                        return None;
                    },
                }
            },
            None => {},
        }
        i = i + 1;
    }
    proof {
        assert(pids@.take(i as int) =~= pids@);
    }
    Some(NodeUsage { timestamp, node_id: NODE_ID, mem_alloc: sum / BYTES_PER_UNIT, job_id })
}

/// The memory of the first `n` processes is no more than that of all of them.
proof fn lemma_memory_sum_grows(pids: Seq<u32>, memory: Map<u32, u64>, n: nat)
    requires
        n <= pids.len(),
    ensures
        memory_sum(pids.take(n as int), memory) <= memory_sum(pids, memory),
    decreases pids.len() - n,
{
    if n < pids.len() {
        lemma_memory_sum_grows(pids, memory, n + 1);
        assert(pids.take(n as int + 1).drop_last() =~= pids.take(n as int));
    } else {
        assert(pids.take(n as int) =~= pids);
    }
}

/// The key that names a processor in the kernel's list of processors.
pub const CPUINFO_PROCESSOR: &'static str = "processor";

/// The key that gives the number of cores of a processor in that list.
pub const CPUINFO_CORES: &'static str = "cpu cores";

/// What stands before the first colon of a line; the whole line where it has none.
pub open spec fn before_colon(s: Seq<char>) -> Seq<char>
    decreases s.len(),
{
    if s.len() == 0 || s.first() == ':' {
        Seq::empty()
    } else {
        seq![s.first()] + before_colon(s.drop_first())
    }
}

/// What stands behind the first colon of a line; `None` where it has none.
pub open spec fn after_colon(s: Seq<char>) -> Option<Seq<char>>
    decreases s.len(),
{
    if s.len() == 0 {
        None
    } else if s.first() == ':' {
        Some(s.drop_first())
    } else {
        after_colon(s.drop_first())
    }
}

/// What has been read of a list of processors: the name and the number of cores
/// that were last seen, and the processors that are complete.
pub struct CpuScan {
    pub id: Option<Seq<char>>,
    pub cores: Option<u32>,
    pub nodes: Seq<(Seq<char>, u32)>,
}

/// What a line adds to what has been read. A line `processor: ...` gives the name
/// and a line `cpu cores: ...` the number of cores of the processor that an empty
/// line then completes; name and cores stay in force until they are given anew.
/// Every other line is passed over.
pub open spec fn scan_line(scan: CpuScan, line: Seq<char>, at: nat) -> Result<CpuScan, AgentError> {
    let key = trim_of(before_colon(line));
    match after_colon(line) {
        Some(rest) => if key == CPUINFO_PROCESSOR@ {
            Ok(CpuScan { id: Some(trim_of(rest)), cores: scan.cores, nodes: scan.nodes })
        } else if key == CPUINFO_CORES@ {
            match u32_of(trim_of(rest)) {
                Some(n) => Ok(CpuScan { id: scan.id, cores: Some(n), nodes: scan.nodes }),
                None => Err(AgentError::BadNumber { line: at as usize }),
            }
        } else {
            Ok(scan)
        },
        None => if key.len() == 0 {
            match (scan.id, scan.cores) {
                (Some(id), Some(cores)) => Ok(CpuScan { id: scan.id, cores: scan.cores, nodes: scan.nodes.push((id, cores)) }),
                _ => Err(AgentError::MissingField { line: at as usize }),
            }
        } else {
            Ok(scan)
        },
    }
}

/// What the first `n` lines of a list of processors give, or the error of the first
/// line that cannot be read.
pub open spec fn scan_upto(lines: Seq<Seq<char>>, n: nat) -> Result<CpuScan, AgentError>
    decreases n,
{
    if n == 0 {
        Ok(CpuScan { id: None, cores: None, nodes: Seq::empty() })
    } else {
        match scan_upto(lines, (n - 1) as nat) {
            Err(e) => Err(e),
            Ok(scan) => scan_line(scan, lines[n - 1], (n - 1) as nat),
        }
    }
}

/// Name and cores of each of a sequence of processors.
pub open spec fn cpu_views(nodes: Seq<CpuNode>) -> Seq<(Seq<char>, u32)> {
    Seq::new(nodes.len(), |i: int| (nodes[i].id@, nodes[i].core_count))
}

proof fn lemma_colon_at(s: Seq<char>, c: int)
    requires
        0 <= c <= s.len(),
        forall|k: int| 0 <= k < c ==> s[k] != ':',
        c < s.len() ==> s[c] == ':',
    ensures
        before_colon(s) == s.take(c),
        after_colon(s) == if c < s.len() {
            Some(s.skip(c + 1))
        } else {
            None
        },
    decreases s.len(),
{
    if s.len() == 0 {
        assert(s.take(c) =~= Seq::<char>::empty());
    } else if c == 0 {
        assert(s.take(c) =~= Seq::<char>::empty());
        assert(s.skip(1) =~= s.drop_first());
    } else {
        let rest = s.drop_first();
        assert forall|k: int| 0 <= k < c - 1 implies rest[k] != ':' by {
            assert(s[k + 1] != ':');
        }
        lemma_colon_at(rest, c - 1);
        assert(s.take(c) =~= seq![s.first()] + rest.take(c - 1));
        if c < s.len() {
            assert(rest.skip(c) =~= s.skip(c + 1));
        }
    }
}

fn trimmed_text(chars: &Vec<char>, from: usize, to: usize) -> (t: String)
    requires
        from <= to <= chars.len(),
    ensures
        t@ == trim_of(chars@.subrange(from as int, to as int)),
{
    let mut part: Vec<char> = Vec::new();
    let mut i: usize = from;
    while i < to
        invariant
            from <= i <= to <= chars.len(),
            part@ == chars@.subrange(from as int, i as int),
        decreases to - i,
    {
        part.push(chars[i]);
        assert(chars@.subrange(from as int, i + 1) =~= chars@.subrange(from as int, i as int).push(chars@[i as int]));
        i = i + 1;
    }
    let whole = text_of(&part);
    String::from_str(trimmed(whole.as_str()))
}

impl Cpu {
    /// Reads the kernel's list of processors: blocks of lines `key: value`, each block
    /// closed by an empty line.
    pub fn get_static_info(text: &str) -> (r: Result<Cpu, AgentError>)
        ensures
            match r {
                Ok(cpu) => match scan_upto(lines_of(text@), lines_of(text@).len()) {
                    Ok(scan) => cpu_views(cpu.nodes@) == scan.nodes,
                    Err(_) => false,
                },
                Err(e) => scan_upto(lines_of(text@), lines_of(text@).len()) == Err::<CpuScan, AgentError>(e),
            },
    {
        let chars = chars_of(text);
        let lines = split_lines(&chars);
        let ghost wanted = lines_of(text@);
        let processor = String::from_str(CPUINFO_PROCESSOR);
        let cores_key = String::from_str(CPUINFO_CORES);
        let mut id: Option<String> = None;
        let mut cores: Option<u32> = None;
        let mut nodes: Vec<CpuNode> = Vec::new();
        let mut n: usize = 0;
        assert(cpu_views(nodes@) =~= Seq::<(Seq<char>, u32)>::empty());
        while n < lines.len()
            invariant
                n <= lines.len(),
                wanted == lines_of(text@),
                char_rows(lines@) == wanted,
                processor@ == CPUINFO_PROCESSOR@,
                cores_key@ == CPUINFO_CORES@,
                scan_upto(wanted, n as nat) matches Ok(scan) && scan.cores == cores && scan.nodes == cpu_views(nodes@)
                    && match id {
                    Some(name) => scan.id == Some(name@),
                    None => scan.id is None,
                },
            decreases lines.len() - n,
        {
            let line = &lines[n];
            let ghost scan = scan_upto(wanted, n as nat)->Ok_0;
            proof {
                assert(wanted.len() == lines.len());
                assert(line@ == wanted[n as int]);
                lemma_scan_error_sticks(wanted, (n + 1) as nat, wanted.len());
                assert(scan_upto(wanted, (n + 1) as nat) == scan_line(scan, line@, n as nat));
            }
            let mut c: usize = 0;
            while c < line.len() && line[c] != ':'
                invariant
                    c <= line.len(),
                    forall|k: int| 0 <= k < c ==> line@[k] != ':',
                decreases line.len() - c,
            {
                c = c + 1;
            }
            proof {
                lemma_colon_at(line@, c as int);
                assert(line@.take(c as int) =~= line@.subrange(0, c as int));
            }
            let key = trimmed_text(line, 0, c);
            if c < line.len() {
                proof {
                    assert(line@.skip(c + 1) =~= line@.subrange(c + 1, line@.len() as int));
                }
                if key == processor {
                    id = Some(trimmed_text(line, c + 1, line.len()));
                } else if key == cores_key {
                    let value = trimmed_text(line, c + 1, line.len());
                    match parse_u32(value.as_str()) {
                        Ok(count) => {
                            cores = Some(count);
                        },
                        Err(_) => {
                            return Err(AgentError::BadNumber { line: n });
                        },
                    }
                }
            } else if key.as_str().unicode_len() == 0 {
                let ghost before = cpu_views(nodes@);
                match (&id, cores) {
                    (Some(name), Some(count)) => {
                        nodes.push(CpuNode { id: name.clone(), core_count: count });
                        assert(cpu_views(nodes@) =~= before.push((name@, count)));
                    },
                    _ => {
                        return Err(AgentError::MissingField { line: n });
                    },
                }
            }
            n = n + 1;
        }
        Ok(Cpu { nodes })
    }
}

proof fn lemma_scan_error_sticks(lines: Seq<Seq<char>>, n: nat, m: nat)
    requires
        n <= m,
    ensures
        scan_upto(lines, n) is Err ==> scan_upto(lines, m) == scan_upto(lines, n),
    decreases m - n,
{
    if n < m {
        lemma_scan_error_sticks(lines, n, (m - 1) as nat);
    }
}

/// What the scheduler prints where it knows no instant.
pub const NOT_AVAILABLE: &'static str = "N/A";

/// What stands for an instant that the scheduler does not know.
pub const EPOCH_TEXT: &'static str = "1970-01-01 00:00:00";

/// The text with a space in place of each `T`, or the epoch where the text says that
/// no instant is known.
pub open spec fn plain_time(word: Seq<char>) -> Seq<char> {
    if word == NOT_AVAILABLE@ {
        EPOCH_TEXT@
    } else {
        Seq::new(
            word.len(),
            |i: int|
                if word[i] == 'T' {
                    ' '
                } else {
                    word[i]
                },
        )
    }
}

/// The five texts of a job: its number, its name, its user, its start and its end.
pub struct JobText {
    pub id: Seq<char>,
    pub name: Seq<char>,
    pub user: Seq<char>,
    pub start_time: Seq<char>,
    pub end_time: Seq<char>,
}

/// The job that a line of the scheduler's list names by its first five words. The
/// third and the fourth word are taken as `plain_time` gives them, the others as
/// they stand.
pub open spec fn job_of(row: Seq<Seq<char>>, at: nat) -> Result<JobText, AgentError> {
    if row.len() < 5 {
        Err(AgentError::MissingField { line: at as usize })
    } else {
        Ok(
            JobText {
                id: row[0],
                name: row[1],
                user: plain_time(row[2]),
                start_time: plain_time(row[3]),
                end_time: row[4],
            },
        )
    }
}

/// The jobs that the first `n` lines name, or the error of the first line that
/// cannot be read.
pub open spec fn jobs_listed_upto(rows: Seq<Seq<Seq<char>>>, n: nat) -> Result<Seq<JobText>, AgentError>
    decreases n,
{
    if n == 0 {
        Ok(Seq::empty())
    } else {
        match jobs_listed_upto(rows, (n - 1) as nat) {
            Err(e) => Err(e),
            Ok(jobs) => match job_of(rows[n - 1], (n - 1) as nat) {
                Err(e) => Err(e),
                Ok(job) => Ok(jobs.push(job)),
            },
        }
    }
}

/// The texts of each of a sequence of jobs.
pub open spec fn job_texts(jobs: Seq<Job>) -> Seq<JobText> {
    Seq::new(
        jobs.len(),
        |i: int|
            JobText {
                id: jobs[i].id@,
                name: jobs[i].name@,
                user: jobs[i].user@,
                start_time: jobs[i].start_time@,
                end_time: jobs[i].end_time@,
            },
    )
}

fn plain_time_text(word: &String) -> (t: String)
    ensures
        t@ == plain_time(word@),
{
    let unknown = String::from_str(NOT_AVAILABLE);
    if *word == unknown {
        return String::from_str(EPOCH_TEXT);
    }
    let chars = chars_of(word.as_str());
    let mut plain: Vec<char> = Vec::new();
    let mut i: usize = 0;
    while i < chars.len()
        invariant
            i <= chars.len(),
            plain.len() == i,
            forall|k: int|
                0 <= k < i ==> plain@[k] == if chars@[k] == 'T' {
                    ' '
                } else {
                    chars@[k]
                },
        decreases chars.len() - i,
    {
        plain.push(
            if chars[i] == 'T' {
                ' '
            } else {
                chars[i]
            },
        );
        i = i + 1;
    }
    assert(plain@ =~= plain_time(word@));
    text_of(&plain)
}

impl Job {
    /// Reads the scheduler's list of running jobs: one line of headings, then one line
    /// for each job. The jobs come without their processes.
    pub fn get_jobs(output: &str) -> (r: Result<Vec<Job>, AgentError>)
        ensures
            match r {
                Ok(jobs) => {
                    &&& jobs_listed_upto(word_rows(output@, 1), word_rows(output@, 1).len()) == Ok::<
                        Seq<JobText>,
                        AgentError,
                    >(job_texts(jobs@))
                    &&& forall|i: int| 0 <= i < jobs.len() ==> (#[trigger] jobs[i]).processes@.len() == 0
                },
                Err(e) => jobs_listed_upto(word_rows(output@, 1), word_rows(output@, 1).len()) == Err::<
                    Seq<JobText>,
                    AgentError,
                >(e),
            },
    {
        let rows = split_rows(output, 1);
        let ghost wanted = word_rows(output@, 1);
        let mut jobs: Vec<Job> = Vec::new();
        let mut n: usize = 0;
        assert(job_texts(jobs@) =~= Seq::<JobText>::empty());
        while n < rows.len()
            invariant
                n <= rows.len(),
                wanted == word_rows(output@, 1),
                rows_of(rows@) == wanted,
                jobs_listed_upto(wanted, n as nat) == Ok::<Seq<JobText>, AgentError>(job_texts(jobs@)),
                forall|i: int| 0 <= i < jobs.len() ==> (#[trigger] jobs[i]).processes@.len() == 0,
            decreases rows.len() - n,
        {
            proof {
                assert(wanted.len() == rows.len());
                assert(wanted[n as int] == texts(rows[n as int]@));
                lemma_job_error_sticks(wanted, (n + 1) as nat, wanted.len());
            }
            let row = &rows[n];
            if row.len() < 5 {
                return Err(AgentError::MissingField { line: n });
            }
            proof {
                assert(texts(row@)[0] == row[0]@);
                assert(texts(row@)[1] == row[1]@);
                assert(texts(row@)[2] == row[2]@);
                assert(texts(row@)[3] == row[3]@);
                assert(texts(row@)[4] == row[4]@);
            }
            let ghost before = job_texts(jobs@);
            let job = Job {
                id: row[0].clone(),
                processes: Vec::new(),
                name: row[1].clone(),
                user: plain_time_text(&row[2]),
                start_time: plain_time_text(&row[3]),
                end_time: row[4].clone(),
            };
            jobs.push(job);
            assert(job_texts(jobs@) =~= before.push(job_of(wanted[n as int], n as nat)->Ok_0));
            n = n + 1;
        }
        Ok(jobs)
    }
}

proof fn lemma_job_error_sticks(rows: Seq<Seq<Seq<char>>>, n: nat, m: nat)
    requires
        n <= m,
    ensures
        jobs_listed_upto(rows, n) is Err ==> jobs_listed_upto(rows, m) == jobs_listed_upto(rows, n),
    decreases m - n,
{
    if n < m {
        lemma_job_error_sticks(rows, n, (m - 1) as nat);
    }
}

impl NodeUsage {
    /// The memory in use by the processes of a job.
    pub fn get_usage_per_job(memory: &HashMap<u32, u64>, job: &Job, timestamp: String) -> (r: Option<NodeUsage>)
        ensures
            match r {
                Some(usage) => {
                    &&& memory_sum(job.processes@, memory@) <= u64::MAX
                    &&& usage.mem_alloc == memory_sum(job.processes@, memory@) / BYTES_PER_UNIT as nat
                    &&& usage.node_id == NODE_ID
                    &&& usage.job_id == Some(job.id)
                    &&& usage.timestamp == timestamp
                },
                None => memory_sum(job.processes@, memory@) > u64::MAX,
            },
    {
        node_usage(&job.processes, memory, Some(job.id.clone()), timestamp)
    }

    /// The memory in use by the processes of `all` that belong to none of the jobs.
    pub fn get_non_job_usage(memory: &HashMap<u32, u64>, all: &Vec<u32>, jobs: &Vec<Job>, timestamp: String) -> (r:
        Option<NodeUsage>)
        ensures
            match r {
                Some(usage) => {
                    &&& memory_sum(all@.filter(|pid: u32| !in_a_job(jobs@, pid)), memory@) <= u64::MAX
                    &&& usage.mem_alloc == memory_sum(all@.filter(|pid: u32| !in_a_job(jobs@, pid)), memory@)
                        / BYTES_PER_UNIT as nat
                    &&& usage.node_id == NODE_ID
                    &&& usage.job_id is None
                    &&& usage.timestamp == timestamp
                },
                None => memory_sum(all@.filter(|pid: u32| !in_a_job(jobs@, pid)), memory@) > u64::MAX,
            },
    {
        let free = processes_without_job(all, jobs);
        node_usage(&free, memory, None, timestamp)
    }
}

} // verus!
