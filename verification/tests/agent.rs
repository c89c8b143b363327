use std::collections::HashMap;

use cluster_monitor::agent::{
    is_space, node_usage, processes_without_job, split_rows, words, AgentError, BYTES_PER_UNIT, EPOCH_TEXT, NODE_ID,
    NOT_AVAILABLE,
};
use cluster_monitor::measurement::{Cpu, CpuNode, CpuUsage, GpuInfo, Job, NodeInfo, NodeUsage};

fn chars(text: &str) -> Vec<char> {
    text.chars().collect()
}

#[test]
fn words_are_runs_without_white_space() {
    assert_eq!(words(&chars("  12  abc\tx ")), vec!["12", "abc", "x"]);
    assert_eq!(words(&chars("one")), vec!["one"]);
    assert_eq!(words(&chars("")), Vec::<String>::new());
    assert_eq!(words(&chars(" \t ")), Vec::<String>::new());
    assert_eq!(words(&chars("a\u{a0}b\u{3000}c")), vec!["a", "b", "c"]);
}

#[test]
fn words_agree_with_std() {
    for text in ["  12  abc\tx ", "a b", " a", "a ", "", "\u{2003}x\u{85}y", "a\u{200b}b", "é ü"] {
        let expected: Vec<String> = text.split_whitespace().map(String::from).collect();
        assert_eq!(words(&chars(text)), expected);
    }
    for code in 0..0x3100u32 {
        if let Some(c) = char::from_u32(code) {
            assert_eq!(is_space(c), c.is_whitespace());
        }
    }
}

#[test]
fn rows_skip_the_headings() {
    assert_eq!(split_rows("PID PSR\n 1 0\n22   3\n", 1), vec![vec!["1", "0"], vec!["22", "3"]]);
    assert_eq!(split_rows("PID PSR\n 1 0\n22   3\n", 0).len(), 3);
    assert_eq!(split_rows("PID PSR\n", 1), Vec::<Vec<String>>::new());
    assert_eq!(split_rows("", 1), Vec::<Vec<String>>::new());
    assert_eq!(split_rows("a\n\nb", 1), vec![Vec::<String>::new(), vec![String::from("b")]]);
    assert_eq!(split_rows("a\nb", 5), Vec::<Vec<String>>::new());
}

#[test]
fn process_lists() {
    let output = "PID      JOBID    STEPID   LOCALID GLOBALID\n4242     17       batch    0       0\n4243     17       0        0       0\n";
    assert_eq!(Job::get_process_per_job_id(output), Ok(vec![4242, 4243]));
    assert_eq!(Job::get_process_per_job_id("PID JOBID\n"), Ok(vec![]));
    assert_eq!(Job::get_process_per_job_id(""), Ok(vec![]));
    assert_eq!(Job::get_process_per_job_id("PID\n1\n\n3"), Err(AgentError::MissingField { line: 1 }));
    assert_eq!(Job::get_process_per_job_id("PID\n1\n-2\nx"), Err(AgentError::BadNumber { line: 1 }));
    assert_eq!(Job::get_process_per_job_id("PID\n4294967295\n4294967296"), Err(AgentError::BadNumber { line: 1 }));
    assert_eq!(Job::get_process_per_job_id("PID\n+7 x y"), Ok(vec![7]));
}

#[test]
fn processors_of_processes() {
    let found = CpuUsage::get_pid_psr("  PID PSR\n    1   0\n   17   3\n    1   2\n").unwrap();
    assert_eq!(found.len(), 2);
    assert_eq!(found.get(&1), Some(&2));
    assert_eq!(found.get(&17), Some(&3));
    assert_eq!(CpuUsage::get_pid_psr("PID PSR").unwrap().len(), 0);
    assert_eq!(CpuUsage::get_pid_psr("PID PSR\n1 0\n2\n3 x").unwrap_err(), AgentError::MissingField { line: 1 });
    assert_eq!(CpuUsage::get_pid_psr("PID PSR\n1 0\n2 x\n3").unwrap_err(), AgentError::BadNumber { line: 1 });
    assert_eq!(CpuUsage::get_pid_psr("PID PSR\nx 0").unwrap_err(), AgentError::BadNumber { line: 0 });
}

#[test]
fn graphics_processors() {
    let output = "GPU-1a2b, 16384 MiB\nGPU-3c4d, 81920 MiB\n";
    assert_eq!(
        GpuInfo::get_static_info(output),
        Ok(vec![
            GpuInfo { id: String::from("GPU-1a2b"), mem_total: 16_384 },
            GpuInfo { id: String::from("GPU-3c4d"), mem_total: 81_920 },
        ])
    );
    assert_eq!(GpuInfo::get_static_info(""), Ok(vec![]));
    assert_eq!(GpuInfo::get_static_info(",a,,b, 1"), Ok(vec![GpuInfo { id: String::from("ab"), mem_total: 1 }]));
    assert_eq!(GpuInfo::get_static_info("GPU-1, 1\nGPU-2,"), Err(AgentError::MissingField { line: 1 }));
    assert_eq!(GpuInfo::get_static_info("GPU-1, 16384MiB"), Err(AgentError::BadNumber { line: 0 }));
}

fn job(id: &str, processes: Vec<u32>) -> Job {
    Job {
        id: String::from(id),
        processes,
        name: String::from("train"),
        user: String::from("ada"),
        start_time: String::from("2024-11-15 10:00:00"),
        end_time: String::from("2024-11-16 10:00:00"),
    }
}

#[test]
fn processes_outside_all_jobs() {
    let jobs = vec![job("1", vec![10, 11]), job("2", vec![]), job("3", vec![12, 10])];
    assert_eq!(processes_without_job(&vec![9, 10, 13, 12, 9, 11], &jobs), vec![9, 13, 9]);
    assert_eq!(processes_without_job(&vec![], &jobs), Vec::<u32>::new());
    assert_eq!(processes_without_job(&vec![1, 2], &vec![]), vec![1, 2]);
    assert_eq!(processes_without_job(&vec![10, 12], &jobs), Vec::<u32>::new());
}

#[test]
fn node_facts_and_usage() {
    assert_eq!(NodeInfo::get_static_info(67_999_999_999), NodeInfo { id: 1, mem_total: 67_999 });
    assert_eq!(NodeInfo::get_static_info(999_999), NodeInfo { id: 1, mem_total: 0 });
    assert_eq!((NODE_ID, BYTES_PER_UNIT), (1, 1_000_000));

    let memory: HashMap<u32, u64> = [(10, 1_500_000), (11, 600_000), (12, 7)].into_iter().collect();
    let stamp = String::from("2024-11-15 10:00:00");
    assert_eq!(
        node_usage(&vec![10, 11, 99], &memory, Some(String::from("17")), stamp.clone()),
        Some(NodeUsage { timestamp: stamp.clone(), node_id: 1, mem_alloc: 2, job_id: Some(String::from("17")) })
    );
    assert_eq!(
        node_usage(&vec![], &memory, None, stamp.clone()),
        Some(NodeUsage { timestamp: stamp.clone(), node_id: 1, mem_alloc: 0, job_id: None })
    );
    assert_eq!(node_usage(&vec![10, 10], &memory, None, stamp.clone()).unwrap().mem_alloc, 3);

    let jobs = vec![job("17", vec![10, 11, 99]), job("18", vec![12])];
    assert_eq!(
        NodeUsage::get_usage_per_job(&memory, &jobs[0], stamp.clone()),
        Some(NodeUsage { timestamp: stamp.clone(), node_id: 1, mem_alloc: 2, job_id: Some(String::from("17")) })
    );
    assert_eq!(
        NodeUsage::get_non_job_usage(&memory, &vec![10, 12, 11, 5], &jobs[..1].to_vec(), stamp.clone()),
        Some(NodeUsage { timestamp: stamp.clone(), node_id: 1, mem_alloc: 0, job_id: None })
    );
    assert_eq!(
        NodeUsage::get_non_job_usage(&memory, &vec![10, 12, 11, 5], &vec![], stamp.clone()).unwrap().mem_alloc,
        2
    );

    let huge: HashMap<u32, u64> = [(1, u64::MAX), (2, 1)].into_iter().collect();
    assert_eq!(node_usage(&vec![1], &huge, None, stamp.clone()).unwrap().mem_alloc, 18_446_744_073_709);
    assert_eq!(node_usage(&vec![1, 2], &huge, None, stamp.clone()), None);
    assert_eq!(node_usage(&vec![2, 3, 1], &huge, None, stamp), None);
}

#[test]
fn processor_lists() {
    let text = "processor\t: 0\nmodel name\t: Example CPU @ 2.00GHz\ncpu cores\t: 8\nflags\t\t: fpu vme\n\nprocessor\t: 1\ncpu cores\t: 8\n\n";
    assert_eq!(
        Cpu::get_static_info(text),
        Ok(Cpu {
            nodes: vec![
                CpuNode { id: String::from("0"), core_count: 8 },
                CpuNode { id: String::from("1"), core_count: 8 },
            ]
        })
    );
    assert_eq!(Cpu::get_static_info(""), Ok(Cpu { nodes: vec![] }));
    assert_eq!(Cpu::get_static_info("processor: 0\ncpu cores: 4"), Ok(Cpu { nodes: vec![] }));
    assert_eq!(
        Cpu::get_static_info("processor: 0\ncpu cores: 4\n\nprocessor: 1\n\n"),
        Ok(Cpu {
            nodes: vec![
                CpuNode { id: String::from("0"), core_count: 4 },
                CpuNode { id: String::from("1"), core_count: 4 },
            ]
        })
    );
    assert_eq!(
        Cpu::get_static_info("processor : a:b \n cpu cores:+2\n  \n"),
        Ok(Cpu { nodes: vec![CpuNode { id: String::from("a:b"), core_count: 2 }] })
    );
}

#[test]
fn processor_list_errors() {
    assert_eq!(Cpu::get_static_info("processor: 0\n\n"), Err(AgentError::MissingField { line: 1 }));
    assert_eq!(Cpu::get_static_info("\n"), Err(AgentError::MissingField { line: 0 }));
    assert_eq!(Cpu::get_static_info("cpu cores: 4\nx\n\n"), Err(AgentError::MissingField { line: 2 }));
    assert_eq!(Cpu::get_static_info("processor: 0\ncpu cores: four\n\n"), Err(AgentError::BadNumber { line: 1 }));
    assert_eq!(Cpu::get_static_info("cpu cores:\n"), Err(AgentError::BadNumber { line: 0 }));
    assert_eq!(Cpu::get_static_info("processor: 0\ncpu cores: 1\n:\n"), Ok(Cpu { nodes: vec![] }));
}

#[test]
fn scheduler_job_lists() {
    let output = "JOBID NAME USER START_TIME END_TIME PARTITION ST TIME NODES\n   17 train ada 2024-11-15T10:00:00 2024-11-16T10:00:00 gpu R 1:00 1\n   18 eval bob N/A N/A gpu R 0:00 1\n";
    let jobs = Job::get_jobs(output).unwrap();
    assert_eq!(
        jobs,
        vec![
            Job {
                id: String::from("17"),
                processes: vec![],
                name: String::from("train"),
                user: String::from("ada"),
                start_time: String::from("2024-11-15 10:00:00"),
                end_time: String::from("2024-11-16T10:00:00"),
            },
            Job {
                id: String::from("18"),
                processes: vec![],
                name: String::from("eval"),
                user: String::from("bob"),
                start_time: String::from("1970-01-01 00:00:00"),
                end_time: String::from("N/A"),
            },
        ]
    );
    assert_eq!(Job::get_jobs("JOBID NAME USER START_TIME END_TIME\n"), Ok(vec![]));
    assert_eq!(Job::get_jobs(""), Ok(vec![]));
    assert_eq!(Job::get_jobs("H\n1 a b c d\n2 a b c\n"), Err(AgentError::MissingField { line: 1 }));
    let jobs = Job::get_jobs("H\n1 a N/A TxT N/A\n").unwrap();
    assert_eq!(jobs[0].user, EPOCH_TEXT);
    assert_eq!(jobs[0].start_time, " x ");
    assert_eq!(jobs[0].end_time, NOT_AVAILABLE);
}
