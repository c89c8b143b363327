//! What an agent reports: one timestamped observation of a compute node.

use vstd::prelude::*;
use crate::time::Timestamp;

verus! {

/// Static facts about a node.
#[derive(Debug, Clone, PartialEq, Eq)]
pub struct NodeInfo {
    pub id: u32,
    pub mem_total: u64,
}

/// Memory in use on a node, by one job or by everything outside jobs.
#[derive(Debug, Clone, PartialEq, Eq)]
pub struct NodeUsage {
    pub timestamp: String,
    pub node_id: u32,
    pub mem_alloc: u64,
    pub job_id: Option<String>,
}

/// One processor of a node.
#[derive(Debug, Clone, PartialEq, Eq)]
pub struct CpuNode {
    pub id: String,
    pub core_count: u32,
}

/// The processors of a node.
#[derive(Debug, Clone, PartialEq, Eq)]
pub struct Cpu {
    pub nodes: Vec<CpuNode>,
}

/// Load on one processor. The load is a 32-bit IEEE 754 number, kept as its bit pattern.
#[derive(Debug, Clone, PartialEq, Eq)]
pub struct CpuUsage {
    pub node_id: String,
    pub usage_bits: u32,
    pub job_id: Option<String>,
}

/// Static facts about one graphics processor.
#[derive(Debug, Clone, PartialEq, Eq)]
pub struct GpuInfo {
    pub id: String,
    pub mem_total: u32,
}

/// Load on one graphics processor. The utilisation is a 32-bit IEEE 754 number,
/// kept as its bit pattern.
#[derive(Debug, Clone, PartialEq, Eq)]
pub struct GpuUsage {
    pub timestamp: String,
    pub gpu_id: String,
    pub gpu_mem_alloc: u32,
    pub gpu_usage_bits: u32,
    pub job_id: Option<String>,
}

/// A job of the cluster scheduler and the processes that belong to it.
#[derive(Debug, Clone, PartialEq, Eq)]
pub struct Job {
    pub id: String,
    pub processes: Vec<u32>,
    pub name: String,
    pub user: String,
    pub start_time: String,
    pub end_time: String,
}

/// The capabilities of a node, sent once in an agent's lifetime.
#[derive(Debug, Clone, PartialEq, Eq)]
pub struct StaticInfo {
    pub node_info: NodeInfo,
    pub cpu_info: Cpu,
    pub gpu_info: Vec<GpuInfo>,
}

/// A snapshot of usage, per job and outside jobs.
#[derive(Debug, Clone, PartialEq, Eq)]
pub struct MonitorInfo {
    pub jobs: Vec<Job>,
    pub node_usages: Vec<NodeUsage>,
    pub cpu_usages: Vec<CpuUsage>,
    pub gpu_usages: Vec<GpuUsage>,
}

/// What a measurement observes.
#[derive(Debug, Clone, PartialEq, Eq)]
pub enum State {
    /// The capabilities of the node.
    Initial(StaticInfo),
    /// The usage of the node at the instant of the measurement.
    Current(MonitorInfo),
}

/// One observation and the instant at which the agent made it.
#[derive(Debug, Clone, PartialEq, Eq)]
pub struct Measurement {
    pub time: Timestamp,
    pub state: State,
}

} // verus!
