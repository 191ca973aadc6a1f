//! One capture of system and process metrics.

use vstd::prelude::*;
use crate::usage::CpuUsage;

verus! {

/// What the monitor shows of one running process.
#[derive(Debug)]
pub struct ProcessInfo {
    /// Identifier of the process; a label within one snapshot only.
    pub pid: u32,
    pub name: String,
    pub cpu_usage: CpuUsage,
    /// Resident memory, in bytes.
    pub memory_bytes: u64,
}

impl Clone for ProcessInfo {
    fn clone(&self) -> (copy: Self)
        ensures
            copy == *self,
    {
        ProcessInfo {
            pid: self.pid,
            name: self.name.clone(),
            cpu_usage: self.cpu_usage,
            memory_bytes: self.memory_bytes,
        }
    }
}

/// A complete capture of memory, swap, CPU and process metrics at one point
/// in time. A snapshot is never merged with another: the next one replaces it.
#[derive(Debug)]
pub struct MetricsSnapshot {
    pub memory_used_bytes: u64,
    pub memory_total_bytes: u64,
    pub swap_used_bytes: u64,
    pub swap_total_bytes: u64,
    /// Utilisation over all processors.
    pub cpu_usage: CpuUsage,
    /// The processes in the order in which they were collected.
    pub processes: Vec<ProcessInfo>,
}

} // verus!
