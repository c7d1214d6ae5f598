//! The values that the collectors produce and the monitor displays.
use vstd::prelude::*;
use crate::text::{contains, has_substring};

verus! {

/// Physical memory and swap, in bytes.
#[derive(Debug, Clone, Copy, PartialEq, Eq, Structural)]
pub struct MemoryInfo {
    pub total: u64,
    pub used: u64,
    pub swap_total: u64,
    pub swap_used: u64,
}

/// The developer tool a process belongs to, judged by its name.
#[derive(Debug, Clone, Copy, PartialEq, Eq, Structural)]
pub enum ProcessType {
    Cargo,
    Node,
    Python,
    Docker,
    Other,
}

/// The kind of a process with the given name: the first rule that matches
/// wins, in the order Rust (`cargo`, `rustc`), Node (`node`, `npm`),
/// Python (`python`), Docker (`docker`, `containerd`).
pub open spec fn classify(name: Seq<char>) -> ProcessType {
    if has_substring(name, "cargo"@) || has_substring(name, "rustc"@) {
        ProcessType::Cargo
    } else if has_substring(name, "node"@) || has_substring(name, "npm"@) {
        ProcessType::Node
    } else if has_substring(name, "python"@) {
        ProcessType::Python
    } else if has_substring(name, "docker"@) || has_substring(name, "containerd"@) {
        ProcessType::Docker
    } else {
        ProcessType::Other
    }
}

/// The classification rules one by one: a name holding `cargo` or `rustc`
/// is Rust; otherwise one holding `node` or `npm` is Node; otherwise one
/// holding `python` is Python; otherwise one holding `docker` or
/// `containerd` is Docker; a name holding none of them is Other.
pub proof fn lemma_classify_rules(name: Seq<char>)
    ensures
        has_substring(name, "cargo"@) ==> classify(name) == ProcessType::Cargo,
        has_substring(name, "rustc"@) ==> classify(name) == ProcessType::Cargo,
        !has_substring(name, "cargo"@) && !has_substring(name, "rustc"@) && (has_substring(
            name,
            "node"@,
        ) || has_substring(name, "npm"@)) ==> classify(name) == ProcessType::Node,
        !has_substring(name, "cargo"@) && !has_substring(name, "rustc"@) && !has_substring(
            name,
            "node"@,
        ) && !has_substring(name, "npm"@) && has_substring(name, "python"@) ==> classify(name)
            == ProcessType::Python,
        !has_substring(name, "cargo"@) && !has_substring(name, "rustc"@) && !has_substring(
            name,
            "node"@,
        ) && !has_substring(name, "npm"@) && !has_substring(name, "python"@) && (has_substring(
            name,
            "docker"@,
        ) || has_substring(name, "containerd"@)) ==> classify(name) == ProcessType::Docker,
        classify(name) == ProcessType::Other <==> !has_substring(name, "cargo"@) && !has_substring(
            name,
            "rustc"@,
        ) && !has_substring(name, "node"@) && !has_substring(name, "npm"@) && !has_substring(
            name,
            "python"@,
        ) && !has_substring(name, "docker"@) && !has_substring(name, "containerd"@),
{
}

impl ProcessType {
    /// The three-column badge shown in front of a process.
    pub open spec fn spec_icon(self) -> Seq<char> {
        match self {
            ProcessType::Cargo => "[R]"@,
            ProcessType::Node => "[N]"@,
            ProcessType::Python => "[P]"@,
            ProcessType::Docker => "[D]"@,
            ProcessType::Other => "   "@,
        }
    }

    /// Classifies a process by its name; see `classify`.
    pub fn from_name(name: &str) -> (r: ProcessType)
        ensures
            r == classify(name@),
    {
        if contains(name, "cargo") || contains(name, "rustc") {
            ProcessType::Cargo
        } else if contains(name, "node") || contains(name, "npm") {
            ProcessType::Node
        } else if contains(name, "python") {
            ProcessType::Python
        } else if contains(name, "docker") || contains(name, "containerd") {
            ProcessType::Docker
        } else {
            ProcessType::Other
        }
    }

    /// The badge of this kind of process.
    pub fn icon(&self) -> (r: &'static str)
        ensures
            r@ == self.spec_icon(),
    {
        match self {
            ProcessType::Cargo => "[R]",
            ProcessType::Node => "[N]",
            ProcessType::Python => "[P]",
            ProcessType::Docker => "[D]",
            ProcessType::Other => "   ",
        }
    }
}

/// The order in which the process list is shown.
#[derive(Debug, Clone, Copy, PartialEq, Eq, Structural)]
pub enum SortMode {
    Cpu,
    Memory,
    Pid,
}

impl SortMode {
    /// The mode that follows this one in the cycle CPU, memory, PID.
    pub open spec fn spec_next(self) -> SortMode {
        match self {
            SortMode::Cpu => SortMode::Memory,
            SortMode::Memory => SortMode::Pid,
            SortMode::Pid => SortMode::Cpu,
        }
    }

    /// The short name shown in the process panel's title.
    pub open spec fn spec_label(self) -> Seq<char> {
        match self {
            SortMode::Cpu => "CPU"@,
            SortMode::Memory => "MEM"@,
            SortMode::Pid => "PID"@,
        }
    }

    /// Cycles the sort mode: CPU, then memory, then PID, then CPU again.
    pub fn next(&self) -> (r: SortMode)
        ensures
            r == self.spec_next(),
    {
        match self {
            SortMode::Cpu => SortMode::Memory,
            SortMode::Memory => SortMode::Pid,
            SortMode::Pid => SortMode::Cpu,
        }
    }

    /// The short name of this mode.
    pub fn label(&self) -> (r: &'static str)
        ensures
            r@ == self.spec_label(),
    {
        match self {
            SortMode::Cpu => "CPU",
            SortMode::Memory => "MEM",
            SortMode::Pid => "PID",
        }
    }
}

/// Cycling the sort mode three times gives back the mode one started from,
/// and each step changes the mode.
pub proof fn lemma_sort_mode_cycle(m: SortMode)
    ensures
        m.spec_next().spec_next().spec_next() == m,
        m.spec_next() != m,
        m.spec_next().spec_next() != m,
{
}

/// One process as the process list shows it.
///
/// `cpu_usage_bits` stands for the CPU usage in percent: it is the bit
/// pattern of the non-negative `f32` usage, so that comparing two keys as
/// integers orders them as the usages compare.
#[derive(Debug, Clone)]
pub struct ProcessInfo {
    pub pid: u32,
    pub name: String,
    pub cpu_usage_bits: u32,
    pub memory_kb: u64,
    pub process_type: ProcessType,
}

impl ProcessInfo {
    /// A process record from one sample: the resident memory is given in
    /// bytes and kept in whole KiB, and the kind is judged by the name.
    pub fn from_sample(pid: u32, name: String, cpu_usage_bits: u32, memory_bytes: u64) -> (r:
        ProcessInfo)
        ensures
            r.pid == pid,
            r.name@ == name@,
            r.cpu_usage_bits == cpu_usage_bits,
            r.memory_kb == memory_bytes / 1024,
            r.process_type == classify(name@),
    {
        let process_type = ProcessType::from_name(name.as_str());
        ProcessInfo { pid, name, cpu_usage_bits, memory_kb: memory_bytes / 1024, process_type }
    }
}

/// One container as the Docker panel shows it.
///
/// `cpu_percent_bits` is the bit pattern of the `f64` CPU percentage; the
/// library carries it without reading it.
#[derive(Debug, Clone)]
pub struct ContainerInfo {
    pub name: String,
    pub status: String,
    pub cpu_percent_bits: u64,
    pub memory_bytes: u64,
    pub memory_limit: u64,
}

/// Throughput of one network interface, in bytes per second.
#[derive(Debug, Clone)]
pub struct NetworkInfo {
    pub name: String,
    pub rx_bps: u64,
    pub tx_bps: u64,
}

/// Throughput of one disk, in bytes per second.
#[derive(Debug, Clone)]
pub struct DiskInfo {
    pub name: String,
    pub mount_point: String,
    pub read_bps: u64,
    pub write_bps: u64,
}

/// One update sent by a collector to the monitor.
///
/// `Cpu` carries one sample per core: the bit pattern of the `f64` usage in
/// percent, which the library stores without reading it.
#[derive(Debug)]
pub enum CollectorMessage {
    Cpu(Vec<u64>),
    Memory(MemoryInfo),
    Process(Vec<ProcessInfo>),
    Docker(Vec<ContainerInfo>),
    Network(Vec<NetworkInfo>),
    Disk(Vec<DiskInfo>),
}

} // verus!
