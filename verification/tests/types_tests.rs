use devtop::types::{MemoryInfo, ProcessInfo, ProcessType, SortMode};

#[test]
fn test_memory_info_fields() {
    let info = MemoryInfo {
        total: 16 * 1024 * 1024 * 1024,
        used: 8 * 1024 * 1024 * 1024,
        swap_total: 4 * 1024 * 1024 * 1024,
        swap_used: 1 * 1024 * 1024 * 1024,
    };
    assert_eq!(info.total, 16 * 1024 * 1024 * 1024);
    assert!(info.used < info.total);
}

#[test]
fn test_process_type_from_name() {
    assert_eq!(ProcessType::from_name("cargo"), ProcessType::Cargo);
    assert_eq!(ProcessType::from_name("node"), ProcessType::Node);
    assert_eq!(ProcessType::from_name("python3"), ProcessType::Python);
    assert_eq!(ProcessType::from_name("dockerd"), ProcessType::Docker);
    assert_eq!(ProcessType::from_name("bash"), ProcessType::Other);
}

#[test]
fn test_sort_mode_cycle() {
    assert_eq!(SortMode::Cpu.next(), SortMode::Memory);
    assert_eq!(SortMode::Memory.next(), SortMode::Pid);
    assert_eq!(SortMode::Pid.next(), SortMode::Cpu);
}

#[test]
fn sort_mode_cycles_back_after_three_steps() {
    for m in [SortMode::Cpu, SortMode::Memory, SortMode::Pid] {
        assert_eq!(m.next().next().next(), m);
        assert_ne!(m.next(), m);
    }
}

#[test]
fn from_name_matches_anywhere_and_by_priority() {
    assert_eq!(ProcessType::from_name("rustc"), ProcessType::Cargo);
    assert_eq!(ProcessType::from_name("cargo-watch"), ProcessType::Cargo);
    assert_eq!(ProcessType::from_name("npm"), ProcessType::Node);
    assert_eq!(ProcessType::from_name("containerd-shim"), ProcessType::Docker);
    // the Rust rule is tried before the Node rule
    assert_eq!(ProcessType::from_name("node-cargo"), ProcessType::Cargo);
    // matching is case-sensitive
    assert_eq!(ProcessType::from_name("Python"), ProcessType::Other);
    assert_eq!(ProcessType::from_name(""), ProcessType::Other);
}

#[test]
fn icons_and_labels() {
    assert_eq!(ProcessType::Cargo.icon(), "[R]");
    assert_eq!(ProcessType::Node.icon(), "[N]");
    assert_eq!(ProcessType::Python.icon(), "[P]");
    assert_eq!(ProcessType::Docker.icon(), "[D]");
    assert_eq!(ProcessType::Other.icon(), "   ");
    assert_eq!(SortMode::Cpu.label(), "CPU");
    assert_eq!(SortMode::Memory.label(), "MEM");
    assert_eq!(SortMode::Pid.label(), "PID");
}

#[test]
fn process_from_sample_keeps_kib_and_kind() {
    let p = ProcessInfo::from_sample(7, "node".to_string(), 0, 5000);
    assert_eq!(p.pid, 7);
    assert_eq!(p.memory_kb, 4);
    assert_eq!(p.process_type, ProcessType::Node);
}
