use devtop::docker::{
    cpu_usage_deltas, is_running, read_container, ContainerStats, ContainerSummary, CpuDeltas,
    CpuSampleTable,
};

#[test]
fn cpu_usage_deltas_no_prev() {
    assert_eq!(cpu_usage_deltas(1000, 10000, 4, None), None);
}

#[test]
fn cpu_usage_deltas_normal() {
    // cpu_delta=100, system_delta=1000, cpus=4 -> 40%
    assert_eq!(
        cpu_usage_deltas(1100, 11000, 4, Some((1000, 10000))),
        Some(CpuDeltas { cpu_delta: 100, system_delta: 1000, online_cpus: 4 })
    );
}

#[test]
fn cpu_usage_deltas_zero_system_delta() {
    assert_eq!(cpu_usage_deltas(1100, 10000, 4, Some((1000, 10000))), None);
}

#[test]
fn cpu_usage_deltas_counters_going_back() {
    // system counter went back: no growth, so no percentage
    assert_eq!(cpu_usage_deltas(500, 9000, 4, Some((1000, 10000))), None);
    // only the container counter went back: it counts as no growth
    assert_eq!(
        cpu_usage_deltas(500, 11000, 4, Some((1000, 10000))),
        Some(CpuDeltas { cpu_delta: 0, system_delta: 1000, online_cpus: 4 })
    );
}

#[test]
fn sample_table_get_insert_remove() {
    let mut t = CpuSampleTable::new();
    let a = "abc".to_string();
    let b = "def".to_string();
    assert_eq!(t.get(&a), None);
    t.insert(a.clone(), (1, 2));
    t.insert(b.clone(), (3, 4));
    assert_eq!(t.get(&a), Some((1, 2)));
    t.insert(a.clone(), (5, 6));
    assert_eq!(t.get(&a), Some((5, 6)));
    assert_eq!(t.get(&b), Some((3, 4)));
    t.remove(&a);
    assert_eq!(t.get(&a), None);
    assert_eq!(t.get(&b), Some((3, 4)));
    t.remove(&a);
    assert_eq!(t.get(&b), Some((3, 4)));
}

fn stats(cpu_total: u64, system: u64) -> ContainerStats {
    ContainerStats {
        cpu_total,
        system_cpu: Some(system),
        online_cpus: Some(2),
        memory_usage: Some(300),
        memory_limit: Some(1000),
    }
}

#[test]
fn read_container_names_and_deltas() {
    let mut table = CpuSampleTable::new();
    let summary = ContainerSummary {
        id: Some("0123456789abcdef".to_string()),
        names: Some(vec!["//web".to_string(), "other".to_string()]),
        status: Some("Up 2 minutes".to_string()),
    };
    let first = read_container(&summary, Some(stats(100, 1000)), &mut table).unwrap();
    assert_eq!(first.name, "web");
    assert_eq!(first.status, "Up 2 minutes");
    assert_eq!(first.cpu, None);
    assert_eq!(first.memory_bytes, 300);
    assert_eq!(first.memory_limit, 1000);
    let second = read_container(&summary, Some(stats(150, 1500)), &mut table).unwrap();
    assert_eq!(second.cpu, Some(CpuDeltas { cpu_delta: 50, system_delta: 500, online_cpus: 2 }));
    // without statistics the previous reading is forgotten
    let third = read_container(&summary, None, &mut table).unwrap();
    assert_eq!(third.cpu, None);
    assert_eq!(third.memory_bytes, 0);
    assert_eq!(table.get(&"0123456789abcdef".to_string()), None);
}

#[test]
fn read_container_fallbacks() {
    let mut table = CpuSampleTable::new();
    let unnamed = ContainerSummary {
        id: Some("0123456789abcdef".to_string()),
        names: Some(vec![]),
        status: None,
    };
    let r = read_container(&unnamed, None, &mut table).unwrap();
    assert_eq!(r.name, "0123456789ab");
    assert_eq!(r.status, "unknown");
    let short = ContainerSummary { id: Some("abc".to_string()), names: None, status: None };
    assert_eq!(read_container(&short, None, &mut table).unwrap().name, "abc");
    let no_id = ContainerSummary { id: None, names: None, status: None };
    assert!(read_container(&no_id, Some(stats(1, 1)), &mut table).is_none());
    // defaults when the daemon leaves fields out
    let bare = ContainerStats {
        cpu_total: 5,
        system_cpu: None,
        online_cpus: None,
        memory_usage: None,
        memory_limit: None,
    };
    let r = read_container(&short, Some(bare), &mut table).unwrap();
    assert_eq!(r.memory_limit, 0);
    assert_eq!(table.get(&"abc".to_string()), Some((5, 0)));
}

#[test]
fn running_status() {
    assert!(is_running("running"));
    assert!(is_running("Up (running)"));
    assert!(!is_running("exited"));
}
