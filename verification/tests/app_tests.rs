use devtop::app::{App, Key, CPU_HISTORY_LEN};
use devtop::types::{CollectorMessage, ContainerInfo, MemoryInfo, ProcessInfo, ProcessType, SortMode};

fn make_process(name: &str, cpu: f32, mem: u64, pid: u32) -> ProcessInfo {
    ProcessInfo {
        pid,
        name: name.to_string(),
        cpu_usage_bits: cpu.to_bits(),
        memory_kb: mem,
        process_type: ProcessType::Other,
    }
}

fn names(procs: &[ProcessInfo]) -> Vec<String> {
    procs.iter().map(|p| p.name.clone()).collect()
}

#[test]
fn test_filter_processes() {
    let mut app = App::new();
    app.processes = vec![
        make_process("cargo", 10.0, 100, 1),
        make_process("bash", 1.0, 50, 2),
    ];
    app.filter = "car".to_string();
    let filtered = app.filtered_processes();
    assert_eq!(filtered.len(), 1);
    assert_eq!(filtered[0].name, "cargo");
}

#[test]
fn test_sort_by_memory() {
    let mut app = App::new();
    app.sort_mode = SortMode::Memory;
    let procs = vec![
        make_process("a", 5.0, 200, 1),
        make_process("b", 10.0, 100, 2),
    ];
    let sorted = app.apply_sort(procs);
    assert_eq!(sorted[0].name, "a");
}

#[test]
fn test_app_docker_initial_state() {
    let app = App::new();
    assert!(!app.docker_available);
    assert!(app.containers.is_empty());
}

#[test]
fn test_tick_handles_docker_message() {
    let mut app = App::new();
    let containers = vec![ContainerInfo {
        name: "web".to_string(),
        status: "running".to_string(),
        cpu_percent_bits: 3.0f64.to_bits(),
        memory_bytes: 100,
        memory_limit: 1000,
    }];
    app.apply_message(CollectorMessage::Docker(containers));
    assert!(app.docker_available);
    assert_eq!(app.containers.len(), 1);
    assert_eq!(app.containers[0].name, "web");
}

#[test]
fn new_app_defaults() {
    let app = App::new();
    assert_eq!(app.memory, MemoryInfo { total: 1, used: 0, swap_total: 1, swap_used: 0 });
    assert_eq!(app.sort_mode, SortMode::Cpu);
    assert_eq!(app.selected, 0);
    assert!(!app.should_quit);
    assert!(app.filter.is_empty());
    assert!(app.cpu_history.is_empty());
}

#[test]
fn sort_by_cpu_pid_and_stability() {
    let mut app = App::new();
    let procs = vec![
        make_process("low", 1.5, 10, 30),
        make_process("high", 80.0, 10, 20),
        make_process("mid-first", 10.0, 10, 10),
        make_process("mid-second", 10.0, 10, 40),
    ];
    let sorted = app.apply_sort(procs.clone());
    assert_eq!(names(&sorted), ["high", "mid-first", "mid-second", "low"]);
    app.sort_mode = SortMode::Pid;
    let sorted = app.apply_sort(procs.clone());
    assert_eq!(names(&sorted), ["mid-first", "high", "low", "mid-second"]);
    // memory ties everywhere: order is kept
    app.sort_mode = SortMode::Memory;
    let sorted = app.apply_sort(procs);
    assert_eq!(names(&sorted), ["low", "high", "mid-first", "mid-second"]);
}

#[test]
fn filter_is_case_insensitive_and_empty_filter_shows_all() {
    let mut app = App::new();
    app.processes = vec![
        make_process("Cargo", 1.0, 1, 1),
        make_process("bash", 1.0, 1, 2),
        make_process("rust-analyzer", 1.0, 1, 3),
    ];
    assert_eq!(app.filtered_processes().len(), 3);
    app.filter = "CAR".to_string();
    let shown: Vec<&str> = app.filtered_processes().iter().map(|p| p.name.as_str()).collect();
    assert_eq!(shown, ["Cargo"]);
    app.filter = "a".to_string();
    let shown: Vec<&str> = app.filtered_processes().iter().map(|p| p.name.as_str()).collect();
    assert_eq!(shown, ["Cargo", "bash", "rust-analyzer"]);
    app.filter = "zzz".to_string();
    assert!(app.filtered_processes().is_empty());
}

#[test]
fn keys_quit_sort_and_filter() {
    let mut app = App::new();
    app.processes = vec![make_process("a", 1.0, 5, 2), make_process("b", 2.0, 9, 1)];
    app.selected = 1;
    app.handle_key(Key::Char('s'));
    assert_eq!(app.sort_mode, SortMode::Memory);
    assert_eq!(names(&app.processes), ["b", "a"]);
    assert_eq!(app.selected, 0);
    app.handle_key(Key::Char('s'));
    assert_eq!(app.sort_mode, SortMode::Pid);
    assert_eq!(names(&app.processes), ["b", "a"]);
    app.handle_key(Key::Char('s'));
    assert_eq!(app.sort_mode, SortMode::Cpu);

    app.handle_key(Key::Char('x'));
    app.handle_key(Key::Char('y'));
    assert_eq!(app.filter, "xy");
    app.handle_key(Key::Backspace);
    assert_eq!(app.filter, "x");
    app.handle_key(Key::Char('/'));
    assert_eq!(app.filter, "");
    app.handle_key(Key::Backspace);
    assert_eq!(app.filter, "");

    assert!(!app.should_quit);
    app.handle_key(Key::Other);
    assert!(!app.should_quit);
    app.handle_key(Key::Char('q'));
    assert!(app.should_quit);
    assert_eq!(app.filter, "");
}

#[test]
fn keys_move_selection_within_shown_rows() {
    let mut app = App::new();
    app.processes = vec![
        make_process("a", 1.0, 1, 1),
        make_process("b", 1.0, 1, 2),
        make_process("c", 1.0, 1, 3),
    ];
    app.handle_key(Key::Up);
    assert_eq!(app.selected, 0);
    app.handle_key(Key::Down);
    app.handle_key(Key::Down);
    app.handle_key(Key::Down);
    assert_eq!(app.selected, 2);
    app.handle_key(Key::Up);
    assert_eq!(app.selected, 1);
    // typing resets the selection
    app.handle_key(Key::Char('b'));
    assert_eq!(app.selected, 0);
    app.handle_key(Key::Down);
    assert_eq!(app.selected, 0);
    // a selection past the shown rows is shown on the last one
    app.selected = 5;
    assert_eq!(app.selected_row(), 0);
    app.filter.clear();
    assert_eq!(app.selected_row(), 2);
    app.processes.clear();
    assert_eq!(app.selected_row(), 0);
    app.handle_key(Key::Down);
    assert_eq!(app.selected, 5);
}

#[test]
fn cpu_history_is_trimmed_and_reset() {
    let mut app = App::new();
    for i in 0..70u64 {
        app.apply_message(CollectorMessage::Cpu(vec![i, 100 + i]));
    }
    assert_eq!(app.cpu_history.len(), 2);
    assert_eq!(app.cpu_history[0].len(), CPU_HISTORY_LEN);
    assert_eq!(app.cpu_history[0][0], 10);
    assert_eq!(*app.cpu_history[1].last().unwrap(), 169);
    // a different number of cores starts afresh
    app.apply_message(CollectorMessage::Cpu(vec![1, 2, 3]));
    assert_eq!(app.cpu_history, vec![vec![1], vec![2], vec![3]]);
}

#[test]
fn process_and_other_messages() {
    let mut app = App::new();
    app.sort_mode = SortMode::Pid;
    app.apply_message(CollectorMessage::Process(vec![
        make_process("b", 1.0, 1, 9),
        make_process("a", 1.0, 1, 3),
    ]));
    assert_eq!(names(&app.processes), ["a", "b"]);
    let mem = MemoryInfo { total: 10, used: 4, swap_total: 2, swap_used: 1 };
    app.apply_message(CollectorMessage::Memory(mem));
    assert_eq!(app.memory, mem);
    assert!(!app.docker_available);
}

#[test]
fn process_panel_title() {
    let mut app = App::new();
    assert_eq!(app.process_title(), " Processes [sort: CPU] (s=sort, /=filter, q=quit) ");
    app.handle_key(Key::Char('s'));
    assert_eq!(app.process_title(), " Processes [sort: MEM] (s=sort, /=filter, q=quit) ");
    app.handle_key(Key::Char('n'));
    app.handle_key(Key::Char('o'));
    assert_eq!(app.process_title(), " Processes [filter: no] ");
}

#[test]
fn longer_filter_never_brings_a_process_back() {
    let mut app = App::new();
    app.processes = vec![
        make_process("cargo", 1.0, 1, 1),
        make_process("Cat", 1.0, 1, 2),
        make_process("bash", 1.0, 1, 3),
    ];
    let mut previous: Vec<String> = app.filtered_processes().iter().map(|p| p.name.clone()).collect();
    for c in ['c', 'A', 'r'] {
        app.handle_key(Key::Char(c));
        let now: Vec<String> = app.filtered_processes().iter().map(|p| p.name.clone()).collect();
        assert!(now.iter().all(|n| previous.contains(n)));
        previous = now;
    }
    assert_eq!(previous, ["cargo"]);
}
