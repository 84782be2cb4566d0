use dark_inject::config::{Colors, Config};
use dark_inject::hook::HookState;
use dark_inject::worker::{
    config_or_default, injection_header, log_header, log_line, log_lines, recolor_enabled, shutdown,
    startup_flag_write, threads_of_process, HierarchyLog, ThreadRecord, WindowEntry,
};

#[test]
fn falls_back_to_default_config() {
    let custom = Config { colors: Colors { bg: 1, text: 2, line: 3 } };
    assert_eq!(config_or_default(Ok(custom)), custom);
    assert_eq!(config_or_default(Err("missing".to_string())), Config::default_colors());
}

#[test]
fn recolors_unless_flag_is_off() {
    assert!(recolor_enabled(Some(true)));
    assert!(!recolor_enabled(Some(false)));
    assert!(recolor_enabled(None));
}

#[test]
fn selects_threads_of_one_process() {
    let entries = [
        ThreadRecord { thread_id: 1, owner_pid: 10 },
        ThreadRecord { thread_id: 2, owner_pid: 11 },
        ThreadRecord { thread_id: 3, owner_pid: 10 },
    ];
    assert_eq!(threads_of_process(&entries, 10), vec![1, 3]);
    assert!(threads_of_process(&entries, 12).is_empty());
}

fn entry(hwnd: isize, class: &str) -> WindowEntry {
    WindowEntry { hwnd, class_name: class.to_string() }
}

#[test]
fn logs_hierarchy_only_when_it_changes() {
    let mut log = HierarchyLog::new();
    assert!(log.observe(vec![]));
    assert!(!log.observe(vec![]));
    assert!(log.observe(vec![entry(1, "V8TopLevelFrame")]));
    assert!(!log.observe(vec![entry(1, "V8TopLevelFrame")]));
    assert!(log.observe(vec![entry(1, "Other")]));
    assert!(log.observe(vec![entry(2, "Other")]));
    assert!(log.observe(vec![entry(2, "Other"), entry(3, "X")]));
}

#[test]
fn shutdown_removes_every_hook() {
    let mut st = HookState::new();
    st.record_hook(3);
    assert_eq!(shutdown(&mut st), vec![3]);
    assert!(shutdown(&mut st).is_empty());
}

#[test]
fn builds_hierarchy_log_lines() {
    assert_eq!(log_header(1234), "--- window hierarchy changed, pid=1234 ---");
    assert_eq!(log_header(0), "--- window hierarchy changed, pid=0 ---");
    let snapshot = vec![entry(0x1a2b, "V8TopLevelFrame"), entry(0, "Main"), entry(-1, "x")];
    let lines = log_lines(42, &snapshot);
    let expected: Vec<String> = std::iter::once(format!("--- window hierarchy changed, pid={} ---", 42))
        .chain(snapshot.iter().map(|e| format!("hwnd={:#x} class={}", e.hwnd, e.class_name)))
        .collect();
    assert_eq!(lines, expected);
    assert_eq!(log_line(&entry(255, "Журнал")), "hwnd=0xff class=Журнал");
    assert_eq!(log_lines(1, &[]), vec!["--- window hierarchy changed, pid=1 ---".to_string()]);
}

#[test]
fn dumps_hierarchy_at_injection() {
    assert_eq!(injection_header(1234), "--- window hierarchy at injection, pid=1234 ---");
    let mut log = HierarchyLog::new();
    let snapshot = vec![entry(0x1a2b, "V8TopLevelFrame"), entry(-1, "x")];
    let lines = log.record_injection(7, vec![entry(0x1a2b, "V8TopLevelFrame"), entry(-1, "x")]);
    let expected: Vec<String> = std::iter::once(format!("--- window hierarchy at injection, pid={} ---", 7))
        .chain(snapshot.iter().map(|e| format!("hwnd={:#x} class={}", e.hwnd, e.class_name)))
        .collect();
    assert_eq!(lines, expected);
    assert!(lines.join("\n").contains("window hierarchy at injection"));
    assert!(!log.observe(snapshot));
    assert!(log.observe(vec![entry(0x1a2b, "V8TopLevelFrame")]));

    let mut empty = HierarchyLog::new();
    assert_eq!(
        empty.record_injection(1234, vec![]),
        vec!["--- window hierarchy at injection, pid=1234 ---".to_string()]
    );
    assert!(!empty.observe(vec![]));
}

#[test]
fn startup_switches_flag_on_only_for_a_new_mapping() {
    assert_eq!(startup_flag_write(true), Some(true));
    assert_eq!(startup_flag_write(false), None);
}
