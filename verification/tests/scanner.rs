use dark_inject::scanner::{eq_ignore_ascii_case, select_processes_by_name, ProcessRecord};

fn record(pid: u32, name: &str) -> ProcessRecord {
    let mut exe_file = vec![0u16; 260];
    for (i, u) in name.encode_utf16().enumerate() {
        exe_file[i] = u;
    }
    ProcessRecord { pid, exe_file }
}

#[test]
fn selects_processes_by_name_ignoring_ascii_case() {
    let entries = vec![record(4, "System"), record(100, "1CV8.EXE"), record(7, "1cv8.exe"), record(8, "1cv8.exe.bak")];
    assert_eq!(select_processes_by_name(&entries, "1cv8.exe"), vec![100, 7]);
    assert!(select_processes_by_name(&entries, "definitely_not_a_real_process_xyz123.exe").is_empty());
}

#[test]
fn ascii_case_folding_only() {
    let a: Vec<char> = "ÉCOLE".chars().collect();
    let b: Vec<char> = "éCOLE".chars().collect();
    assert!(!eq_ignore_ascii_case(&a, &b));
    let c: Vec<char> = "éCOLE".chars().collect();
    let d: Vec<char> = "écOle".chars().collect();
    assert!(eq_ignore_ascii_case(&c, &d));
}
