use pane::nvml::{merge_processes, GpuProcessKind};

fn stub_name(pid: u32) -> String {
    format!("proc{pid}")
}

#[test]
fn merge_sorts_by_vram_descending() {
    let procs = merge_processes(&[(10, 1024), (11, 8192), (12, 4096)], &[], stub_name);
    assert_eq!(
        procs.iter().map(|p| p.pid).collect::<Vec<_>>(),
        vec![11, 12, 10]
    );
    assert_eq!(procs[0].name, "proc11");
}

#[test]
fn merge_dedups_pid_present_in_both_lists() {
    let procs = merge_processes(&[(7, 2048)], &[(7, 9999), (8, 512)], stub_name);
    assert_eq!(procs.len(), 2);
    let seven = procs.iter().find(|p| p.pid == 7).unwrap();
    // Same PID in both lists is one context reported twice by NVML,
    // so memory accumulates and the kind stays Graphics.
    assert_eq!(seven.kind, GpuProcessKind::Graphics);
    assert_eq!(seven.used_gpu_memory, 2048 + 9999);
}

#[test]
fn merge_labels_compute_only_pids() {
    let procs = merge_processes(&[], &[(42, 1)], stub_name);
    assert_eq!(procs[0].kind, GpuProcessKind::Compute);
}

#[test]
fn merge_handles_empty_input() {
    assert!(merge_processes(&[], &[], stub_name).is_empty());
}

#[test]
fn merge_ties_break_on_pid() {
    let procs = merge_processes(&[(30, 100), (10, 100), (20, 100)], &[], stub_name);
    assert_eq!(
        procs.iter().map(|p| p.pid).collect::<Vec<_>>(),
        vec![10, 20, 30]
    );
}

#[test]
fn merge_saturates_on_overflow() {
    let procs = merge_processes(&[(1, u64::MAX)], &[(1, 4096)], stub_name);
    assert_eq!(procs[0].used_gpu_memory, u64::MAX);
}

#[test]
fn merge_collapses_duplicates_within_one_list() {
    let procs = merge_processes(&[(5, 10), (6, 1), (5, 20)], &[(6, 2)], stub_name);
    assert_eq!(procs.len(), 2);
    assert_eq!(procs[0].pid, 5);
    assert_eq!(procs[0].used_gpu_memory, 30);
    assert_eq!(procs[1].pid, 6);
    assert_eq!(procs[1].used_gpu_memory, 3);
    assert_eq!(procs[1].kind, GpuProcessKind::Graphics);
    assert_eq!(procs[1].name, "proc6");
}
