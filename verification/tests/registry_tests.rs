//! Tests for the process registry's bookkeeping: caps, waits, output
//! retrieval, kills, listing and pruning.

use agentsh::process::{failed_run_result, finished_result, ProcessResult};
use agentsh::registry::{
    ProcessRegistry, ProcessStatus, WaitOutcome, COMPLETED_TTL_MS, MAX_CONCURRENT_PROCESSES,
};

fn result_with_lines(exit_code: i32, lines: Vec<String>) -> ProcessResult {
    finished_result(Some(exit_code), false, lines, 50)
}

fn numbered_lines(n: usize) -> Vec<String> {
    (0..n).map(|i| format!("l{i}")).collect()
}

#[test]
fn test_store_result_and_get_output_full() {
    let mut reg = ProcessRegistry::new();
    let lines = vec!["a".to_string(), "b".to_string(), "c".to_string()];
    reg.store_result("id1".to_string(), "cmd".to_string(), result_with_lines(0, lines), 200, 1000);
    let live: Vec<String> = Vec::new();
    let slice = reg.get_output("id1", None, None, &live).unwrap();
    assert_eq!(slice.id, "id1");
    assert_eq!(slice.start_line, 0);
    assert_eq!(slice.end_line, 3);
    assert_eq!(slice.total_lines, 3);
    assert_eq!(slice.lines, vec!["a".to_string(), "b".to_string(), "c".to_string()]);
}

#[test]
fn test_get_output_line_range() {
    let mut reg = ProcessRegistry::new();
    reg.store_result(
        "id1".to_string(),
        "cmd".to_string(),
        result_with_lines(0, numbered_lines(100)),
        200,
        1000,
    );
    let live: Vec<String> = Vec::new();
    let slice = reg.get_output("id1", Some(10), Some(20), &live).unwrap();
    assert_eq!(slice.start_line, 10);
    assert_eq!(slice.end_line, 20);
    assert_eq!(slice.lines.len(), 10);
    assert_eq!(slice.lines[0], "l10");
    assert_eq!(slice.lines[9], "l19");
}

#[test]
fn test_get_output_clamps_out_of_range() {
    let mut reg = ProcessRegistry::new();
    reg.store_result(
        "id1".to_string(),
        "cmd".to_string(),
        result_with_lines(0, numbered_lines(5)),
        200,
        1000,
    );
    let live: Vec<String> = Vec::new();
    // start past the total
    let slice = reg.get_output("id1", Some(10), None, &live).unwrap();
    assert_eq!(slice.start_line, 5);
    assert_eq!(slice.end_line, 5);
    assert!(slice.lines.is_empty());
    // end past the total
    let slice = reg.get_output("id1", Some(2), Some(99), &live).unwrap();
    assert_eq!(slice.start_line, 2);
    assert_eq!(slice.end_line, 5);
    assert_eq!(slice.lines.len(), 3);
    // end before start: clamped up to the start
    let slice = reg.get_output("id1", Some(4), Some(2), &live).unwrap();
    assert_eq!(slice.start_line, 4);
    assert_eq!(slice.end_line, 4);
    assert!(slice.lines.is_empty());
}

#[test]
fn test_get_output_caps_at_five_hundred() {
    let mut reg = ProcessRegistry::new();
    reg.store_result(
        "id1".to_string(),
        "cmd".to_string(),
        result_with_lines(0, numbered_lines(1200)),
        200,
        1000,
    );
    let live: Vec<String> = Vec::new();
    let slice = reg.get_output("id1", None, None, &live).unwrap();
    assert_eq!(slice.total_lines, 1200);
    assert_eq!(slice.start_line, 0);
    assert_eq!(slice.end_line, 500);
    assert_eq!(slice.lines.len(), 500);
    let slice = reg.get_output("id1", Some(100), None, &live).unwrap();
    assert_eq!(slice.start_line, 100);
    assert_eq!(slice.end_line, 600);
    assert_eq!(slice.lines.len(), 500);
}

#[test]
fn test_get_output_nonexistent_id() {
    let reg = ProcessRegistry::new();
    let live: Vec<String> = Vec::new();
    let e = reg.get_output("ghost", None, None, &live).unwrap_err();
    assert_eq!(e, "no process with id 'ghost'");
}

#[test]
fn test_start_duplicate_id_error() {
    let mut reg = ProcessRegistry::new();
    assert!(reg.start("x".to_string(), "sleep 1".to_string(), 200, 0).is_ok());
    let e = reg.start("x".to_string(), "sleep 2".to_string(), 200, 1).unwrap_err();
    assert_eq!(e, "process with id 'x' already exists");
}

#[test]
fn test_max_concurrent_processes_enforced() {
    let mut reg = ProcessRegistry::new();
    for i in 0..MAX_CONCURRENT_PROCESSES {
        assert!(reg.start(format!("p{i}"), "sleep 9".to_string(), 200, 0).is_ok());
    }
    let before = reg.list(0).len();
    let e = reg.start("p20".to_string(), "sleep 9".to_string(), 200, 0).unwrap_err();
    assert!(e.contains("too many concurrent processes"));
    // No side effects: nothing was added.
    assert_eq!(reg.list(0).len(), before);
    assert!(reg.get_output("p20", None, None, &Vec::new()).is_err());
}

#[test]
fn test_wait_ready_pending_and_double_wait() {
    let mut reg = ProcessRegistry::new();
    reg.start("w".to_string(), "true".to_string(), 200, 0).unwrap();
    // First wait takes the handle.
    match reg.begin_wait("w", 0).unwrap() {
        WaitOutcome::Pending(max_lines) => assert_eq!(max_lines, 200),
        WaitOutcome::Ready(..) => panic!("no result was cached yet"),
    }
    // A second wait while the first is outstanding fails.
    let e = reg.begin_wait("w", 0).unwrap_err();
    assert_eq!(e, "process 'w' is already being waited on");
    // The awaiter finishes and caches the result.
    reg.finish_wait("w", result_with_lines(0, vec!["out".to_string()]), 10);
    match reg.begin_wait("w", 0).unwrap() {
        WaitOutcome::Ready(res, max_lines) => {
            assert_eq!(res.exit_code, 0);
            assert_eq!(res.lines, vec!["out".to_string()]);
            assert_eq!(max_lines, 200);
        },
        WaitOutcome::Pending(_) => panic!("result should be cached"),
    }
    let e = reg.begin_wait("ghost", 0).unwrap_err();
    assert_eq!(e, "no process with id 'ghost'");
}

#[test]
fn test_status_completed_failed_timed_out() {
    let mut reg = ProcessRegistry::new();
    let live: Vec<String> = Vec::new();
    reg.store_result("ok".to_string(), "true".to_string(), result_with_lines(0, numbered_lines(3)), 200, 0);
    reg.store_result("bad".to_string(), "false".to_string(), result_with_lines(1, Vec::new()), 200, 0);
    reg.store_result(
        "slow".to_string(),
        "sleep".to_string(),
        finished_result(None, true, Vec::new(), 1000),
        200,
        0,
    );
    assert_eq!(reg.status("ok", &live, 0).unwrap().status, ProcessStatus::Completed);
    assert_eq!(reg.status("bad", &live, 0).unwrap().status, ProcessStatus::Failed);
    assert_eq!(reg.status("slow", &live, 0).unwrap().status, ProcessStatus::TimedOut);
    assert_eq!(reg.status("ok", &live, 0).unwrap().runtime_ms, 50);
    let e = reg.status("ghost", &live, 0).unwrap_err();
    assert_eq!(e, "no process with id 'ghost'");
}

#[test]
fn test_status_running_reports_live_tail() {
    let mut reg = ProcessRegistry::new();
    reg.start("r".to_string(), "yes".to_string(), 200, 1000).unwrap();
    let live = numbered_lines(50);
    let st = reg.status("r", &live, 4000).unwrap();
    assert_eq!(st.status, ProcessStatus::Running);
    assert_eq!(st.runtime_ms, 3000);
    assert_eq!(st.tail_lines.len(), 20);
    assert_eq!(st.tail_lines[0], "l30");
    assert_eq!(st.tail_lines[19], "l49");
}

#[test]
fn test_status_tail_after_completion_windows_lines() {
    let mut reg = ProcessRegistry::new();
    reg.store_result(
        "big".to_string(),
        "seq".to_string(),
        result_with_lines(0, numbered_lines(100)),
        30,
        0,
    );
    let st = reg.status("big", &Vec::new(), 0).unwrap();
    // Tail first, then head: 20 tail lines and 10 head lines.
    assert_eq!(st.tail_lines.len(), 30);
    assert_eq!(st.tail_lines[0], "l80");
    assert_eq!(st.tail_lines[19], "l99");
    assert_eq!(st.tail_lines[20], "l0");
    assert_eq!(st.tail_lines[29], "l9");
}

#[test]
fn test_kill_running_and_completed() {
    let mut reg = ProcessRegistry::new();
    reg.start("k".to_string(), "sleep 9".to_string(), 200, 0).unwrap();
    let live = vec!["partial".to_string()];
    assert_eq!(reg.kill("k", &live, 500), Ok(true));
    let st = reg.status("k", &Vec::new(), 500).unwrap();
    assert_eq!(st.status, ProcessStatus::Failed);
    let slice = reg.get_output("k", None, None, &Vec::new()).unwrap();
    assert_eq!(slice.lines, vec!["partial".to_string()]);
    // Killing again: already completed.
    let e = reg.kill("k", &live, 600).unwrap_err();
    assert_eq!(e, "process 'k' has already completed");
    let e = reg.kill("ghost", &live, 600).unwrap_err();
    assert_eq!(e, "no process with id 'ghost'");
}

#[test]
fn test_kill_while_waited_is_a_no_op() {
    let mut reg = ProcessRegistry::new();
    reg.start("k".to_string(), "sleep 9".to_string(), 200, 0).unwrap();
    match reg.begin_wait("k", 0).unwrap() {
        WaitOutcome::Pending(_) => {},
        WaitOutcome::Ready(..) => panic!("nothing cached"),
    }
    assert_eq!(reg.kill("k", &Vec::new(), 10), Ok(false));
    let st = reg.status("k", &Vec::new(), 10).unwrap();
    assert_eq!(st.status, ProcessStatus::Running);
}

#[test]
fn test_list_commands() {
    let mut reg = ProcessRegistry::new();
    assert!(reg.list(0).is_empty());
    reg.start("a".to_string(), "sleep 1".to_string(), 200, 1000).unwrap();
    reg.store_result("b".to_string(), "true".to_string(), result_with_lines(0, Vec::new()), 200, 1000);
    let listing = reg.list(2000);
    assert_eq!(listing.len(), 2);
    assert_eq!(listing[0].id, "a");
    assert_eq!(listing[0].command, "sleep 1");
    assert_eq!(listing[0].status, ProcessStatus::Running);
    assert_eq!(listing[0].runtime_ms, 1000);
    assert_eq!(listing[1].id, "b");
    assert_eq!(listing[1].status, ProcessStatus::Completed);
    assert_eq!(listing[1].runtime_ms, 50);
}

#[test]
fn test_prune_drops_old_completed_entries() {
    let mut reg = ProcessRegistry::new();
    reg.store_result("old".to_string(), "true".to_string(), result_with_lines(0, Vec::new()), 200, 0);
    reg.start("live".to_string(), "sleep".to_string(), 200, 0).unwrap();
    // Within the TTL both remain.
    assert_eq!(reg.list(COMPLETED_TTL_MS - 1).len(), 2);
    // Past the TTL the completed entry is gone; the running one stays.
    let listing = reg.list(COMPLETED_TTL_MS + 1);
    assert_eq!(listing.len(), 1);
    assert_eq!(listing[0].id, "live");
}

#[test]
fn test_mutating_operations_prune() {
    let mut reg = ProcessRegistry::new();
    reg.store_result("old".to_string(), "true".to_string(), result_with_lines(0, Vec::new()), 200, 0);
    reg.start("live".to_string(), "sleep".to_string(), 200, 0).unwrap();
    // A wait beginning past the TTL first drops the expired entry.
    let e = reg.begin_wait("old", COMPLETED_TTL_MS + 1).unwrap_err();
    assert_eq!(e, "no process with id 'old'");
    assert_eq!(reg.list(COMPLETED_TTL_MS + 1).len(), 1);
    // So does a kill.
    let mut reg = ProcessRegistry::new();
    reg.store_result("old".to_string(), "true".to_string(), result_with_lines(0, Vec::new()), 200, 0);
    let e = reg.kill("old", &Vec::new(), COMPLETED_TTL_MS + 1).unwrap_err();
    assert_eq!(e, "no process with id 'old'");
}

#[test]
fn test_wait_then_status_and_output_totals_agree() {
    // After start and a finished wait, the status is final and the output
    // totals match the cached result.
    let mut reg = ProcessRegistry::new();
    reg.start("p".to_string(), "echo".to_string(), 200, 0).unwrap();
    match reg.begin_wait("p", 0).unwrap() {
        WaitOutcome::Pending(_) => {},
        WaitOutcome::Ready(..) => panic!("nothing cached"),
    }
    let res = result_with_lines(0, numbered_lines(7));
    reg.finish_wait("p", res, 99);
    let st = reg.status("p", &Vec::new(), 99).unwrap();
    assert!(st.status != ProcessStatus::Running);
    assert_eq!(st.status, ProcessStatus::Completed);
    let slice = reg.get_output("p", None, None, &Vec::new()).unwrap();
    assert_eq!(slice.total_lines, 7);
}

#[test]
fn test_failed_run_result_shape() {
    let r = failed_run_result("blocked: nope".to_string(), 3);
    assert_eq!(r.exit_code, -1);
    assert!(!r.timed_out);
    assert_eq!(r.duration_ms, 3);
    assert_eq!(r.lines, vec!["blocked: nope".to_string()]);
}
