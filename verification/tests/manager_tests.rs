//! Tests for the session manager, the environment strip-set and the
//! dispatch glue.

use agentsh::manager::{SessionManager, MAX_SESSIONS};
use agentsh::process::{finished_result, is_sensitive_env, parse_strip_env};
use agentsh::session::SessionExecResult;
use agentsh::tools::{
    build_command_result, build_session_command_result, effective_max_lines, effective_run_timeout,
};

#[test]
fn test_create_and_close_session() {
    let mut m = SessionManager::new();
    let info = m.create("s1".to_string()).unwrap();
    assert_eq!(info.id, "s1");
    assert!(info.alive);
    assert!(m.contains("s1"));
    assert!(m.remove("s1").is_ok());
    assert!(!m.contains("s1"));
}

#[test]
fn test_create_duplicate_session_rejected() {
    let mut m = SessionManager::new();
    m.create("s".to_string()).unwrap();
    let e = m.create("s".to_string()).unwrap_err();
    assert_eq!(e, "session 's' already exists");
}

#[test]
fn test_session_cap_rejects_eleventh() {
    let mut m = SessionManager::new();
    for i in 0..MAX_SESSIONS {
        assert!(m.create(format!("s{i}")).is_ok());
    }
    let e = m.create("s10".to_string()).unwrap_err();
    assert!(e.contains("too many sessions"));
    assert_eq!(m.len(), MAX_SESSIONS);
    assert!(!m.contains("s10"));
    // Closing one makes room again.
    m.remove("s0").unwrap();
    assert!(m.create("s10".to_string()).is_ok());
}

#[test]
fn test_close_unknown_session() {
    let mut m = SessionManager::new();
    let e = m.remove("nope").unwrap_err();
    assert_eq!(e, "no session with id 'nope'");
}

#[test]
fn test_list_sessions_reports_liveness() {
    let mut m = SessionManager::new();
    m.create("a".to_string()).unwrap();
    m.create("b".to_string()).unwrap();
    let infos = m.list_infos(&vec![true, false]);
    assert_eq!(infos.len(), 2);
    assert_eq!(infos[0].id, "a");
    assert!(infos[0].alive);
    assert_eq!(infos[1].id, "b");
    assert!(!infos[1].alive);
}

// ---------------------------------------------------------------------------
// Environment strip-set
// ---------------------------------------------------------------------------

#[test]
fn test_parse_strip_env_trims_uppercases_and_drops_empty() {
    let set = parse_strip_env(" openai_api_key , ,DATABASE_URL,");
    assert_eq!(set, vec!["OPENAI_API_KEY".to_string(), "DATABASE_URL".to_string()]);
    // An unset, empty or all-whitespace list strips nothing.
    assert!(parse_strip_env("").is_empty());
    assert!(parse_strip_env("  , \t , ").is_empty());
}

#[test]
fn test_is_sensitive_env_matches_case_insensitively() {
    let set = parse_strip_env("OPENAI_API_KEY,DATABASE_URL");
    assert!(is_sensitive_env("openai_api_key", &set));
    assert!(is_sensitive_env("OPENAI_API_KEY", &set));
    assert!(!is_sensitive_env("PATH", &set));
    // By default nothing is sensitive.
    let empty = parse_strip_env("");
    assert!(!is_sensitive_env("SOME_API_KEY", &empty));
}

// ---------------------------------------------------------------------------
// Dispatch glue
// ---------------------------------------------------------------------------

#[test]
fn test_effective_defaults() {
    assert_eq!(effective_run_timeout(None), Some(300));
    assert_eq!(effective_run_timeout(Some(60)), Some(60));
    assert_eq!(effective_run_timeout(Some(99999)), Some(3600));
    assert_eq!(effective_max_lines(None), 200);
    assert_eq!(effective_max_lines(Some(30)), 30);
}

#[test]
fn test_build_command_result_windows_output() {
    let lines: Vec<String> = (1..=500).map(|i| format!("{i}")).collect();
    let result = finished_result(Some(0), false, lines, 120);
    let cr = build_command_result("run-1", &result, 30);
    assert_eq!(cr.id, "run-1");
    assert_eq!(cr.exit_code, 0);
    assert_eq!(cr.duration_ms, 120);
    assert!(!cr.timed_out);
    assert_eq!(cr.total_lines, 500);
    assert!(cr.truncated);
    assert_eq!(cr.output_head.len(), 10);
    assert_eq!(cr.output_tail.len(), 20);
    assert_eq!(cr.output_head[0], "1");
    assert_eq!(cr.output_tail[19], "500");
    assert!(cr.output_error_lines.is_empty());
}

#[test]
fn test_build_session_command_result() {
    let r = SessionExecResult {
        session_id: "s".to_string(),
        exit_code: 124,
        duration_ms: 2000,
        lines: vec!["partial".to_string()],
        timed_out: true,
    };
    let cr = build_session_command_result(&r, 200);
    assert_eq!(cr.id, "s");
    assert_eq!(cr.exit_code, 124);
    assert!(cr.timed_out);
    assert_eq!(cr.total_lines, 1);
    assert!(!cr.truncated);
    assert_eq!(cr.output_head, vec!["partial".to_string()]);
    assert!(cr.output_tail.is_empty());
}
