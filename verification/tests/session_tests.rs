//! Tests for the session protocol: line cleaning, ANSI stripping, markers,
//! escape processing and the exec collector.

use agentsh::ansi::strip_ansi;
use agentsh::session::{
    blocked_exec_result, build_wrapper, clean_line, drain_marker, echo_marker_command,
    effective_exec_timeout, end_marker_prefix, marker_prefix, parse_end_marker, process_escapes,
    read_timeout_secs, recovery_marker, send_hard_cap_secs, session_setup_text,
    settled_output_lines, start_marker, ExecCollector,
};

// ---------------------------------------------------------------------------
// ANSI stripping
// ---------------------------------------------------------------------------

#[test]
fn test_strip_ansi_removes_colors() {
    assert_eq!(strip_ansi("\u{1b}[31mred\u{1b}[0m"), "red");
    assert_eq!(strip_ansi("plain"), "plain");
    assert_eq!(strip_ansi(""), "");
}

#[test]
fn test_strip_ansi_osc_and_charset() {
    // OSC title sequence ends at BEL; charset selection is three bytes.
    assert_eq!(strip_ansi("\u{1b}]0;title\u{7}text"), "text");
    assert_eq!(strip_ansi("\u{1b}(Bhello"), "hello");
    assert_eq!(strip_ansi("\u{1b}Mup"), "up");
}

#[test]
fn test_strip_ansi_backspace_overstrike() {
    assert_eq!(strip_ansi("bo\u{8}old"), "bold");
    assert_eq!(strip_ansi("a\u{8}b"), "b");
}

#[test]
fn test_strip_ansi_idempotent_on_cleaned_output() {
    let inputs = ["\u{1b}[1;32mok\u{1b}[0m done", "no escapes at all", "tail\u{1b}[K"];
    for x in inputs {
        let once = strip_ansi(x);
        let twice = strip_ansi(&once);
        assert_eq!(twice, once);
    }
}

#[test]
fn test_strip_ansi_mangled_sequence_survives_one_pass() {
    // A CSI introducer cut in half by another sequence re-forms after one
    // pass, so stripping is not idempotent on such input.
    let x = "\u{1b}[\u{1b}[AmX";
    let once = strip_ansi(x);
    assert_eq!(once, "\u{1b}[mX");
    let twice = strip_ansi(&once);
    assert_eq!(twice, "X");
}

// ---------------------------------------------------------------------------
// Line cleaning
// ---------------------------------------------------------------------------

#[test]
fn test_clean_line_trims_endings() {
    assert_eq!(clean_line("abc\r\n"), "abc");
    assert_eq!(clean_line("abc\n"), "abc");
    assert_eq!(clean_line("abc"), "abc");
    assert_eq!(clean_line("\u{1b}[32mok\u{1b}[0m\r\n"), "ok");
}

#[test]
fn test_clean_line_idempotent_on_ordinary_lines() {
    for x in ["abc\r\n", "abc\n\n", "abc\r\r", "", "x"] {
        let once = clean_line(x);
        let twice = clean_line(&once);
        assert_eq!(twice, once);
    }
}

#[test]
fn test_clean_line_newline_under_carriage_return() {
    // A newline buried under a carriage return surfaces after one pass:
    // cleaning twice differs from cleaning once on this input.
    let once = clean_line("a\n\r");
    assert_eq!(once, "a\n");
    let twice = clean_line(&once);
    assert_eq!(twice, "a");
}

// ---------------------------------------------------------------------------
// Markers and wrapper
// ---------------------------------------------------------------------------

#[test]
fn test_marker_texts() {
    assert_eq!(marker_prefix(), "__AGENTSH_");
    assert_eq!(start_marker("u1"), "__AGENTSH_START_u1__");
    assert_eq!(end_marker_prefix("u1"), "__AGENTSH_END_u1_");
    assert_eq!(drain_marker("d"), "__AGENTSH_DRAIN_d__");
    assert_eq!(recovery_marker("r"), "__AGENTSH_RECOVER_r__");
    assert_eq!(echo_marker_command("M"), "echo 'M'\n");
}

#[test]
fn test_build_wrapper_text() {
    let w = build_wrapper("pwd", "S", "E");
    assert_eq!(w, "echo 'S'\n{ pwd; } 2>&1\n__agentsh_ec=$?\necho 'E'\"$__agentsh_ec\"'__'\n");
}

#[test]
fn test_session_setup_text_contents() {
    let t = session_setup_text();
    assert!(t.contains("stty -echo"));
    assert!(t.contains("PS1=''"));
    assert!(t.contains("PAGER=cat"));
    assert!(t.contains("expand_aliases"));
}

// ---------------------------------------------------------------------------
// End-marker parsing
// ---------------------------------------------------------------------------

#[test]
fn test_parse_end_marker_codes() {
    let endp = "__AGENTSH_END_u1_";
    assert_eq!(parse_end_marker("__AGENTSH_END_u1_0__", endp), Some(0));
    assert_eq!(parse_end_marker("__AGENTSH_END_u1_124__", endp), Some(124));
    assert_eq!(parse_end_marker("noise __AGENTSH_END_u1_7__", endp), Some(7));
    // A code that does not read as a number stands for -1.
    assert_eq!(parse_end_marker("__AGENTSH_END_u1_zz__", endp), Some(-1));
    // No closing underscores: not an end marker.
    assert_eq!(parse_end_marker("__AGENTSH_END_u1_0", endp), None);
    // No marker at all.
    assert_eq!(parse_end_marker("ordinary output", endp), None);
}

// ---------------------------------------------------------------------------
// Exec collector state machine
// ---------------------------------------------------------------------------

#[test]
fn test_collector_collects_between_markers() {
    let start = "__AGENTSH_START_u1__";
    let endp = "__AGENTSH_END_u1_";
    let mut c = ExecCollector::new();
    assert!(!c.handle_line("boot noise\r\n", start, endp));
    assert!(!c.handle_line("", start, endp));
    assert!(!c.handle_line("__AGENTSH_START_u1__\r\n", start, endp));
    assert!(c.found_start);
    assert!(!c.handle_line("hello\r\n", start, endp));
    assert!(!c.handle_line("__AGENTSH_DRAIN_old__\r\n", start, endp));
    assert!(!c.handle_line("world\r\n", start, endp));
    assert!(c.handle_line("__AGENTSH_END_u1_0__\r\n", start, endp));
    assert_eq!(c.exit_code, 0);
    assert!(!c.timed_out);
    assert_eq!(c.lines, vec!["hello".to_string(), "world".to_string()]);
}

#[test]
fn test_collector_exit_code_and_state_kept() {
    let start = "__AGENTSH_START_u2__";
    let endp = "__AGENTSH_END_u2_";
    let mut c = ExecCollector::new();
    assert!(!c.handle_line(start, start, endp));
    assert!(c.handle_line("__AGENTSH_END_u2_42__", start, endp));
    assert_eq!(c.exit_code, 42);
    assert!(c.lines.is_empty());
}

#[test]
fn test_collector_pre_start_lines_dropped() {
    let start = "__AGENTSH_START_u3__";
    let endp = "__AGENTSH_END_u3_";
    let mut c = ExecCollector::new();
    assert!(!c.handle_line("leftover from before", start, endp));
    assert!(!c.handle_line("__AGENTSH_END_old_1__", start, endp));
    assert!(c.lines.is_empty());
    assert!(!c.found_start);
}

#[test]
fn test_collector_timeout_and_recovery() {
    let start = "__AGENTSH_START_u4__";
    let endp = "__AGENTSH_END_u4_";
    let rec = "__AGENTSH_RECOVER_r1__";
    let mut c = ExecCollector::new();
    assert!(!c.handle_line(start, start, endp));
    assert!(!c.handle_line("partial output", start, endp));
    assert!(!c.handle_recovery_line("late line\r\n", rec, endp));
    assert!(!c.handle_recovery_line("", rec, endp));
    assert!(c.handle_recovery_line("__AGENTSH_RECOVER_r1__", rec, endp));
    c.mark_timed_out();
    assert_eq!(c.exit_code, 124);
    assert!(c.timed_out);
    let r = c.into_result("s".to_string(), 2000);
    assert_eq!(r.session_id, "s");
    assert_eq!(r.exit_code, 124);
    assert!(r.timed_out);
    assert_eq!(r.duration_ms, 2000);
    assert_eq!(r.lines, vec!["partial output".to_string(), "late line".to_string()]);
}

#[test]
fn test_blocked_exec_result_shape() {
    let r = blocked_exec_result("blocked: reason".to_string());
    assert_eq!(r.exit_code, -1);
    assert!(!r.timed_out);
    assert_eq!(r.duration_ms, 0);
    assert_eq!(r.lines, vec!["blocked: reason".to_string()]);
    assert_eq!(r.session_id, "");
}

// ---------------------------------------------------------------------------
// Timeouts
// ---------------------------------------------------------------------------

#[test]
fn test_effective_exec_timeout() {
    assert_eq!(effective_exec_timeout(None), 300);
    assert_eq!(effective_exec_timeout(Some(10)), 10);
    assert_eq!(effective_exec_timeout(Some(999999)), 3600);
}

#[test]
fn test_read_timeout_prefers_idle_after_output() {
    assert_eq!(read_timeout_secs(false, Some(2), 300), 300);
    assert_eq!(read_timeout_secs(true, Some(2), 300), 2);
    assert_eq!(read_timeout_secs(true, None, 300), 300);
}

#[test]
fn test_send_hard_cap() {
    assert_eq!(send_hard_cap_secs(2), 30);
    assert_eq!(send_hard_cap_secs(6), 30);
    assert_eq!(send_hard_cap_secs(7), 35);
    assert_eq!(send_hard_cap_secs(100), 500);
}

// ---------------------------------------------------------------------------
// Escape processing
// ---------------------------------------------------------------------------

#[test]
fn test_process_escapes_simple() {
    assert_eq!(process_escapes("ab"), vec![97u8, 98u8]);
    assert_eq!(process_escapes("\\n"), vec![10u8]);
    assert_eq!(process_escapes("\\r"), vec![13u8]);
    assert_eq!(process_escapes("\\t"), vec![9u8]);
    assert_eq!(process_escapes("\\\\"), vec![92u8]);
}

#[test]
fn test_process_escapes_hex() {
    assert_eq!(process_escapes("\\x03"), vec![3u8]);
    assert_eq!(process_escapes("\\x1b[A"), vec![0x1bu8, 91u8, 65u8]);
    // Invalid hex digits vanish.
    assert_eq!(process_escapes("\\xzz"), Vec::<u8>::new());
    // A single trailing hex digit still reads as a value.
    assert_eq!(process_escapes("\\x4"), vec![4u8]);
}

#[test]
fn test_process_escapes_unknown_and_trailing() {
    assert_eq!(process_escapes("\\q"), vec![92u8, 113u8]);
    assert_eq!(process_escapes("\\"), vec![92u8]);
}

#[test]
fn test_process_escapes_utf8() {
    let bytes = process_escapes("é");
    assert_eq!(bytes, vec![0xC3u8, 0xA9u8]);
}

// ---------------------------------------------------------------------------
// Settled output
// ---------------------------------------------------------------------------

#[test]
fn test_settled_output_lines_cleans_and_filters() {
    let raw = "\u{1b}[2Jfirst\r\n\r\nsecond\nthird";
    let lines = settled_output_lines(raw);
    assert_eq!(
        lines,
        vec!["first".to_string(), "second".to_string(), "third".to_string()],
    );
}

#[test]
fn test_settled_output_lines_empty() {
    assert!(settled_output_lines("").is_empty());
    assert!(settled_output_lines("\r\n\r\n").is_empty());
}
