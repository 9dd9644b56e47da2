//! Dispatch glue for the tool surface: defaults for tool parameters and the
//! assembly of result records from raw run results, with all user-visible
//! output passed through the windower.

use vstd::prelude::*;
use crate::output::{
    spec_extract_errors, spec_window_head, spec_window_tail, window,
};
use crate::process::{clamp_timeout, spec_clamp_timeout, ProcessResult};
use crate::session::SessionExecResult;

verus! {

/// Default timeout for commands, in seconds (five minutes).
pub const DEFAULT_TIMEOUT_SECONDS: u64 = 300;

/// Default number of windowed output lines returned to the caller.
pub const DEFAULT_MAX_OUTPUT_LINES: usize = 200;

/// Structured result of a completed command: the windowed output beside
/// the exit code and timing.
#[derive(Debug)]
pub struct CommandResult {
    pub id: String,
    pub exit_code: i32,
    pub duration_ms: u64,
    pub output_head: Vec<String>,
    pub output_tail: Vec<String>,
    pub output_error_lines: Vec<String>,
    pub total_lines: usize,
    pub truncated: bool,
    pub timed_out: bool,
}

/// The timeout a run gets: the caller's value or the default, clamped to
/// the ceiling.
pub fn effective_run_timeout(timeout_seconds: Option<u64>) -> (r: Option<u64>)
    ensures
        r == spec_clamp_timeout(
            Some(
                match timeout_seconds {
                    Some(t) => t,
                    None => DEFAULT_TIMEOUT_SECONDS,
                },
            ),
        ),
{
    let t = match timeout_seconds {
        Some(t) => t,
        None => DEFAULT_TIMEOUT_SECONDS,
    };
    clamp_timeout(Some(t))
}

/// The output-window budget a call gets: the caller's value or the
/// default.
pub fn effective_max_lines(max_output_lines: Option<usize>) -> (r: usize)
    ensures
        r == (match max_output_lines {
            Some(m) => m as int,
            None => DEFAULT_MAX_OUTPUT_LINES as int,
        }),
{
    match max_output_lines {
        Some(m) => m,
        None => DEFAULT_MAX_OUTPUT_LINES,
    }
}

/// Assemble the caller-facing record of a one-shot run: its identity, exit
/// code and timing, with the output windowed to the budget.
pub fn build_command_result(id: &str, result: &ProcessResult, max_output_lines: usize) -> (r:
    CommandResult)
    ensures
        r.id@ == id@,
        r.exit_code == result.exit_code,
        r.duration_ms == result.duration_ms,
        r.timed_out == result.timed_out,
        r.total_lines == result.lines@.len(),
        r.truncated == (result.lines@.len() > max_output_lines),
        r.output_head@ == spec_window_head(result.lines@, max_output_lines as int),
        r.output_tail@ == spec_window_tail(result.lines@, max_output_lines as int),
        r.output_error_lines@ == spec_extract_errors(result.lines@),
{
    let windowed = window(&result.lines, max_output_lines);
    CommandResult {
        id: id.to_owned(),
        exit_code: result.exit_code,
        duration_ms: result.duration_ms,
        output_head: windowed.head,
        output_tail: windowed.tail,
        output_error_lines: windowed.error_lines,
        total_lines: windowed.total_lines,
        truncated: windowed.truncated,
        timed_out: result.timed_out,
    }
}

/// Assemble the caller-facing record of a session command, windowed the
/// same way; the session's ID identifies the result.
pub fn build_session_command_result(result: &SessionExecResult, max_output_lines: usize) -> (r:
    CommandResult)
    ensures
        r.id@ == result.session_id@,
        r.exit_code == result.exit_code,
        r.duration_ms == result.duration_ms,
        r.timed_out == result.timed_out,
        r.total_lines == result.lines@.len(),
        r.truncated == (result.lines@.len() > max_output_lines),
        r.output_head@ == spec_window_head(result.lines@, max_output_lines as int),
        r.output_tail@ == spec_window_tail(result.lines@, max_output_lines as int),
        r.output_error_lines@ == spec_extract_errors(result.lines@),
{
    let windowed = window(&result.lines, max_output_lines);
    CommandResult {
        id: result.session_id.clone(),
        exit_code: result.exit_code,
        duration_ms: result.duration_ms,
        output_head: windowed.head,
        output_tail: windowed.tail,
        output_error_lines: windowed.error_lines,
        total_lines: windowed.total_lines,
        truncated: windowed.truncated,
        timed_out: result.timed_out,
    }
}

} // verus!
