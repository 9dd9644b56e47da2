//! Configuration and results of one-shot process runs.
//!
//! The runner itself — spawning `/bin/sh -c`, piping output, killing the
//! process group on timeout — is I/O and lives outside the library. This
//! module holds what the runner decides with: the run configuration, the
//! result record, the timeout ceiling, the environment strip-set and the
//! capped output buffer.

use vstd::prelude::*;
use vstd::string::StrSliceExecFns;
use vstd::string::StringExecFns;
use crate::text::{
    chars_to_string, spec_find, spec_trim, str_to_chars, to_upper, trim_chars, upper_of,
};

verus! {

/// Maximum allowed timeout in seconds (one hour).
pub const MAX_TIMEOUT_SECONDS: u64 = 3600;

/// Maximum number of output lines kept in a buffer, so that a command with
/// endless output cannot exhaust memory.
pub const MAX_OUTPUT_LINES: usize = 100000;

/// Configuration for spawning a process.
#[derive(Debug)]
pub struct ProcessConfig {
    /// Shell command to execute (passed to `/bin/sh -c`).
    pub command: String,
    /// Working directory for the command. `None` uses the server's cwd.
    pub working_directory: Option<String>,
    /// Maximum execution time in seconds. `None` means no timeout.
    pub timeout_seconds: Option<u64>,
}

/// Result of a completed process execution.
#[derive(Debug)]
pub struct ProcessResult {
    /// Process exit code, or -1 if killed or unknown.
    pub exit_code: i32,
    /// Wall-clock duration of execution in milliseconds.
    pub duration_ms: u64,
    /// All captured output lines (stdout and stderr interleaved).
    pub lines: Vec<String>,
    /// Whether the process was killed due to timeout.
    pub timed_out: bool,
}

/// A copy of the given lines.
pub fn clone_lines(v: &Vec<String>) -> (r: Vec<String>)
    ensures
        r@ == v@,
{
    let mut r: Vec<String> = Vec::new();
    let mut i: usize = 0;
    while i < v.len()
        invariant
            i <= v@.len(),
            r@ == v@.subrange(0, i as int),
        decreases v@.len() - i,
    {
        r.push(v[i].clone());
        proof {
            assert(r@ =~= v@.subrange(0, i + 1 as int));
        }
        i += 1;
    }
    proof {
        assert(r@ =~= v@);
    }
    r
}

impl ProcessResult {
    /// A copy of the result.
    pub fn duplicate(&self) -> (r: ProcessResult)
        ensures
            r.exit_code == self.exit_code,
            r.duration_ms == self.duration_ms,
            r.lines@ == self.lines@,
            r.timed_out == self.timed_out,
    {
        ProcessResult {
            exit_code: self.exit_code,
            duration_ms: self.duration_ms,
            lines: clone_lines(&self.lines),
            timed_out: self.timed_out,
        }
    }
}

/// The timeout clamped to the ceiling.
pub open spec fn spec_clamp_timeout(timeout: Option<u64>) -> Option<u64> {
    match timeout {
        Some(t) => Some(
            if t <= MAX_TIMEOUT_SECONDS {
                t
            } else {
                MAX_TIMEOUT_SECONDS
            },
        ),
        None => None,
    }
}

/// Clamp a timeout value to the allowed ceiling.
pub fn clamp_timeout(timeout: Option<u64>) -> (r: Option<u64>)
    ensures
        r == spec_clamp_timeout(timeout),
{
    match timeout {
        Some(t) => Some(
            if t <= MAX_TIMEOUT_SECONDS {
                t
            } else {
                MAX_TIMEOUT_SECONDS
            },
        ),
        None => None,
    }
}

/// The string split at every comma, keeping empty pieces.
pub open spec fn spec_split_on_comma(s: Seq<char>) -> Seq<Seq<char>>
    decreases s.len(),
    via spec_split_on_comma_decreases
{
    let p = spec_find(s, seq![',']);
    if p < 0 {
        seq![s]
    } else {
        seq![s.subrange(0, p)] + spec_split_on_comma(s.skip(p + 1))
    }
}

#[via_fn]
proof fn spec_split_on_comma_decreases(s: Seq<char>) {
    crate::text::lemma_spec_find_bounds(s, seq![',']);
}

/// The names stripped from child environments, read from a comma-separated
/// list: pieces that are empty after trimming are dropped, the rest are
/// trimmed and uppercased. An empty or all-whitespace list yields no names.
pub open spec fn spec_strip_set(value: Seq<char>) -> Seq<Seq<char>> {
    spec_split_on_comma(value).filter(|p: Seq<char>| spec_trim(p).len() > 0).map_values(
        |p: Seq<char>| upper_of(spec_trim(p)),
    )
}

/// Parse the comma-separated list of environment variable names to strip
/// from child processes.
pub fn parse_strip_env(value: &str) -> (r: Vec<String>)
    ensures
        r.deep_view() == spec_strip_set(value@),
{
    let v = str_to_chars(value);
    let comma = {
        let mut c: Vec<char> = Vec::new();
        c.push(',');
        c
    };
    proof {
        assert(comma@ =~= seq![',']);
    }
    let mut pieces: Vec<Vec<char>> = Vec::new();
    let mut i: usize = 0;
    let mut done = false;
    proof {
        assert(v@.skip(0) =~= v@);
        assert(pieces.deep_view() + spec_split_on_comma(v@) =~= spec_split_on_comma(v@));
    }
    while !done
        invariant
            i <= v@.len(),
            v@ == value@,
            comma@ == seq![','],
            !done ==> spec_split_on_comma(value@) == pieces.deep_view() + spec_split_on_comma(
                v@.skip(i as int),
            ),
            done ==> pieces.deep_view() == spec_split_on_comma(value@),
        decreases v@.len() - i + (if done {
            0int
        } else {
            1int
        }),
    {
        let rem = crate::text::slice_chars(&v, i, v.len());
        proof {
            assert(rem@ =~= v@.skip(i as int));
        }
        match crate::text::find_index(&rem, &comma) {
            None => {
                let ghost old_p = pieces.deep_view();
                let ghost prev = pieces@;
                proof {
                    assert(rem.deep_view() =~= rem@);
                }
                pieces.push(rem);
                proof {
                    assert(spec_split_on_comma(v@.skip(i as int)) == seq![v@.skip(i as int)]);
                    assert forall|k: int| 0 <= k < prev.len() implies pieces.deep_view()[k]
                        == old_p.push(v@.skip(i as int))[k] by {
                        assert(pieces@[k] == prev[k]);
                    }
                    assert(pieces.deep_view() =~= old_p.push(v@.skip(i as int)));
                    assert(old_p.push(v@.skip(i as int)) =~= old_p + seq![v@.skip(i as int)]);
                }
                done = true;
            },
            Some(p) => {
                proof {
                    crate::text::lemma_spec_find_bounds(rem@, seq![',']);
                }
                let piece = crate::text::slice_chars(&rem, 0, p);
                let ghost old_p = pieces.deep_view();
                let ghost prev = pieces@;
                proof {
                    assert(piece.deep_view() =~= piece@);
                }
                pieces.push(piece);
                proof {
                    assert(rem@.subrange(0, p as int) =~= v@.skip(i as int).subrange(
                        0,
                        p as int,
                    ));
                    assert(rem@.skip(p + 1) =~= v@.skip(i + p + 1));
                    assert forall|k: int| 0 <= k < prev.len() implies pieces.deep_view()[k]
                        == old_p.push(rem@.subrange(0, p as int))[k] by {
                        assert(pieces@[k] == prev[k]);
                    }
                    assert(pieces.deep_view() =~= old_p.push(rem@.subrange(0, p as int)));
                    assert(old_p.push(rem@.subrange(0, p as int)) + spec_split_on_comma(
                        rem@.skip(p + 1),
                    ) =~= old_p + (seq![rem@.subrange(0, p as int)] + spec_split_on_comma(
                        rem@.skip(p + 1),
                    )));
                }
                i = i + p + 1;
            },
        }
    }
    let ghost split = spec_split_on_comma(value@);
    let mut r: Vec<String> = Vec::new();
    let mut k: usize = 0;
    proof {
        reveal(Seq::filter);
        assert(split.subrange(0, 0) =~= Seq::<Seq<char>>::empty());
        assert(split.subrange(0, 0).map_values(
            |p: Seq<char>| upper_of(spec_trim(p)),
        ) =~= Seq::<Seq<char>>::empty());
    }
    while k < pieces.len()
        invariant
            k <= pieces@.len(),
            pieces.deep_view() == split,
            r.deep_view() == split.subrange(0, k as int).filter(
                |p: Seq<char>| spec_trim(p).len() > 0,
            ).map_values(|p: Seq<char>| upper_of(spec_trim(p))),
        decreases pieces@.len() - k,
    {
        let t = trim_chars(&pieces[k]);
        proof {
            assert(pieces.deep_view()[k as int] == pieces@[k as int]@);
            let mv = |p: Seq<char>| upper_of(spec_trim(p));
            let pred = |p: Seq<char>| spec_trim(p).len() > 0;
            assert(split.subrange(0, k + 1).drop_last() =~= split.subrange(0, k as int));
            assert(split.subrange(0, k + 1).last() == split[k as int]);
            reveal(Seq::filter);
            if pred(split[k as int]) {
                assert(split.subrange(0, k + 1).filter(pred) == split.subrange(
                    0,
                    k as int,
                ).filter(pred).push(split[k as int]));
                assert(split.subrange(0, k + 1).filter(pred).map_values(mv) =~= split.subrange(
                    0,
                    k as int,
                ).filter(pred).map_values(mv).push(mv(split[k as int])));
            } else {
                assert(split.subrange(0, k + 1).filter(pred) == split.subrange(
                    0,
                    k as int,
                ).filter(pred));
            }
        }
        let ghost old_r = r.deep_view();
        let ghost prev = r@;
        if t.len() > 0 {
            let t_str = chars_to_string(&t);
            let upper = to_upper(t_str.as_str());
            proof {
                assert(upper@ == upper_of(spec_trim(split[k as int])));
            }
            r.push(upper);
            proof {
                assert forall|q: int| 0 <= q < prev.len() implies r.deep_view()[q] == old_r.push(
                    upper_of(spec_trim(split[k as int])),
                )[q] by {
                    assert(r@[q] == prev[q]);
                }
                assert(r.deep_view() =~= old_r.push(upper_of(spec_trim(split[k as int]))));
            }
        }
        k += 1;
    }
    proof {
        assert(split.subrange(0, split.len() as int) =~= split);
    }
    r
}

/// The name is in the strip-set: its uppercase form equals one of the
/// set's entries.
pub open spec fn spec_is_sensitive(name: Seq<char>, strip_set: Seq<String>) -> bool {
    exists|i: int| 0 <= i < strip_set.len() && strip_set[i]@ == upper_of(name)
}

/// Whether an environment variable should be withheld from child
/// processes: true exactly when its uppercased name is in the strip-set.
pub fn is_sensitive_env(name: &str, strip_set: &Vec<String>) -> (r: bool)
    ensures
        r == spec_is_sensitive(name@, strip_set@),
{
    let upper = to_upper(name);
    let mut i: usize = 0;
    while i < strip_set.len()
        invariant
            i <= strip_set@.len(),
            upper@ == upper_of(name@),
            forall|k: int| 0 <= k < i ==> strip_set@[k]@ != upper_of(name@),
        decreases strip_set@.len() - i,
    {
        if strip_set[i].eq(&upper) {
            return true;
        }
        i += 1;
    }
    false
}

/// The synthetic result of a run that never spawned: a blocked command or
/// a spawn failure, with the reason as the sole output line.
pub fn failed_run_result(reason: String, duration_ms: u64) -> (r: ProcessResult)
    ensures
        r.exit_code == -1,
        r.timed_out == false,
        r.duration_ms == duration_ms,
        r.lines@.len() == 1,
        r.lines@[0] == reason,
{
    let mut lines: Vec<String> = Vec::new();
    lines.push(reason);
    ProcessResult { exit_code: -1, duration_ms, lines, timed_out: false }
}

/// The result of a finished run: the exit code when the status carried
/// one, -1 otherwise (killed, timed out or unavailable).
pub fn finished_result(code: Option<i32>, timed_out: bool, lines: Vec<String>, duration_ms: u64) -> (r:
    ProcessResult)
    ensures
        r.exit_code == (match code {
            Some(c) => c as int,
            None => -1int,
        }),
        r.timed_out == timed_out,
        r.lines == lines,
        r.duration_ms == duration_ms,
{
    let exit_code = match code {
        Some(c) => c,
        None => -1,
    };
    ProcessResult { exit_code, duration_ms, lines, timed_out }
}

/// Append a line to a shared output buffer unless the cap is reached; past
/// the cap the line is dropped so that the buffer stays bounded while the
/// pipe is still drained.
pub fn append_capped(buf: &mut Vec<String>, line: String)
    ensures
        old(buf)@.len() < MAX_OUTPUT_LINES ==> final(buf)@ == old(buf)@.push(line),
        old(buf)@.len() >= MAX_OUTPUT_LINES ==> final(buf)@ == old(buf)@,
{
    if buf.len() < MAX_OUTPUT_LINES {
        buf.push(line);
    }
}

} // verus!
