//! The protocol of an interactive PTY session.
//!
//! A session is one long-lived shell on a pseudo-terminal. Because the PTY
//! is a continuous byte stream, each command's output is delimited by
//! UUID-tagged marker lines; this module holds that protocol: the marker and
//! wrapper texts written to the shell, the cleaning of lines read back, the
//! state machine that collects one command's output and exit code, the
//! recovery path after a timeout, and the escape processing for raw input.
//! The PTY reads and writes themselves, and all waiting, happen outside the
//! library.

use vstd::prelude::*;
use vstd::string::StrSliceExecFns;
use vstd::string::StringExecFns;
use vstd::utf8::encode_scalar;
use crate::ansi::{spec_strip_ansi, strip_ansi};
use crate::process::{MAX_OUTPUT_LINES, MAX_TIMEOUT_SECONDS};
use crate::text::{
    chars_to_string, char_suffix_len, contains_seq, contains_chars, find_index, parse_i32,
    parse_u8_hex, slice_chars, spec_find, spec_parse_i32, spec_parse_u8_hex, spec_trim_end_char,
    str_to_chars, trim_end_char,
};

verus! {

/// Default timeout for a session command, in seconds (five minutes).
pub const DEFAULT_EXEC_TIMEOUT_SECONDS: u64 = 300;

/// Result of executing a command in a session.
#[derive(Debug)]
pub struct SessionExecResult {
    pub session_id: String,
    pub exit_code: i32,
    pub duration_ms: u64,
    pub lines: Vec<String>,
    pub timed_out: bool,
}

/// Information about a session.
#[derive(Debug)]
pub struct SessionInfo {
    pub id: String,
    pub alive: bool,
}

/// The marker prefix that tags this gateway's own lines in the PTY stream.
pub fn marker_prefix() -> (m: String)
    ensures
        m@ == "__AGENTSH_"@,
{
    String::from_str("__AGENTSH_")
}

/// The line that opens one command's output.
pub fn start_marker(cmd_id: &str) -> (m: String)
    ensures
        m@ == "__AGENTSH_START_"@ + cmd_id@ + "__"@,
{
    let mut m = String::new();
    m.append("__AGENTSH_START_");
    m.append(cmd_id);
    m.append("__");
    proof {
        assert(m@ =~= "__AGENTSH_START_"@ + cmd_id@ + "__"@);
    }
    m
}

/// The prefix of the line that closes one command's output; the shell
/// appends the exit code and two underscores.
pub fn end_marker_prefix(cmd_id: &str) -> (m: String)
    ensures
        m@ == "__AGENTSH_END_"@ + cmd_id@ + "_"@,
{
    let mut m = String::new();
    m.append("__AGENTSH_END_");
    m.append(cmd_id);
    m.append("_");
    proof {
        assert(m@ =~= "__AGENTSH_END_"@ + cmd_id@ + "_"@);
    }
    m
}

/// The marker echoed to drain a fresh shell's startup output.
pub fn drain_marker(drain_id: &str) -> (m: String)
    ensures
        m@ == "__AGENTSH_DRAIN_"@ + drain_id@ + "__"@,
{
    let mut m = String::new();
    m.append("__AGENTSH_DRAIN_");
    m.append(drain_id);
    m.append("__");
    proof {
        assert(m@ =~= "__AGENTSH_DRAIN_"@ + drain_id@ + "__"@);
    }
    m
}

/// The marker echoed to re-synchronize the stream after a timeout.
pub fn recovery_marker(recovery_id: &str) -> (m: String)
    ensures
        m@ == "__AGENTSH_RECOVER_"@ + recovery_id@ + "__"@,
{
    let mut m = String::new();
    m.append("__AGENTSH_RECOVER_");
    m.append(recovery_id);
    m.append("__");
    proof {
        assert(m@ =~= "__AGENTSH_RECOVER_"@ + recovery_id@ + "__"@);
    }
    m
}

/// The shell input that echoes the given marker on a line of its own.
pub fn echo_marker_command(marker: &str) -> (m: String)
    ensures
        m@ == "echo '"@ + marker@ + "'\n"@,
{
    let mut m = String::new();
    m.append("echo '");
    m.append(marker);
    m.append("'\n");
    proof {
        assert(m@ =~= "echo '"@ + marker@ + "'\n"@);
    }
    m
}

/// The configuration written to a fresh shell in one write: no echo, no
/// prompts, no pagers, alias expansion on. The stream stays clean while
/// child processes still see a terminal.
pub fn session_setup_text() -> (m: String)
    ensures
        m@
            == "stty -echo\nexport PS1='' PS2='' PROMPT_COMMAND='' PAGER=cat GIT_PAGER=cat\nshopt -s expand_aliases\n"@,
{
    String::from_str(
        "stty -echo\nexport PS1='' PS2='' PROMPT_COMMAND='' PAGER=cat GIT_PAGER=cat\nshopt -s expand_aliases\n",
    )
}

/// The wrapper written to the shell for one command: echo the start
/// marker, run the command in a brace group (so `cd`, `export`, functions
/// and aliases keep acting on the shell itself) with stderr merged, then
/// echo the end marker carrying the exit code.
pub fn build_wrapper(command: &str, start: &str, end_prefix: &str) -> (m: String)
    ensures
        m@ == "echo '"@ + start@ + "'\n{ "@ + command@ + "; } 2>&1\n__agentsh_ec=$?\necho '"@
            + end_prefix@ + "'\"$__agentsh_ec\"'__'\n"@,
{
    let mut m = String::new();
    m.append("echo '");
    m.append(start);
    m.append("'\n{ ");
    m.append(command);
    m.append("; } 2>&1\n__agentsh_ec=$?\necho '");
    m.append(end_prefix);
    m.append("'\"$__agentsh_ec\"'__'\n");
    proof {
        assert(m@ =~= "echo '"@ + start@ + "'\n{ "@ + command@
            + "; } 2>&1\n__agentsh_ec=$?\necho '"@ + end_prefix@ + "'\"$__agentsh_ec\"'__'\n"@);
    }
    m
}

/// A line as the collector sees it: ANSI control stripped, then trailing
/// newlines and carriage returns removed.
pub open spec fn spec_clean_line(s: Seq<char>) -> Seq<char> {
    spec_trim_end_char(spec_trim_end_char(spec_strip_ansi(s), '\n'), '\r')
}

/// Clean a line read from the PTY: strip ANSI escape codes and trailing
/// line endings.
pub fn clean_line(raw: &str) -> (r: String)
    ensures
        r@ == spec_clean_line(raw@),
{
    let stripped = strip_ansi(raw);
    let v = str_to_chars(stripped.as_str());
    let t = trim_end_char(&trim_end_char(&v, '\n'), '\r');
    chars_to_string(&t)
}

/// A trimmed line is empty or ends with a character other than the one
/// trimmed.
proof fn lemma_trim_end_char_last(s: Seq<char>, c: char)
    ensures
        spec_trim_end_char(s, c).len() == 0 || spec_trim_end_char(s, c).last() != c,
        0 <= char_suffix_len(s, c) <= s.len(),
    decreases s.len(),
{
    if s.len() > 0 && s.last() == c {
        lemma_trim_end_char_last(s.drop_last(), c);
        assert(spec_trim_end_char(s, c) =~= spec_trim_end_char(s.drop_last(), c));
    } else {
        if s.len() > 0 {
            assert(spec_trim_end_char(s, c) =~= s);
        }
    }
}

/// Trimming trailing newlines, then trailing carriage returns.
pub open spec fn spec_trim_line_ends(s: Seq<char>) -> Seq<char> {
    spec_trim_end_char(spec_trim_end_char(s, '\n'), '\r')
}

/// Trimming trailing line endings twice equals trimming once, whenever one
/// pass leaves no trailing newline. (One pass always removes every trailing
/// carriage return, but a newline buried under carriage returns — as in
/// "a\n\r" — surfaces after the pass, so this does not hold of every
/// string.)
pub proof fn lemma_trim_line_ends_idempotent(s: Seq<char>)
    requires
        spec_trim_line_ends(s).len() == 0 || spec_trim_line_ends(s).last() != '\n',
    ensures
        spec_trim_line_ends(spec_trim_line_ends(s)) == spec_trim_line_ends(s),
{
    let t = spec_trim_line_ends(s);
    lemma_trim_end_char_last(spec_trim_end_char(s, '\n'), '\r');
    if t.len() == 0 {
        assert(char_suffix_len(t, '\n') == 0);
        assert(spec_trim_end_char(t, '\n') =~= t);
        assert(char_suffix_len(t, '\r') == 0);
        assert(spec_trim_end_char(t, '\r') =~= t);
    } else {
        assert(t.last() != '\n');
        assert(char_suffix_len(t, '\n') == 0);
        assert(spec_trim_end_char(t, '\n') =~= t);
        assert(t.last() != '\r');
        assert(char_suffix_len(t, '\r') == 0);
        assert(spec_trim_end_char(t, '\r') =~= t);
    }
}

/// The exit code carried by a line holding the end marker: present when
/// the line contains the end prefix and, after it, a code closed by two
/// underscores; a code that does not read as a number stands for -1.
pub open spec fn spec_parse_end_marker(cleaned: Seq<char>, endp: Seq<char>) -> Option<i32> {
    let p = spec_find(cleaned, endp);
    if p < 0 {
        None
    } else {
        let after = cleaned.skip(p + endp.len());
        if after.len() >= 2 && after[after.len() - 1] == '_' && after[after.len() - 2] == '_' {
            let code = after.subrange(0, after.len() - 2);
            Some(
                match spec_parse_i32(code) {
                    Some(c) => c,
                    None => -1i32,
                },
            )
        } else {
            None
        }
    }
}

/// Read the exit code off a line holding the end marker, if it does.
pub fn parse_end_marker(cleaned: &str, end_prefix: &str) -> (r: Option<i32>)
    ensures
        r == spec_parse_end_marker(cleaned@, end_prefix@),
{
    let v = str_to_chars(cleaned);
    let endp = str_to_chars(end_prefix);
    let p = match find_index(&v, &endp) {
        None => {
            return None;
        },
        Some(p) => p,
    };
    proof {
        crate::text::lemma_spec_find_bounds(v@, endp@);
    }
    let after_start = p + endp.len();
    let n = v.len();
    let ghost after = v@.skip(after_start as int);
    if n - after_start >= 2 && v[n - 1] == '_' && v[n - 2] == '_' {
        let code = slice_chars(&v, after_start, n - 2);
        proof {
            assert(after.len() >= 2);
            assert(after[after.len() - 1] == v@[n - 1]);
            assert(after[after.len() - 2] == v@[n - 2]);
            assert(code@ =~= after.subrange(0, after.len() - 2));
        }
        match parse_i32(&code) {
            Some(c) => Some(c),
            None => Some(-1),
        }
    } else {
        proof {
            if after.len() >= 2 {
                assert(after[after.len() - 1] == v@[n - 1]);
                assert(after[after.len() - 2] == v@[n - 2]);
            }
        }
        None
    }
}

/// The collector of one command's output: the state machine that walks the
/// PTY lines from the start marker to the end marker.
#[derive(Debug)]
pub struct ExecCollector {
    /// Whether the start marker has been seen.
    pub found_start: bool,
    /// The command's own output lines, in order, capped.
    pub lines: Vec<String>,
    /// The exit code read off the end marker (or 124 after a timeout).
    pub exit_code: i32,
    /// Whether the command timed out.
    pub timed_out: bool,
    /// Whether any output line has arrived (switches reads to the idle
    /// timeout).
    pub has_output: bool,
}

impl ExecCollector {
    /// A fresh collector, awaiting the start marker.
    pub fn new() -> (c: ExecCollector)
        ensures
            !c.found_start,
            c.lines@ == Seq::<String>::empty(),
            c.exit_code == -1,
            !c.timed_out,
            !c.has_output,
    {
        let c = ExecCollector {
            found_start: false,
            lines: Vec::new(),
            exit_code: -1,
            timed_out: false,
            has_output: false,
        };
        proof {
            assert(c.lines@ =~= Seq::<String>::empty());
        }
        c
    }

    /// Feed one raw line to the collector; true means the end marker was
    /// seen and collection is done. Before the start marker every line is
    /// dropped; after it, a line carrying the end prefix closes the
    /// command, marker-tagged lines are ignored as internal noise, and
    /// every other line is kept (up to the cap).
    pub fn handle_line(&mut self, raw: &str, start: &str, end_prefix: &str) -> (done: bool)
        ensures
            ({
                let cleaned = spec_clean_line(raw@);
                let code = spec_parse_end_marker(cleaned, end_prefix@);
                &&& final(self).timed_out == old(self).timed_out
                &&& final(self).exit_code == (if old(self).found_start && code is Some {
                    code->0
                } else {
                    old(self).exit_code
                })
                &&& done == (old(self).found_start && code is Some)
                &&& final(self).found_start == (old(self).found_start || contains_seq(
                    cleaned,
                    start@,
                ))
                &&& (!old(self).found_start ==> final(self).lines@ == old(self).lines@ && final(self).has_output == old(self).has_output)
                &&& (old(self).found_start && code is Some ==> final(self).lines@ == old(self).lines@ && final(self).has_output == old(self).has_output)
                &&& (old(self).found_start && code is None && contains_seq(
                    cleaned,
                    "__AGENTSH_"@,
                ) ==> final(self).lines@ == old(self).lines@ && final(self).has_output == old(self).has_output)
                &&& (old(self).found_start && code is None && !contains_seq(
                    cleaned,
                    "__AGENTSH_"@,
                ) ==> final(self).has_output && (if old(self).lines@.len() < MAX_OUTPUT_LINES as int {
                    final(self).lines@.len() == old(self).lines@.len() + 1 && final(self).lines@.drop_last() == old(self).lines@ && final(self).lines@.last()@
                        == cleaned
                } else {
                    final(self).lines@ == old(self).lines@
                }))
            }),
    {
        let cleaned = clean_line(raw);
        let cleaned_chars = str_to_chars(cleaned.as_str());
        if !self.found_start {
            if contains_chars(&cleaned_chars, &str_to_chars(start)) {
                self.found_start = true;
            }
            return false;
        }
        match parse_end_marker(cleaned.as_str(), end_prefix) {
            Some(c) => {
                self.exit_code = c;
                true
            },
            None => {
                if contains_chars(&cleaned_chars, &str_to_chars("__AGENTSH_")) {
                    return false;
                }
                self.has_output = true;
                if self.lines.len() < MAX_OUTPUT_LINES {
                    self.lines.push(cleaned);
                }
                false
            },
        }
    }
}

impl ExecCollector {
    /// Feed one line read while recovering from a timeout; true means a
    /// marker was seen and the stream is back in sync. Marker-tagged and
    /// empty lines are dropped, anything else is kept (up to the cap).
    pub fn handle_recovery_line(&mut self, raw: &str, recovery: &str, end_prefix: &str) -> (stop:
        bool)
        ensures
            ({
                let cleaned = spec_clean_line(raw@);
                &&& final(self).found_start == old(self).found_start
                &&& final(self).exit_code == old(self).exit_code
                &&& final(self).timed_out == old(self).timed_out
                &&& final(self).has_output == old(self).has_output
                &&& stop == (contains_seq(cleaned, recovery@) || contains_seq(
                    cleaned,
                    end_prefix@,
                ))
                &&& (stop ==> final(self).lines@ == old(self).lines@)
                &&& (!stop ==> (if old(self).lines@.len() < MAX_OUTPUT_LINES as int
                    && !contains_seq(cleaned, "__AGENTSH_"@) && cleaned.len() > 0 {
                    final(self).lines@.len() == old(self).lines@.len() + 1 && final(self).lines@.drop_last() == old(self).lines@ && final(self).lines@.last()@
                        == cleaned
                } else {
                    final(self).lines@ == old(self).lines@
                }))
            }),
    {
        let cleaned = clean_line(raw);
        let cleaned_chars = str_to_chars(cleaned.as_str());
        if contains_chars(&cleaned_chars, &str_to_chars(recovery)) {
            return true;
        }
        if contains_chars(&cleaned_chars, &str_to_chars(end_prefix)) {
            return true;
        }
        if self.lines.len() < MAX_OUTPUT_LINES && !contains_chars(
            &cleaned_chars,
            &str_to_chars("__AGENTSH_"),
        ) && cleaned_chars.len() > 0 {
            self.lines.push(cleaned);
        }
        false
    }

    /// Mark the command as timed out: output collection ends with exit
    /// code 124.
    pub fn mark_timed_out(&mut self)
        ensures
            final(self).timed_out,
            final(self).exit_code == 124,
            final(self).lines@ == old(self).lines@,
            final(self).found_start == old(self).found_start,
            final(self).has_output == old(self).has_output,
    {
        self.timed_out = true;
        self.exit_code = 124;
    }

    /// The collected result, stamped with the session and the wall-clock
    /// duration.
    pub fn into_result(self, session_id: String, duration_ms: u64) -> (r: SessionExecResult)
        ensures
            r.session_id == session_id,
            r.exit_code == self.exit_code,
            r.duration_ms == duration_ms,
            r.lines@ == self.lines@,
            r.timed_out == self.timed_out,
    {
        SessionExecResult {
            session_id,
            exit_code: self.exit_code,
            duration_ms,
            lines: self.lines,
            timed_out: self.timed_out,
        }
    }
}

/// The synthetic result of a command the validator rejected: nothing ran;
/// the reason is the sole output line.
pub fn blocked_exec_result(reason: String) -> (r: SessionExecResult)
    ensures
        r.session_id@ == Seq::<char>::empty(),
        r.exit_code == -1,
        r.duration_ms == 0,
        r.lines@.len() == 1,
        r.lines@[0] == reason,
        !r.timed_out,
{
    let mut lines: Vec<String> = Vec::new();
    lines.push(reason);
    SessionExecResult {
        session_id: String::new(),
        exit_code: -1,
        duration_ms: 0,
        lines,
        timed_out: false,
    }
}

/// The total timeout for one exec: the caller's value clamped to the
/// ceiling, or the default.
pub fn effective_exec_timeout(timeout_seconds: Option<u64>) -> (r: u64)
    ensures
        r == (match timeout_seconds {
            Some(t) => if t <= MAX_TIMEOUT_SECONDS {
                t as int
            } else {
                MAX_TIMEOUT_SECONDS as int
            },
            None => DEFAULT_EXEC_TIMEOUT_SECONDS as int,
        }),
{
    match timeout_seconds {
        Some(t) => if t <= MAX_TIMEOUT_SECONDS {
            t
        } else {
            MAX_TIMEOUT_SECONDS
        },
        None => DEFAULT_EXEC_TIMEOUT_SECONDS,
    }
}

/// The bound on the next read: once output has arrived and an idle timeout
/// is configured, the idle value; otherwise the total timeout.
pub fn read_timeout_secs(has_output: bool, idle_timeout: Option<u64>, total_timeout: u64) -> (r:
    u64)
    ensures
        r == (if has_output && idle_timeout is Some {
            idle_timeout->0 as int
        } else {
            total_timeout as int
        }),
{
    if has_output {
        match idle_timeout {
            Some(v) => v,
            None => total_timeout,
        }
    } else {
        total_timeout
    }
}

/// The UTF-8 bytes of one character, laid out as `encode_scalar` defines
/// them: one to four bytes by the scalar's range, a width-tagged leading
/// byte followed by continuation bytes.
fn utf8_bytes_of(c: char) -> (r: Vec<u8>)
    ensures
        r@ == encode_scalar(c as u32),
{
    let u = c as u32;
    let mut r: Vec<u8> = Vec::new();
    if u <= 0x7F {
        r.push((u & 0x7F) as u8);
        proof {
            assert(r@ =~= encode_scalar(c as u32));
        }
    } else if u <= 0x7FF {
        r.push(0xC0 | ((u >> 6) & 0x1F) as u8);
        r.push(0x80 | (u & 0x3F) as u8);
        proof {
            assert(r@ =~= encode_scalar(c as u32));
        }
    } else if 0x800 <= u && u <= 0xFFFF && !(0xD800 <= u && u <= 0xDFFF) {
        r.push(0xE0 | ((u >> 12) & 0x0F) as u8);
        r.push(0x80 | ((u >> 6) & 0x3F) as u8);
        r.push(0x80 | (u & 0x3F) as u8);
        proof {
            assert(r@ =~= encode_scalar(c as u32));
        }
    } else {
        r.push(0xF0 | ((u >> 18) & 0x7) as u8);
        r.push(0x80 | ((u >> 12) & 0x3F) as u8);
        r.push(0x80 | ((u >> 6) & 0x3F) as u8);
        r.push(0x80 | (u & 0x3F) as u8);
        proof {
            assert(r@ =~= encode_scalar(c as u32));
        }
    }
    r
}

/// The bytes that raw input stands for, with escape sequences expanded:
/// `\n`, `\r`, `\t` and `\\` become single bytes; `\xHH` becomes the byte
/// the hexadecimal digits name (and vanishes when they do not parse); a
/// backslash before any other character, or at the end, stays literal;
/// every other character contributes its UTF-8 bytes.
pub open spec fn spec_unescape(s: Seq<char>) -> Seq<u8>
    decreases s.len(),
{
    if s.len() == 0 {
        Seq::empty()
    } else if s[0] == '\\' {
        if s.len() == 1 {
            seq![92u8]
        } else {
            let c = s[1];
            if c == 'n' {
                seq![10u8] + spec_unescape(s.skip(2))
            } else if c == 'r' {
                seq![13u8] + spec_unescape(s.skip(2))
            } else if c == 't' {
                seq![9u8] + spec_unescape(s.skip(2))
            } else if c == '\\' {
                seq![92u8] + spec_unescape(s.skip(2))
            } else if c == 'x' {
                let taken = if s.len() >= 4 {
                    2int
                } else {
                    s.len() - 2
                };
                let rest = spec_unescape(s.skip(2 + taken));
                match spec_parse_u8_hex(s.subrange(2, 2 + taken)) {
                    Some(b) => seq![b] + rest,
                    None => rest,
                }
            } else {
                seq![92u8] + encode_scalar(c as u32) + spec_unescape(s.skip(2))
            }
        }
    } else {
        encode_scalar(s[0] as u32) + spec_unescape(s.skip(1))
    }
}

/// Process escape sequences in input text, so that callers can press Enter
/// or send control bytes: tool parameters arrive as literal text where
/// `\n` is two characters.
pub fn process_escapes(input: &str) -> (r: Vec<u8>)
    ensures
        r@ == spec_unescape(input@),
{
    let v = str_to_chars(input);
    let n = v.len();
    let mut out: Vec<u8> = Vec::new();
    let mut i: usize = 0;
    proof {
        assert(v@.skip(0) =~= v@);
        assert(out@ + spec_unescape(v@) =~= spec_unescape(v@));
    }
    while i < n
        invariant
            i <= n,
            n == v@.len(),
            spec_unescape(v@) == out@ + spec_unescape(v@.skip(i as int)),
        decreases n - i,
    {
        let ghost rem = v@.skip(i as int);
        let c = v[i];
        proof {
            assert(rem[0] == v@[i as int]);
        }
        if c == '\\' {
            if i + 1 == n {
                out.push(92u8);
                proof {
                    assert(rem.len() == 1);
                    assert(out@ + spec_unescape(v@.skip(n as int)) =~= spec_unescape(v@));
                    assert(v@.skip(n as int) =~= Seq::<char>::empty());
                }
                i += 1;
            } else {
                let c1 = v[i + 1];
                proof {
                    assert(rem[1] == v@[i + 1]);
                    assert(rem.skip(2) =~= v@.skip(i + 2));
                }
                if c1 == 'n' {
                    out.push(10u8);
                    proof {
                        assert(out@ + spec_unescape(v@.skip(i + 2)) =~= spec_unescape(v@));
                    }
                    i += 2;
                } else if c1 == 'r' {
                    out.push(13u8);
                    proof {
                        assert(out@ + spec_unescape(v@.skip(i + 2)) =~= spec_unescape(v@));
                    }
                    i += 2;
                } else if c1 == 't' {
                    out.push(9u8);
                    proof {
                        assert(out@ + spec_unescape(v@.skip(i + 2)) =~= spec_unescape(v@));
                    }
                    i += 2;
                } else if c1 == '\\' {
                    out.push(92u8);
                    proof {
                        assert(out@ + spec_unescape(v@.skip(i + 2)) =~= spec_unescape(v@));
                    }
                    i += 2;
                } else if c1 == 'x' {
                    let taken: usize = if n - i >= 4 {
                        2
                    } else {
                        n - i - 2
                    };
                    let hex = slice_chars(&v, i + 2, i + 2 + taken);
                    proof {
                        assert(hex@ =~= rem.subrange(2, 2 + taken));
                        assert(rem.skip(2 + taken) =~= v@.skip(i + 2 + taken));
                    }
                    match parse_u8_hex(&hex) {
                        Some(b) => {
                            out.push(b);
                            proof {
                                assert(out@ + spec_unescape(v@.skip(i + 2 + taken))
                                    =~= spec_unescape(v@));
                            }
                        },
                        None => {
                            proof {
                                assert(out@ + spec_unescape(v@.skip(i + 2 + taken))
                                    =~= spec_unescape(v@));
                            }
                        },
                    }
                    i += 2 + taken;
                } else {
                    out.push(92u8);
                    let mut bs = utf8_bytes_of(c1);
                    out.append(&mut bs);
                    proof {
                        assert(out@ + spec_unescape(v@.skip(i + 2)) =~= spec_unescape(v@));
                    }
                    i += 2;
                }
            }
        } else {
            let mut bs = utf8_bytes_of(c);
            out.append(&mut bs);
            proof {
                assert(rem.skip(1) =~= v@.skip(i + 1));
                assert(out@ + spec_unescape(v@.skip(i + 1)) =~= spec_unescape(v@));
            }
            i += 1;
        }
    }
    proof {
        assert(v@.skip(n as int) =~= Seq::<char>::empty());
        assert(out@ + Seq::<u8>::empty() =~= out@);
    }
    out
}

/// The cleaned, non-empty lines of settled raw PTY output: the text split
/// at newlines (one trailing carriage return dropped per line, as the
/// standard line iterator does), each line cleaned, empty lines dropped.
pub open spec fn spec_settled_lines(s: Seq<char>) -> Seq<Seq<char>>
    decreases s.len(),
    via spec_settled_lines_decreases
{
    if s.len() == 0 {
        Seq::empty()
    } else {
        let p = spec_find(s, seq!['\n']);
        let piece = if p < 0 {
            s
        } else {
            s.subrange(0, p)
        };
        let piece2 = if piece.len() > 0 && piece.last() == '\r' {
            piece.drop_last()
        } else {
            piece
        };
        let cleaned = spec_clean_line(piece2);
        let rest = if p < 0 {
            Seq::<Seq<char>>::empty()
        } else {
            spec_settled_lines(s.skip(p + 1))
        };
        if cleaned.len() > 0 {
            seq![cleaned] + rest
        } else {
            rest
        }
    }
}

#[via_fn]
proof fn spec_settled_lines_decreases(s: Seq<char>) {
    crate::text::lemma_spec_find_bounds(s, seq!['\n']);
}

/// Split settled raw output into cleaned, non-empty lines.
pub fn settled_output_lines(raw: &str) -> (r: Vec<String>)
    ensures
        r.deep_view() == spec_settled_lines(raw@),
{
    let v = str_to_chars(raw);
    let nl = {
        let mut c: Vec<char> = Vec::new();
        c.push('\n');
        c
    };
    proof {
        assert(nl@ =~= seq!['\n']);
    }
    let mut r: Vec<String> = Vec::new();
    let mut i: usize = 0;
    let mut done = false;
    proof {
        assert(v@.skip(0) =~= v@);
        assert(r.deep_view() + spec_settled_lines(v@) =~= spec_settled_lines(v@));
    }
    while !done && i < v.len()
        invariant
            i <= v@.len(),
            v@ == raw@,
            nl@ == seq!['\n'],
            !done ==> spec_settled_lines(raw@) == r.deep_view() + spec_settled_lines(
                v@.skip(i as int),
            ),
            done ==> r.deep_view() == spec_settled_lines(raw@),
        decreases v@.len() - i + (if done {
            0int
        } else {
            1int
        }),
    {
        let rem = slice_chars(&v, i, v.len());
        proof {
            assert(rem@ =~= v@.skip(i as int));
        }
        let (piece, next, at_end) = match find_index(&rem, &nl) {
            None => (rem, v.len(), true),
            Some(p) => {
                proof {
                    crate::text::lemma_spec_find_bounds(rem@, seq!['\n']);
                }
                (slice_chars(&rem, 0, p), i + p + 1, false)
            },
        };
        let piece2 = if piece.len() > 0 && piece[piece.len() - 1] == '\r' {
            slice_chars(&piece, 0, piece.len() - 1)
        } else {
            piece
        };
        proof {
            let sp = v@.skip(i as int);
            let p = spec_find(sp, seq!['\n']);
            let spiece = if p < 0 {
                sp
            } else {
                sp.subrange(0, p)
            };
            assert(piece2@ =~= (if spiece.len() > 0 && spiece.last() == '\r' {
                spiece.drop_last()
            } else {
                spiece
            }));
        }
        let cleaned = clean_line(chars_to_string(&piece2).as_str());
        let ghost old_r = r.deep_view();
        let ghost prev = r@;
        if cleaned.as_str().unicode_len() > 0 {
            r.push(cleaned);
            proof {
                assert forall|q: int| 0 <= q < prev.len() implies r.deep_view()[q] == old_r.push(
                    spec_clean_line(piece2@),
                )[q] by {
                    assert(r@[q] == prev[q]);
                }
                assert(r.deep_view() =~= old_r.push(spec_clean_line(piece2@)));
                assert(old_r.push(spec_clean_line(piece2@)) =~= old_r + seq![
                    spec_clean_line(piece2@),
                ]);
            }
        }
        proof {
            let sp = v@.skip(i as int);
            let p = spec_find(sp, seq!['\n']);
            if p >= 0 {
                assert(sp.skip(p + 1) =~= v@.skip(i + p + 1));
            }
        }
        if at_end {
            done = true;
        } else {
            proof {
                assert(next > i);
            }
            i = next;
        }
    }
    proof {
        if !done {
            assert(v@.skip(v@.len() as int) =~= Seq::<char>::empty());
            assert(r.deep_view() + Seq::<Seq<char>>::empty() =~= r.deep_view());
        }
    }
    r
}

/// Output grew meaningfully since the last check: by more than ten bytes
/// (tiny updates are cursor noise from full-screen programs).
pub fn meaningful_growth(prev_len: usize, new_len: usize) -> (r: bool)
    requires
        prev_len <= new_len,
    ensures
        r == (new_len - prev_len > 10),
{
    new_len - prev_len > 10
}

/// The hard cap on one settle-read: five times the idle timeout, and no
/// less than thirty seconds.
pub fn send_hard_cap_secs(idle_timeout_secs: u64) -> (r: u64)
    ensures
        r as int == (if 5 * (idle_timeout_secs as int) > u64::MAX as int {
            u64::MAX as int
        } else if 5 * (idle_timeout_secs as int) >= 30 {
            5 * (idle_timeout_secs as int)
        } else {
            30int
        }),
{
    let m = if idle_timeout_secs <= u64::MAX / 5 {
        5 * idle_timeout_secs
    } else {
        u64::MAX
    };
    if m >= 30 {
        m
    } else {
        30
    }
}

} // verus!
