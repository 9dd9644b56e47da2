//! Output windowing and error-pattern extraction for command output.
//!
//! Pure functions that take raw command output lines and produce structured,
//! token-efficient summaries: a head taken from the start, a tail taken from
//! the end, and the lines of the full input that look like errors.

use vstd::prelude::*;
use crate::text::{check_contains_word_ci, contains_word_ci, str_to_chars};

verus! {

broadcast use vstd::seq_lib::group_seq_properties;

/// The number of lines reserved for the "head" portion of windowed output.
pub open spec fn head_line_budget() -> int {
    10
}

/// The line matches one of the error patterns: the words error, failed,
/// failure, fatal, panic, exception, traceback, fail, denied or aborted,
/// each sought case-insensitively at word boundaries.
pub open spec fn is_error_line(s: Seq<char>) -> bool {
    ||| contains_word_ci(s, "error"@)
    ||| contains_word_ci(s, "failed"@)
    ||| contains_word_ci(s, "failure"@)
    ||| contains_word_ci(s, "fatal"@)
    ||| contains_word_ci(s, "panic"@)
    ||| contains_word_ci(s, "exception"@)
    ||| contains_word_ci(s, "traceback"@)
    ||| contains_word_ci(s, "fail"@)
    ||| contains_word_ci(s, "denied"@)
    ||| contains_word_ci(s, "aborted"@)
}

/// The error-line test, as a predicate value on whole lines.
pub open spec fn error_line_pred() -> spec_fn(String) -> bool {
    |l: String| is_error_line(l@)
}

/// The lines of the input that match an error pattern, in input order.
pub open spec fn spec_extract_errors(lines: Seq<String>) -> Seq<String> {
    lines.filter(error_line_pred())
}

/// Number of lines placed in the head for the given input length and
/// budget.
pub open spec fn spec_head_count(total: int, max: int) -> int {
    if total <= max {
        total
    } else if max < head_line_budget() {
        max
    } else {
        head_line_budget()
    }
}

/// Number of lines placed in the tail for the given input length and
/// budget.
pub open spec fn spec_tail_count(total: int, max: int) -> int {
    if total <= max {
        0
    } else {
        max - spec_head_count(total, max)
    }
}

/// The head of the window: the input itself when it fits the budget, else
/// its first lines up to the reserved head size.
pub open spec fn spec_window_head(lines: Seq<String>, max: int) -> Seq<String> {
    lines.subrange(0, spec_head_count(lines.len() as int, max))
}

/// The tail of the window: empty when the input fits the budget, else the
/// last lines filling the rest of the budget.
pub open spec fn spec_window_tail(lines: Seq<String>, max: int) -> Seq<String> {
    lines.subrange(lines.len() - spec_tail_count(lines.len() as int, max), lines.len() as int)
}

/// A windowed view of command output.
#[derive(Debug)]
pub struct OutputWindow {
    /// First lines of output (usually invocation context / setup).
    pub head: Vec<String>,
    /// Last lines of output (usually the result / error summary).
    pub tail: Vec<String>,
    /// Lines that matched error patterns, extracted from the full output.
    pub error_lines: Vec<String>,
    /// Total number of lines in the original output.
    pub total_lines: usize,
    /// Whether the output was truncated (head+tail shorter than the input).
    pub truncated: bool,
}

/// Extract lines that match common error patterns from command output.
///
/// Scans each line for words indicating errors, failures, panics,
/// exceptions and other common failure indicators.
pub fn extract_errors(lines: &Vec<String>) -> (r: Vec<String>)
    ensures
        r@ == spec_extract_errors(lines@),
{
    let mut r: Vec<String> = Vec::new();
    let mut i: usize = 0;
    proof {
        reveal(Seq::filter);
        assert(lines@.subrange(0, 0) =~= Seq::<String>::empty());
    }
    while i < lines.len()
        invariant
            i <= lines@.len(),
            r@ == lines@.subrange(0, i as int).filter(error_line_pred()),
        decreases lines@.len() - i,
    {
        let line_chars = str_to_chars(lines[i].as_str());
        let matched = check_error_line(&line_chars);
        proof {
            assert(matched == is_error_line(lines@[i as int]@));
            assert(lines@.subrange(0, i + 1).drop_last() =~= lines@.subrange(0, i as int));
            assert(lines@.subrange(0, i + 1).last() == lines@[i as int]);
            reveal(Seq::filter);
        }
        if matched {
            r.push(lines[i].clone());
        }
        i += 1;
    }
    proof {
        assert(lines@.subrange(0, lines@.len() as int) =~= lines@);
    }
    r
}

/// Whether the line matches any error pattern.
pub fn check_error_line(line: &Vec<char>) -> (r: bool)
    ensures
        r == is_error_line(line@),
{
    if check_contains_word_ci(line, &str_to_chars("error")) {
        return true;
    }
    if check_contains_word_ci(line, &str_to_chars("failed")) {
        return true;
    }
    if check_contains_word_ci(line, &str_to_chars("failure")) {
        return true;
    }
    if check_contains_word_ci(line, &str_to_chars("fatal")) {
        return true;
    }
    if check_contains_word_ci(line, &str_to_chars("panic")) {
        return true;
    }
    if check_contains_word_ci(line, &str_to_chars("exception")) {
        return true;
    }
    if check_contains_word_ci(line, &str_to_chars("traceback")) {
        return true;
    }
    if check_contains_word_ci(line, &str_to_chars("fail")) {
        return true;
    }
    if check_contains_word_ci(line, &str_to_chars("denied")) {
        return true;
    }
    if check_contains_word_ci(line, &str_to_chars("aborted")) {
        return true;
    }
    false
}

/// Window command output into head and tail sections.
///
/// If the output fits within `max_lines`, returns it whole in `head` with an
/// empty `tail`. Otherwise the head takes the first lines up to the reserved
/// head size and the tail takes the last lines filling the remaining budget.
/// Error lines are extracted from the full input either way.
pub fn window(lines: &Vec<String>, max_lines: usize) -> (w: OutputWindow)
    ensures
        w.total_lines == lines@.len(),
        w.truncated == (lines@.len() > max_lines),
        w.head@ == spec_window_head(lines@, max_lines as int),
        w.tail@ == spec_window_tail(lines@, max_lines as int),
        w.error_lines@ == spec_extract_errors(lines@),
{
    let total_lines = lines.len();
    let error_lines = extract_errors(lines);

    if total_lines <= max_lines {
        let head = clone_range(lines, 0, total_lines);
        proof {
            assert(spec_window_tail(lines@, max_lines as int) =~= Seq::<String>::empty());
        }
        return OutputWindow {
            head,
            tail: Vec::new(),
            error_lines,
            total_lines,
            truncated: false,
        };
    }
    let head_count = if max_lines < 10 {
        max_lines
    } else {
        10
    };
    let tail_count = max_lines - head_count;
    let head = clone_range(lines, 0, head_count);
    let tail = if tail_count > 0 {
        clone_range(lines, total_lines - tail_count, total_lines)
    } else {
        Vec::new()
    };
    proof {
        if tail_count == 0 {
            assert(spec_window_tail(lines@, max_lines as int) =~= Seq::<String>::empty());
        }
    }
    OutputWindow { head, tail, error_lines, total_lines, truncated: true }
}

/// Clones the lines in positions `from..to`.
pub fn clone_range(lines: &Vec<String>, from: usize, to: usize) -> (r: Vec<String>)
    requires
        from <= to <= lines@.len(),
    ensures
        r@ == lines@.subrange(from as int, to as int),
{
    let mut r: Vec<String> = Vec::new();
    let mut i: usize = from;
    while i < to
        invariant
            from <= i <= to <= lines@.len(),
            r@ == lines@.subrange(from as int, i as int),
        decreases to - i,
    {
        r.push(lines[i].clone());
        proof {
            assert(r@ =~= lines@.subrange(from as int, i + 1 as int));
        }
        i += 1;
    }
    r
}

/// Filtering keeps only elements of the input: the result is a
/// sub-multiset of the input.
pub proof fn lemma_filter_sub_multiset<A>(s: Seq<A>, pred: spec_fn(A) -> bool)
    ensures
        s.filter(pred).to_multiset().subset_of(s.to_multiset()),
    decreases s.len(),
{
    broadcast use vstd::multiset::group_multiset_axioms;
    broadcast use vstd::multiset::group_multiset_properties;

    reveal(Seq::filter);
    if s.len() == 0 {
        s.to_multiset_ensures();
    } else {
        let d = s.drop_last();
        lemma_filter_sub_multiset(d, pred);
        d.to_multiset_ensures();
        d.filter(pred).to_multiset_ensures();
        assert(d.push(s.last()) =~= s);
        assert(s.to_multiset() =~= d.to_multiset().insert(s.last()));
        if pred(s.last()) {
            assert(s.filter(pred) == d.filter(pred).push(s.last()));
            assert(s.filter(pred).to_multiset() =~= d.filter(pred).to_multiset().insert(
                s.last(),
            ));
            assert forall|v: A|
                s.filter(pred).to_multiset().count(v) <= s.to_multiset().count(v) by {
                if v == s.last() {
                } else {
                }
            }
        } else {
            assert forall|v: A|
                s.filter(pred).to_multiset().count(v) <= s.to_multiset().count(v) by {}
        }
    }
}

/// Laws of the output window, for every input and budget: head and tail
/// together stay within the budget; the window is truncated exactly when
/// the input is longer than the budget; an input that fits is returned
/// whole in the head with an empty tail; the head is a prefix of the input
/// and the tail a suffix, each in input order; and the error lines are the
/// sub-multiset of input lines matching an error pattern, in input order.
pub proof fn lemma_window_invariants(lines: Seq<String>, max: int)
    requires
        0 <= max,
    ensures
        spec_window_head(lines, max).len() + spec_window_tail(lines, max).len() <= max,
        lines.len() <= max ==> spec_window_head(lines, max) == lines && spec_window_tail(
            lines,
            max,
        ) == Seq::<String>::empty(),
        spec_window_head(lines, max) == lines.subrange(
            0,
            spec_head_count(lines.len() as int, max),
        ),
        spec_window_tail(lines, max) == lines.subrange(
            lines.len() - spec_tail_count(lines.len() as int, max),
            lines.len() as int,
        ),
        spec_extract_errors(lines) == lines.filter(error_line_pred()),
        spec_extract_errors(lines).to_multiset().subset_of(lines.to_multiset()),
{
    if lines.len() <= max {
        assert(spec_window_head(lines, max) =~= lines);
        assert(spec_window_tail(lines, max) =~= Seq::<String>::empty());
    }
    lemma_filter_sub_multiset(lines, error_line_pred());
}

} // verus!
