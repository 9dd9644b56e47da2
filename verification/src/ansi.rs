//! Stripping of ANSI terminal control from text.
//!
//! PTY output carries terminal formatting that is meaningless to the caller:
//! CSI sequences (`ESC [` parameters and a final byte), OSC sequences
//! (`ESC ]` up to BEL), charset selection (`ESC (` or `ESC )` and one
//! selector), other two-character escapes (ESC and a letter), and
//! backspace-overstrike pairs (any character followed by backspace). The
//! stripper removes every such sequence by a single left-to-right scan,
//! deleting at each position the first matching form.

use vstd::prelude::*;
use crate::text::{chars_to_string, is_digit_char, str_to_chars};

verus! {

/// The escape character.
pub open spec fn esc_char() -> char {
    '\u{1b}'
}

/// The backspace character.
pub open spec fn bs_char() -> char {
    '\u{8}'
}

/// The bell character, which terminates an OSC sequence.
pub open spec fn bel_char() -> char {
    '\u{7}'
}

/// Characters allowed in the parameter part of a CSI sequence.
pub open spec fn is_csi_param_char(c: char) -> bool {
    is_digit_char(c) || c == ';' || c == '?' || c == '<' || c == '=' || c == '>' || c == '!'
}

/// Characters that may end a CSI sequence: letters and tilde.
pub open spec fn is_csi_final_char(c: char) -> bool {
    let u = c as u32;
    (0x41 <= u && u <= 0x5A) || (0x61 <= u && u <= 0x7A) || c == '~'
}

/// Selector characters of a charset-selection escape.
pub open spec fn is_charset_char(c: char) -> bool {
    is_digit_char(c) || c == 'A' || c == 'B'
}

/// ASCII letters, the second character of a plain two-character escape.
pub open spec fn is_alpha_char(c: char) -> bool {
    let u = c as u32;
    (0x41 <= u && u <= 0x5A) || (0x61 <= u && u <= 0x7A)
}

/// Length of the leading run of CSI parameter characters.
pub open spec fn csi_param_run(s: Seq<char>) -> int
    decreases s.len(),
{
    if s.len() > 0 && is_csi_param_char(s[0]) {
        1 + csi_param_run(s.drop_first())
    } else {
        0
    }
}

/// Length of the leading run of characters other than BEL.
pub open spec fn non_bel_run(s: Seq<char>) -> int
    decreases s.len(),
{
    if s.len() > 0 && s[0] != bel_char() {
        1 + non_bel_run(s.drop_first())
    } else {
        0
    }
}

/// Length of the control sequence that starts at the front of the string,
/// or 0 when none starts there. The five forms are tried in order: CSI,
/// OSC, charset selection, two-character escape, backspace overstrike.
pub open spec fn ansi_match_len(s: Seq<char>) -> int {
    let cp = csi_param_run(s.skip(2));
    let op = non_bel_run(s.skip(2));
    if s.len() >= 2 && s[0] == esc_char() && s[1] == '[' && 2 + cp < s.len() && is_csi_final_char(
        s[2 + cp],
    ) {
        3 + cp
    } else if s.len() >= 2 && s[0] == esc_char() && s[1] == ']' && 2 + op < s.len() && s[2 + op]
        == bel_char() {
        3 + op
    } else if s.len() >= 3 && s[0] == esc_char() && (s[1] == '(' || s[1] == ')')
        && is_charset_char(s[2]) {
        3
    } else if s.len() >= 2 && s[0] == esc_char() && is_alpha_char(s[1]) {
        2
    } else if s.len() >= 2 && s[0] != '\n' && s[1] == bs_char() {
        2
    } else {
        0
    }
}

/// Leading runs never exceed the string's length.
pub proof fn lemma_runs_bounds(s: Seq<char>)
    ensures
        0 <= csi_param_run(s) <= s.len(),
        0 <= non_bel_run(s) <= s.len(),
    decreases s.len(),
{
    if s.len() > 0 {
        lemma_runs_bounds(s.drop_first());
    }
}

/// A match at the front fits inside the string.
pub proof fn lemma_ansi_match_len_bounds(s: Seq<char>)
    ensures
        0 <= ansi_match_len(s) <= s.len(),
{
    lemma_runs_bounds(s.skip(2));
}

/// The string with every ANSI control sequence removed, scanning left to
/// right and restarting after each removed sequence.
pub open spec fn spec_strip_ansi(s: Seq<char>) -> Seq<char>
    decreases s.len(),
    via spec_strip_ansi_decreases
{
    if s.len() == 0 {
        Seq::empty()
    } else {
        let m = ansi_match_len(s);
        if m > 0 {
            spec_strip_ansi(s.skip(m))
        } else {
            seq![s[0]] + spec_strip_ansi(s.skip(1))
        }
    }
}

#[via_fn]
proof fn spec_strip_ansi_decreases(s: Seq<char>) {
    lemma_ansi_match_len_bounds(s);
}

/// A run of CSI parameter characters that ends at a non-parameter
/// character (or at the end) is exactly the leading run.
proof fn lemma_csi_run_index(s: Seq<char>, a: int)
    requires
        0 <= a <= s.len(),
        forall|i: int| 0 <= i < a ==> is_csi_param_char(s[i]),
        a < s.len() ==> !is_csi_param_char(s[a]),
    ensures
        csi_param_run(s) == a,
    decreases s.len(),
{
    if s.len() > 0 && is_csi_param_char(s[0]) {
        assert(a > 0);
        lemma_csi_run_index(s.drop_first(), a - 1);
    }
}

/// A run of non-BEL characters that ends at BEL (or at the end) is exactly
/// the leading run.
proof fn lemma_non_bel_run_index(s: Seq<char>, a: int)
    requires
        0 <= a <= s.len(),
        forall|i: int| 0 <= i < a ==> s[i] != bel_char(),
        a < s.len() ==> s[a] == bel_char(),
    ensures
        non_bel_run(s) == a,
    decreases s.len(),
{
    if s.len() > 0 && s[0] != bel_char() {
        assert(a > 0);
        lemma_non_bel_run_index(s.drop_first(), a - 1);
    }
}

/// Whether the character may appear in the parameter part of a CSI
/// sequence.
fn check_csi_param_char(c: char) -> (r: bool)
    ensures
        r == is_csi_param_char(c),
{
    let u = c as u32;
    (0x30 <= u && u <= 0x39) || c == ';' || c == '?' || c == '<' || c == '=' || c == '>' || c
        == '!'
}

/// Length of the control sequence starting at position `i`, or 0.
fn ansi_match_at(v: &Vec<char>, i: usize) -> (m: usize)
    requires
        i < v@.len(),
    ensures
        m == ansi_match_len(v@.skip(i as int)),
        i + m <= v@.len(),
{
    proof {
        lemma_ansi_match_len_bounds(v@.skip(i as int));
    }
    let ghost s = v@.skip(i as int);
    let n = v.len();
    let c0 = v[i];
    if c0 == '\u{1b}' && i + 1 < n {
        let c1 = v[i + 1];
        if c1 == '[' {
            // Find the end of the parameter run.
            let mut j: usize = i + 2;
            while j < n && check_csi_param_char(v[j])
                invariant
                    i + 2 <= j <= n,
                    n == v@.len(),
                    forall|k: int| i + 2 <= k < j ==> is_csi_param_char(v@[k]),
                decreases n - j,
            {
                j += 1;
            }
            proof {
                assert forall|k: int| 0 <= k < j - i - 2 implies is_csi_param_char(
                    s.skip(2)[k],
                ) by {
                    assert(s.skip(2)[k] == v@[i + 2 + k]);
                }
                if j < n {
                    assert(s.skip(2)[j - i - 2] == v@[j as int]);
                }
                lemma_csi_run_index(s.skip(2), j - i - 2);
            }
            if j < n {
                let cf = v[j];
                let u = cf as u32;
                if (0x41 <= u && u <= 0x5A) || (0x61 <= u && u <= 0x7A) || cf == '~' {
                    proof {
                        assert(s[2 + (j - i - 2)] == v@[j as int]);
                    }
                    return j + 1 - i;
                }
            }
            proof {
                if 2 + csi_param_run(s.skip(2)) < s.len() {
                    assert(s[2 + (j - i - 2)] == v@[j as int]);
                }
            }
            // ESC [ without a final byte matches no other form.
            return 0;
        }
        if c1 == ']' {
            let mut j: usize = i + 2;
            while j < n && v[j] != '\u{7}'
                invariant
                    i + 2 <= j <= n,
                    n == v@.len(),
                    forall|k: int| i + 2 <= k < j ==> v@[k] != bel_char(),
                decreases n - j,
            {
                j += 1;
            }
            proof {
                assert forall|k: int| 0 <= k < j - i - 2 implies s.skip(2)[k] != bel_char() by {
                    assert(s.skip(2)[k] == v@[i + 2 + k]);
                }
                if j < n {
                    assert(s.skip(2)[j - i - 2] == v@[j as int]);
                }
                lemma_non_bel_run_index(s.skip(2), j - i - 2);
                if j < n {
                    assert(s[2 + (j - i - 2)] == v@[j as int]);
                }
            }
            if j < n {
                return j + 1 - i;
            }
            return 0;
        }
        if (c1 == '(' || c1 == ')') && i + 2 < n {
            let c2 = v[i + 2];
            let u2 = c2 as u32;
            if (0x30 <= u2 && u2 <= 0x39) || c2 == 'A' || c2 == 'B' {
                proof {
                    assert(s[2] == v@[i + 2]);
                }
                return 3;
            }
        }
        let u1 = c1 as u32;
        if (0x41 <= u1 && u1 <= 0x5A) || (0x61 <= u1 && u1 <= 0x7A) {
            return 2;
        }
        if c1 == '\u{8}' {
            // ESC itself is not a newline, so the overstrike form applies.
            return 2;
        }
        return 0;
    }
    if c0 != '\n' && i + 1 < n && v[i + 1] == '\u{8}' {
        return 2;
    }
    0
}

/// Strip ANSI escape codes from a string.
///
/// PTY output contains terminal formatting (colors, cursor movement and the
/// like) that is noise to the caller. This removes it, leaving only the
/// visible text content.
pub fn strip_ansi(s: &str) -> (r: String)
    ensures
        r@ == spec_strip_ansi(s@),
{
    let v = str_to_chars(s);
    let mut out: Vec<char> = Vec::new();
    let mut i: usize = 0;
    proof {
        assert(v@.skip(0) =~= v@);
        assert(out@ + spec_strip_ansi(v@) =~= spec_strip_ansi(v@));
    }
    while i < v.len()
        invariant
            i <= v@.len(),
            v@ == s@,
            spec_strip_ansi(v@) == out@ + spec_strip_ansi(v@.skip(i as int)),
        decreases v@.len() - i,
    {
        let m = ansi_match_at(&v, i);
        if m > 0 {
            proof {
                assert(v@.skip(i as int).skip(m as int) =~= v@.skip(i + m));
            }
            i += m;
        } else {
            out.push(v[i]);
            proof {
                assert(v@.skip(i as int)[0] == v@[i as int]);
                assert(v@.skip(i as int).skip(1) =~= v@.skip(i + 1));
                assert(out@ + spec_strip_ansi(v@.skip(i + 1)) =~= spec_strip_ansi(v@));
            }
            i += 1;
        }
    }
    proof {
        assert(v@.skip(v@.len() as int) =~= Seq::<char>::empty());
        assert(out@ + Seq::<char>::empty() =~= out@);
    }
    chars_to_string(&out)
}

/// No escape or backspace character occurs in the string, so no control
/// sequence can start anywhere in it.
pub open spec fn ansi_clean(s: Seq<char>) -> bool {
    forall|i: int| 0 <= i < s.len() ==> s[i] != esc_char() && s[i] != bs_char()
}

/// Stripping a string that holds no escape and no backspace character
/// leaves it unchanged.
pub proof fn lemma_strip_ansi_clean_identity(s: Seq<char>)
    requires
        ansi_clean(s),
    ensures
        spec_strip_ansi(s) == s,
    decreases s.len(),
{
    if s.len() > 0 {
        assert(ansi_match_len(s) == 0) by {
            if s.len() >= 2 {
                assert(s[0] != esc_char());
                assert(s[1] != bs_char());
            }
        }
        assert(ansi_clean(s.skip(1))) by {
            assert(forall|i: int| 0 <= i < s.skip(1).len() ==> s.skip(1)[i] == s[i + 1]);
        }
        lemma_strip_ansi_clean_identity(s.skip(1));
        assert(seq![s[0]] + s.skip(1) =~= s);
    }
}

/// Stripping is idempotent whenever one pass removes every escape and
/// backspace character: a second pass then changes nothing. (A mangled
/// sequence can survive one pass and form a new sequence, so this does not
/// hold of every string.)
pub proof fn lemma_strip_ansi_idempotent(s: Seq<char>)
    requires
        ansi_clean(spec_strip_ansi(s)),
    ensures
        spec_strip_ansi(spec_strip_ansi(s)) == spec_strip_ansi(s),
{
    lemma_strip_ansi_clean_identity(spec_strip_ansi(s));
}

} // verus!
