//! Dangerous-command validation.
//!
//! A shell command string is rejected when it matches one of the dangerous
//! patterns (fork bombs, filesystem formatting, raw writes to block devices,
//! system halt), or when any sub-command — split on `;`, `&&`, `||` — is a
//! recursive destructive operation (`rm`, `chmod`, `chown` with a recursive
//! flag) against a protected system path.

use vstd::prelude::*;
use vstd::string::StringExecFns;
use crate::text::{
    check_match_at, check_contains_word, check_word_at, check_word_char, chars_eq, chars_to_string, check_space_char,
    contains_char, contains_word, find_index, is_space_char, is_word_char,
    lemma_spec_find_bounds, matches_at, slice_chars, spec_find, spec_trim, spec_trim_end_char,
    str_to_chars, trim_chars, trim_end_char, word_at, ws_prefix_len,
};

verus! {

/// Length of the leading run of non-whitespace characters.
pub open spec fn non_ws_run(s: Seq<char>) -> int
    decreases s.len(),
{
    if s.len() > 0 && !is_space_char(s[0]) {
        1 + non_ws_run(s.drop_first())
    } else {
        0
    }
}

/// The leading non-whitespace run never exceeds the string's length.
pub proof fn lemma_non_ws_run_bounds(s: Seq<char>)
    ensures
        0 <= non_ws_run(s) <= s.len(),
    decreases s.len(),
{
    if s.len() > 0 {
        lemma_non_ws_run_bounds(s.drop_first());
    }
}

/// A run of non-whitespace characters that ends at whitespace (or at the
/// end) is exactly the leading run.
proof fn lemma_non_ws_run_index(s: Seq<char>, a: int)
    requires
        0 <= a <= s.len(),
        forall|i: int| 0 <= i < a ==> !is_space_char(s[i]),
        a < s.len() ==> is_space_char(s[a]),
    ensures
        non_ws_run(s) == a,
    decreases s.len(),
{
    if s.len() > 0 && !is_space_char(s[0]) {
        assert(a > 0);
        lemma_non_ws_run_index(s.drop_first(), a - 1);
    }
}

/// The string split on whitespace: its maximal non-whitespace runs, in
/// order.
pub open spec fn spec_split_ws(s: Seq<char>) -> Seq<Seq<char>>
    decreases s.len(),
    via spec_split_ws_decreases
{
    if s.len() == 0 {
        Seq::empty()
    } else if is_space_char(s[0]) {
        spec_split_ws(s.drop_first())
    } else {
        seq![s.subrange(0, non_ws_run(s))] + spec_split_ws(s.skip(non_ws_run(s)))
    }
}

#[via_fn]
proof fn spec_split_ws_decreases(s: Seq<char>) {
    lemma_non_ws_run_bounds(s);
    if s.len() > 0 && !is_space_char(s[0]) {
        lemma_non_ws_run_bounds(s.drop_first());
        assert(non_ws_run(s) >= 1);
    }
}

/// The words of the string: maximal runs of non-whitespace characters.
pub fn split_ws(v: &Vec<char>) -> (r: Vec<Vec<char>>)
    ensures
        r.deep_view() == spec_split_ws(v@),
{
    let mut r: Vec<Vec<char>> = Vec::new();
    let mut i: usize = 0;
    proof {
        assert(v@.skip(0) =~= v@);
        assert(r.deep_view() + spec_split_ws(v@) =~= spec_split_ws(v@));
    }
    while i < v.len()
        invariant
            i <= v@.len(),
            spec_split_ws(v@) == r.deep_view() + spec_split_ws(v@.skip(i as int)),
        decreases v@.len() - i,
    {
        if check_space_char(v[i]) {
            proof {
                assert(v@.skip(i as int)[0] == v@[i as int]);
                assert(v@.skip(i as int).drop_first() =~= v@.skip(i + 1));
            }
            i += 1;
        } else {
            let mut j: usize = i + 1;
            while j < v.len() && !check_space_char(v[j])
                invariant
                    i < j <= v@.len(),
                    forall|k: int| i <= k < j ==> !is_space_char(v@[k]),
                decreases v@.len() - j,
            {
                j += 1;
            }
            let ghost rem = v@.skip(i as int);
            proof {
                assert forall|k: int| 0 <= k < j - i implies !is_space_char(rem[k]) by {
                    assert(rem[k] == v@[i + k]);
                }
                if j < v@.len() {
                    assert(rem[j - i] == v@[j as int]);
                }
                lemma_non_ws_run_index(rem, j - i);
            }
            let w = slice_chars(v, i, j);
            let ghost old_r = r.deep_view();
            let ghost prev = r@;
            r.push(w);
            proof {
                assert(w@ =~= rem.subrange(0, j - i));
                assert(rem.skip(j - i) =~= v@.skip(j as int));
                assert(w.deep_view() =~= w@);
                assert forall|k: int| 0 <= k < prev.len() implies r.deep_view()[k]
                    == old_r.push(w@)[k] by {
                    assert(r@[k] == prev[k]);
                }
                assert(r.deep_view() =~= old_r.push(w@));
                assert(old_r.push(w@) + spec_split_ws(v@.skip(j as int)) =~= old_r + (seq![w@]
                    + spec_split_ws(v@.skip(j as int))));
                assert(spec_split_ws(rem) == seq![rem.subrange(0, non_ws_run(rem))]
                    + spec_split_ws(rem.skip(non_ws_run(rem))));
            }
            i = j;
        }
    }
    proof {
        assert(v@.skip(v@.len() as int) =~= Seq::<char>::empty());
        assert(r.deep_view() + Seq::<Seq<char>>::empty() =~= r.deep_view());
    }
    r
}

/// Smaller of two positions, where -1 means absent.
pub open spec fn min_pos(a: int, b: int) -> int {
    if a < 0 {
        b
    } else if b < 0 {
        a
    } else if a <= b {
        a
    } else {
        b
    }
}

/// Position of the first command separator — `&&`, `||` or `;` — or -1.
pub open spec fn spec_min_sep(s: Seq<char>) -> int {
    min_pos(min_pos(spec_find(s, "&&"@), spec_find(s, "||"@)), spec_find(s, ";"@))
}

/// The command split on separators: each separator — `&&`, `||` or `;` —
/// ends one part, and the rest follows after it.
pub open spec fn spec_split_subcommands(s: Seq<char>) -> Seq<Seq<char>>
    decreases s.len(),
    via spec_split_subcommands_decreases
{
    if s.len() == 0 {
        Seq::empty()
    } else {
        let p = spec_min_sep(s);
        if p < 0 {
            seq![s]
        } else {
            let sep: int = if matches_at(s, "&&"@, p) || matches_at(s, "||"@, p) {
                2
            } else {
                1
            };
            seq![s.subrange(0, p)] + spec_split_subcommands(s.skip(p + sep))
        }
    }
}

#[via_fn]
proof fn spec_split_subcommands_decreases(s: Seq<char>) {
    lemma_spec_find_bounds(s, "&&"@);
    lemma_spec_find_bounds(s, "||"@);
    lemma_spec_find_bounds(s, ";"@);
    reveal_strlit("&&");
    reveal_strlit("||");
    reveal_strlit(";");
}

/// Split a command string on the shell operators `;`, `&&` and `||` to get
/// the individual commands.
pub fn split_subcommands(cmd: &str) -> (r: Vec<String>)
    ensures
        r.deep_view() == spec_split_subcommands(cmd@),
{
    let v = str_to_chars(cmd);
    let sep_and = str_to_chars("&&");
    let sep_or = str_to_chars("||");
    let sep_semi = str_to_chars(";");
    let mut r: Vec<String> = Vec::new();
    let mut i: usize = 0;
    proof {
        assert(v@.skip(0) =~= v@);
        assert(r.deep_view() + spec_split_subcommands(v@) =~= spec_split_subcommands(v@));
    }
    while i < v.len()
        invariant
            i <= v@.len(),
            v@ == cmd@,
            sep_and@ == "&&"@ && sep_or@ == "||"@ && sep_semi@ == ";"@,
            spec_split_subcommands(cmd@) == r.deep_view() + spec_split_subcommands(
                v@.skip(i as int),
            ),
        decreases v@.len() - i,
    {
        let rem = slice_chars(&v, i, v.len());
        proof {
            assert(rem@ =~= v@.skip(i as int));
        }
        let p_and = find_index(&rem, &sep_and);
        let p_or = find_index(&rem, &sep_or);
        let p_semi = find_index(&rem, &sep_semi);
        let mut p: Option<usize> = p_and;
        p = match (p, p_or) {
            (None, x) => x,
            (Some(a), None) => Some(a),
            (Some(a), Some(b)) => if a <= b {
                Some(a)
            } else {
                Some(b)
            },
        };
        p = match (p, p_semi) {
            (None, x) => x,
            (Some(a), None) => Some(a),
            (Some(a), Some(b)) => if a <= b {
                Some(a)
            } else {
                Some(b)
            },
        };
        proof {
            lemma_spec_find_bounds(rem@, "&&"@);
            lemma_spec_find_bounds(rem@, "||"@);
            lemma_spec_find_bounds(rem@, ";"@);
            reveal_strlit("&&");
            reveal_strlit("||");
            reveal_strlit(";");
        }
        match p {
            None => {
                let part = chars_to_string(&rem);
                let ghost old_r = r.deep_view();
                r.push(part);
                proof {
                    assert(spec_min_sep(rem@) < 0);
                    assert(spec_split_subcommands(rem@) == seq![rem@]);
                    assert(r.deep_view() =~= old_r.push(rem@));
                    assert(old_r.push(rem@) + Seq::<Seq<char>>::empty() =~= old_r + seq![rem@]);
                    assert(v@.skip(v@.len() as int) =~= Seq::<char>::empty());
                }
                i = v.len();
            },
            Some(pp) => {
                proof {
                    assert(spec_min_sep(rem@) == pp as int);
                }
                let sep_len: usize = if check_match_at(&rem, &sep_and, pp) || check_match_at(
                    &rem,
                    &sep_or,
                    pp,
                ) {
                    2
                } else {
                    1
                };
                let part = chars_to_string(&slice_chars(&rem, 0, pp));
                let ghost old_r = r.deep_view();
                r.push(part);
                proof {
                    assert(rem@.subrange(0, pp as int) =~= v@.skip(i as int).subrange(
                        0,
                        pp as int,
                    ));
                    assert(rem@.skip(pp + sep_len) =~= v@.skip(i + pp + sep_len));
                    assert(r.deep_view() =~= old_r.push(rem@.subrange(0, pp as int)));
                    assert(old_r.push(rem@.subrange(0, pp as int)) + spec_split_subcommands(
                        rem@.skip(pp + sep_len),
                    ) =~= old_r + (seq![rem@.subrange(0, pp as int)] + spec_split_subcommands(
                        rem@.skip(pp + sep_len),
                    )));
                }
                i = i + pp + sep_len;
            },
        }
    }
    proof {
        assert(v@.skip(v@.len() as int) =~= Seq::<char>::empty());
        assert(r.deep_view() + Seq::<Seq<char>>::empty() =~= r.deep_view());
    }
    r
}

/// The word is written as a flag: it starts with a dash.
pub open spec fn is_flag_word(w: Seq<char>) -> bool {
    w.len() > 0 && w[0] == '-'
}

/// The path is one of the protected system paths (after normalizing
/// trailing slashes).
pub open spec fn is_protected_path(p: Seq<char>) -> bool {
    ||| p == "/"@
    ||| p == "/bin"@
    ||| p == "/sbin"@
    ||| p == "/usr"@
    ||| p == "/etc"@
    ||| p == "/var"@
    ||| p == "/home"@
    ||| p == "/root"@
    ||| p == "/lib"@
    ||| p == "/lib64"@
    ||| p == "/opt"@
    ||| p == "/boot"@
    ||| p == "/dev"@
    ||| p == "/sys"@
    ||| p == "/proc"@
    ||| p == "/System"@
    ||| p == "/Library"@
    ||| p == "/Applications"@
    ||| p == "/Users"@
    ||| p == "/private"@
    ||| p == "/private/var"@
    ||| p == "/private/etc"@
}

/// The argument with trailing slashes removed; an empty result reads as
/// the root path.
pub open spec fn normalized_path(w: Seq<char>) -> Seq<char> {
    let t = spec_trim_end_char(w, '/');
    if t.len() == 0 {
        "/"@
    } else {
        t
    }
}

/// The word asks `rm` for recursion: the long form, a canonical short
/// form, or a short flag cluster holding `r` or `R`.
pub open spec fn spec_rm_recursive_flag(w: Seq<char>) -> bool {
    ||| w == "-r"@
    ||| w == "-R"@
    ||| w == "--recursive"@
    ||| (w.len() > 0 && w[0] == '-' && !(w.len() >= 2 && w[1] == '-') && (w.contains('r')
        || w.contains('R')))
}

/// The word asks `chmod` or `chown` for recursion: the long form, the
/// canonical short form, or a short flag cluster holding `R`.
pub open spec fn spec_chmod_recursive_flag(w: Seq<char>) -> bool {
    ||| w == "-R"@
    ||| w == "--recursive"@
    ||| (w.len() > 0 && w[0] == '-' && !(w.len() >= 2 && w[1] == '-') && w.contains('R'))
}

/// The word is a positional argument naming a protected path; for `rm`
/// alone, the literal `/*` — exactly that word, no trailing slash — is a
/// protected target too.
pub open spec fn spec_rm_protected_target(w: Seq<char>) -> bool {
    !is_flag_word(w) && (is_protected_path(normalized_path(w)) || w == "/*"@)
}

/// The word is a positional argument naming a protected path.
pub open spec fn spec_protected_target(w: Seq<char>) -> bool {
    !is_flag_word(w) && is_protected_path(normalized_path(w))
}

/// The sub-command invokes `rm` with a recursive flag and a protected
/// target after it. The tool word may be preceded by arbitrary tokens.
pub open spec fn spec_dangerous_rm(subcmd: Seq<char>) -> bool {
    let ws = spec_split_ws(subcmd);
    exists|p: int, q: int, t: int|
        0 <= p < ws.len() && ws[p] == "rm"@ && p < q < ws.len() && spec_rm_recursive_flag(ws[q])
            && p < t < ws.len() && spec_rm_protected_target(ws[t])
}

/// The sub-command invokes the named tool (`chmod` or `chown`) with a
/// recursive flag and a protected target after it.
pub open spec fn spec_dangerous_chmod_chown(subcmd: Seq<char>, name: Seq<char>) -> bool {
    let ws = spec_split_ws(subcmd);
    exists|p: int, q: int, t: int|
        0 <= p < ws.len() && ws[p] == name && p < q < ws.len() && spec_chmod_recursive_flag(
            ws[q],
        ) && p < t < ws.len() && spec_protected_target(ws[t])
}

/// Whether the word asks `rm` for recursion.
fn check_rm_recursive_flag(w: &Vec<char>) -> (r: bool)
    ensures
        r == spec_rm_recursive_flag(w@),
{
    if chars_eq(w, &str_to_chars("-r")) {
        return true;
    }
    if chars_eq(w, &str_to_chars("-R")) {
        return true;
    }
    if chars_eq(w, &str_to_chars("--recursive")) {
        return true;
    }
    if w.len() > 0 && w[0] == '-' && !(w.len() >= 2 && w[1] == '-') {
        if contains_char(w, 'r') || contains_char(w, 'R') {
            return true;
        }
    }
    false
}

/// Whether the word asks `chmod` or `chown` for recursion.
fn check_chmod_recursive_flag(w: &Vec<char>) -> (r: bool)
    ensures
        r == spec_chmod_recursive_flag(w@),
{
    if chars_eq(w, &str_to_chars("-R")) {
        return true;
    }
    if chars_eq(w, &str_to_chars("--recursive")) {
        return true;
    }
    if w.len() > 0 && w[0] == '-' && !(w.len() >= 2 && w[1] == '-') {
        if contains_char(w, 'R') {
            return true;
        }
    }
    false
}

/// Whether the normalized word is a protected system path.
fn check_protected_path(w: &Vec<char>) -> (r: bool)
    ensures
        r == is_protected_path(normalized_path(w@)),
{
    let t = trim_end_char(w, '/');
    let p = if t.len() == 0 {
        str_to_chars("/")
    } else {
        t
    };
    proof {
        assert(p@ == normalized_path(w@));
    }
    if chars_eq(&p, &str_to_chars("/")) {
        return true;
    }
    if chars_eq(&p, &str_to_chars("/bin")) {
        return true;
    }
    if chars_eq(&p, &str_to_chars("/sbin")) {
        return true;
    }
    if chars_eq(&p, &str_to_chars("/usr")) {
        return true;
    }
    if chars_eq(&p, &str_to_chars("/etc")) {
        return true;
    }
    if chars_eq(&p, &str_to_chars("/var")) {
        return true;
    }
    if chars_eq(&p, &str_to_chars("/home")) {
        return true;
    }
    if chars_eq(&p, &str_to_chars("/root")) {
        return true;
    }
    if chars_eq(&p, &str_to_chars("/lib")) {
        return true;
    }
    if chars_eq(&p, &str_to_chars("/lib64")) {
        return true;
    }
    if chars_eq(&p, &str_to_chars("/opt")) {
        return true;
    }
    if chars_eq(&p, &str_to_chars("/boot")) {
        return true;
    }
    if chars_eq(&p, &str_to_chars("/dev")) {
        return true;
    }
    if chars_eq(&p, &str_to_chars("/sys")) {
        return true;
    }
    if chars_eq(&p, &str_to_chars("/proc")) {
        return true;
    }
    if chars_eq(&p, &str_to_chars("/System")) {
        return true;
    }
    if chars_eq(&p, &str_to_chars("/Library")) {
        return true;
    }
    if chars_eq(&p, &str_to_chars("/Applications")) {
        return true;
    }
    if chars_eq(&p, &str_to_chars("/Users")) {
        return true;
    }
    if chars_eq(&p, &str_to_chars("/private")) {
        return true;
    }
    if chars_eq(&p, &str_to_chars("/private/var")) {
        return true;
    }
    if chars_eq(&p, &str_to_chars("/private/etc")) {
        return true;
    }
    false
}

/// Position of the first word equal to `word`, if any.
fn find_word(ws: &Vec<Vec<char>>, word: &Vec<char>) -> (r: Option<usize>)
    ensures
        match r {
            Some(i) => i < ws@.len() && ws.deep_view()[i as int] == word@ && forall|k: int|
                0 <= k < i ==> ws.deep_view()[k] != word@,
            None => forall|k: int| 0 <= k < ws@.len() ==> ws.deep_view()[k] != word@,
        },
{
    let mut p: usize = 0;
    while p < ws.len()
        invariant
            p <= ws@.len(),
            forall|k: int| 0 <= k < p ==> ws.deep_view()[k] != word@,
        decreases ws@.len() - p,
    {
        if chars_eq(&ws[p], word) {
            proof {
                assert(ws.deep_view()[p as int] == ws@[p as int]@);
            }
            return Some(p);
        }
        proof {
            assert(ws.deep_view()[p as int] == ws@[p as int]@);
        }
        p += 1;
    }
    None
}

/// Check whether a sub-command is a dangerous `rm` invocation targeting
/// protected paths.
pub fn is_dangerous_rm(subcmd: &str) -> (r: bool)
    ensures
        r == spec_dangerous_rm(subcmd@),
{
    let v = str_to_chars(subcmd);
    let ws = split_ws(&v);
    let ghost sws = spec_split_ws(subcmd@);
    let rm_word = str_to_chars("rm");
    // Find the first occurrence of `rm`.
    let p = match find_word(&ws, &rm_word) {
        Some(p) => p,
        None => {
            proof {
                assert(!spec_dangerous_rm(subcmd@));
            }
            return false;
        },
    };
    let wl: usize = ws.len();
    proof {
        assert(p < wl);
    }
    let mut has_flag = false;
    let mut has_target = false;
    let mut q: usize = p + 1;
    while q < ws.len()
        invariant
            p < q <= ws@.len(),
            ws.deep_view() == sws,
            has_flag == exists|k: int| p < k < q && spec_rm_recursive_flag(sws[k]),
            has_target == exists|k: int| p < k < q && spec_rm_protected_target(sws[k]),
        decreases ws@.len() - q,
    {
        let w = &ws[q];
        proof {
            assert(sws[q as int] == ws@[q as int]@);
        }
        if check_rm_recursive_flag(w) {
            has_flag = true;
        }
        let is_flag = w.len() > 0 && w[0] == '-';
        if !is_flag {
            if check_protected_path(w) || chars_eq(w, &str_to_chars("/*")) {
                has_target = true;
            }
        }
        q += 1;
    }
    proof {
        if has_flag && has_target {
            assert(spec_dangerous_rm(subcmd@));
        } else {
            assert forall|pp: int, qq: int, tt: int|
                !(0 <= pp < sws.len() && sws[pp] == "rm"@ && pp < qq < sws.len()
                    && spec_rm_recursive_flag(sws[qq]) && pp < tt < sws.len()
                    && spec_rm_protected_target(sws[tt])) by {
                if 0 <= pp < sws.len() && sws[pp] == "rm"@ && pp < qq < sws.len()
                    && spec_rm_recursive_flag(sws[qq]) && pp < tt < sws.len()
                    && spec_rm_protected_target(sws[tt]) {
                    assert(pp >= p);
                    assert(p < qq < sws.len() && spec_rm_recursive_flag(sws[qq]));
                    assert(has_flag);
                    assert(p < tt < sws.len() && spec_rm_protected_target(sws[tt]));
                    assert(has_target);
                }
            }
        }
    }
    has_flag && has_target
}

/// Check whether a sub-command is a dangerous recursive `chmod` or
/// `chown` invocation on protected paths.
pub fn is_dangerous_chmod_chown(subcmd: &str, cmd_name: &str) -> (r: bool)
    ensures
        r == spec_dangerous_chmod_chown(subcmd@, cmd_name@),
{
    let v = str_to_chars(subcmd);
    let ws = split_ws(&v);
    let ghost sws = spec_split_ws(subcmd@);
    let name_word = str_to_chars(cmd_name);
    let p = match find_word(&ws, &name_word) {
        Some(p) => p,
        None => {
            proof {
                assert(!spec_dangerous_chmod_chown(subcmd@, cmd_name@));
            }
            return false;
        },
    };
    let wl: usize = ws.len();
    proof {
        assert(p < wl);
    }
    let mut has_flag = false;
    let mut has_target = false;
    let mut q: usize = p + 1;
    while q < ws.len()
        invariant
            p < q <= ws@.len(),
            ws.deep_view() == sws,
            has_flag == exists|k: int| p < k < q && spec_chmod_recursive_flag(sws[k]),
            has_target == exists|k: int| p < k < q && spec_protected_target(sws[k]),
        decreases ws@.len() - q,
    {
        let w = &ws[q];
        proof {
            assert(sws[q as int] == ws@[q as int]@);
        }
        if check_chmod_recursive_flag(w) {
            has_flag = true;
        }
        let is_flag = w.len() > 0 && w[0] == '-';
        if !is_flag {
            if check_protected_path(w) {
                has_target = true;
            }
        }
        q += 1;
    }
    proof {
        if has_flag && has_target {
            assert(spec_dangerous_chmod_chown(subcmd@, cmd_name@));
        } else {
            assert forall|pp: int, qq: int, tt: int|
                !(0 <= pp < sws.len() && sws[pp] == cmd_name@ && pp < qq < sws.len()
                    && spec_chmod_recursive_flag(sws[qq]) && pp < tt < sws.len()
                    && spec_protected_target(sws[tt])) by {
                if 0 <= pp < sws.len() && sws[pp] == cmd_name@ && pp < qq < sws.len()
                    && spec_chmod_recursive_flag(sws[qq]) && pp < tt < sws.len()
                    && spec_protected_target(sws[tt]) {
                    assert(pp >= p);
                    assert(has_flag);
                    assert(has_target);
                }
            }
        }
    }
    has_flag && has_target
}

/// Position just past the whitespace run that starts at `a`.
fn skip_ws_from(v: &Vec<char>, a: usize) -> (j: usize)
    requires
        a <= v@.len(),
    ensures
        j - a == ws_prefix_len(v@.skip(a as int)),
        a <= j <= v@.len(),
{
    let mut j: usize = a;
    while j < v.len() && check_space_char(v[j])
        invariant
            a <= j <= v@.len(),
            forall|k: int| a <= k < j ==> is_space_char(v@[k]),
        decreases v@.len() - j,
    {
        j += 1;
    }
    proof {
        let rem = v@.skip(a as int);
        assert forall|k: int| 0 <= k < j - a implies is_space_char(rem[k]) by {
            assert(rem[k] == v@[a + k]);
        }
        if j < v@.len() {
            assert(rem[j - a] == v@[j as int]);
        }
        crate::text::lemma_ws_prefix_index(rem, j - a);
    }
    j
}

/// After the `&` of a fork-bomb body: optional whitespace, a closing
/// brace, optional whitespace and a semicolon.
pub open spec fn fb_tail_ok(s: Seq<char>, l: int) -> bool {
    let m = l + 1 + ws_prefix_len(s.skip(l + 1));
    &&& m < s.len() && s[m] == '}'
    &&& {
        let n2 = m + 1 + ws_prefix_len(s.skip(m + 1));
        n2 < s.len() && s[n2] == ';'
    }
}

/// A fork-bomb definition starts at position `i`: the function head `:()`,
/// optional whitespace, an opening brace, then on the same line a pipe and
/// an ampersand, and finally a closing brace and semicolon.
pub open spec fn fb_pair_at(s: Seq<char>, j: int, k: int, l: int) -> bool {
    &&& j < k < l < s.len()
    &&& s[k] == '|'
    &&& s[l] == '&'
    &&& forall|t: int| j < t < l ==> s[t] != '\n'
    &&& fb_tail_ok(s, l)
}

pub open spec fn fb_at(s: Seq<char>, i: int) -> bool {
    &&& 0 <= i && i + 3 <= s.len()
    &&& s[i] == ':' && s[i + 1] == '(' && s[i + 2] == ')'
    &&& {
        let j = i + 3 + ws_prefix_len(s.skip(i + 3));
        &&& j < s.len() && s[j] == '{'
        &&& exists|k: int, l: int| fb_pair_at(s, j, k, l)
    }
}

/// The string holds a fork-bomb definition.
pub open spec fn matches_fork_bomb(s: Seq<char>) -> bool {
    exists|i: int| fb_at(s, i)
}

/// Whether the fork-bomb tail stands after the ampersand at `l`.
fn check_fb_tail(v: &Vec<char>, l: usize) -> (r: bool)
    requires
        l < v@.len(),
    ensures
        r == fb_tail_ok(v@, l as int),
{
    let n = v.len();
    proof {
        assert(l < n);
    }
    let m = skip_ws_from(v, l + 1);
    if m < n && v[m] == '}' {
        let n2 = skip_ws_from(v, m + 1);
        if n2 < n && v[n2] == ';' {
            return true;
        }
    }
    false
}

/// Whether the string holds a fork-bomb definition.
pub fn check_fork_bomb(v: &Vec<char>) -> (r: bool)
    ensures
        r == matches_fork_bomb(v@),
{
    let n = v.len();
    let mut i: usize = 0;
    while i < n
        invariant
            i <= n,
            n == v@.len(),
            forall|q: int| 0 <= q < i ==> !fb_at(v@, q),
        decreases n - i,
    {
        if n - i >= 3 && v[i] == ':' && v[i + 1] == '(' && v[i + 2] == ')' {
            let j = skip_ws_from(v, i + 3);
            if j < n && v[j] == '{' {
                let mut l: usize = j + 1;
                let mut pipe_pos: Option<usize> = None;
                while l < n
                    invariant
                        j < l <= n,
                        j < n == v@.len(),
                        i + 3 <= n,
                        v@[i as int] == ':' && v@[i + 1] == '(' && v@[i + 2] == ')',
                        j - (i + 3) == ws_prefix_len(v@.skip(i + 3)),
                        v@[j as int] == '{',
                        forall|t: int| j < t < l ==> v@[t] != '\n',
                        match pipe_pos {
                            Some(kp) => j < kp < l && v@[kp as int] == '|',
                            None => forall|t: int| j < t < l ==> v@[t] != '|',
                        },
                        forall|k: int, lp: int|
                            j < lp < l ==> !fb_pair_at(v@, j as int, k, lp),
                    ensures
                        j < l <= n,
                        forall|t: int| j < t < l ==> v@[t] != '\n',
                        forall|k: int, lp: int|
                            j < lp < l ==> !fb_pair_at(v@, j as int, k, lp),
                        l < n ==> v@[l as int] == '\n',
                    decreases n - l,
                {
                    let c = v[l];
                    if c == '\n' {
                        break;
                    }
                    if c == '&' {
                        match pipe_pos {
                            Some(kp) => {
                                if check_fb_tail(v, l) {
                                    proof {
                                        assert(fb_pair_at(v@, j as int, kp as int, l as int));
                                        assert(fb_at(v@, i as int));
                                    }
                                    return true;
                                }
                            },
                            None => {},
                        }
                    }
                    proof {
                        assert forall|k: int| !fb_pair_at(v@, j as int, k, l as int) by {
                            if fb_pair_at(v@, j as int, k, l as int) {
                                assert(v@[l as int] == '&');
                                assert(j < k < l && v@[k] == '|');
                                assert(pipe_pos is Some);
                                assert(!fb_tail_ok(v@, l as int));
                            }
                        }
                    }
                    if c == '|' && pipe_pos.is_none() {
                        pipe_pos = Some(l);
                    }
                    l += 1;
                }
                proof {
                    assert forall|k: int, lp: int| !fb_pair_at(v@, j as int, k, lp) by {
                        if fb_pair_at(v@, j as int, k, lp) {
                            if lp < l {
                            } else if l < v@.len() {
                                if lp == l {
                                    assert(v@[lp] == '&' && v@[l as int] == '\n');
                                } else {
                                    assert(v@[l as int] != '\n');
                                }
                            } else {
                                assert(lp < v@.len());
                            }
                        }
                    }
                    assert(!fb_at(v@, i as int));
                }
            } else {
                proof {
                    assert(!fb_at(v@, i as int));
                }
            }
        } else {
            proof {
                assert(!fb_at(v@, i as int));
            }
        }
        i += 1;
    }
    proof {
        assert forall|q: int| !fb_at(v@, q) by {
            if fb_at(v@, q) {
                assert(0 <= q && q + 3 <= v@.len());
            }
        }
    }
    false
}

/// A word-boundary occurrence of `dd` at `i`, followed on the same line by
/// `of=/dev/` at `k` with a word boundary before it.
pub open spec fn dd_of_at(s: Seq<char>, i: int, k: int) -> bool {
    &&& word_at(s, "dd"@, i)
    &&& i + 2 <= k
    &&& matches_at(s, "of=/dev/"@, k)
    &&& k > 0 && !is_word_char(s[k - 1])
    &&& forall|t: int| i + 2 <= t < k ==> s[t] != '\n'
}

/// The string invokes `dd` writing to a block device.
pub open spec fn matches_dd_device(s: Seq<char>) -> bool {
    exists|i: int, k: int| dd_of_at(s, i, k)
}

/// Whether the string invokes `dd` writing to a block device.
pub fn check_dd_device(v: &Vec<char>) -> (r: bool)
    ensures
        r == matches_dd_device(v@),
{
    let n = v.len();
    let dd = str_to_chars("dd");
    let of_dev = str_to_chars("of=/dev/");
    proof {
        reveal_strlit("of=/dev/");
        reveal_strlit("dd");
    }
    let mut i: usize = 0;
    while i < n
        invariant
            i <= n,
            n == v@.len(),
            dd@ == "dd"@,
            of_dev@ == "of=/dev/"@,
            "dd"@.len() == 2,
            "of=/dev/"@.len() == 8 && "of=/dev/"@[0] == 'o',
            forall|q: int, k: int| 0 <= q < i ==> !dd_of_at(v@, q, k),
        decreases n - i,
    {
        if check_word_at(v, &dd, i) {
            proof {
                assert(i + 2 <= n);
            }
            let mut k: usize = i + 2;
            while k < n
                invariant
                    i + 2 <= k <= n,
                    n == v@.len(),
                    of_dev@ == "of=/dev/"@,
                    "of=/dev/"@.len() == 8 && "of=/dev/"@[0] == 'o',
                    word_at(v@, "dd"@, i as int),
                    forall|t: int| i + 2 <= t < k ==> v@[t] != '\n',
                    forall|kp: int| i + 2 <= kp < k ==> !dd_of_at(v@, i as int, kp),
                ensures
                    i + 2 <= k <= n,
                    forall|t: int| i + 2 <= t < k ==> v@[t] != '\n',
                    forall|kp: int| i + 2 <= kp < k ==> !dd_of_at(v@, i as int, kp),
                    k < n ==> v@[k as int] == '\n',
                decreases n - k,
            {
                let c = v[k];
                if c == '\n' {
                    break;
                }
                if !check_word_char(v[k - 1]) && check_match_at(v, &of_dev, k) {
                    proof {
                        assert(dd_of_at(v@, i as int, k as int));
                    }
                    return true;
                }
                proof {
                    assert(!dd_of_at(v@, i as int, k as int));
                }
                k += 1;
            }
            proof {
                assert forall|kp: int| !dd_of_at(v@, i as int, kp) by {
                    if dd_of_at(v@, i as int, kp) {
                        assert(matches_at(v@, "of=/dev/"@, kp));
                        assert(kp + 8 <= v@.len());
                        if kp < k {
                        } else if k < n {
                            if kp == k {
                                assert(v@[kp] == 'o' && v@[k as int] == '\n');
                            } else {
                                assert(v@[k as int] != '\n');
                            }
                        } else {
                            assert(kp < v@.len());
                        }
                    }
                }
            }
        } else {
            proof {
                assert forall|k: int| !dd_of_at(v@, i as int, k) by {}
            }
        }
        i += 1;
    }
    proof {
        assert forall|q: int, k: int| !dd_of_at(v@, q, k) by {
            if dd_of_at(v@, q, k) {
                assert(word_at(v@, "dd"@, q));
                assert(0 <= q && q + 2 <= v@.len());
            }
        }
    }
    false
}

/// A redirect into a block device starts at `i`: `>`, optional
/// whitespace, `/dev/` and a device-name prefix.
pub open spec fn redirect_at(s: Seq<char>, i: int) -> bool {
    &&& 0 <= i < s.len() && s[i] == '>'
    &&& {
        let j = i + 1 + ws_prefix_len(s.skip(i + 1));
        &&& matches_at(s, "/dev/"@, j)
        &&& (matches_at(s, "sd"@, j + 5) || matches_at(s, "nvme"@, j + 5) || matches_at(
            s,
            "hd"@,
            j + 5,
        ) || matches_at(s, "vd"@, j + 5) || matches_at(s, "xvd"@, j + 5) || matches_at(
            s,
            "disk"@,
            j + 5,
        ) || matches_at(s, "mapper/"@, j + 5))
    }
}

/// The string redirects output into a block device.
pub open spec fn matches_device_redirect(s: Seq<char>) -> bool {
    exists|i: int| redirect_at(s, i)
}

/// Whether the string redirects output into a block device.
pub fn check_device_redirect(v: &Vec<char>) -> (r: bool)
    ensures
        r == matches_device_redirect(v@),
{
    let n = v.len();
    let dev = str_to_chars("/dev/");
    let p_sd = str_to_chars("sd");
    let p_nvme = str_to_chars("nvme");
    let p_hd = str_to_chars("hd");
    let p_vd = str_to_chars("vd");
    let p_xvd = str_to_chars("xvd");
    let p_disk = str_to_chars("disk");
    let p_mapper = str_to_chars("mapper/");
    proof {
        reveal_strlit("/dev/");
    }
    let mut i: usize = 0;
    while i < n
        invariant
            i <= n,
            n == v@.len(),
            dev@ == "/dev/"@ && p_sd@ == "sd"@ && p_nvme@ == "nvme"@ && p_hd@ == "hd"@ && p_vd@
                == "vd"@ && p_xvd@ == "xvd"@ && p_disk@ == "disk"@ && p_mapper@ == "mapper/"@,
            "/dev/"@.len() == 5,
            forall|q: int| 0 <= q < i ==> !redirect_at(v@, q),
        decreases n - i,
    {
        if v[i] == '>' {
            let j = skip_ws_from(v, i + 1);
            if check_match_at(v, &dev, j) {
                proof {
                    assert(j + 5 <= v@.len());
                }
                if check_match_at(v, &p_sd, j + 5) || check_match_at(v, &p_nvme, j + 5)
                    || check_match_at(v, &p_hd, j + 5) || check_match_at(v, &p_vd, j + 5)
                    || check_match_at(v, &p_xvd, j + 5) || check_match_at(v, &p_disk, j + 5)
                    || check_match_at(v, &p_mapper, j + 5) {
                    proof {
                        assert(redirect_at(v@, i as int));
                    }
                    return true;
                }
            }
        }
        proof {
            assert(!redirect_at(v@, i as int));
        }
        i += 1;
    }
    proof {
        assert forall|q: int| !redirect_at(v@, q) by {
            if redirect_at(v@, q) {
                assert(0 <= q < v@.len());
            }
        }
    }
    false
}

/// A halt via `init` starts at `i`: the word `init`, whitespace, then the
/// runlevel digit 0 or 6 at a word boundary.
pub open spec fn init_halt_at(s: Seq<char>, i: int) -> bool {
    &&& 0 <= i && i + 4 <= s.len()
    &&& matches_at(s, "init"@, i)
    &&& (i == 0 || !is_word_char(s[i - 1]))
    &&& {
        let r = ws_prefix_len(s.skip(i + 4));
        let d = i + 4 + r;
        &&& r >= 1
        &&& d < s.len()
        &&& (s[d] == '0' || s[d] == '6')
        &&& (d + 1 == s.len() || !is_word_char(s[d + 1]))
    }
}

/// The string halts or reboots the system through `init`.
pub open spec fn matches_init_halt(s: Seq<char>) -> bool {
    exists|i: int| init_halt_at(s, i)
}

/// Whether the string halts or reboots the system through `init`.
pub fn check_init_halt(v: &Vec<char>) -> (r: bool)
    ensures
        r == matches_init_halt(v@),
{
    let n = v.len();
    let init_word = str_to_chars("init");
    proof {
        reveal_strlit("init");
    }
    let mut i: usize = 0;
    while i < n
        invariant
            i <= n,
            n == v@.len(),
            init_word@ == "init"@,
            "init"@.len() == 4,
            forall|q: int| 0 <= q < i ==> !init_halt_at(v@, q),
        decreases n - i,
    {
        if check_match_at(v, &init_word, i) && (i == 0 || !check_word_char(v[i - 1])) {
            proof {
                assert(i + 4 <= v@.len());
            }
            let d = skip_ws_from(v, i + 4);
            if d > i + 4 && d < n && (v[d] == '0' || v[d] == '6') && (d + 1 == n
                || !check_word_char(v[d + 1])) {
                proof {
                    assert(init_halt_at(v@, i as int));
                }
                return true;
            }
        }
        proof {
            assert(!init_halt_at(v@, i as int));
        }
        i += 1;
    }
    proof {
        assert forall|q: int| !init_halt_at(v@, q) by {
            if init_halt_at(v@, q) {
                assert(0 <= q && q + 4 <= v@.len());
            }
        }
    }
    false
}


/// Which destructive rule the trimmed sub-command breaks: 1 for `rm`, 2
/// for `chmod`, 3 for `chown`, 0 for none.
pub open spec fn spec_subcmd_violation(t: Seq<char>) -> int {
    if spec_dangerous_rm(t) {
        1
    } else if spec_dangerous_chmod_chown(t, "chmod"@) {
        2
    } else if spec_dangerous_chmod_chown(t, "chown"@) {
        3
    } else {
        0
    }
}

/// Index of the first sub-command that breaks a destructive rule, or -1.
pub open spec fn spec_first_violation(subs: Seq<Seq<char>>) -> int
    decreases subs.len(),
{
    if subs.len() == 0 {
        -1
    } else if spec_subcmd_violation(spec_trim(subs[0])) != 0 {
        0
    } else {
        let r = spec_first_violation(subs.drop_first());
        if r < 0 {
            -1
        } else {
            1 + r
        }
    }
}

/// A first violating sub-command pins down `spec_first_violation`.
proof fn lemma_first_violation_some(subs: Seq<Seq<char>>, k: int)
    requires
        0 <= k < subs.len(),
        spec_subcmd_violation(spec_trim(subs[k])) != 0,
        forall|j: int| 0 <= j < k ==> spec_subcmd_violation(spec_trim(subs[j])) == 0,
    ensures
        spec_first_violation(subs) == k,
    decreases subs.len(),
{
    if k > 0 {
        lemma_first_violation_some(subs.drop_first(), k - 1);
    }
}

/// With no violating sub-command, `spec_first_violation` is -1.
proof fn lemma_first_violation_none(subs: Seq<Seq<char>>)
    requires
        forall|j: int| 0 <= j < subs.len() ==> spec_subcmd_violation(spec_trim(subs[j])) == 0,
    ensures
        spec_first_violation(subs) == -1,
    decreases subs.len(),
{
    if subs.len() > 0 {
        lemma_first_violation_none(subs.drop_first());
    }
}

/// The diagnostic for a sub-command that breaks a destructive rule.
pub open spec fn spec_violation_message(t: Seq<char>) -> Seq<char> {
    if spec_dangerous_rm(t) {
        "blocked: recursive delete targeting a protected system path: "@ + t
    } else if spec_dangerous_chmod_chown(t, "chmod"@) {
        "blocked: recursive chmod on a protected system path: "@ + t
    } else {
        "blocked: recursive chown on a protected system path: "@ + t
    }
}

/// Check whether any sub-command performs a recursive destructive
/// operation on a protected path; the error names the first one found.
pub fn check_destructive_on_protected_paths(command: &str) -> (r: Result<(), String>)
    ensures
        ({
            let subs = spec_split_subcommands(spec_trim(command@));
            &&& (r is Ok <==> spec_first_violation(subs) == -1)
            &&& (r is Err ==> ({
                let k = spec_first_violation(subs);
                &&& 0 <= k < subs.len()
                &&& r->Err_0@ == spec_violation_message(spec_trim(subs[k]))
            }))
        }),
{
    let cmd_chars = str_to_chars(command);
    let trimmed = trim_chars(&cmd_chars);
    let normalized = chars_to_string(&trimmed);
    let subs = split_subcommands(normalized.as_str());
    let ghost ssubs = spec_split_subcommands(spec_trim(command@));
    proof {
        assert(subs.deep_view() == ssubs);
    }
    let mut k: usize = 0;
    while k < subs.len()
        invariant
            k <= subs@.len(),
            subs.deep_view() == ssubs,
            ssubs == spec_split_subcommands(spec_trim(command@)),
            forall|j: int| 0 <= j < k ==> spec_subcmd_violation(spec_trim(ssubs[j])) == 0,
        decreases subs@.len() - k,
    {
        let sc_chars = str_to_chars(subs[k].as_str());
        let t = trim_chars(&sc_chars);
        let t_str = chars_to_string(&t);
        proof {
            assert(subs.deep_view()[k as int] == subs@[k as int]@);
            assert(t_str@ == spec_trim(ssubs[k as int]));
        }
        if is_dangerous_rm(t_str.as_str()) {
            let mut m = String::new();
            m.append("blocked: recursive delete targeting a protected system path: ");
            m.append(t_str.as_str());
            proof {
                lemma_first_violation_some(ssubs, k as int);
                assert(m@ =~= spec_violation_message(spec_trim(ssubs[k as int])));
            }
            return Err(m);
        }
        if is_dangerous_chmod_chown(t_str.as_str(), "chmod") {
            let mut m = String::new();
            m.append("blocked: recursive chmod on a protected system path: ");
            m.append(t_str.as_str());
            proof {
                lemma_first_violation_some(ssubs, k as int);
                assert(m@ =~= spec_violation_message(spec_trim(ssubs[k as int])));
            }
            return Err(m);
        }
        if is_dangerous_chmod_chown(t_str.as_str(), "chown") {
            let mut m = String::new();
            m.append("blocked: recursive chown on a protected system path: ");
            m.append(t_str.as_str());
            proof {
                lemma_first_violation_some(ssubs, k as int);
                assert(m@ =~= spec_violation_message(spec_trim(ssubs[k as int])));
            }
            return Err(m);
        }
        k += 1;
    }
    proof {
        lemma_first_violation_none(ssubs);
    }
    Ok(())
}

/// Which dangerous pattern the command matches, tried in order: 1 fork
/// bomb, 2 filesystem format, 3 raw device write through `dd`, 4 redirect
/// into a block device, 5 shutdown or reboot, 6 halt through `init`; 0 for
/// none.
pub open spec fn spec_pattern_kind(s: Seq<char>) -> int {
    if matches_fork_bomb(s) {
        1
    } else if contains_word(s, "mkfs"@) {
        2
    } else if matches_dd_device(s) {
        3
    } else if matches_device_redirect(s) {
        4
    } else if contains_word(s, "shutdown"@) || contains_word(s, "reboot"@) || contains_word(
        s,
        "halt"@,
    ) || contains_word(s, "poweroff"@) {
        5
    } else if matches_init_halt(s) {
        6
    } else {
        0
    }
}

/// The short description of the dangerous pattern the command matches.
pub open spec fn spec_pattern_description(s: Seq<char>) -> Seq<char> {
    let k = spec_pattern_kind(s);
    if k == 1 {
        "fork bomb"@
    } else if k == 2 {
        "filesystem format (mkfs)"@
    } else if k == 3 {
        "raw write to block device (dd of=/dev/...)"@
    } else if k == 4 {
        "redirect to block device"@
    } else if k == 5 {
        "system shutdown/reboot"@
    } else {
        "system halt/reboot via init"@
    }
}

/// The command is rejected: it matches a dangerous pattern, or a
/// sub-command is a recursive destructive operation on a protected path.
pub open spec fn spec_command_rejected(s: Seq<char>) -> bool {
    spec_pattern_kind(s) != 0 || spec_first_violation(spec_split_subcommands(spec_trim(s))) >= 0
}

/// Validate a command against dangerous patterns and protected paths.
/// Returns `Ok(())` when safe, or the reason for rejection: the first
/// matching dangerous pattern, else the first destructive sub-command.
pub fn validate_command(command: &str) -> (r: Result<(), String>)
    ensures
        r is Ok <==> !spec_command_rejected(command@),
        spec_pattern_kind(command@) != 0 ==> r is Err && r->Err_0@
            == "blocked: command matches dangerous pattern ("@ + spec_pattern_description(
            command@,
        ) + "): "@ + command@,
        spec_pattern_kind(command@) == 0 && r is Err ==> ({
            let subs = spec_split_subcommands(spec_trim(command@));
            let k = spec_first_violation(subs);
            &&& 0 <= k < subs.len()
            &&& r->Err_0@ == spec_violation_message(spec_trim(subs[k]))
        }),
{
    let v = str_to_chars(command);
    proof {
        reveal_strlit("mkfs");
        reveal_strlit("shutdown");
        reveal_strlit("reboot");
        reveal_strlit("halt");
        reveal_strlit("poweroff");
    }
    let desc: Option<&str> = if check_fork_bomb(&v) {
        Some("fork bomb")
    } else if check_contains_word(&v, &str_to_chars("mkfs")) {
        Some("filesystem format (mkfs)")
    } else if check_dd_device(&v) {
        Some("raw write to block device (dd of=/dev/...)")
    } else if check_device_redirect(&v) {
        Some("redirect to block device")
    } else if check_contains_word(&v, &str_to_chars("shutdown")) || check_contains_word(
        &v,
        &str_to_chars("reboot"),
    ) || check_contains_word(&v, &str_to_chars("halt")) || check_contains_word(
        &v,
        &str_to_chars("poweroff"),
    ) {
        Some("system shutdown/reboot")
    } else if check_init_halt(&v) {
        Some("system halt/reboot via init")
    } else {
        None
    };
    match desc {
        Some(d) => {
            let mut m = String::new();
            m.append("blocked: command matches dangerous pattern (");
            m.append(d);
            m.append("): ");
            m.append(command);
            proof {
                assert(d@ == spec_pattern_description(command@));
                assert(m@ =~= "blocked: command matches dangerous pattern ("@
                    + spec_pattern_description(command@) + "): "@ + command@);
            }
            Err(m)
        },
        None => {
            proof {
                assert(spec_pattern_kind(command@) == 0);
            }
            check_destructive_on_protected_paths(command)
        },
    }
}

} // verus!
