//! Character-level text utilities shared by the windower, the validator and
//! the session protocol: conversions between `str` and `Vec<char>`, substring
//! search, case-insensitive word search, whitespace classification and
//! integer parsing.

use vstd::prelude::*;
use vstd::string::StrSliceExecFns;

verus! {

/// Relies on String::push: appends the given character to the end of the string.
#[verifier::external_body]
pub(crate) fn push_char(s: &mut String, c: char)
    ensures
        final(s)@ == old(s)@.push(c),
{
    s.push(c);
}

/// The characters of a string slice, in order.
pub fn str_to_chars(s: &str) -> (r: Vec<char>)
    ensures
        r@ == s@,
{
    let n = s.unicode_len();
    let mut r: Vec<char> = Vec::new();
    let mut i: usize = 0;
    while i < n
        invariant
            i <= n,
            n == s@.len(),
            r@ == s@.subrange(0, i as int),
        decreases n - i,
    {
        r.push(s.get_char(i));
        proof {
            assert(r@ =~= s@.subrange(0, i + 1 as int));
        }
        i += 1;
    }
    proof {
        assert(r@ =~= s@);
    }
    r
}

/// A string holding exactly the given characters.
pub fn chars_to_string(v: &Vec<char>) -> (s: String)
    ensures
        s@ == v@,
{
    let mut s = String::new();
    let mut i: usize = 0;
    while i < v.len()
        invariant
            i <= v.len(),
            s@ == v@.subrange(0, i as int),
        decreases v.len() - i,
    {
        push_char(&mut s, v[i]);
        proof {
            assert(s@ =~= v@.subrange(0, i + 1 as int));
        }
        i += 1;
    }
    proof {
        assert(s@ =~= v@);
    }
    s
}

/// A copy of the characters in positions `from..to`.
pub fn slice_chars(v: &Vec<char>, from: usize, to: usize) -> (r: Vec<char>)
    requires
        from <= to <= v@.len(),
    ensures
        r@ == v@.subrange(from as int, to as int),
{
    let mut r: Vec<char> = Vec::new();
    let mut i: usize = from;
    while i < to
        invariant
            from <= i <= to <= v@.len(),
            r@ == v@.subrange(from as int, i as int),
        decreases to - i,
    {
        r.push(v[i]);
        proof {
            assert(r@ =~= v@.subrange(from as int, i + 1 as int));
        }
        i += 1;
    }
    r
}

/// The needle occurs in the haystack starting at position `i`.
pub open spec fn matches_at(hay: Seq<char>, needle: Seq<char>, i: int) -> bool {
    &&& 0 <= i
    &&& i + needle.len() <= hay.len()
    &&& forall|j: int| 0 <= j < needle.len() ==> hay[i + j] == needle[j]
}

/// The needle occurs somewhere in the haystack.
pub open spec fn contains_seq(hay: Seq<char>, needle: Seq<char>) -> bool {
    exists|i: int| matches_at(hay, needle, i)
}

/// Whether the needle occurs at position `i` of the haystack.
pub fn check_match_at(hay: &Vec<char>, needle: &Vec<char>, i: usize) -> (r: bool)
    requires
        i <= hay@.len(),
    ensures
        r == matches_at(hay@, needle@, i as int),
{
    if hay.len() - i < needle.len() {
        return false;
    }
    let hlen: usize = hay.len();
    let mut j: usize = 0;
    while j < needle.len()
        invariant
            j <= needle@.len(),
            i + needle@.len() <= hlen,
            hay@.len() == hlen,
            forall|k: int| 0 <= k < j ==> hay@[i + k] == needle@[k],
        decreases needle@.len() - j,
    {
        if hay[i + j] != needle[j] {
            return false;
        }
        j += 1;
    }
    true
}

/// Position of the first occurrence of the needle, if any.
pub fn find_first(hay: &Vec<char>, needle: &Vec<char>) -> (r: Option<usize>)
    ensures
        match r {
            Some(i) => matches_at(hay@, needle@, i as int) && forall|k: int|
                0 <= k < i ==> !matches_at(hay@, needle@, k),
            None => forall|k: int| !matches_at(hay@, needle@, k),
        },
{
    if needle.len() == 0 {
        return Some(0);
    }
    let mut i: usize = 0;
    while i < hay.len()
        invariant
            i <= hay@.len(),
            forall|k: int| 0 <= k < i ==> !matches_at(hay@, needle@, k),
        decreases hay@.len() - i,
    {
        if check_match_at(hay, needle, i) {
            return Some(i);
        }
        i += 1;
    }
    proof {
        assert forall|k: int| !matches_at(hay@, needle@, k) by {
            if matches_at(hay@, needle@, k) {
                assert(k + needle@.len() <= hay@.len());
                assert(0 <= k < hay@.len());
            }
        }
    }
    None
}

/// Whether the needle occurs anywhere in the haystack.
pub fn contains_chars(hay: &Vec<char>, needle: &Vec<char>) -> (r: bool)
    ensures
        r == contains_seq(hay@, needle@),
{
    match find_first(hay, needle) {
        Some(_) => true,
        None => false,
    }
}

/// Whether the character occurs in the vector.
pub fn contains_char(v: &Vec<char>, c: char) -> (r: bool)
    ensures
        r == v@.contains(c),
{
    let mut i: usize = 0;
    while i < v.len()
        invariant
            i <= v@.len(),
            forall|k: int| 0 <= k < i ==> v@[k] != c,
        decreases v@.len() - i,
    {
        if v[i] == c {
            return true;
        }
        i += 1;
    }
    false
}

/// The two vectors hold the same characters.
pub fn chars_eq(a: &Vec<char>, b: &Vec<char>) -> (r: bool)
    ensures
        r == (a@ == b@),
{
    if a.len() != b.len() {
        proof {
            assert(a@ != b@);
        }
        return false;
    }
    let mut i: usize = 0;
    while i < a.len()
        invariant
            i <= a@.len(),
            a@.len() == b@.len(),
            forall|k: int| 0 <= k < i ==> a@[k] == b@[k],
        decreases a@.len() - i,
    {
        if a[i] != b[i] {
            return false;
        }
        i += 1;
    }
    proof {
        assert(a@ =~= b@);
    }
    true
}

/// The character is whitespace (the Unicode white-space set).
pub open spec fn is_space_char(c: char) -> bool {
    let u = c as u32;
    u == 9 || u == 10 || u == 11 || u == 12 || u == 13 || u == 32 || u == 0x85 || u == 0xA0
        || u == 0x1680 || (0x2000 <= u && u <= 0x200A) || u == 0x2028 || u == 0x2029 || u == 0x202F
        || u == 0x205F || u == 0x3000
}

/// Whether the character is whitespace.
pub fn check_space_char(c: char) -> (r: bool)
    ensures
        r == is_space_char(c),
{
    let u = c as u32;
    u == 9 || u == 10 || u == 11 || u == 12 || u == 13 || u == 32 || u == 0x85 || u == 0xA0
        || u == 0x1680 || (0x2000 <= u && u <= 0x200A) || u == 0x2028 || u == 0x2029 || u == 0x202F
        || u == 0x205F || u == 0x3000
}

/// The character counts as part of a word for word-boundary matching
/// (ASCII letters, digits and underscore).
pub open spec fn is_word_char(c: char) -> bool {
    let u = c as u32;
    (0x30 <= u && u <= 0x39) || (0x41 <= u && u <= 0x5A) || (0x61 <= u && u <= 0x7A) || u == 0x5F
}

/// Whether the character counts as part of a word.
pub fn check_word_char(c: char) -> (r: bool)
    ensures
        r == is_word_char(c),
{
    let u = c as u32;
    (0x30 <= u && u <= 0x39) || (0x41 <= u && u <= 0x5A) || (0x61 <= u && u <= 0x7A) || u == 0x5F
}

/// The two characters are equal up to ASCII case.
pub open spec fn eq_char_ci(a: char, b: char) -> bool {
    let x = a as u32;
    let y = b as u32;
    x == y || (0x41 <= x && x <= 0x5A && y == x + 0x20) || (0x61 <= x && x <= 0x7A && y == x
        - 0x20)
}

/// Whether the two characters are equal up to ASCII case.
pub fn check_char_ci(a: char, b: char) -> (r: bool)
    ensures
        r == eq_char_ci(a, b),
{
    let x = a as u32;
    let y = b as u32;
    x == y || (0x41 <= x && x <= 0x5A && y == x + 0x20) || (0x61 <= x && x <= 0x7A && y == x
        - 0x20)
}

/// The needle occurs at position `i`, compared up to ASCII case.
pub open spec fn matches_at_ci(hay: Seq<char>, needle: Seq<char>, i: int) -> bool {
    &&& 0 <= i
    &&& i + needle.len() <= hay.len()
    &&& forall|j: int| 0 <= j < needle.len() ==> eq_char_ci(hay[i + j], needle[j])
}

/// The needle occurs at position `i` as a whole word, up to ASCII case:
/// no word character directly before or after the occurrence.
pub open spec fn word_at_ci(hay: Seq<char>, needle: Seq<char>, i: int) -> bool {
    &&& matches_at_ci(hay, needle, i)
    &&& (i == 0 || !is_word_char(hay[i - 1]))
    &&& (i + needle.len() == hay.len() || !is_word_char(hay[i + needle.len()]))
}

/// The needle occurs somewhere in the haystack as a whole word, up to
/// ASCII case.
pub open spec fn contains_word_ci(hay: Seq<char>, needle: Seq<char>) -> bool {
    exists|i: int| word_at_ci(hay, needle, i)
}

/// Whether the needle occurs at position `i`, compared up to ASCII case.
pub fn check_match_at_ci(hay: &Vec<char>, needle: &Vec<char>, i: usize) -> (r: bool)
    requires
        i <= hay@.len(),
    ensures
        r == matches_at_ci(hay@, needle@, i as int),
{
    if hay.len() - i < needle.len() {
        return false;
    }
    let hlen: usize = hay.len();
    let mut j: usize = 0;
    while j < needle.len()
        invariant
            j <= needle@.len(),
            i + needle@.len() <= hlen,
            hay@.len() == hlen,
            forall|k: int| 0 <= k < j ==> eq_char_ci(hay@[i + k], needle@[k]),
        decreases needle@.len() - j,
    {
        if !check_char_ci(hay[i + j], needle[j]) {
            return false;
        }
        j += 1;
    }
    true
}

/// Whether the needle occurs at position `i` as a whole word, up to ASCII case.
pub fn check_word_at_ci(hay: &Vec<char>, needle: &Vec<char>, i: usize) -> (r: bool)
    requires
        i <= hay@.len(),
    ensures
        r == word_at_ci(hay@, needle@, i as int),
{
    if !check_match_at_ci(hay, needle, i) {
        return false;
    }
    if i > 0 && check_word_char(hay[i - 1]) {
        return false;
    }
    let hl: usize = hay.len();
    proof {
        assert(i + needle@.len() <= hl);
    }
    if i + needle.len() < hl && check_word_char(hay[i + needle.len()]) {
        return false;
    }
    true
}

/// Whether the needle occurs anywhere in the haystack as a whole word, up
/// to ASCII case.
pub fn check_contains_word_ci(hay: &Vec<char>, needle: &Vec<char>) -> (r: bool)
    ensures
        r == contains_word_ci(hay@, needle@),
{
    let mut i: usize = 0;
    while i < hay.len()
        invariant
            i <= hay@.len(),
            forall|k: int| 0 <= k < i ==> !word_at_ci(hay@, needle@, k),
        decreases hay@.len() - i,
    {
        if check_word_at_ci(hay, needle, i) {
            return true;
        }
        i += 1;
    }
    if hay.len() == 0 || needle.len() == 0 {
        // An empty needle can still stand as a word at the very end.
        let at_end = check_word_at_ci(hay, needle, hay.len());
        proof {
            assert forall|k: int| !word_at_ci(hay@, needle@, k) || k == hay@.len() by {
                if word_at_ci(hay@, needle@, k) && k != hay@.len() {
                    assert(0 <= k < hay@.len());
                }
            }
        }
        return at_end;
    }
    proof {
        assert forall|k: int| !word_at_ci(hay@, needle@, k) by {
            if word_at_ci(hay@, needle@, k) {
                assert(k + needle@.len() <= hay@.len());
                assert(0 <= k < hay@.len());
            }
        }
    }
    false
}

/// The needle occurs at position `i` as a whole word: no word character
/// directly before or after the occurrence.
pub open spec fn word_at(hay: Seq<char>, needle: Seq<char>, i: int) -> bool {
    &&& matches_at(hay, needle, i)
    &&& (i == 0 || !is_word_char(hay[i - 1]))
    &&& (i + needle.len() == hay.len() || !is_word_char(hay[i + needle.len()]))
}

/// The needle occurs somewhere in the haystack as a whole word.
pub open spec fn contains_word(hay: Seq<char>, needle: Seq<char>) -> bool {
    exists|i: int| word_at(hay, needle, i)
}

/// Whether the needle occurs at position `i` as a whole word.
pub fn check_word_at(hay: &Vec<char>, needle: &Vec<char>, i: usize) -> (r: bool)
    requires
        i <= hay@.len(),
    ensures
        r == word_at(hay@, needle@, i as int),
{
    if !check_match_at(hay, needle, i) {
        return false;
    }
    if i > 0 && check_word_char(hay[i - 1]) {
        return false;
    }
    let hl: usize = hay.len();
    proof {
        assert(i + needle@.len() <= hl);
    }
    if i + needle.len() < hl && check_word_char(hay[i + needle.len()]) {
        return false;
    }
    true
}

/// Whether the needle occurs anywhere in the haystack as a whole word.
pub fn check_contains_word(hay: &Vec<char>, needle: &Vec<char>) -> (r: bool)
    requires
        needle@.len() > 0,
    ensures
        r == contains_word(hay@, needle@),
{
    let mut i: usize = 0;
    while i < hay.len()
        invariant
            i <= hay@.len(),
            needle@.len() > 0,
            forall|k: int| 0 <= k < i ==> !word_at(hay@, needle@, k),
        decreases hay@.len() - i,
    {
        if check_word_at(hay, needle, i) {
            return true;
        }
        i += 1;
    }
    proof {
        assert forall|k: int| !word_at(hay@, needle@, k) by {
            if word_at(hay@, needle@, k) {
                assert(k + needle@.len() <= hay@.len());
                assert(0 <= k < hay@.len());
            }
        }
    }
    false
}

/// Position of the first occurrence of the needle, or -1 when it does not
/// occur.
pub open spec fn spec_find(s: Seq<char>, needle: Seq<char>) -> int
    decreases s.len(),
{
    if matches_at(s, needle, 0) {
        0
    } else if s.len() == 0 {
        -1
    } else {
        let r = spec_find(s.drop_first(), needle);
        if r < 0 {
            -1
        } else {
            1 + r
        }
    }
}

/// A first occurrence pins down `spec_find`.
pub proof fn lemma_spec_find_some(s: Seq<char>, needle: Seq<char>, i: int)
    requires
        matches_at(s, needle, i),
        forall|k: int| 0 <= k < i ==> !matches_at(s, needle, k),
    ensures
        spec_find(s, needle) == i,
    decreases s.len(),
{
    if i == 0 {
    } else {
        assert(s.len() > 0);
        assert(!matches_at(s, needle, 0));
        let d = s.drop_first();
        assert(matches_at(d, needle, i - 1)) by {
            assert(forall|j: int| 0 <= j < needle.len() ==> #[trigger] d[i - 1 + j] == s[i + j]);
        }
        assert forall|k: int| 0 <= k < i - 1 implies !matches_at(d, needle, k) by {
            if matches_at(d, needle, k) {
                assert(matches_at(s, needle, k + 1)) by {
                    assert(forall|j: int| 0 <= j < needle.len() ==> #[trigger] s[k + 1 + j] == d[k + j]);
                }
            }
        }
        lemma_spec_find_some(d, needle, i - 1);
    }
}

/// With no occurrence anywhere, `spec_find` is -1.
pub proof fn lemma_spec_find_none(s: Seq<char>, needle: Seq<char>)
    requires
        forall|k: int| !matches_at(s, needle, k),
    ensures
        spec_find(s, needle) == -1,
    decreases s.len(),
{
    if s.len() > 0 {
        let d = s.drop_first();
        assert forall|k: int| !matches_at(d, needle, k) by {
            if matches_at(d, needle, k) {
                assert(matches_at(s, needle, k + 1)) by {
                    assert(forall|j: int| 0 <= j < needle.len() ==> #[trigger] s[k + 1 + j] == d[k + j]);
                }
            }
        }
        lemma_spec_find_none(d, needle);
    }
}

/// `spec_find` returns -1 or a position where the needle fits.
pub proof fn lemma_spec_find_bounds(s: Seq<char>, needle: Seq<char>)
    ensures
        spec_find(s, needle) == -1 || (0 <= spec_find(s, needle) && spec_find(s, needle)
            + needle.len() <= s.len()),
        spec_find(s, needle) >= 0 ==> matches_at(s, needle, spec_find(s, needle)),
    decreases s.len(),
{
    if matches_at(s, needle, 0) {
    } else if s.len() == 0 {
    } else {
        lemma_spec_find_bounds(s.drop_first(), needle);
        let r = spec_find(s.drop_first(), needle);
        if r >= 0 {
            assert(matches_at(s, needle, 1 + r)) by {
                assert(forall|j: int|
                    0 <= j < needle.len() ==> #[trigger] s[1 + r + j] == s.drop_first()[r + j]);
            }
        }
    }
}

/// Position of the first occurrence of the needle, tied to `spec_find`.
pub fn find_index(hay: &Vec<char>, needle: &Vec<char>) -> (r: Option<usize>)
    ensures
        match r {
            Some(i) => spec_find(hay@, needle@) == i as int,
            None => spec_find(hay@, needle@) == -1,
        },
{
    let r = find_first(hay, needle);
    proof {
        match r {
            Some(i) => lemma_spec_find_some(hay@, needle@, i as int),
            None => lemma_spec_find_none(hay@, needle@),
        }
    }
    r
}

/// Number of leading whitespace characters.
pub open spec fn ws_prefix_len(s: Seq<char>) -> int
    decreases s.len(),
{
    if s.len() > 0 && is_space_char(s[0]) {
        1 + ws_prefix_len(s.drop_first())
    } else {
        0
    }
}

/// Number of trailing whitespace characters.
pub open spec fn ws_suffix_len(s: Seq<char>) -> int
    decreases s.len(),
{
    if s.len() > 0 && is_space_char(s.last()) {
        1 + ws_suffix_len(s.drop_last())
    } else {
        0
    }
}

/// The string with leading and trailing whitespace removed.
pub open spec fn spec_trim(s: Seq<char>) -> Seq<char> {
    if ws_prefix_len(s) == s.len() {
        Seq::empty()
    } else {
        s.subrange(ws_prefix_len(s), s.len() - ws_suffix_len(s))
    }
}

/// A prefix of whitespace that ends at a non-whitespace character (or at
/// the end) is exactly the leading-whitespace count.
pub proof fn lemma_ws_prefix_index(s: Seq<char>, a: int)
    requires
        0 <= a <= s.len(),
        forall|i: int| 0 <= i < a ==> is_space_char(s[i]),
        a < s.len() ==> !is_space_char(s[a]),
    ensures
        ws_prefix_len(s) == a,
    decreases s.len(),
{
    if s.len() > 0 && is_space_char(s[0]) {
        assert(a > 0);
        lemma_ws_prefix_index(s.drop_first(), a - 1);
    }
}

/// A suffix of whitespace that starts after a non-whitespace character (or
/// at the start) is exactly the trailing-whitespace count.
pub proof fn lemma_ws_suffix_index(s: Seq<char>, b: int)
    requires
        0 <= b <= s.len(),
        forall|i: int| b <= i < s.len() ==> is_space_char(s[i]),
        b > 0 ==> !is_space_char(s[b - 1]),
    ensures
        ws_suffix_len(s) == s.len() - b,
    decreases s.len(),
{
    if s.len() > 0 && is_space_char(s.last()) {
        assert(b < s.len());
        lemma_ws_suffix_index(s.drop_last(), b);
    }
}

/// The characters with leading and trailing whitespace removed.
pub fn trim_chars(v: &Vec<char>) -> (r: Vec<char>)
    ensures
        r@ == spec_trim(v@),
{
    let mut a: usize = 0;
    while a < v.len() && check_space_char(v[a])
        invariant
            a <= v@.len(),
            forall|i: int| 0 <= i < a ==> is_space_char(v@[i]),
        decreases v@.len() - a,
    {
        a += 1;
    }
    proof {
        lemma_ws_prefix_index(v@, a as int);
    }
    if a == v.len() {
        let r: Vec<char> = Vec::new();
        proof {
            assert(r@ =~= spec_trim(v@));
        }
        return r;
    }
    let mut b: usize = v.len();
    while b > a && check_space_char(v[b - 1])
        invariant
            a <= b <= v@.len(),
            forall|i: int| b <= i < v@.len() ==> is_space_char(v@[i]),
            a < v@.len() && !is_space_char(v@[a as int]),
        decreases b,
    {
        b -= 1;
    }
    proof {
        if b == a {
            assert(is_space_char(v@[a as int]));
            assert(false);
        }
        lemma_ws_suffix_index(v@, b as int);
    }
    slice_chars(v, a, b)
}

/// Number of trailing occurrences of the character `c`.
pub open spec fn char_suffix_len(s: Seq<char>, c: char) -> int
    decreases s.len(),
{
    if s.len() > 0 && s.last() == c {
        1 + char_suffix_len(s.drop_last(), c)
    } else {
        0
    }
}

/// The string with every trailing occurrence of `c` removed.
pub open spec fn spec_trim_end_char(s: Seq<char>, c: char) -> Seq<char> {
    s.subrange(0, s.len() - char_suffix_len(s, c))
}

/// A suffix of `c` characters that starts after a different character (or
/// at the start) is exactly the trailing count of `c`.
pub proof fn lemma_char_suffix_index(s: Seq<char>, c: char, b: int)
    requires
        0 <= b <= s.len(),
        forall|i: int| b <= i < s.len() ==> s[i] == c,
        b > 0 ==> s[b - 1] != c,
    ensures
        char_suffix_len(s, c) == s.len() - b,
    decreases s.len(),
{
    if s.len() > 0 && s.last() == c {
        assert(b < s.len());
        lemma_char_suffix_index(s.drop_last(), c, b);
    }
}

/// The characters with every trailing occurrence of `c` removed.
pub fn trim_end_char(v: &Vec<char>, c: char) -> (r: Vec<char>)
    ensures
        r@ == spec_trim_end_char(v@, c),
{
    let mut b: usize = v.len();
    while b > 0 && v[b - 1] == c
        invariant
            b <= v@.len(),
            forall|i: int| b <= i < v@.len() ==> v@[i] == c,
        decreases b,
    {
        b -= 1;
    }
    proof {
        lemma_char_suffix_index(v@, c, b as int);
    }
    slice_chars(v, 0, b)
}

/// The character is an ASCII decimal digit.
pub open spec fn is_digit_char(c: char) -> bool {
    0x30 <= c as u32 && c as u32 <= 0x39
}

/// Numeric value of an ASCII decimal digit.
pub open spec fn digit_val(c: char) -> int {
    c as u32 - 0x30
}

/// Every character is an ASCII decimal digit.
pub open spec fn all_digits(s: Seq<char>) -> bool {
    forall|i: int| 0 <= i < s.len() ==> is_digit_char(s[i])
}

/// Value of a digit string read in base ten.
pub open spec fn digits_val(s: Seq<char>) -> int
    decreases s.len(),
{
    if s.len() == 0 {
        0
    } else {
        digits_val(s.drop_last()) * 10 + digit_val(s.last())
    }
}

/// A digit string's value is at least the value of any of its prefixes.
pub proof fn lemma_digits_val_prefix(s: Seq<char>, k: int)
    requires
        all_digits(s),
        0 <= k <= s.len(),
    ensures
        digits_val(s) >= digits_val(s.subrange(0, k)) >= 0,
    decreases s.len(),
{
    if s.len() == 0 {
        assert(s.subrange(0, k) =~= s);
    } else {
        assert(all_digits(s.drop_last()));
        lemma_digits_val_prefix(s.drop_last(), if k <= s.len() - 1 {
            k
        } else {
            s.len() - 1
        });
        if k <= s.len() - 1 {
            assert(s.drop_last().subrange(0, k) =~= s.subrange(0, k));
            assert(digits_val(s.drop_last()) >= digits_val(s.subrange(0, k)) >= 0);
            assert(digit_val(s.last()) >= 0);
            assert(digits_val(s) >= digits_val(s.drop_last()));
        } else {
            assert(s.subrange(0, k) =~= s);
            assert(s.drop_last().subrange(0, s.len() - 1) =~= s.drop_last());
            assert(digits_val(s.drop_last()) >= 0);
            assert(digits_val(s) >= 0);
        }
    }
}

/// Result of reading the string as a signed 32-bit integer: an optional
/// sign, then at least one decimal digit, and the value within range.
pub open spec fn spec_parse_i32(s: Seq<char>) -> Option<i32> {
    let neg = s.len() > 0 && s[0] == '-';
    let ds = if s.len() > 0 && (s[0] == '+' || s[0] == '-') {
        s.drop_first()
    } else {
        s
    };
    if ds.len() == 0 || !all_digits(ds) {
        None
    } else if neg {
        if digits_val(ds) <= 0x8000_0000 {
            Some((-digits_val(ds)) as i32)
        } else {
            None
        }
    } else {
        if digits_val(ds) <= 0x7FFF_FFFF {
            Some(digits_val(ds) as i32)
        } else {
            None
        }
    }
}

/// Reads the characters as a signed 32-bit integer.
pub fn parse_i32(v: &Vec<char>) -> (r: Option<i32>)
    ensures
        r == spec_parse_i32(v@),
{
    let mut start: usize = 0;
    let mut neg = false;
    if v.len() > 0 && (v[0] == '+' || v[0] == '-') {
        neg = v[0] == '-';
        start = 1;
    }
    let ghost ds = if start == 1 {
        v@.drop_first()
    } else {
        v@
    };
    proof {
        assert(ds =~= v@.subrange(start as int, v@.len() as int));
    }
    if start == v.len() {
        return None;
    }
    let mut acc: u64 = 0;
    let mut i: usize = start;
    while i < v.len()
        invariant
            start <= i <= v@.len(),
            start == 1 <==> v@.len() > 0 && (v@[0] == '+' || v@[0] == '-'),
            start == 0 || start == 1,
            neg == (v@.len() > 0 && v@[0] == '-'),
            ds == v@.subrange(start as int, v@.len() as int),
            ds == (if v@.len() > 0 && (v@[0] == '+' || v@[0] == '-') {
                v@.drop_first()
            } else {
                v@
            }),
            acc == digits_val(ds.subrange(0, i - start)),
            acc <= 0x8000_0000,
            forall|k: int| start <= k < i ==> is_digit_char(v@[k]),
        decreases v@.len() - i,
    {
        let c = v[i];
        let u = c as u32;
        if !(0x30 <= u && u <= 0x39) {
            proof {
                assert(0 <= i - start < ds.len());
                assert(ds[i - start] == v@[i as int]);
                assert(!is_digit_char(ds[i - start]));
                assert(!all_digits(ds));
            }
            return None;
        }
        let d: u64 = (u - 0x30) as u64;
        let new_acc: u64 = acc * 10 + d;
        proof {
            assert(ds.subrange(0, i + 1 - start).drop_last() =~= ds.subrange(0, i - start));
            assert(ds.subrange(0, i + 1 - start).last() == ds[i - start]);
        }
        if new_acc > 0x8000_0000 {
            proof {
                if all_digits(ds) {
                    lemma_digits_val_prefix(ds, i + 1 - start);
                }
            }
            return None;
        }
        acc = new_acc;
        i += 1;
    }
    proof {
        assert(ds.subrange(0, v@.len() - start) =~= ds);
        assert(all_digits(ds));
    }
    if neg {
        let r: i32 = (-(acc as i64)) as i32;
        Some(r)
    } else {
        if acc <= 0x7FFF_FFFF {
            Some(acc as i32)
        } else {
            None
        }
    }
}

/// The character is an ASCII hexadecimal digit.
pub open spec fn is_hex_digit_char(c: char) -> bool {
    let u = c as u32;
    (0x30 <= u && u <= 0x39) || (0x41 <= u && u <= 0x46) || (0x61 <= u && u <= 0x66)
}

/// Numeric value of an ASCII hexadecimal digit.
pub open spec fn hex_digit_val(c: char) -> int {
    let u = c as u32;
    if 0x30 <= u && u <= 0x39 {
        u - 0x30
    } else if 0x41 <= u && u <= 0x46 {
        u - 0x41 + 10
    } else {
        u - 0x61 + 10
    }
}

/// Every character is an ASCII hexadecimal digit.
pub open spec fn all_hex_digits(s: Seq<char>) -> bool {
    forall|i: int| 0 <= i < s.len() ==> is_hex_digit_char(s[i])
}

/// Value of a hexadecimal digit string.
pub open spec fn hex_val(s: Seq<char>) -> int
    decreases s.len(),
{
    if s.len() == 0 {
        0
    } else {
        hex_val(s.drop_last()) * 16 + hex_digit_val(s.last())
    }
}

/// Result of reading the string as an unsigned byte in base sixteen: an
/// optional plus sign, then at least one hexadecimal digit, value at most
/// 255.
pub open spec fn spec_parse_u8_hex(s: Seq<char>) -> Option<u8> {
    let ds = if s.len() > 0 && s[0] == '+' {
        s.drop_first()
    } else {
        s
    };
    if ds.len() == 0 || !all_hex_digits(ds) {
        None
    } else if hex_val(ds) <= 255 {
        Some(hex_val(ds) as u8)
    } else {
        None
    }
}

/// Whether the character is an ASCII hexadecimal digit, and its value.
fn hex_digit(c: char) -> (r: Option<u8>)
    ensures
        r is Some <==> is_hex_digit_char(c),
        r is Some ==> r->0 == hex_digit_val(c) && r->0 <= 15,
{
    let u = c as u32;
    if 0x30 <= u && u <= 0x39 {
        Some((u - 0x30) as u8)
    } else if 0x41 <= u && u <= 0x46 {
        Some((u - 0x41 + 10) as u8)
    } else if 0x61 <= u && u <= 0x66 {
        Some((u - 0x61 + 10) as u8)
    } else {
        None
    }
}

/// Reads at most two characters as an unsigned byte in base sixteen.
pub fn parse_u8_hex(v: &Vec<char>) -> (r: Option<u8>)
    requires
        v@.len() <= 2,
    ensures
        r == spec_parse_u8_hex(v@),
{
    let mut start: usize = 0;
    if v.len() > 0 && v[0] == '+' {
        start = 1;
    }
    let ghost ds = if start == 1 {
        v@.drop_first()
    } else {
        v@
    };
    proof {
        assert(ds =~= v@.subrange(start as int, v@.len() as int));
    }
    if start == v.len() {
        return None;
    }
    let d0 = match hex_digit(v[start]) {
        Some(d) => d,
        None => {
            proof {
                assert(ds[0] == v@[start as int]);
                assert(!all_hex_digits(ds));
            }
            return None;
        },
    };
    if start + 1 == v.len() {
        proof {
            assert(ds.len() == 1);
            assert(ds =~= seq![v@[start as int]]);
            assert(ds.drop_last() =~= Seq::<char>::empty());
            assert(hex_val(Seq::<char>::empty()) == 0);
            assert(hex_val(ds) == hex_digit_val(ds[0]));
            assert(all_hex_digits(ds));
        }
        return Some(d0);
    }
    let d1 = match hex_digit(v[start + 1]) {
        Some(d) => d,
        None => {
            proof {
                assert(ds[1] == v@[start + 1]);
                assert(!all_hex_digits(ds));
            }
            return None;
        },
    };
    proof {
        assert(ds.len() == 2);
        assert(ds.drop_last() =~= seq![v@[start as int]]);
        assert(ds.drop_last().drop_last() =~= Seq::<char>::empty());
        assert(hex_val(Seq::<char>::empty()) == 0);
        assert(hex_val(ds.drop_last()) == hex_digit_val(ds[0]));
        assert(hex_val(ds) == hex_digit_val(ds[0]) * 16 + hex_digit_val(ds[1]));
        assert(all_hex_digits(ds));
    }
    Some(d0 * 16 + d1)
}

/// What str::to_uppercase returns; the mapping depends on the characters
/// alone.
pub uninterp spec fn upper_of(s: Seq<char>) -> Seq<char>;

/// Relies on str::to_uppercase: maps the string to its Unicode uppercase
/// form, a function of the characters alone.
#[verifier::external_body]
pub(crate) fn to_upper(s: &str) -> (r: String)
    ensures
        r@ == upper_of(s@),
{
    s.to_uppercase()
}

} // verus!
