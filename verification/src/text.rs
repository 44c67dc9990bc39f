//! Character-level text utilities shared by the parsers of this crate.
//!
//! Text is handled as a slice of `char`s; the specifications below describe
//! the scans that the parsers perform over such a sequence.
use vstd::prelude::*;

use crate::attrs::ascii_lower;

verus! {

// ---------------------------------------------------------------------------
// Character classes
// ---------------------------------------------------------------------------

/// ASCII blanks: space, newline, carriage return and tab.
pub open spec fn is_ascii_blank(c: char) -> bool {
    c == ' ' || c == '\n' || c == '\r' || c == '\t'
}

/// ASCII blanks and the comma, the separators between RSX items.
pub open spec fn is_blank_or_comma(c: char) -> bool {
    is_ascii_blank(c) || c == ','
}

/// ASCII letters, ASCII digits and the underscore.
pub open spec fn is_ident_char(c: char) -> bool {
    ('a' <= c && c <= 'z') || ('A' <= c && c <= 'Z') || ('0' <= c && c <= '9') || c == '_'
}

pub open spec fn is_digit(c: char) -> bool {
    '0' <= c && c <= '9'
}

/// The Unicode `White_Space` property, as `char::is_whitespace` defines it.
pub open spec fn is_unicode_space(c: char) -> bool {
    let u = c as u32;
    (0x09 <= u && u <= 0x0d) || u == 0x20 || u == 0x85 || u == 0xa0 || u == 0x1680 || (0x2000
        <= u && u <= 0x200a) || u == 0x2028 || u == 0x2029 || u == 0x202f || u == 0x205f || u
        == 0x3000
}

/// Number of bytes that the UTF-8 encoding of `c` takes.
pub open spec fn utf8_width(c: char) -> nat {
    let u = c as u32;
    if u < 0x80 {
        1
    } else if u < 0x800 {
        2
    } else if u < 0x10000 {
        3
    } else {
        4
    }
}

/// Number of bytes that the UTF-8 encoding of `s` takes.
pub open spec fn utf8_len(s: Seq<char>) -> nat
    decreases s.len(),
{
    if s.len() == 0 {
        0
    } else {
        utf8_len(s.drop_last()) + utf8_width(s.last())
    }
}

pub fn ident_char(c: char) -> (r: bool)
    ensures
        r == is_ident_char(c),
{
    ('a' <= c && c <= 'z') || ('A' <= c && c <= 'Z') || ('0' <= c && c <= '9') || c == '_'
}

pub fn digit(c: char) -> (r: bool)
    ensures
        r == is_digit(c),
{
    '0' <= c && c <= '9'
}

/// Whether `c` is white space in the Unicode sense (`char::is_whitespace`).
pub fn unicode_space(c: char) -> (r: bool)
    ensures
        r == is_unicode_space(c),
{
    let u = c as u32;
    (0x09 <= u && u <= 0x0d) || u == 0x20 || u == 0x85 || u == 0xa0 || u == 0x1680 || (0x2000
        <= u && u <= 0x200a) || u == 0x2028 || u == 0x2029 || u == 0x202f || u == 0x205f || u
        == 0x3000
}

pub fn char_utf8_width(c: char) -> (r: usize)
    ensures
        r == utf8_width(c),
{
    let u = c as u32;
    if u < 0x80 {
        1
    } else if u < 0x800 {
        2
    } else if u < 0x10000 {
        3
    } else {
        4
    }
}

/// Whether `c` is alphabetic or numeric in the Unicode sense; the tables
/// that decide it are std's (`char::is_alphanumeric`).
pub uninterp spec fn unicode_alphanumeric(c: char) -> bool;

/// Calls `char::is_alphanumeric`. The contract names its result
/// (`unicode_alphanumeric`), a function of the character alone; what the
/// Unicode tables say of a given character is not stated here.
#[verifier::external_body]
pub(crate) fn alphanumeric(c: char) -> (r: bool)
    ensures
        r == unicode_alphanumeric(c),
{
    c.is_alphanumeric()
}

// ---------------------------------------------------------------------------
// Scans over a sequence of characters
// ---------------------------------------------------------------------------

/// First position at or after `p` that does not hold an ASCII blank.
pub open spec fn skip_blanks(s: Seq<char>, p: int) -> int
    decreases s.len() - p,
{
    if p < 0 || p >= s.len() || !is_ascii_blank(s[p]) {
        p
    } else {
        skip_blanks(s, p + 1)
    }
}

/// First position at or after `p` that holds neither an ASCII blank nor a comma.
pub open spec fn skip_separators(s: Seq<char>, p: int) -> int
    decreases s.len() - p,
{
    if p < 0 || p >= s.len() || !is_blank_or_comma(s[p]) {
        p
    } else {
        skip_separators(s, p + 1)
    }
}

/// End of the run of identifier characters that starts at `p`.
pub open spec fn ident_end(s: Seq<char>, p: int) -> int
    decreases s.len() - p,
{
    if p < 0 || p >= s.len() || !is_ident_char(s[p]) {
        p
    } else {
        ident_end(s, p + 1)
    }
}

/// First position at or after `p` that is not Unicode white space.
pub open spec fn skip_unicode_space(s: Seq<char>, p: int) -> int
    decreases s.len() - p,
{
    if p < 0 || p >= s.len() || !is_unicode_space(s[p]) {
        p
    } else {
        skip_unicode_space(s, p + 1)
    }
}

/// The largest `k <= e` such that `s[k - 1]` is not Unicode white space (or 0).
pub open spec fn trailing_space_start(s: Seq<char>, e: int) -> int
    decreases e,
{
    if e <= 0 || e > s.len() || !is_unicode_space(s[e - 1]) {
        e
    } else {
        trailing_space_start(s, e - 1)
    }
}

/// `str::trim_start`: `s` without its leading white space.
pub open spec fn trim_start(s: Seq<char>) -> Seq<char> {
    s.subrange(skip_unicode_space(s, 0), s.len() as int)
}

/// `str::trim`: `s` without its leading and trailing white space.
pub open spec fn trim(s: Seq<char>) -> Seq<char> {
    let a = skip_unicode_space(s, 0);
    let b = trailing_space_start(s, s.len() as int);
    if a < b {
        s.subrange(a, b)
    } else {
        Seq::empty()
    }
}

/// Whether `pat` is a prefix of `s`.
pub open spec fn starts_with(s: Seq<char>, pat: Seq<char>) -> bool {
    pat.len() <= s.len() && s.subrange(0, pat.len() as int) == pat
}

/// Whether `pat` occurs in `s` at position `i`.
pub open spec fn occurs_at(s: Seq<char>, pat: Seq<char>, i: int) -> bool {
    0 <= i && i + pat.len() <= s.len() && s.subrange(i, i + pat.len()) == pat
}

/// First position at or after `p` where `pat` occurs in `s`.
pub open spec fn find_seq(s: Seq<char>, pat: Seq<char>, p: int) -> Option<int>
    decreases s.len() + 1 - p,
{
    if p < 0 || p + pat.len() > s.len() {
        None
    } else if occurs_at(s, pat, p) {
        Some(p)
    } else {
        find_seq(s, pat, p + 1)
    }
}

/// First position at or after `p` that holds `c`.
pub open spec fn find_char(s: Seq<char>, c: char, p: int) -> Option<int>
    decreases s.len() - p,
{
    if p < 0 || p >= s.len() {
        None
    } else if s[p] == c {
        Some(p)
    } else {
        find_char(s, c, p + 1)
    }
}

/// Last position that holds `c`.
pub open spec fn rfind_char(s: Seq<char>, c: char) -> Option<int>
    decreases s.len(),
{
    if s.len() == 0 {
        None
    } else if s.last() == c {
        Some(s.len() - 1)
    } else {
        rfind_char(s.drop_last(), c)
    }
}

/// Number of positions that hold `c`.
pub open spec fn count_char(s: Seq<char>, c: char) -> nat
    decreases s.len(),
{
    if s.len() == 0 {
        0
    } else {
        count_char(s.drop_last(), c) + if s.last() == c {
            1nat
        } else {
            0nat
        }
    }
}

/// Scanning from `i` with `depth` brackets open, the position of the
/// `close` that brings the depth back to zero.
pub open spec fn match_close(s: Seq<char>, open: char, close: char, i: int, depth: int) -> Option<
    int,
>
    decreases s.len() - i,
{
    if i < 0 || i >= s.len() {
        None
    } else if s[i] == open {
        match_close(s, open, close, i + 1, depth + 1)
    } else if s[i] == close {
        if depth - 1 == 0 {
            Some(i)
        } else {
            match_close(s, open, close, i + 1, depth - 1)
        }
    } else {
        match_close(s, open, close, i + 1, depth)
    }
}

/// The content between the `{` that opens `s` and the brace that matches it.
pub open spec fn braced_block(s: Seq<char>) -> Option<Seq<char>> {
    if s.len() == 0 || s[0] != '{' {
        None
    } else {
        match match_close(s, '{', '}', 0, 0) {
            Some(i) => Some(s.subrange(1, i)),
            None => None,
        }
    }
}

pub proof fn lemma_match_close_bounds(s: Seq<char>, open: char, close: char, i: int, depth: int)
    requires
        0 <= i,
    ensures
        match_close(s, open, close, i, depth) matches Some(k) ==> i <= k < s.len() && s[k]
            == close,
    decreases s.len() - i,
{
    if i < s.len() {
        lemma_match_close_bounds(s, open, close, i + 1, depth + 1);
        lemma_match_close_bounds(s, open, close, i + 1, depth - 1);
        lemma_match_close_bounds(s, open, close, i + 1, depth);
    }
}

// ---------------------------------------------------------------------------
// Executable scans
// ---------------------------------------------------------------------------

/// Appends one character to a string (std `String::push`).
#[verifier::external_body]
pub(crate) fn push_char(s: &mut String, c: char)
    ensures
        final(s)@ == old(s)@.push(c),
{
    s.push(c);
}

/// The characters of `s`, in order.
pub fn chars_of(s: &str) -> (out: Vec<char>)
    ensures
        out@ == s@,
{
    let mut out: Vec<char> = Vec::new();
    for c in it: s.chars()
        invariant
            out@ == it.seq().take(it.index() as int),
    {
        out.push(c);
    }
    out
}

/// A string made of the characters of `cs`.
pub fn string_of(cs: &[char]) -> (out: String)
    ensures
        out@ == cs@,
{
    let mut out = String::new();
    let mut i: usize = 0;
    while i < cs.len()
        invariant
            i <= cs.len(),
            out@ == cs@.subrange(0, i as int),
        decreases cs.len() - i,
    {
        push_char(&mut out, cs[i]);
        i = i + 1;
        assert(out@ =~= cs@.subrange(0, i as int));
    }
    assert(out@ =~= cs@);
    out
}

/// Whether the characters of `s` are exactly those of `pat`.
pub fn chars_eq_str(s: &[char], pat: &str) -> (r: bool)
    ensures
        r == (s@ == pat@),
{
    let p = chars_of(pat);
    chars_eq(s, p.as_slice())
}

/// Whether two character slices hold the same characters.
pub fn chars_eq(a: &[char], b: &[char]) -> (r: bool)
    ensures
        r == (a@ == b@),
{
    if a.len() != b.len() {
        return false;
    }
    let mut i: usize = 0;
    while i < a.len()
        invariant
            a.len() == b.len(),
            i <= a.len(),
            forall|j: int| 0 <= j < i ==> a@[j] == b@[j],
        decreases a.len() - i,
    {
        if a[i] != b[i] {
            return false;
        }
        i = i + 1;
    }
    assert(a@ =~= b@);
    true
}

/// Whether two strings hold the same characters (`str == str`).
pub fn str_eq(a: &str, b: &str) -> (r: bool)
    ensures
        r == (a@ == b@),
{
    let ca = chars_of(a);
    chars_eq_str(ca.as_slice(), b)
}

/// Whether `s` starts with the characters of `pat`.
pub fn starts_with_str(s: &[char], pat: &str) -> (r: bool)
    ensures
        r == starts_with(s@, pat@),
{
    let p = chars_of(pat);
    if p.len() > s.len() {
        return false;
    }
    let head = vstd::slice::slice_subrange(s, 0, p.len());
    chars_eq(head, p.as_slice())
}

/// Whether the characters of `pat` occur in `s` at position `i`.
pub fn occurs_at_exec(s: &[char], pat: &[char], i: usize) -> (r: bool)
    ensures
        r == occurs_at(s@, pat@, i as int),
{
    if i > s.len() || pat.len() > s.len() - i {
        return false;
    }
    let part = vstd::slice::slice_subrange(s, i, i + pat.len());
    chars_eq(part, pat)
}

/// `ident_end` as code.
pub fn ident_end_exec(s: &[char], pos: usize) -> (r: usize)
    requires
        pos <= s.len(),
    ensures
        r == ident_end(s@, pos as int),
        pos <= r <= s.len(),
{
    let mut p = pos;
    while p < s.len() && ident_char(s[p])
        invariant
            pos <= p <= s.len(),
            ident_end(s@, p as int) == ident_end(s@, pos as int),
        decreases s.len() - p,
    {
        p = p + 1;
    }
    p
}

/// `skip_unicode_space` as code.
pub fn skip_unicode_space_exec(s: &[char], pos: usize) -> (r: usize)
    requires
        pos <= s.len(),
    ensures
        r == skip_unicode_space(s@, pos as int),
        pos <= r <= s.len(),
{
    let mut p = pos;
    while p < s.len() && unicode_space(s[p])
        invariant
            pos <= p <= s.len(),
            skip_unicode_space(s@, p as int) == skip_unicode_space(s@, pos as int),
        decreases s.len() - p,
    {
        p = p + 1;
    }
    p
}

/// `trailing_space_start` as code.
pub fn trailing_space_start_exec(s: &[char], end: usize) -> (r: usize)
    requires
        end <= s.len(),
    ensures
        r == trailing_space_start(s@, end as int),
        r <= end,
{
    let mut e = end;
    while e > 0 && unicode_space(s[e - 1])
        invariant
            e <= end <= s.len(),
            trailing_space_start(s@, e as int) == trailing_space_start(s@, end as int),
        decreases e,
    {
        e = e - 1;
    }
    e
}

/// `str::trim_start` on a slice of characters.
pub fn trim_start_exec(s: &[char]) -> (r: &[char])
    ensures
        r@ == trim_start(s@),
{
    let a = skip_unicode_space_exec(s, 0);
    vstd::slice::slice_subrange(s, a, s.len())
}

/// `str::trim` on a slice of characters.
pub fn trim_exec(s: &[char]) -> (r: &[char])
    ensures
        r@ == trim(s@),
{
    let a = skip_unicode_space_exec(s, 0);
    let b = trailing_space_start_exec(s, s.len());
    if a < b {
        vstd::slice::slice_subrange(s, a, b)
    } else {
        let r = vstd::slice::slice_subrange(s, 0, 0);
        assert(r@ =~= Seq::<char>::empty());
        r
    }
}

/// `find_char` as code.
pub fn find_char_exec(s: &[char], c: char, pos: usize) -> (r: Option<usize>)
    requires
        pos <= s.len(),
    ensures
        r matches Some(i) ==> find_char(s@, c, pos as int) == Some(i as int),
        r is None ==> find_char(s@, c, pos as int) is None,
{
    let mut p = pos;
    while p < s.len()
        invariant
            pos <= p <= s.len(),
            find_char(s@, c, p as int) == find_char(s@, c, pos as int),
        decreases s.len() - p,
    {
        if s[p] == c {
            return Some(p);
        }
        p = p + 1;
    }
    None
}

/// `find_seq` as code.
pub fn find_seq_exec(s: &[char], pat: &[char], pos: usize) -> (r: Option<usize>)
    requires
        pos <= s.len(),
        pat@.len() > 0,
    ensures
        r matches Some(i) ==> find_seq(s@, pat@, pos as int) == Some(i as int) && i + pat@.len()
            <= s@.len(),
        r is None ==> find_seq(s@, pat@, pos as int) is None,
{
    let mut p = pos;
    while p < s.len() && pat.len() <= s.len() - p
        invariant
            pos <= p,
            p <= s.len(),
            find_seq(s@, pat@, p as int) == find_seq(s@, pat@, pos as int),
        decreases s.len() - p,
    {
        if occurs_at_exec(s, pat, p) {
            return Some(p);
        }
        p = p + 1;
    }
    None
}

/// `rfind_char` as code.
pub fn rfind_char_exec(s: &[char], c: char) -> (r: Option<usize>)
    ensures
        r matches Some(i) ==> rfind_char(s@, c) == Some(i as int),
        r is None ==> rfind_char(s@, c) is None,
{
    let mut e = s.len();
    assert(s@.subrange(0, e as int) =~= s@);
    while e > 0
        invariant
            e <= s.len(),
            rfind_char(s@.subrange(0, e as int), c) == rfind_char(s@, c),
        decreases e,
    {
        let ghost t = s@.subrange(0, e as int);
        assert(t.drop_last() =~= s@.subrange(0, e - 1));
        if s[e - 1] == c {
            return Some(e - 1);
        }
        e = e - 1;
    }
    None
}

/// `count_char` as code.
pub fn count_char_exec(s: &[char], c: char) -> (r: usize)
    ensures
        r == count_char(s@, c),
{
    let mut i: usize = 0;
    let mut n: usize = 0;
    while i < s.len()
        invariant
            i <= s.len(),
            n == count_char(s@.subrange(0, i as int), c),
            n <= i,
        decreases s.len() - i,
    {
        let ghost t = s@.subrange(0, i + 1);
        assert(t.drop_last() =~= s@.subrange(0, i as int));
        if s[i] == c {
            n = n + 1;
        }
        i = i + 1;
    }
    assert(s@.subrange(0, s.len() as int) =~= s@);
    n
}

/// `utf8_len` as code, for sequences whose encoding fits in a `usize`.
pub fn utf8_len_exec(s: &[char]) -> (r: usize)
    requires
        utf8_len(s@) <= usize::MAX,
    ensures
        r == utf8_len(s@),
{
    let mut i: usize = 0;
    let mut n: usize = 0;
    while i < s.len()
        invariant
            i <= s.len(),
            n == utf8_len(s@.subrange(0, i as int)),
            utf8_len(s@) <= usize::MAX,
        decreases s.len() - i,
    {
        let ghost t = s@.subrange(0, i + 1);
        assert(t.drop_last() =~= s@.subrange(0, i as int));
        proof {
            lemma_utf8_len_prefix(s@, i + 1);
        }
        n = n + char_utf8_width(s[i]);
        i = i + 1;
    }
    assert(s@.subrange(0, s.len() as int) =~= s@);
    n
}

/// The encoding of a prefix is no longer than that of the whole.
pub proof fn lemma_utf8_len_prefix(s: Seq<char>, k: int)
    requires
        0 <= k <= s.len(),
    ensures
        utf8_len(s.subrange(0, k)) <= utf8_len(s),
    decreases s.len() - k,
{
    if k < s.len() {
        lemma_utf8_len_prefix(s, k + 1);
        let t = s.subrange(0, k + 1);
        assert(t.drop_last() =~= s.subrange(0, k));
    } else {
        assert(s.subrange(0, k) =~= s);
    }
}

/// The encoding of a concatenation is the concatenation of the encodings.
pub proof fn lemma_utf8_len_concat(a: Seq<char>, b: Seq<char>)
    ensures
        utf8_len(a + b) == utf8_len(a) + utf8_len(b),
    decreases b.len(),
{
    if b.len() == 0 {
        assert(a + b =~= a);
    } else {
        lemma_utf8_len_concat(a, b.drop_last());
        assert((a + b).drop_last() =~= a + b.drop_last());
    }
}

/// The encoding of a part is no longer than that of the whole.
pub proof fn lemma_utf8_len_subrange(s: Seq<char>, i: int, j: int)
    requires
        0 <= i <= j <= s.len(),
    ensures
        utf8_len(s.subrange(i, j)) <= utf8_len(s),
{
    lemma_utf8_len_concat(s.subrange(0, i), s.subrange(i, j));
    assert(s.subrange(0, i) + s.subrange(i, j) =~= s.subrange(0, j));
    lemma_utf8_len_prefix(s, j);
}

/// Every character takes at least one byte.
pub proof fn lemma_len_le_utf8_len(s: Seq<char>)
    ensures
        s.len() <= utf8_len(s),
    decreases s.len(),
{
    if s.len() > 0 {
        lemma_len_le_utf8_len(s.drop_last());
    }
}

/// A character occurs at most as many times as the sequence is long.
pub proof fn lemma_count_char_le_len(s: Seq<char>, c: char)
    ensures
        count_char(s, c) <= s.len(),
    decreases s.len(),
{
    if s.len() > 0 {
        lemma_count_char_le_len(s.drop_last(), c);
    }
}

/// The last occurrence lies inside the sequence.
pub proof fn lemma_rfind_char_bounds(s: Seq<char>, c: char)
    ensures
        rfind_char(s, c) matches Some(i) ==> 0 <= i < s.len() && s[i] == c,
    decreases s.len(),
{
    if s.len() > 0 && s.last() != c {
        lemma_rfind_char_bounds(s.drop_last(), c);
    }
}

/// Scanning with `match_close` from `start`, where `s[start]` is `open`:
/// the position of the matching close, if any.
pub fn match_close_exec(s: &[char], open: char, close: char, start: usize) -> (r: Option<usize>)
    requires
        start < s.len(),
        s[start as int] == open,
        open != close,
    ensures
        r matches Some(i) ==> match_close(s@, open, close, start as int, 0) == Some(i as int),
        r is None ==> match_close(s@, open, close, start as int, 0) is None,
{
    let mut i = start + 1;
    let mut depth: usize = 1;
    while i < s.len()
        invariant
            start < i <= s.len(),
            1 <= depth <= i - start,
            match_close(s@, open, close, i as int, depth as int) == match_close(
                s@,
                open,
                close,
                start as int,
                0,
            ),
        decreases s.len() - i,
    {
        let c = s[i];
        if c == open {
            depth = depth + 1;
        } else if c == close {
            if depth == 1 {
                return Some(i);
            }
            depth = depth - 1;
        }
        i = i + 1;
    }
    None
}

// ---------------------------------------------------------------------------
// ASCII case
// ---------------------------------------------------------------------------

/// ASCII upper case of one character.
pub open spec fn ascii_upper(c: char) -> char {
    if 'a' <= c && c <= 'z' {
        ((c as u32) - 32) as char
    } else {
        c
    }
}

/// The text in ASCII lower case.
pub open spec fn lower_case(s: Seq<char>) -> Seq<char> {
    s.map_values(|c: char| ascii_lower(c))
}

/// The text in ASCII upper case.
pub open spec fn upper_case(s: Seq<char>) -> Seq<char> {
    s.map_values(|c: char| ascii_upper(c))
}

} // verus!
