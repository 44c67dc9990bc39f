//! The text of an edit box and its editing operations: insertion at the
//! cursor (without control characters, within the letter and byte limits),
//! deletion before and after the cursor, replacement of a range and cursor
//! moves.
//!
//! The cursor and the ranges are byte offsets into the UTF-8 encoding of the
//! text, as `String` positions are. The text is modelled as its characters;
//! the byte offset of character index `k` is the length of the encoding of
//! the first `k` characters.
use vstd::prelude::*;

use crate::text::{
    char_utf8_width, chars_of, lemma_utf8_len_concat, lemma_utf8_len_prefix,
    lemma_utf8_len_subrange, push_char, string_of, utf8_len, utf8_len_exec, utf8_width,
};
use crate::widgets::font_string::GameFont;

verus! {

/// Whether `c` is a control character (general category Cc), which is what
/// `char::is_control` tests.
pub open spec fn is_control_char(c: char) -> bool {
    (c as u32) <= 0x1f || (0x7f <= (c as u32) && (c as u32) <= 0x9f)
}

/// `t` without its control characters.
pub open spec fn without_controls(t: Seq<char>) -> Seq<char>
    decreases t.len(),
{
    if t.len() == 0 {
        t
    } else if is_control_char(t.last()) {
        without_controls(t.drop_last())
    } else {
        without_controls(t.drop_last()).push(t.last())
    }
}

/// The byte offset of character index `k` of `s`.
pub open spec fn byte_offset(s: Seq<char>, k: int) -> int {
    utf8_len(s.subrange(0, k)) as int
}

/// The character index, from `k` on, whose byte offset is `b`: `None` when
/// `b` is not the offset of a character boundary.
pub open spec fn char_index_of_byte(s: Seq<char>, b: int, k: int) -> Option<int>
    decreases s.len() - k,
{
    if k < 0 || k > s.len() {
        None
    } else if byte_offset(s, k) == b {
        Some(k)
    } else if byte_offset(s, k) > b || k == s.len() {
        None
    } else {
        char_index_of_byte(s, b, k + 1)
    }
}

/// The text after inserting `ins` at character index `k`.
pub open spec fn inserted_at(s: Seq<char>, k: int, ins: Seq<char>) -> Seq<char> {
    s.subrange(0, k) + ins + s.subrange(k, s.len() as int)
}

/// The number of leading characters of `t`, from `k` on, whose encoding
/// fits in `room` bytes.
pub open spec fn fitting_prefix(t: Seq<char>, room: int, k: int) -> int
    decreases t.len() - k,
{
    if k < 0 || k >= t.len() || utf8_len(t.subrange(0, k + 1)) > room {
        k
    } else {
        fitting_prefix(t, room, k + 1)
    }
}

/// `t` cut to the letters left under `max_letters` for a box holding `current`.
pub open spec fn letters_clamped(t: Seq<char>, current: Seq<char>, max_letters: Option<u32>) -> Seq<
    char,
> {
    match max_letters {
        Some(m) => {
            let room = if m >= current.len() {
                m - current.len()
            } else {
                0
            };
            if room >= t.len() {
                t
            } else {
                t.subrange(0, room)
            }
        },
        None => t,
    }
}

/// `t` cut to the bytes left under `max_bytes` for a box holding `current`.
pub open spec fn bytes_clamped(t: Seq<char>, current: Seq<char>, max_bytes: Option<u32>) -> Seq<
    char,
> {
    match max_bytes {
        Some(m) => {
            let room = if m >= utf8_len(current) {
                m - utf8_len(current)
            } else {
                0
            };
            t.subrange(0, fitting_prefix(t, room, 0))
        },
        None => t,
    }
}

#[derive(Debug, Clone)]
pub struct EditBoxData {
    pub text: String,
    pub cursor_position: usize,
    pub font: GameFont,
    pub multi_line: bool,
    pub numeric: bool,
    pub password: bool,
    pub max_letters: Option<u32>,
    pub max_bytes: Option<u32>,
    pub history_lines: u32,
    pub auto_focus: bool,
    pub count_invisible_letters: bool,
}

impl EditBoxData {
    /// What `clamp_insert` keeps of `t`: the letters and then the bytes
    /// that the limits leave room for.
    pub open spec fn clamped(&self, t: Seq<char>) -> Seq<char> {
        bytes_clamped(
            letters_clamped(t, self.text@, self.max_letters),
            self.text@,
            self.max_bytes,
        )
    }

    /// What inserting `t` at the cursor adds to the text.
    pub open spec fn insertion(&self, t: Seq<char>) -> Seq<char> {
        self.clamped(without_controls(t))
    }

    /// Whether the settings (everything but the text and the cursor) agree.
    pub open spec fn same_settings(&self, other: &Self) -> bool {
        &&& self.font == other.font
        &&& self.multi_line == other.multi_line
        &&& self.numeric == other.numeric
        &&& self.password == other.password
        &&& self.max_letters == other.max_letters
        &&& self.max_bytes == other.max_bytes
        &&& self.history_lines == other.history_lines
        &&& self.auto_focus == other.auto_focus
        &&& self.count_invisible_letters == other.count_invisible_letters
    }
}

/// Dropping control characters keeps the encoding no longer.
pub proof fn lemma_without_controls_len(t: Seq<char>)
    ensures
        utf8_len(without_controls(t)) <= utf8_len(t),
        without_controls(t).len() <= t.len(),
    decreases t.len(),
{
    if t.len() > 0 {
        lemma_without_controls_len(t.drop_last());
        let w = without_controls(t.drop_last());
        assert(w.push(t.last()).drop_last() =~= w);
    }
}

pub proof fn lemma_fitting_prefix_bounds(t: Seq<char>, room: int, k: int)
    requires
        0 <= k <= t.len(),
    ensures
        k <= fitting_prefix(t, room, k) <= t.len(),
    decreases t.len() - k,
{
    if k < t.len() && utf8_len(t.subrange(0, k + 1)) <= room {
        lemma_fitting_prefix_bounds(t, room, k + 1);
    }
}

/// The byte offsets of later characters are larger.
pub proof fn lemma_byte_offset_grows(s: Seq<char>, k: int)
    requires
        0 <= k < s.len(),
    ensures
        byte_offset(s, k + 1) == byte_offset(s, k) + utf8_width(s[k]),
        utf8_width(s[k]) >= 1,
{
    assert(s.subrange(0, k + 1).drop_last() =~= s.subrange(0, k));
}

/// The character index of a byte offset lies in the text and has that offset.
pub proof fn lemma_char_index_of_byte(s: Seq<char>, b: int, k: int)
    requires
        0 <= k <= s.len(),
    ensures
        char_index_of_byte(s, b, k) matches Some(i) ==> k <= i <= s.len() && byte_offset(s, i)
            == b,
    decreases s.len() - k,
{
    if byte_offset(s, k) != b && byte_offset(s, k) <= b && k < s.len() {
        lemma_char_index_of_byte(s, b, k + 1);
    }
}

/// A later character boundary lies at a larger byte offset.
pub proof fn lemma_byte_offset_increasing(s: Seq<char>, i: int, j: int)
    requires
        0 <= i < j <= s.len(),
    ensures
        byte_offset(s, i) < byte_offset(s, j),
{
    lemma_utf8_len_concat(s.subrange(0, i), s.subrange(i, j));
    assert(s.subrange(0, i) + s.subrange(i, j) =~= s.subrange(0, j));
    crate::text::lemma_len_le_utf8_len(s.subrange(i, j));
}

/// The start of a replaced range: `start`, at most the text's byte length `len`.
pub open spec fn range_start(start: int, len: int) -> int {
    if start <= len {
        start
    } else {
        len
    }
}

/// The end of a replaced range: `end` at most `len`, and not before the start.
pub open spec fn range_end(start: int, end: int, len: int) -> int {
    let e = if end <= len {
        end
    } else {
        len
    };
    if e >= range_start(start, len) {
        e
    } else {
        range_start(start, len)
    }
}

/// Scanning from `j` finds the character index `k` of the offset of `k`.
proof fn lemma_char_index_finds(s: Seq<char>, k: int, j: int)
    requires
        0 <= j <= k <= s.len(),
    ensures
        char_index_of_byte(s, byte_offset(s, k), j) == Some(k),
    decreases k - j,
{
    if j < k {
        lemma_byte_offset_increasing(s, j, k);
        lemma_char_index_finds(s, k, j + 1);
    }
}

/// Typing one ASCII character that is not a control character and then
/// pressing backspace gives back the text and the cursor: the character
/// lands at the cursor's character index, the cursor moves one byte, and
/// backspace removes the character at the byte before the cursor.
pub proof fn insert_then_backspace(s: Seq<char>, cursor: int, c: char)
    requires
        char_index_of_byte(s, cursor, 0) is Some,
        (c as u32) < 0x80,
        !is_control_char(c),
    ensures
        ({
            let k = char_index_of_byte(s, cursor, 0)->0;
            let t = inserted_at(s, k, seq![c]);
            &&& cursor + utf8_len(seq![c]) - 1 == cursor
            &&& char_index_of_byte(t, cursor, 0) == Some(k)
            &&& k < t.len()
            &&& t.remove(k) == s
        }),
{
    let k = char_index_of_byte(s, cursor, 0)->0;
    lemma_char_index_of_byte(s, cursor, 0);
    let t = inserted_at(s, k, seq![c]);
    assert(utf8_len(seq![c]) == 1) by {
        let one = seq![c];
        assert(one.drop_last() =~= Seq::<char>::empty());
        assert(one.last() == c);
        assert(utf8_len(one.drop_last()) == 0);
        assert(utf8_width(c) == 1);
    }
    assert(t.subrange(0, k) =~= s.subrange(0, k));
    lemma_char_index_finds(t, k, 0);
    assert(t.remove(k) =~= s);
}

/// The leading characters that `fitting_prefix` keeps fit in `room` bytes.
proof fn lemma_fitting_prefix_fits(t: Seq<char>, room: int, k: int)
    requires
        0 <= k <= t.len(),
        utf8_len(t.subrange(0, k)) <= room,
    ensures
        utf8_len(t.subrange(0, fitting_prefix(t, room, k))) <= room,
    decreases t.len() - k,
{
    if k < t.len() && utf8_len(t.subrange(0, k + 1)) <= room {
        lemma_fitting_prefix_fits(t, room, k + 1);
    }
}

/// Inserting keeps the text within the letter and byte limits that it was
/// within: what is inserted never takes the text past `max_letters`
/// characters or `max_bytes` bytes.
pub proof fn insert_respects_limits(d: EditBoxData, t: Seq<char>, k: int)
    requires
        0 <= k <= d.text@.len(),
        d.max_letters matches Some(m) ==> d.text@.len() <= m,
        d.max_bytes matches Some(m) ==> utf8_len(d.text@) <= m,
    ensures
        d.max_letters matches Some(m) ==> inserted_at(d.text@, k, d.insertion(t)).len() <= m,
        d.max_bytes matches Some(m) ==> utf8_len(inserted_at(d.text@, k, d.insertion(t))) <= m,
{
    let s = d.text@;
    let w = without_controls(t);
    let l = letters_clamped(w, s, d.max_letters);
    let ins = d.insertion(t);
    let fp_room = match d.max_bytes {
        Some(m) => if m >= utf8_len(s) {
            m - utf8_len(s)
        } else {
            0
        },
        None => 0,
    };
    if d.max_bytes is Some {
        lemma_fitting_prefix_bounds(l, fp_room, 0);
        assert(l.subrange(0, 0) =~= Seq::<char>::empty());
        lemma_fitting_prefix_fits(l, fp_room, 0);
    }
    assert(ins.len() <= l.len());
    let new = inserted_at(s, k, ins);
    lemma_utf8_len_concat(s.subrange(0, k), ins);
    lemma_utf8_len_concat(s.subrange(0, k) + ins, s.subrange(k, s.len() as int));
    lemma_utf8_len_concat(s.subrange(0, k), s.subrange(k, s.len() as int));
    assert(s.subrange(0, k) + s.subrange(k, s.len() as int) =~= s);
}

fn is_control(c: char) -> (r: bool)
    ensures
        r == is_control_char(c),
{
    let u = c as u32;
    u <= 0x1f || (0x7f <= u && u <= 0x9f)
}

/// The characters of `text` that are not control characters.
fn filter_controls(text: &str) -> (r: String)
    ensures
        r@ == without_controls(text@),
{
    let cs = chars_of(text);
    let mut out = String::new();
    let mut i: usize = 0;
    assert(cs@.subrange(0, 0) =~= Seq::<char>::empty());
    while i < cs.len()
        invariant
            i <= cs.len(),
            out@ == without_controls(cs@.subrange(0, i as int)),
        decreases cs.len() - i,
    {
        assert(cs@.subrange(0, i + 1).drop_last() =~= cs@.subrange(0, i as int));
        if !is_control(cs[i]) {
            push_char(&mut out, cs[i]);
        }
        i = i + 1;
    }
    assert(cs@.subrange(0, cs.len() as int) =~= cs@);
    out
}

/// The character index of byte offset `b` of `s`, if `b` is on a boundary.
fn char_index_of(s: &[char], b: usize) -> (r: Option<usize>)
    requires
        utf8_len(s@) <= usize::MAX,
    ensures
        match r {
            Some(k) => char_index_of_byte(s@, b as int, 0) == Some(k as int),
            None => char_index_of_byte(s@, b as int, 0) is None,
        },
{
    let mut k: usize = 0;
    let mut n: usize = 0;
    assert(s@.subrange(0, 0) =~= Seq::<char>::empty());
    loop
        invariant
            k <= s.len(),
            n == byte_offset(s@, k as int),
            utf8_len(s@) <= usize::MAX,
            char_index_of_byte(s@, b as int, k as int) == char_index_of_byte(s@, b as int, 0),
        decreases s.len() - k,
    {
        if n == b {
            return Some(k);
        }
        if n > b || k == s.len() {
            return None;
        }
        proof {
            lemma_byte_offset_grows(s@, k as int);
            lemma_utf8_len_prefix(s@, k + 1);
        }
        n = n + char_utf8_width(s[k]);
        k = k + 1;
    }
}

/// `s[..k] + ins + s[j..]` as a string.
fn splice(s: &[char], k: usize, j: usize, ins: &[char]) -> (r: String)
    requires
        k <= j <= s.len(),
    ensures
        r@ == s@.subrange(0, k as int) + ins@ + s@.subrange(j as int, s@.len() as int),
{
    let mut out = string_of(vstd::slice::slice_subrange(s, 0, k));
    let mid = string_of(ins);
    out.append(mid.as_str());
    let tail = string_of(vstd::slice::slice_subrange(s, j, s.len()));
    out.append(tail.as_str());
    out
}

impl Default for EditBoxData {
    fn default() -> (r: Self)
        ensures
            r.text@ == Seq::<char>::empty(),
            r.cursor_position == 0,
            r.font == GameFont::FrizQuadrata,
            !r.multi_line && !r.numeric && !r.password,
            r.max_letters is None && r.max_bytes is None,
            r.history_lines == 0,
            !r.auto_focus && !r.count_invisible_letters,
    {
        EditBoxData {
            text: String::new(),
            cursor_position: 0,
            font: GameFont::default(),
            multi_line: false,
            numeric: false,
            password: false,
            max_letters: None,
            max_bytes: None,
            history_lines: 0,
            auto_focus: false,
            count_invisible_letters: false,
        }
    }
}

impl EditBoxData {
    /// Insert text at the current cursor position, filtering control chars.
    pub fn insert_at_cursor(&mut self, text: &str)
        requires
            utf8_len(old(self).text@) + utf8_len(text@) <= usize::MAX,
            old(self).insertion(text@).len() > 0 ==> char_index_of_byte(
                old(self).text@,
                old(self).cursor_position as int,
                0,
            ) is Some,
        ensures
            final(self).same_settings(old(self)),
            old(self).insertion(text@).len() == 0 ==> final(self).text@ == old(self).text@
                && final(self).cursor_position == old(self).cursor_position,
            old(self).insertion(text@).len() > 0 ==> final(self).text@ == inserted_at(
                old(self).text@,
                char_index_of_byte(old(self).text@, old(self).cursor_position as int, 0)->0,
                old(self).insertion(text@),
            ) && final(self).cursor_position == old(self).cursor_position + utf8_len(
                old(self).insertion(text@),
            ),
    {
        let filtered = filter_controls(text);
        if filtered.as_str().is_empty() {
            return;
        }
        let insert = self.clamp_insert(filtered);
        if insert.as_str().is_empty() {
            return;
        }
        let cs = chars_of(self.text.as_str());
        let ins = chars_of(insert.as_str());
        proof {
            let t = without_controls(text@);
            lemma_without_controls_len(text@);
            let l = letters_clamped(t, self.text@, self.max_letters);
            if l != t {
                lemma_utf8_len_prefix(t, l.len() as int);
            }
            match self.max_bytes {
                Some(m) => {
                    let room = if m >= utf8_len(self.text@) {
                        m - utf8_len(self.text@)
                    } else {
                        0
                    };
                    lemma_fitting_prefix_bounds(l, room, 0);
                    lemma_utf8_len_prefix(l, fitting_prefix(l, room, 0));
                },
                None => {},
            }
        }
        let k = match char_index_of(cs.as_slice(), self.cursor_position) {
            Some(k) => k,
            None => {
                return;
            },
        };
        proof {
            lemma_char_index_of_byte(cs@, self.cursor_position as int, 0);
            lemma_utf8_len_prefix(cs@, k as int);
        }
        let added = utf8_len_exec(ins.as_slice());
        self.text = splice(cs.as_slice(), k, k, ins.as_slice());
        self.cursor_position = self.cursor_position + added;
    }

    /// Delete the character before the cursor (backspace).
    pub fn backspace(&mut self)
        requires
            old(self).cursor_position > 0 ==> (char_index_of_byte(
                old(self).text@,
                old(self).cursor_position - 1,
                0,
            ) matches Some(k) && k < old(self).text@.len()),
            utf8_len(old(self).text@) <= usize::MAX,
        ensures
            final(self).same_settings(old(self)),
            old(self).cursor_position == 0 ==> final(self).text@ == old(self).text@
                && final(self).cursor_position == 0,
            old(self).cursor_position > 0 ==> final(self).cursor_position == old(
                self,
            ).cursor_position - 1 && final(self).text@ == old(self).text@.remove(
                char_index_of_byte(old(self).text@, old(self).cursor_position - 1, 0)->0,
            ),
    {
        if self.cursor_position > 0 {
            self.cursor_position = self.cursor_position - 1;
            let cs = chars_of(self.text.as_str());
            assert(cs@ == old(self).text@);
            match char_index_of(cs.as_slice(), self.cursor_position) {
                Some(k) => {
                    let n = cs.len();
                    assert(k < n);
                    self.text = splice(cs.as_slice(), k, k + 1, &[]);
                    assert(self.text@ =~= cs@.remove(k as int));
                },
                None => {},
            }
        }
    }

    /// Delete the character after the cursor.
    pub fn delete_forward(&mut self)
        requires
            old(self).cursor_position < utf8_len(old(self).text@) ==> char_index_of_byte(
                old(self).text@,
                old(self).cursor_position as int,
                0,
            ) is Some,
            utf8_len(old(self).text@) <= usize::MAX,
        ensures
            final(self).same_settings(old(self)),
            final(self).cursor_position == old(self).cursor_position,
            old(self).cursor_position >= utf8_len(old(self).text@) ==> final(self).text@ == old(
                self,
            ).text@,
            old(self).cursor_position < utf8_len(old(self).text@) ==> final(self).text@ == old(
                self,
            ).text@.remove(char_index_of_byte(old(self).text@, old(self).cursor_position as int, 0)->0),
    {
        let cs = chars_of(self.text.as_str());
        let len = utf8_len_exec(cs.as_slice());
        if self.cursor_position < len {
            match char_index_of(cs.as_slice(), self.cursor_position) {
                Some(k) => {
                    proof {
                        lemma_char_index_of_byte(cs@, self.cursor_position as int, 0);
                        assert(cs@.subrange(0, cs@.len() as int) =~= cs@);
                        assert(byte_offset(cs@, cs@.len() as int) == utf8_len(cs@));
                        assert(k < cs@.len());
                    }
                    let n = cs.len();
                    self.text = splice(cs.as_slice(), k, k + 1, &[]);
                    assert(self.text@ =~= cs@.remove(k as int));
                },
                None => {},
            }
        }
    }

    /// Move cursor left by one character.
    pub fn cursor_left(&mut self)
        ensures
            final(self).same_settings(old(self)),
            final(self).text@ == old(self).text@,
            final(self).cursor_position == if old(self).cursor_position > 0 {
                old(self).cursor_position - 1
            } else {
                0
            },
    {
        self.cursor_position = self.cursor_position.saturating_sub(1);
    }

    /// Move cursor to start.
    pub fn cursor_home(&mut self)
        ensures
            final(self).same_settings(old(self)),
            final(self).text@ == old(self).text@,
            final(self).cursor_position == 0,
    {
        self.cursor_position = 0;
    }
    fn clamp_insert(&self, text: String) -> (r: String)
        requires
            utf8_len(self.text@) <= usize::MAX,
        ensures
            r@ == self.clamped(text@),
    {
        let cur = chars_of(self.text.as_str());
        let t = chars_of(text.as_str());
        let t1: &[char] = match self.max_letters {
            Some(max) => {
                let count = cur.len();
                let m = max as usize;
                let remaining = if m >= count {
                    m - count
                } else {
                    0
                };
                if remaining >= t.len() {
                    t.as_slice()
                } else {
                    vstd::slice::slice_subrange(t.as_slice(), 0, remaining)
                }
            },
            None => t.as_slice(),
        };
        match self.max_bytes {
            Some(max) => {
                let used = utf8_len_exec(cur.as_slice());
                let m = max as usize;
                let remaining = if m >= used {
                    m - used
                } else {
                    0
                };
                let mut n: usize = 0;
                let mut k: usize = 0;
                assert(t1@.subrange(0, 0) =~= Seq::<char>::empty());
                loop
                    invariant
                        k <= t1.len(),
                        n == utf8_len(t1@.subrange(0, k as int)),
                        n <= remaining,
                        fitting_prefix(t1@, remaining as int, k as int) == fitting_prefix(
                            t1@,
                            remaining as int,
                            0,
                        ),
                    ensures
                        k == fitting_prefix(t1@, remaining as int, 0),
                        k <= t1.len(),
                    decreases t1.len() - k,
                {
                    if k >= t1.len() {
                        break;
                    }
                    let w = char_utf8_width(t1[k]);
                    assert(t1@.subrange(0, k + 1).drop_last() =~= t1@.subrange(0, k as int));
                    if w > remaining - n {
                        break;
                    }
                    n = n + w;
                    k = k + 1;
                }
                string_of(vstd::slice::slice_subrange(t1, 0, k))
            },
            None => string_of(t1),
        }
    }

    /// Replace a range of text (simulating selection replacement).
    pub fn replace_range(&mut self, start: usize, end: usize, replacement: &str)
        requires
            utf8_len(old(self).text@) + utf8_len(replacement@) <= usize::MAX,
            char_index_of_byte(
                old(self).text@,
                range_start(start as int, utf8_len(old(self).text@) as int),
                0,
            ) is Some,
            char_index_of_byte(
                old(self).text@,
                range_end(start as int, end as int, utf8_len(old(self).text@) as int),
                0,
            ) is Some,
        ensures
            final(self).same_settings(old(self)),
            final(self).text@ == old(self).text@.subrange(
                0,
                char_index_of_byte(
                    old(self).text@,
                    range_start(start as int, utf8_len(old(self).text@) as int),
                    0,
                )->0,
            ) + replacement@ + old(self).text@.subrange(
                char_index_of_byte(
                    old(self).text@,
                    range_end(start as int, end as int, utf8_len(old(self).text@) as int),
                    0,
                )->0,
                old(self).text@.len() as int,
            ),
            final(self).cursor_position == range_start(start as int, utf8_len(old(self).text@) as int)
                + utf8_len(replacement@),
    {
        let cs = chars_of(self.text.as_str());
        let len = utf8_len_exec(cs.as_slice());
        let start = if start <= len {
            start
        } else {
            len
        };
        let end = if end <= len {
            end
        } else {
            len
        };
        let end = if end >= start {
            end
        } else {
            start
        };
        let rep = chars_of(replacement);
        let added = utf8_len_exec(rep.as_slice());
        let ks = match char_index_of(cs.as_slice(), start) {
            Some(k) => k,
            None => {
                return;
            },
        };
        let ke = match char_index_of(cs.as_slice(), end) {
            Some(k) => k,
            None => {
                return;
            },
        };
        proof {
            lemma_char_index_of_byte(cs@, start as int, 0);
            lemma_char_index_of_byte(cs@, end as int, 0);
            if ks > ke {
                lemma_byte_offset_increasing(cs@, ke as int, ks as int);
            }
        }
        self.text = splice(cs.as_slice(), ks, ke, rep.as_slice());
        self.cursor_position = start + added;
    }

    /// Move cursor right by one character.
    pub fn cursor_right(&mut self)
        requires
            old(self).cursor_position < usize::MAX,
            utf8_len(old(self).text@) <= usize::MAX,
        ensures
            final(self).same_settings(old(self)),
            final(self).text@ == old(self).text@,
            final(self).cursor_position == if old(self).cursor_position + 1 <= utf8_len(
                old(self).text@,
            ) {
                old(self).cursor_position + 1
            } else {
                utf8_len(old(self).text@) as int
            },
    {
        let cs = chars_of(self.text.as_str());
        let len = utf8_len_exec(cs.as_slice());
        let next = self.cursor_position + 1;
        self.cursor_position = if next <= len {
            next
        } else {
            len
        };
    }

    /// Move cursor to end.
    pub fn cursor_end(&mut self)
        requires
            utf8_len(old(self).text@) <= usize::MAX,
        ensures
            final(self).same_settings(old(self)),
            final(self).text@ == old(self).text@,
            final(self).cursor_position == utf8_len(old(self).text@),
    {
        let cs = chars_of(self.text.as_str());
        self.cursor_position = utf8_len_exec(cs.as_slice());
    }
}

} // verus!
