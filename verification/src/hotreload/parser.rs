//! Runtime parser for `rsx! { ... }` blocks.
//!
//! The parser reads the text of a source file, finds each `rsx!` block and
//! turns its content into a widget-definition tree whose attribute values are
//! the literals written in the source (strings, numbers, booleans, enum
//! variants and string constants declared in the same file).
//!
//! Text is read as a sequence of characters. Each step of the parser has a
//! specification below that says, over that sequence, what the step returns.
use vstd::prelude::*;

use crate::anchor::{point_name, point_name_round_trip, point_named, point_variant, AnchorPoint};
use crate::anchor_resolve::anchor_field_set;
use crate::widgets::font_string::{justify_h_name, justify_h_variant, JustifyH};
use super::{template_model, templates_model, HotReloadTemplate, TemplateModel};
use crate::text::{
    alphanumeric, braced_block, chars_eq, chars_eq_str, chars_of, count_char, count_char_exec,
    digit, find_char, find_char_exec, find_seq, find_seq_exec, ident_end, ident_end_exec,
    is_ascii_blank, is_blank_or_comma, is_digit, lemma_match_close_bounds, lemma_utf8_len_prefix,
    match_close, match_close_exec, push_char, rfind_char, rfind_char_exec, skip_blanks,
    skip_separators, skip_unicode_space, skip_unicode_space_exec, starts_with, starts_with_str,
    str_eq, string_of, trim, trim_exec, trim_start, trim_start_exec, unicode_alphanumeric, utf8_len,
    utf8_len_exec, lemma_utf8_len_subrange, lemma_len_le_utf8_len, lemma_count_char_le_len,
    upper_case,
};
use crate::widget_def::{
    anchors_model, attrs_model, children_model, child_model, def_model, default_anchor,
    effective_name_of, opt_string_model, value_text, AnchorDef, AnchorDefModel, Attr, AttrModel,
    AttrValue, AttrValueModel, WidgetChild, WidgetChildModel, WidgetDef, WidgetDefModel,
};

verus! {

// ===========================================================================
// Specification: lexical elements
// ===========================================================================

/// `Some(x)` in front of `rest`, or `rest` alone.
pub open spec fn opt_cons<A>(o: Option<A>, rest: Seq<A>) -> Seq<A> {
    match o {
        Some(x) => seq![x] + rest,
        None => rest,
    }
}

/// What an escape sequence `\c` in a string literal stands for.
pub open spec fn escaped(c: char) -> Seq<char> {
    if c == 'n' {
        seq!['\n']
    } else if c == 't' {
        seq!['\t']
    } else if c == '"' {
        seq!['"']
    } else if c == '\\' {
        seq!['\\']
    } else {
        seq!['\\', c]
    }
}

/// The rest of a string literal's text from position `i` up to its closing quote.
pub open spec fn literal_from(s: Seq<char>, i: int) -> Option<Seq<char>>
    decreases s.len() - i,
{
    if i < 0 || i >= s.len() {
        None
    } else if s[i] == '\\' {
        if i + 1 >= s.len() {
            None
        } else {
            match literal_from(s, i + 2) {
                Some(r) => Some(escaped(s[i + 1]) + r),
                None => None,
            }
        }
    } else if s[i] == '"' {
        Some(Seq::empty())
    } else {
        match literal_from(s, i + 1) {
            Some(r) => Some(seq![s[i]] + r),
            None => None,
        }
    }
}

/// The text of the string literal that opens `s`, escapes resolved; `None`
/// when `s` does not open with a quote or the literal is not closed.
pub open spec fn string_literal(s: Seq<char>) -> Option<Seq<char>> {
    if s.len() > 0 && s[0] == '"' {
        literal_from(s, 1)
    } else {
        None
    }
}

/// Scanning a string literal from `pos`: the position after its closing
/// quote (an escape skips the character after the backslash).
pub open spec fn literal_scan(s: Seq<char>, pos: int) -> int
    decreases s.len() + 2 - pos,
{
    if pos < 0 || pos >= s.len() {
        pos
    } else if s[pos] == '\\' {
        literal_scan(s, pos + 2)
    } else if s[pos] == '"' {
        pos + 1
    } else {
        literal_scan(s, pos + 1)
    }
}

/// Number of characters that the string literal opening `s` takes (0 when
/// `s` does not open with a quote).
pub open spec fn literal_len(s: Seq<char>) -> int {
    if s.len() > 0 && s[0] == '"' {
        literal_scan(s, 1)
    } else {
        0
    }
}

pub open spec fn is_number_char(c: char) -> bool {
    is_digit(c) || c == '.' || c == '-'
}

/// End of the run of digits, dots and minus signs that starts at `i`.
pub open spec fn number_end(s: Seq<char>, i: int) -> int
    decreases s.len() - i,
{
    if i < 0 || i >= s.len() || !is_number_char(s[i]) {
        i
    } else {
        number_end(s, i + 1)
    }
}

/// `e` without the trailing dots of `s[..e]`.
pub open spec fn dots_trimmed_end(s: Seq<char>, e: int) -> int
    decreases e,
{
    if e <= 0 || e > s.len() || s[e - 1] != '.' {
        e
    } else {
        dots_trimmed_end(s, e - 1)
    }
}

/// A number literal opening `s`: its text without trailing dots, and the
/// number of characters it takes.
pub open spec fn number_token(s: Seq<char>) -> Option<(Seq<char>, int)> {
    let end = number_end(s, 0);
    if end == 0 {
        None
    } else if !is_digit(s[0]) && !(s[0] == '-' && end > 1 && is_digit(s[1])) {
        None
    } else {
        Some((s.subrange(0, dots_trimmed_end(s, end)), end))
    }
}

/// A character that may continue an identifier, in the Unicode sense.
pub open spec fn continues_ident(c: char) -> bool {
    unicode_alphanumeric(c) || c == '_'
}

/// A `true` or `false` literal opening `s` and followed by a character
/// that does not continue an identifier.
pub open spec fn bool_token(s: Seq<char>) -> Option<(Seq<char>, int)> {
    if starts_with(s, "true"@) && s.len() > "true"@.len() && !continues_ident(s["true"@.len() as int]) {
        Some(("true"@, "true"@.len() as int))
    } else if starts_with(s, "false"@) && s.len() > "false"@.len() && !continues_ident(
        s["false"@.len() as int],
    ) {
        Some(("false"@, "false"@.len() as int))
    } else {
        None
    }
}

/// End of a path of identifiers joined by `::` that starts at `pos`.
pub open spec fn qualified_end(s: Seq<char>, pos: int) -> int
    decreases s.len() - pos,
{
    let e = ident_end(s, pos);
    if e <= pos {
        pos
    } else if e + 1 < s.len() && s[e] == ':' && s[e + 1] == ':' {
        qualified_end(s, e + 2)
    } else {
        e
    }
}

/// The content between the parenthesis that opens `s` (after white space)
/// and the parenthesis that matches it.
pub open spec fn paren_content(s: Seq<char>) -> Option<Seq<char>> {
    let t = trim_start(s);
    if t.len() == 0 || t[0] != '(' {
        None
    } else {
        match match_close(t, '(', ')', 0, 0) {
            Some(i) => Some(t.subrange(1, i)),
            None => None,
        }
    }
}

/// The WoW name of an `AnchorPoint` variant; other text is kept.
pub open spec fn anchor_point_word(v: Seq<char>) -> Seq<char> {
    if v == "TopLeft"@ {
        "TOPLEFT"@
    } else if v == "Top"@ {
        "TOP"@
    } else if v == "TopRight"@ {
        "TOPRIGHT"@
    } else if v == "Left"@ {
        "LEFT"@
    } else if v == "Center"@ {
        "CENTER"@
    } else if v == "Right"@ {
        "RIGHT"@
    } else if v == "BottomLeft"@ {
        "BOTTOMLEFT"@
    } else if v == "Bottom"@ {
        "BOTTOM"@
    } else if v == "BottomRight"@ {
        "BOTTOMRIGHT"@
    } else {
        v
    }
}

/// The WoW name of a `JustifyH` variant; other text is kept.
pub open spec fn justify_word(v: Seq<char>) -> Seq<char> {
    if v == "Left"@ {
        "LEFT"@
    } else if v == "Right"@ {
        "RIGHT"@
    } else if v == "Center"@ {
        "CENTER"@
    } else {
        v
    }
}

/// The value of the first constant named `k`, among those from index `i` on.
pub open spec fn const_lookup(consts: Seq<(Seq<char>, Seq<char>)>, k: Seq<char>, i: int) -> Option<
    Seq<char>,
>
    decreases consts.len() - i,
{
    if i < 0 || i >= consts.len() {
        None
    } else if consts[i].0 == k {
        Some(consts[i].1)
    } else {
        const_lookup(consts, k, i + 1)
    }
}

/// Constants (name, value) taken as text.
pub open spec fn consts_model(consts: Seq<(String, String)>) -> Seq<(Seq<char>, Seq<char>)> {
    consts.map_values(|p: (String, String)| (p.0@, p.1@))
}

/// A token (its text and the number of characters it takes) taken as text.
pub open spec fn token_model(t: Option<(String, usize)>) -> Option<(Seq<char>, int)> {
    match t {
        Some((v, n)) => Some((v@, n as int)),
        None => None,
    }
}

/// `ident` with `prefix` removed, when it starts with it.
pub open spec fn after_prefix(ident: Seq<char>, prefix: Seq<char>) -> Seq<char> {
    ident.subrange(prefix.len() as int, ident.len() as int)
}

/// The value that a known identifier `ident` (the first `ilen` characters
/// of `s`) stands for, and the number of characters of `s` it takes:
/// `FontColor::new(..)` stands for the text between its parentheses; a
/// variant of `FrameStrata`, `DrawLayer` or `GameFont` for its name; a
/// variant of `AnchorPoint` or `JustifyH` for its WoW name; a plain
/// identifier for the value of the constant of that name.
pub open spec fn known_ident(
    ident: Seq<char>,
    ilen: int,
    s: Seq<char>,
    consts: Seq<(Seq<char>, Seq<char>)>,
) -> Option<(Seq<char>, int)> {
    if ident == "FontColor::new"@ {
        match paren_content(s.subrange(ilen, s.len() as int)) {
            Some(c) => Some((c, ilen + c.len() + 2)),
            None => None,
        }
    } else if starts_with(ident, "FrameStrata::"@) {
        Some((after_prefix(ident, "FrameStrata::"@), ilen))
    } else if starts_with(ident, "DrawLayer::"@) {
        Some((after_prefix(ident, "DrawLayer::"@), ilen))
    } else if starts_with(ident, "GameFont::"@) {
        Some((after_prefix(ident, "GameFont::"@), ilen))
    } else if starts_with(ident, "AnchorPoint::"@) {
        Some((anchor_point_word(after_prefix(ident, "AnchorPoint::"@)), ilen))
    } else if starts_with(ident, "JustifyH::"@) {
        Some((justify_word(after_prefix(ident, "JustifyH::"@)), ilen))
    } else if find_seq(ident, "::"@, 0) is None && ident.len() > 0 {
        match const_lookup(consts, ident, 0) {
            Some(v) => Some((v, ilen)),
            None => None,
        }
    } else {
        None
    }
}

/// Scanning an attribute value that is not a literal, from `pos` with
/// `depth` brackets open: the position of the `,`, newline or unmatched
/// closing bracket that ends it (string literals inside are skipped whole).
pub open spec fn value_end(s: Seq<char>, pos: int, depth: int) -> int
    decreases s.len() + 2 - pos,
{
    if pos < 0 || pos >= s.len() {
        pos
    } else if s[pos] == '"' {
        let n = literal_len(s.subrange(pos, s.len() as int));
        let step = if n <= 0 {
            1
        } else {
            n
        };
        if pos + step > s.len() + 1 {
            s.len() + 1int
        } else {
            value_end(s, pos + step, depth)
        }
    } else if s[pos] == '(' || s[pos] == '[' || s[pos] == '{' {
        value_end(s, pos + 1, depth + 1)
    } else if s[pos] == ')' || s[pos] == ']' || s[pos] == '}' {
        if depth == 0 {
            pos
        } else {
            value_end(s, pos + 1, depth - 1)
        }
    } else if (s[pos] == ',' || s[pos] == '\n') && depth == 0 {
        pos
    } else {
        value_end(s, pos + 1, depth)
    }
}

/// A string literal opening `s`, with the number of characters it takes.
pub open spec fn string_token(s: Seq<char>) -> Option<(Seq<char>, int)> {
    if s.len() > 0 && s[0] == '"' {
        match string_literal(s) {
            Some(v) => Some((v, literal_len(s))),
            None => None,
        }
    } else {
        None
    }
}

/// An attribute value at the start of `s`: its text, if it is one the
/// parser knows (string, number, boolean, known identifier), and the number
/// of characters of `s` that it takes.
pub open spec fn attr_value(s: Seq<char>, consts: Seq<(Seq<char>, Seq<char>)>) -> (Option<
    Seq<char>,
>, int) {
    let t = trim_start(s);
    let lead = s.len() - t.len();
    match string_token(t) {
        Some((v, n)) => (Some(v), lead + n),
        None => match number_token(t) {
            Some((v, n)) => (Some(v), lead + n),
            None => match bool_token(t) {
                Some((v, n)) => (Some(v), lead + n),
                None => {
                    let qe = qualified_end(t, 0);
                    match known_ident(t.subrange(0, qe), qe, t, consts) {
                        Some((v, n)) => (Some(v), lead + n),
                        None => (None, lead + value_end(t, 0, 0)),
                    }
                },
            },
        },
    }
}

/// The position after the next newline at or after `pos`, or the end.
pub open spec fn line_after(s: Seq<char>, pos: int) -> int {
    match find_char(s, '\n', pos) {
        Some(i) => i + 1,
        None => s.len() as int,
    }
}

// ===========================================================================
// Specification: attributes
// ===========================================================================

/// The attribute `name: value` as the parser builds it: the name is the
/// runtime name, the value is static.
pub open spec fn parsed_attr(name: Seq<char>, value: Seq<char>) -> AttrModel {
    AttrModel { name: ""@, name_owned: Some(name), value: AttrValueModel::Static(value) }
}

/// What one step of attribute collection finds: the end of the attribute
/// list, or the position where the scan goes on and the attribute read, if any.
pub enum AttrStepModel {
    Stop,
    Continue(int, Option<AttrModel>),
}

/// One step of attribute collection at `pos` of the block `b`.
pub open spec fn attr_step(b: Seq<char>, pos: int, consts: Seq<(Seq<char>, Seq<char>)>) -> AttrStepModel {
    let name_end = ident_end(b, pos);
    if name_end == pos {
        AttrStepModel::Continue(pos + 1, None)
    } else {
        let key_pos = skip_blanks(b, name_end);
        if key_pos < b.len() && b[key_pos] == '{' {
            AttrStepModel::Stop
        } else if key_pos >= b.len() || b[key_pos] != ':' {
            AttrStepModel::Continue(line_after(b, key_pos), None)
        } else {
            let value_pos = skip_blanks(b, key_pos + 1);
            if value_pos >= b.len() {
                AttrStepModel::Stop
            } else {
                let v = attr_value(b.subrange(value_pos, b.len() as int), consts);
                AttrStepModel::Continue(
                    value_pos + v.1,
                    match v.0 {
                        Some(t) => Some(parsed_attr(b.subrange(pos, name_end), t)),
                        None => None,
                    },
                )
            }
        }
    }
}

/// The attributes of the block `b` from `pos` on: `name: value` pairs up
/// to the first nested element. (The scan always moves forward; the test
/// `pos < np` only makes that visible to the definition.)
pub open spec fn attrs_from(b: Seq<char>, pos: int, consts: Seq<(Seq<char>, Seq<char>)>) -> Seq<
    AttrModel,
>
    decreases b.len() - pos,
{
    let p = skip_separators(b, pos);
    if pos < 0 || p >= b.len() {
        Seq::empty()
    } else {
        match attr_step(b, p, consts) {
            AttrStepModel::Stop => Seq::empty(),
            AttrStepModel::Continue(np, a) => opt_cons(
                a,
                if pos < np < b.len() {
                    attrs_from(b, np, consts)
                } else {
                    Seq::empty()
                },
            ),
        }
    }
}

// ===========================================================================
// Specification: children and elements
// ===========================================================================

/// Where the scan goes on after an `else { .. }` block that follows `pos`,
/// or `pos` when none follows.
pub open spec fn else_end(s: Seq<char>, pos: int) -> int {
    let rest = trim_start(s.subrange(pos, s.len() as int));
    if !starts_with(rest, "else"@) {
        pos
    } else {
        let else_start = pos + (s.len() - pos - rest.len()) + 4;
        let rest2 = trim_start(s.subrange(else_start, s.len() as int));
        let brace2 = else_start + (s.len() - else_start - rest2.len());
        match braced_block(s.subrange(brace2, s.len() as int)) {
            Some(b) => brace2 + b.len() + 2,
            None => pos,
        }
    }
}

/// Where the scan goes on after the dynamic block (`{ .. }` or
/// `if .. { .. } else { .. }`) that starts at `pos`.
pub open spec fn dynamic_end(s: Seq<char>, pos: int) -> int {
    let rest = s.subrange(pos, s.len() as int);
    let brace_abs = pos + match find_char(rest, '{', 0) {
        Some(q) => q,
        None => 0,
    };
    let after = brace_abs + match braced_block(s.subrange(brace_abs, s.len() as int)) {
        Some(b) => b.len() + 2,
        None => 1,
    };
    else_end(s, after)
}

/// Whether a dynamic block (`if ..` or `{ .. }`) starts at `p`.
pub open spec fn opens_dynamic(s: Seq<char>, p: int) -> bool {
    starts_with(s.subrange(p, s.len() as int), "if "@) || s[p] == '{'
}

/// Where the scan goes on after the element whose `{` is at `ap` (when
/// there is none, the scan goes on from `ap`).
pub open spec fn named_next(s: Seq<char>, ap: int) -> int {
    if ap >= s.len() || s[ap] != '{' {
        ap
    } else {
        match braced_block(s.subrange(ap, s.len() as int)) {
            Some(b) => ap + b.len() + 2,
            None => ap + 1,
        }
    }
}

/// Where the scan goes on after the child that starts at `p`.
pub open spec fn child_next(s: Seq<char>, p: int) -> int {
    if opens_dynamic(s, p) {
        dynamic_end(s, p)
    } else {
        let e = ident_end(s, p);
        if e == p {
            p + 1
        } else {
            let ap = skip_blanks(s, e);
            if ap < s.len() && s[ap] == ':' {
                line_after(s, ap)
            } else {
                named_next(s, ap)
            }
        }
    }
}

/// Whether a child is the `anchor` pseudo-element.
pub open spec fn is_anchor_child(c: WidgetChildModel) -> bool {
    c matches WidgetChildModel::Widget(w) && w.tag_owned == Some("anchor"@)
}

/// `a` with the field that the attribute `attr` names set to its value.
pub open spec fn anchor_set(a: AnchorDefModel, attr: AttrModel) -> AnchorDefModel {
    anchor_field_set(a, effective_name_of(attr), value_text(attr.value))
}

/// The anchor that an `anchor` element with these attributes describes:
/// the default anchor, with each attribute applied in turn.
pub open spec fn anchor_from(attrs: Seq<AttrModel>) -> AnchorDefModel
    decreases attrs.len(),
{
    if attrs.len() == 0 {
        default_anchor()
    } else {
        anchor_set(anchor_from(attrs.drop_last()), attrs.last())
    }
}

/// The anchors that the `anchor` elements among `kids` describe, in order.
pub open spec fn anchors_of(kids: Seq<WidgetChildModel>) -> Seq<AnchorDefModel>
    decreases kids.len(),
{
    if kids.len() == 0 {
        Seq::empty()
    } else {
        let rest = anchors_of(kids.drop_last());
        match kids.last() {
            WidgetChildModel::Widget(w) => if w.tag_owned == Some("anchor"@) {
                rest.push(anchor_from(w.attrs))
            } else {
                rest
            },
            _ => rest,
        }
    }
}

/// The children among `kids` that are not `anchor` elements, in order.
pub open spec fn plain_children(kids: Seq<WidgetChildModel>) -> Seq<WidgetChildModel>
    decreases kids.len(),
{
    if kids.len() == 0 {
        Seq::empty()
    } else if is_anchor_child(kids.last()) {
        plain_children(kids.drop_last())
    } else {
        plain_children(kids.drop_last()).push(kids.last())
    }
}

/// The value of the first attribute named `name`, from index `i` on, when
/// that value is static.
pub open spec fn name_from_attrs(attrs: Seq<AttrModel>, i: int) -> Option<Seq<char>>
    decreases attrs.len() - i,
{
    if i < 0 || i >= attrs.len() {
        None
    } else if effective_name_of(attrs[i]) == "name"@ {
        match attrs[i].value {
            AttrValueModel::Static(v) => Some(v),
            AttrValueModel::Dynamic(_) => None,
        }
    } else {
        name_from_attrs(attrs, i + 1)
    }
}

/// The `anchor` pseudo-element with the block `b`: its attributes only.
pub open spec fn anchor_element(b: Seq<char>, consts: Seq<(Seq<char>, Seq<char>)>) -> WidgetChildModel {
    WidgetChildModel::Widget(
        WidgetDefModel {
            tag: ""@,
            tag_owned: Some("anchor"@),
            name: None,
            attrs: attrs_from(b, 0, consts),
            anchors: Seq::empty(),
            children: Seq::empty(),
        },
    )
}

/// The element `tag { b }` (`b` trimmed): its attributes, its name (the
/// static value of its `name` attribute), the anchors of its `anchor`
/// children and its other children.
pub open spec fn element(tag: Seq<char>, b: Seq<char>, consts: Seq<(Seq<char>, Seq<char>)>) -> WidgetChildModel
    decreases b.len(), 4int, 0int,
{
    if tag == "anchor"@ {
        anchor_element(b, consts)
    } else {
        let attrs = attrs_from(b, 0, consts);
        let kids = children_from(b, 0, consts);
        WidgetChildModel::Widget(
            WidgetDefModel {
                tag: ""@,
                tag_owned: Some(tag),
                name: name_from_attrs(attrs, 0),
                attrs: attrs,
                anchors: anchors_of(kids),
                children: plain_children(kids),
            },
        )
    }
}

/// The element whose `{` is at `ap`, with tag `tag`, if there is one.
/// (Its block is always shorter than `s`; the test only makes that visible
/// to the definition.)
pub open spec fn named_value(
    s: Seq<char>,
    ap: int,
    tag: Seq<char>,
    consts: Seq<(Seq<char>, Seq<char>)>,
) -> Option<WidgetChildModel>
    decreases s.len(), 1int, 0int,
{
    if ap < 0 || ap >= s.len() || s[ap] != '{' {
        None
    } else {
        match braced_block(s.subrange(ap, s.len() as int)) {
            None => None,
            Some(b) => {
                let tb = trim(b);
                if tb.len() < s.len() {
                    Some(element(tag, tb, consts))
                } else {
                    None
                }
            },
        }
    }
}

/// The child that starts at `p`, if the text there is one: a dynamic
/// block, or an element `tag { .. }`. An attribute line gives none.
pub open spec fn child_value(s: Seq<char>, p: int, consts: Seq<(Seq<char>, Seq<char>)>) -> Option<
    WidgetChildModel,
>
    decreases s.len(), 2int, 0int,
{
    if p < 0 || p >= s.len() {
        None
    } else if opens_dynamic(s, p) {
        Some(WidgetChildModel::Dynamic)
    } else {
        let e = ident_end(s, p);
        if e == p {
            None
        } else {
            let ap = skip_blanks(s, e);
            if ap < s.len() && s[ap] == ':' {
                None
            } else {
                named_value(s, ap, s.subrange(p, e), consts)
            }
        }
    }
}

/// The children of the block `s` from `pos` on. (The scan always moves
/// forward; the test `pos < np` only makes that visible to the definition.)
pub open spec fn children_from(s: Seq<char>, pos: int, consts: Seq<(Seq<char>, Seq<char>)>) -> Seq<
    WidgetChildModel,
>
    decreases s.len(), 3int, s.len() - pos,
{
    let p = skip_separators(s, pos);
    if pos < 0 || p >= s.len() {
        Seq::empty()
    } else {
        let np = child_next(s, p);
        opt_cons(
            child_value(s, p, consts),
            if pos < np < s.len() {
                children_from(s, np, consts)
            } else {
                Seq::empty()
            },
        )
    }
}

// ===========================================================================
// Specification: constants and blocks
// ===========================================================================

/// The end of a constant's name that starts at `p`: the first character
/// that is neither alphanumeric nor `_`.
pub open spec fn const_name_end(s: Seq<char>, p: int) -> int
    decreases s.len() - p,
{
    if p < 0 || p >= s.len() || !continues_ident(s[p]) {
        p
    } else {
        const_name_end(s, p + 1)
    }
}

/// The value of a constant whose right-hand side is `rhs`: a string
/// literal, or a call whose first argument is one.
pub open spec fn const_value(rhs: Seq<char>) -> Option<Seq<char>> {
    if rhs.len() > 0 && rhs[0] == '"' {
        string_literal(rhs)
    } else {
        match find_char(rhs, '(', 0) {
            None => None,
            Some(pp) => {
                let ap = trim_start(rhs.subrange(pp + 1, rhs.len() as int));
                if ap.len() > 0 && ap[0] == '"' {
                    string_literal(ap)
                } else {
                    None
                }
            },
        }
    }
}

/// The string constants declared in `s` from position `q` on, in order:
/// each `const NAME ... = value` whose value `const_value` reads.
pub open spec fn consts_from(s: Seq<char>, q: int) -> Seq<(Seq<char>, Seq<char>)>
    decreases s.len() - q,
{
    match find_seq(s, "const "@, q) {
        None => Seq::empty(),
        Some(i) => {
            let r = i + 6;
            let rest = if q < r <= s.len() {
                consts_from(s, r)
            } else {
                Seq::empty()
            };
            let ne = const_name_end(s, r);
            if ne == r {
                rest
            } else {
                match find_char(s, '=', r) {
                    None => rest,
                    Some(e) => match const_value(trim_start(s.subrange(e + 1, s.len() as int))) {
                        Some(v) => seq![(s.subrange(r, ne), v)] + rest,
                        None => rest,
                    },
                }
            }
        },
    }
}

/// The line (from 1) of position `abs` of `s`.
pub open spec fn line_of(s: Seq<char>, abs: int) -> int {
    count_char(s.subrange(0, abs), '\n') + 1int
}

/// The column (from 1, counted in bytes of UTF-8) of position `abs` of `s`.
pub open spec fn column_of(s: Seq<char>, abs: int) -> int {
    let ls = match rfind_char(s.subrange(0, abs), '\n') {
        Some(p) => p + 1,
        None => 0,
    };
    utf8_len(s.subrange(ls, abs)) + 1int
}

/// The templates of the `rsx! { .. }` blocks of `s` from position `from`
/// on, keyed by `file` and the block's line and column.
pub open spec fn blocks_from(
    s: Seq<char>,
    from: int,
    file: Seq<char>,
    consts: Seq<(Seq<char>, Seq<char>)>,
) -> Seq<TemplateModel>
    decreases s.len() - from,
{
    match find_seq(s, "rsx!"@, from) {
        None => Seq::empty(),
        Some(abs) => {
            let after = abs + 4;
            let t = trim_start(s.subrange(after, s.len() as int));
            if !(t.len() > 0 && t[0] == '{') {
                if from < after <= s.len() {
                    blocks_from(s, after, file, consts)
                } else {
                    Seq::empty()
                }
            } else {
                let bp = s.len() - t.len();
                match braced_block(s.subrange(bp, s.len() as int)) {
                    None => if from < bp + 1 <= s.len() {
                        blocks_from(s, bp + 1, file, consts)
                    } else {
                        Seq::empty()
                    },
                    Some(b) => {
                        let next = bp + b.len() + 2;
                        seq![
                            TemplateModel {
                                file: file,
                                line: line_of(s, abs) as u32,
                                column: column_of(s, abs) as u32,
                                defs: children_from(trim(b), 0, consts),
                            },
                        ] + if from < next <= s.len() {
                            blocks_from(s, next, file, consts)
                        } else {
                            Seq::empty()
                        }
                    },
                }
            }
        },
    }
}

// ===========================================================================
// Lemmas on the lexical specifications
// ===========================================================================

pub proof fn lemma_skip_blanks_bounds(s: Seq<char>, p: int)
    requires
        0 <= p <= s.len(),
    ensures
        p <= skip_blanks(s, p) <= s.len(),
        skip_blanks(s, p) < s.len() ==> !is_ascii_blank(s[skip_blanks(s, p)]),
    decreases s.len() - p,
{
    if p < s.len() {
        lemma_skip_blanks_bounds(s, p + 1);
    }
}

pub proof fn lemma_skip_separators_bounds(s: Seq<char>, p: int)
    requires
        0 <= p <= s.len(),
    ensures
        p <= skip_separators(s, p) <= s.len(),
    decreases s.len() - p,
{
    if p < s.len() {
        lemma_skip_separators_bounds(s, p + 1);
    }
}

pub proof fn lemma_ident_end_bounds(s: Seq<char>, p: int)
    requires
        0 <= p <= s.len(),
    ensures
        p <= ident_end(s, p) <= s.len(),
    decreases s.len() - p,
{
    if p < s.len() {
        lemma_ident_end_bounds(s, p + 1);
    }
}

pub proof fn lemma_skip_unicode_space_bounds(s: Seq<char>, p: int)
    requires
        0 <= p <= s.len(),
    ensures
        p <= skip_unicode_space(s, p) <= s.len(),
    decreases s.len() - p,
{
    if p < s.len() {
        lemma_skip_unicode_space_bounds(s, p + 1);
    }
}

pub proof fn lemma_find_char_bounds(s: Seq<char>, c: char, p: int)
    requires
        0 <= p,
    ensures
        find_char(s, c, p) matches Some(i) ==> p <= i < s.len() && s[i] == c,
    decreases s.len() - p,
{
    if p < s.len() {
        lemma_find_char_bounds(s, c, p + 1);
    }
}

pub proof fn lemma_find_seq_bounds(s: Seq<char>, pat: Seq<char>, p: int)
    requires
        0 <= p,
    ensures
        find_seq(s, pat, p) matches Some(i) ==> p <= i && i + pat.len() <= s.len(),
    decreases s.len() + 1 - p,
{
    if p + pat.len() <= s.len() {
        lemma_find_seq_bounds(s, pat, p + 1);
    }
}

pub proof fn lemma_literal_scan_bounds(s: Seq<char>, pos: int)
    requires
        0 <= pos,
    ensures
        pos <= literal_scan(s, pos),
        pos <= s.len() ==> literal_scan(s, pos) <= s.len() + 1,
    decreases s.len() + 2 - pos,
{
    if pos < s.len() {
        lemma_literal_scan_bounds(s, pos + 2);
        lemma_literal_scan_bounds(s, pos + 1);
    }
}

pub proof fn lemma_number_end_bounds(s: Seq<char>, i: int)
    requires
        0 <= i <= s.len(),
    ensures
        i <= number_end(s, i) <= s.len(),
    decreases s.len() - i,
{
    if i < s.len() {
        lemma_number_end_bounds(s, i + 1);
    }
}

pub proof fn lemma_dots_trimmed_end_bounds(s: Seq<char>, e: int)
    requires
        0 <= e <= s.len(),
    ensures
        0 <= dots_trimmed_end(s, e) <= e,
    decreases e,
{
    if e > 0 {
        lemma_dots_trimmed_end_bounds(s, e - 1);
    }
}

pub proof fn lemma_qualified_end_bounds(s: Seq<char>, pos: int)
    requires
        0 <= pos <= s.len(),
    ensures
        pos <= qualified_end(s, pos) <= s.len(),
    decreases s.len() - pos,
{
    lemma_ident_end_bounds(s, pos);
    let e = ident_end(s, pos);
    if e > pos && e + 1 < s.len() && s[e] == ':' && s[e + 1] == ':' {
        lemma_qualified_end_bounds(s, e + 2);
    }
}

pub proof fn lemma_value_end_bounds(s: Seq<char>, pos: int, depth: int)
    requires
        0 <= pos,
    ensures
        pos <= value_end(s, pos, depth),
        pos <= s.len() + 1 ==> value_end(s, pos, depth) <= s.len() + 1,
    decreases s.len() + 2 - pos,
{
    if pos < s.len() {
        if s[pos] == '"' {
            let n = literal_len(s.subrange(pos, s.len() as int));
            let step = if n <= 0 {
                1
            } else {
                n
            };
            if pos + step <= s.len() + 1 {
                lemma_value_end_bounds(s, pos + step, depth);
            }
        } else {
            lemma_value_end_bounds(s, pos + 1, depth + 1);
            lemma_value_end_bounds(s, pos + 1, depth - 1);
            lemma_value_end_bounds(s, pos + 1, depth);
        }
    }
}

/// An attribute value takes at least nothing and at most one character
/// past the end of the text.
pub proof fn lemma_attr_value_bounds(s: Seq<char>, consts: Seq<(Seq<char>, Seq<char>)>)
    ensures
        0 <= attr_value(s, consts).1 <= s.len() + 1,
{
    lemma_skip_unicode_space_bounds(s, 0);
    let t = trim_start(s);
    let lead = s.len() - t.len();
    lemma_literal_scan_bounds(t, 1);
    lemma_number_end_bounds(t, 0);
    lemma_dots_trimmed_end_bounds(t, number_end(t, 0));
    lemma_qualified_end_bounds(t, 0);
    lemma_value_end_bounds(t, 0, 0);
    let qe = qualified_end(t, 0);
    let rest = t.subrange(qe, t.len() as int);
    lemma_skip_unicode_space_bounds(rest, 0);
    let u = trim_start(rest);
    if u.len() > 0 && u[0] == '(' {
        lemma_match_close_bounds(u, '(', ')', 0, 0);
    }
}

// ===========================================================================
// Lexical elements
// ===========================================================================

/// `Some(a + r)` for `Some(r)`, `None` for `None`.
pub open spec fn opt_prepend(a: Seq<char>, o: Option<Seq<char>>) -> Option<Seq<char>> {
    match o {
        Some(r) => Some(a + r),
        None => None,
    }
}

/// Appends what the escape sequence `\c` stands for.
fn push_escaped(out: &mut String, c: char)
    ensures
        final(out)@ == old(out)@ + escaped(c),
{
    if c == 'n' {
        push_char(out, '\n');
    } else if c == 't' {
        push_char(out, '\t');
    } else if c == '"' {
        push_char(out, '"');
    } else if c == '\\' {
        push_char(out, '\\');
    } else {
        push_char(out, '\\');
        push_char(out, c);
    }
    assert(final(out)@ =~= old(out)@ + escaped(c));
}

/// Extract the string content from a `"..."` literal at the start of `s`.
fn extract_string_literal(s: &[char]) -> (r: Option<String>)
    ensures
        opt_string_model(r) == string_literal(s@),
{
    if s.len() == 0 || s[0] != '"' {
        return None;
    }
    let mut result = String::new();
    let mut i: usize = 1;
    while i < s.len()
        invariant
            1 <= i <= s.len(),
            s@.len() > 0 && s@[0] == '"',
            opt_prepend(result@, literal_from(s@, i as int)) == string_literal(s@),
        decreases s.len() - i,
    {
        let c = s[i];
        if c == '\\' {
            if i + 1 >= s.len() {
                return None;
            }
            let ghost before = result@;
            push_escaped(&mut result, s[i + 1]);
            proof {
                match literal_from(s@, i + 2) {
                    Some(r) => {
                        assert(before + (escaped(s@[i + 1]) + r) =~= result@ + r);
                    },
                    None => {},
                }
            }
            i = i + 2;
        } else if c == '"' {
            assert(result@ + Seq::<char>::empty() =~= result@);
            return Some(result);
        } else {
            let ghost before = result@;
            push_char(&mut result, c);
            proof {
                match literal_from(s@, i + 1) {
                    Some(r) => {
                        assert(before + (seq![c] + r) =~= result@ + r);
                    },
                    None => {},
                }
            }
            i = i + 1;
        }
    }
    None
}

/// Number of characters that the string literal opening `s` takes.
fn scan_string_literal_len(s: &[char]) -> (r: usize)
    requires
        s@.len() < usize::MAX,
    ensures
        r == literal_len(s@),
{
    if s.len() == 0 || s[0] != '"' {
        return 0;
    }
    let mut pos: usize = 1;
    while pos < s.len()
        invariant
            1 <= pos <= s.len() + 1,
            s@.len() < usize::MAX,
            s@.len() > 0 && s@[0] == '"',
            literal_scan(s@, pos as int) == literal_scan(s@, 1),
        decreases s.len() + 1 - pos,
    {
        if s[pos] == '\\' {
            pos = pos + 2;
        } else if s[pos] == '"' {
            return pos + 1;
        } else {
            pos = pos + 1;
        }
    }
    pos
}

fn try_parse_string_literal(s: &[char]) -> (r: Option<(String, usize)>)
    requires
        s@.len() < usize::MAX,
    ensures
        token_model(r) == string_token(s@),
{
    if s.len() == 0 || s[0] != '"' {
        return None;
    }
    let val = match extract_string_literal(s) {
        Some(v) => v,
        None => {
            return None;
        },
    };
    let n = scan_string_literal_len(s);
    Some((val, n))
}

fn try_parse_number(s: &[char]) -> (r: Option<(String, usize)>)
    ensures
        token_model(r) == number_token(s@),
{
    let mut end: usize = 0;
    while end < s.len() && (digit(s[end]) || s[end] == '.' || s[end] == '-')
        invariant
            end <= s.len(),
            number_end(s@, end as int) == number_end(s@, 0),
        decreases s.len() - end,
    {
        end = end + 1;
    }
    if end == 0 {
        return None;
    }
    let first = s[0];
    if !digit(first) && !(first == '-' && end > 1 && digit(s[1])) {
        return None;
    }
    let mut e = end;
    while e > 0 && s[e - 1] == '.'
        invariant
            e <= end <= s.len(),
            dots_trimmed_end(s@, e as int) == dots_trimmed_end(s@, end as int),
        decreases e,
    {
        e = e - 1;
    }
    let num = string_of(vstd::slice::slice_subrange(s, 0, e));
    Some((num, end))
}

fn try_parse_bool(s: &[char]) -> (r: Option<(String, usize)>)
    ensures
        token_model(r) == bool_token(s@),
{
    proof {
        reveal_strlit("true");
        reveal_strlit("false");
    }
    if starts_with_str(s, "true") && s.len() > 4 && !(alphanumeric(s[4]) || s[4] == '_') {
        return Some((String::from_str("true"), 4));
    }
    if starts_with_str(s, "false") && s.len() > 5 && !(alphanumeric(s[5]) || s[5] == '_') {
        return Some((String::from_str("false"), 5));
    }
    None
}

/// The end of the run of identifier characters at `p` is not followed by one.
pub proof fn lemma_ident_end_stops(s: Seq<char>, p: int)
    requires
        0 <= p <= s.len(),
    ensures
        ident_end(s, p) < s.len() ==> !crate::text::is_ident_char(s[ident_end(s, p)]),
        ident_end(s, ident_end(s, p)) == ident_end(s, p),
    decreases s.len() - p,
{
    if p < s.len() && crate::text::is_ident_char(s[p]) {
        lemma_ident_end_stops(s, p + 1);
    }
}

/// Reads a path of identifiers joined by `::`; returns it and its length.
fn read_qualified_ident(s: &[char]) -> (r: (&[char], usize))
    ensures
        r.1 == qualified_end(s@, 0),
        r.1 <= s.len(),
        r.0@ == s@.subrange(0, r.1 as int),
{
    let mut pos: usize = 0;
    loop
        invariant
            pos <= s.len(),
            qualified_end(s@, pos as int) == qualified_end(s@, 0),
        ensures
            pos <= s.len(),
            pos == qualified_end(s@, 0),
        decreases s.len() - pos,
    {
        let seg_end = ident_end_exec(s, pos);
        if seg_end == pos {
            break;
        }
        if s.len() > 1 && seg_end < s.len() - 1 && s[seg_end] == ':' && s[seg_end + 1] == ':' {
            pos = seg_end + 2;
        } else {
            proof {
                lemma_ident_end_stops(s@, pos as int);
            }
            pos = seg_end;
            break;
        }
    }
    (vstd::slice::slice_subrange(s, 0, pos), pos)
}

/// The content between the parenthesis that opens `s` (after white space)
/// and its matching parenthesis.
fn extract_paren_content(s: &[char]) -> (r: Option<&[char]>)
    ensures
        match r {
            Some(c) => paren_content(s@) == Some(c@),
            None => paren_content(s@) is None,
        },
{
    let t = trim_start_exec(s);
    if t.len() == 0 || t[0] != '(' {
        return None;
    }
    match match_close_exec(t, '(', ')', 0) {
        Some(i) => {
            proof {
                lemma_match_close_bounds(t@, '(', ')', 0, 0);
            }
            Some(vstd::slice::slice_subrange(t, 1, i))
        },
        None => None,
    }
}

fn map_anchor_point(v: &[char]) -> (r: String)
    ensures
        r@ == anchor_point_word(v@),
{
    if chars_eq_str(v, "TopLeft") {
        String::from_str("TOPLEFT")
    } else if chars_eq_str(v, "Top") {
        String::from_str("TOP")
    } else if chars_eq_str(v, "TopRight") {
        String::from_str("TOPRIGHT")
    } else if chars_eq_str(v, "Left") {
        String::from_str("LEFT")
    } else if chars_eq_str(v, "Center") {
        String::from_str("CENTER")
    } else if chars_eq_str(v, "Right") {
        String::from_str("RIGHT")
    } else if chars_eq_str(v, "BottomLeft") {
        String::from_str("BOTTOMLEFT")
    } else if chars_eq_str(v, "Bottom") {
        String::from_str("BOTTOM")
    } else if chars_eq_str(v, "BottomRight") {
        String::from_str("BOTTOMRIGHT")
    } else {
        string_of(v)
    }
}

fn map_justify_h(v: &[char]) -> (r: String)
    ensures
        r@ == justify_word(v@),
{
    if chars_eq_str(v, "Left") {
        String::from_str("LEFT")
    } else if chars_eq_str(v, "Right") {
        String::from_str("RIGHT")
    } else if chars_eq_str(v, "Center") {
        String::from_str("CENTER")
    } else {
        string_of(v)
    }
}

/// `s` without the prefix `pat`, when it starts with it.
fn strip_prefix<'a>(s: &'a [char], pat: &str) -> (r: Option<&'a [char]>)
    ensures
        match r {
            Some(t) => starts_with(s@, pat@) && t@ == after_prefix(s@, pat@),
            None => !starts_with(s@, pat@),
        },
{
    let p = chars_of(pat);
    if p.len() <= s.len() && chars_eq(vstd::slice::slice_subrange(s, 0, p.len()), p.as_slice()) {
        Some(vstd::slice::slice_subrange(s, p.len(), s.len()))
    } else {
        None
    }
}

/// The value of the first constant named `k`.
fn lookup_const(consts: &[(String, String)], k: &[char]) -> (r: Option<String>)
    ensures
        opt_string_model(r) == const_lookup(consts_model(consts@), k@, 0),
{
    let ghost cm = consts_model(consts@);
    let mut i: usize = 0;
    while i < consts.len()
        invariant
            i <= consts.len(),
            cm == consts_model(consts@),
            const_lookup(cm, k@, i as int) == const_lookup(cm, k@, 0),
        decreases consts.len() - i,
    {
        if chars_eq_str(k, consts[i].0.as_str()) {
            return Some(consts[i].1.clone());
        }
        i = i + 1;
    }
    None
}

fn try_parse_known_ident(
    ident: &[char],
    ident_len: usize,
    s: &[char],
    consts: &[(String, String)],
) -> (r: Option<(String, usize)>)
    requires
        ident_len <= s.len(),
    ensures
        token_model(r) == known_ident(ident@, ident_len as int, s@, consts_model(consts@)),
{
    if chars_eq_str(ident, "FontColor::new") {
        let rest = vstd::slice::slice_subrange(s, ident_len, s.len());
        let content = match extract_paren_content(rest) {
            Some(c) => c,
            None => {
                return None;
            },
        };
        proof {
            let t = trim_start(rest@);
            crate::hotreload::parser::lemma_skip_unicode_space_bounds(rest@, 0);
            lemma_match_close_bounds(t, '(', ')', 0, 0);
        }
        let paren_total = 1 + content.len() + 1;
        return Some((string_of(content), ident_len + paren_total));
    }
    if let Some(v) = strip_prefix(ident, "FrameStrata::") {
        return Some((string_of(v), ident_len));
    }
    if let Some(v) = strip_prefix(ident, "DrawLayer::") {
        return Some((string_of(v), ident_len));
    }
    if let Some(v) = strip_prefix(ident, "GameFont::") {
        return Some((string_of(v), ident_len));
    }
    if let Some(v) = strip_prefix(ident, "AnchorPoint::") {
        return Some((map_anchor_point(v), ident_len));
    }
    if let Some(v) = strip_prefix(ident, "JustifyH::") {
        return Some((map_justify_h(v), ident_len));
    }
    let sep = chars_of("::");
    proof {
        reveal_strlit("::");
    }
    if find_seq_exec(ident, sep.as_slice(), 0).is_none() && ident.len() > 0 {
        if let Some(val) = lookup_const(consts, ident) {
            return Some((val, ident_len));
        }
    }
    None
}

/// Length of an attribute value that is not a literal: up to the `,`,
/// newline or unmatched closing bracket that ends it.
fn skip_value(s: &[char]) -> (r: usize)
    requires
        s@.len() < usize::MAX,
    ensures
        r == value_end(s@, 0, 0),
{
    let mut depth: usize = 0;
    let mut pos: usize = 0;
    while pos < s.len()
        invariant
            pos <= s.len() + 1,
            depth <= pos,
            s@.len() < usize::MAX,
            value_end(s@, pos as int, depth as int) == value_end(s@, 0, 0),
        decreases s.len() + 1 - pos,
    {
        let c = s[pos];
        if c == '"' {
            let tail = vstd::slice::slice_subrange(s, pos, s.len());
            let n = scan_string_literal_len(tail);
            proof {
                lemma_literal_scan_bounds(tail@, 1);
            }
            pos = pos + if n == 0 {
                1
            } else {
                n
            };
        } else if c == '(' || c == '[' || c == '{' {
            depth = depth + 1;
            pos = pos + 1;
        } else if c == ')' || c == ']' || c == '}' {
            if depth == 0 {
                return pos;
            }
            depth = depth - 1;
            pos = pos + 1;
        } else if (c == ',' || c == '\n') && depth == 0 {
            return pos;
        } else {
            pos = pos + 1;
        }
    }
    pos
}

/// Parses the attribute value at the start of `s`: its text, if it is one
/// the parser knows, and the number of characters it takes.
fn parse_attr_value(s: &[char], consts: &[(String, String)]) -> (r: (Option<String>, usize))
    requires
        s@.len() < usize::MAX,
    ensures
        opt_string_model(r.0) == attr_value(s@, consts_model(consts@)).0,
        r.1 as int == attr_value(s@, consts_model(consts@)).1,
{
    proof {
        lemma_attr_value_bounds(s@, consts_model(consts@));
        lemma_skip_unicode_space_bounds(s@, 0);
    }
    let trimmed = trim_start_exec(s);
    let leading = s.len() - trimmed.len();
    if let Some((val, n)) = try_parse_string_literal(trimmed) {
        return (Some(val), leading + n);
    }
    if let Some((val, n)) = try_parse_number(trimmed) {
        return (Some(val), leading + n);
    }
    if let Some((val, n)) = try_parse_bool(trimmed) {
        return (Some(val), leading + n);
    }
    let (ident, ident_len) = read_qualified_ident(trimmed);
    if let Some((val, n)) = try_parse_known_ident(ident, ident_len, trimmed, consts) {
        return (Some(val), leading + n);
    }
    (None, leading + skip_value(trimmed))
}

// ===========================================================================
// Attributes
// ===========================================================================

fn is_ws_or_comma(c: char) -> (r: bool)
    ensures
        r == is_blank_or_comma(c),
{
    c == ' ' || c == '\n' || c == '\r' || c == '\t' || c == ','
}

fn skip_whitespace(input: &[char], pos: usize) -> (r: usize)
    requires
        pos <= input.len(),
    ensures
        r == skip_blanks(input@, pos as int),
        pos <= r <= input.len(),
{
    let mut p = pos;
    while p < input.len() && (input[p] == ' ' || input[p] == '\n' || input[p] == '\r' || input[p]
        == '\t')
        invariant
            pos <= p <= input.len(),
            skip_blanks(input@, p as int) == skip_blanks(input@, pos as int),
        decreases input.len() - p,
    {
        p = p + 1;
    }
    p
}

fn read_ident(input: &[char], pos: usize) -> (r: (usize, &[char]))
    requires
        pos <= input.len(),
    ensures
        r.0 == ident_end(input@, pos as int),
        pos <= r.0 <= input.len(),
        r.1@ == input@.subrange(pos as int, r.0 as int),
{
    let p = ident_end_exec(input, pos);
    (p, vstd::slice::slice_subrange(input, pos, p))
}

/// Skips white space and commas (between children, and between attributes).
fn skip_child_delimiters(input: &[char], pos: usize) -> (r: usize)
    requires
        pos <= input.len(),
    ensures
        r == skip_separators(input@, pos as int),
        pos <= r <= input.len(),
{
    let mut p = pos;
    while p < input.len() && is_ws_or_comma(input[p])
        invariant
            pos <= p <= input.len(),
            skip_separators(input@, p as int) == skip_separators(input@, pos as int),
        decreases input.len() - p,
    {
        p = p + 1;
    }
    p
}

fn skip_attr_value_line(input: &[char], pos: usize) -> (r: usize)
    requires
        pos <= input.len(),
    ensures
        r == line_after(input@, pos as int),
        r <= input.len(),
{
    proof {
        lemma_find_char_bounds(input@, '\n', pos as int);
    }
    match find_char_exec(input, '\n', pos) {
        Some(nl) => nl + 1,
        None => input.len(),
    }
}

fn build_attr(name: &[char], value: String) -> (r: Attr)
    ensures
        r@ == parsed_attr(name@, value@),
{
    let mut attr = Attr::new_static("", value);
    attr.name_owned = Some(string_of(name));
    attr
}

enum AttrStep {
    Stop,
    Continue { next_pos: usize, attr: Option<Attr> },
}

spec fn step_model(st: AttrStep) -> AttrStepModel {
    match st {
        AttrStep::Stop => AttrStepModel::Stop,
        AttrStep::Continue { next_pos, attr } => AttrStepModel::Continue(
            next_pos as int,
            match attr {
                Some(a) => Some(a@),
                None => None,
            },
        ),
    }
}

/// A step of attribute collection moves forward.
proof fn lemma_attr_step_advances(b: Seq<char>, pos: int, consts: Seq<(Seq<char>, Seq<char>)>)
    requires
        0 <= pos < b.len(),
    ensures
        attr_step(b, pos, consts) matches AttrStepModel::Continue(np, _) ==> pos < np <= b.len()
            + 1,
{
    lemma_ident_end_bounds(b, pos);
    let name_end = ident_end(b, pos);
    if name_end != pos {
        lemma_skip_blanks_bounds(b, name_end);
        let key_pos = skip_blanks(b, name_end);
        lemma_find_char_bounds(b, '\n', key_pos);
        if key_pos < b.len() && b[key_pos] == ':' {
            lemma_skip_blanks_bounds(b, key_pos + 1);
            let value_pos = skip_blanks(b, key_pos + 1);
            lemma_attr_value_bounds(b.subrange(value_pos, b.len() as int), consts);
        }
    }
}

fn collect_attr_step(block: &[char], pos: usize, consts: &[(String, String)]) -> (r: AttrStep)
    requires
        pos < block.len(),
        block@.len() < usize::MAX,
    ensures
        step_model(r) == attr_step(block@, pos as int, consts_model(consts@)),
{
    let (name_end, name) = read_ident(block, pos);
    if name_end == pos {
        return AttrStep::Continue { next_pos: pos + 1, attr: None };
    }
    let key_pos = skip_whitespace(block, name_end);
    if key_pos < block.len() && block[key_pos] == '{' {
        return AttrStep::Stop;
    }
    if key_pos >= block.len() || block[key_pos] != ':' {
        return AttrStep::Continue { next_pos: skip_attr_value_line(block, key_pos), attr: None };
    }
    let value_pos = skip_whitespace(block, key_pos + 1);
    if value_pos >= block.len() {
        return AttrStep::Stop;
    }
    let rest = vstd::slice::slice_subrange(block, value_pos, block.len());
    proof {
        lemma_attr_value_bounds(rest@, consts_model(consts@));
    }
    let (value_opt, consumed) = parse_attr_value(rest, consts);
    let attr = match value_opt {
        Some(value) => Some(build_attr(name, value)),
        None => None,
    };
    AttrStep::Continue { next_pos: value_pos + consumed, attr }
}

/// Collect all `name: value,` attribute pairs from a block.
fn collect_attrs(block: &[char], consts: &[(String, String)]) -> (r: Vec<Attr>)
    requires
        block@.len() < usize::MAX,
    ensures
        attrs_model(r@) == attrs_from(block@, 0, consts_model(consts@)),
{
    let ghost b = block@;
    let ghost cm = consts_model(consts@);
    let mut attrs: Vec<Attr> = Vec::new();
    let mut pos: usize = 0;
    assert(attrs_model(attrs@) + attrs_from(b, 0, cm) =~= attrs_from(b, 0, cm));
    while pos < block.len()
        invariant
            pos <= block.len() + 1,
            b == block@,
            block@.len() < usize::MAX,
            cm == consts_model(consts@),
            attrs_model(attrs@) + attrs_from(b, pos as int, cm) == attrs_from(b, 0, cm),
        ensures
            attrs_model(attrs@) == attrs_from(b, 0, cm),
        decreases block.len() + 1 - pos,
    {
        let p = skip_child_delimiters(block, pos);
        if p >= block.len() {
            assert(attrs_model(attrs@) + Seq::<AttrModel>::empty() =~= attrs_model(attrs@));
            break;
        }
        proof {
            lemma_attr_step_advances(b, p as int, cm);
        }
        match collect_attr_step(block, p, consts) {
            AttrStep::Stop => {
                assert(attrs_model(attrs@) + Seq::<AttrModel>::empty() =~= attrs_model(attrs@));
                break;
            },
            AttrStep::Continue { next_pos, attr } => {
                let ghost before = attrs_model(attrs@);
                let ghost tail = attrs_from(b, next_pos as int, cm);
                proof {
                    if next_pos >= block.len() {
                        assert(tail =~= Seq::<AttrModel>::empty());
                    }
                }
                match attr {
                    Some(a) => {
                        attrs.push(a);
                        proof {
                            assert(attrs_model(attrs@) =~= before.push(a@));
                            assert(before + (seq![a@] + tail) =~= before.push(a@) + tail);
                        }
                    },
                    None => {},
                }
                pos = next_pos;
            },
        }
    }
    attrs
}

// ===========================================================================
// Children and elements
// ===========================================================================

pub open spec fn opt_child_model(c: Option<WidgetChild>) -> Option<WidgetChildModel> {
    match c {
        Some(w) => Some(child_model(w)),
        None => None,
    }
}

/// Extract content between matched braces (excluding the braces themselves).
fn extract_braced_block(s: &[char]) -> (r: Option<&[char]>)
    ensures
        match r {
            Some(b) => braced_block(s@) == Some(b@) && b@.len() + 2 <= s@.len(),
            None => braced_block(s@) is None,
        },
{
    if s.len() == 0 || s[0] != '{' {
        return None;
    }
    match match_close_exec(s, '{', '}', 0) {
        Some(i) => {
            proof {
                lemma_match_close_bounds(s@, '{', '}', 0, 0);
            }
            Some(vstd::slice::slice_subrange(s, 1, i))
        },
        None => None,
    }
}

/// `s` from its first `{` on, or all of `s` when it holds none.
fn skip_to_brace(s: &[char]) -> (r: &[char])
    ensures
        r@ == match find_char(s@, '{', 0) {
            Some(q) => s@.subrange(q, s@.len() as int),
            None => s@,
        },
        r@.len() <= s@.len(),
{
    proof {
        lemma_find_char_bounds(s@, '{', 0);
    }
    match find_char_exec(s, '{', 0) {
        Some(p) => vstd::slice::slice_subrange(s, p, s.len()),
        None => s,
    }
}

/// The trimmed text is no longer than the text.
proof fn lemma_trim_len(s: Seq<char>)
    ensures
        trim(s).len() <= s.len(),
        trim_start(s).len() <= s.len(),
{
    lemma_skip_unicode_space_bounds(s, 0);
    lemma_trailing_space_start_bounds(s, s.len() as int);
}

proof fn lemma_trailing_space_start_bounds(s: Seq<char>, e: int)
    requires
        0 <= e <= s.len(),
    ensures
        0 <= crate::text::trailing_space_start(s, e) <= e,
    decreases e,
{
    if e > 0 {
        lemma_trailing_space_start_bounds(s, e - 1);
    }
}

fn skip_else_block(input: &[char], pos: usize) -> (r: usize)
    requires
        pos <= input.len(),
    ensures
        r == else_end(input@, pos as int),
        pos <= r <= input.len(),
{
    let rest = trim_start_exec(vstd::slice::slice_subrange(input, pos, input.len()));
    proof {
        lemma_trim_len(input@.subrange(pos as int, input@.len() as int));
        reveal_strlit("else");
    }
    if !starts_with_str(rest, "else") {
        return pos;
    }
    let else_start = pos + (input.len() - pos - rest.len()) + 4;
    let rest2 = trim_start_exec(vstd::slice::slice_subrange(input, else_start, input.len()));
    proof {
        lemma_trim_len(input@.subrange(else_start as int, input@.len() as int));
    }
    let brace2 = else_start + (input.len() - else_start - rest2.len());
    match extract_braced_block(vstd::slice::slice_subrange(input, brace2, input.len())) {
        Some(b) => brace2 + b.len() + 2,
        None => pos,
    }
}

fn parse_dynamic_block(input: &[char], pos: usize) -> (r: (usize, WidgetChild))
    requires
        pos < input.len(),
    ensures
        r.0 == dynamic_end(input@, pos as int),
        pos < r.0 <= input.len(),
        child_model(r.1) == WidgetChildModel::Dynamic,
{
    let brace_start = skip_to_brace(vstd::slice::slice_subrange(input, pos, input.len()));
    proof {
        lemma_find_char_bounds(input@.subrange(pos as int, input@.len() as int), '{', 0);
    }
    let brace_abs = pos + (input.len() - pos - brace_start.len());
    let block = extract_braced_block(vstd::slice::slice_subrange(input, brace_abs, input.len()));
    let after = brace_abs + match block {
        Some(b) => b.len() + 2,
        None => 1,
    };
    let after = skip_else_block(input, after);
    (after, WidgetChild::Dynamic)
}

fn parse_named_child(input: &[char], pos: usize, ident: &[char], consts: &[(String, String)]) -> (r: (
    usize,
    Option<WidgetChild>,
))
    requires
        pos <= input.len(),
        input@.len() < usize::MAX,
    ensures
        r.0 == named_next(input@, pos as int),
        pos <= r.0 <= input.len(),
        opt_child_model(r.1) == named_value(input@, pos as int, ident@, consts_model(consts@)),
    decreases input@.len(), 3int,
{
    if pos >= input.len() || input[pos] != '{' {
        return (pos, None);
    }
    let block = match extract_braced_block(vstd::slice::slice_subrange(input, pos, input.len())) {
        Some(b) => b,
        None => {
            return (pos + 1, None);
        },
    };
    let consumed = block.len() + 2;
    let tb = trim_exec(block);
    proof {
        lemma_trim_len(block@);
    }
    let child = dispatch_element(ident, tb, consts);
    (pos + consumed, Some(child))
}

fn parse_child_at(input: &[char], pos: usize, consts: &[(String, String)]) -> (r: (
    usize,
    Option<WidgetChild>,
))
    requires
        pos < input.len(),
        input@.len() < usize::MAX,
    ensures
        r.0 == child_next(input@, pos as int),
        pos < r.0 <= input.len(),
        opt_child_model(r.1) == child_value(input@, pos as int, consts_model(consts@)),
    decreases input@.len(), 4int,
{
    if starts_with_str(vstd::slice::slice_subrange(input, pos, input.len()), "if ") || input[pos]
        == '{' {
        let (new_pos, child) = parse_dynamic_block(input, pos);
        return (new_pos, Some(child));
    }
    let (new_pos, ident) = read_ident(input, pos);
    if new_pos == pos {
        return (pos + 1, None);
    }
    let attr_pos = skip_whitespace(input, new_pos);
    if attr_pos < input.len() && input[attr_pos] == ':' {
        proof {
            lemma_find_char_bounds(input@, '\n', attr_pos as int);
        }
        return (skip_attr_value_line(input, attr_pos), None);
    }
    parse_named_child(input, attr_pos, ident, consts)
}

/// Parse children from RSX block content (recursive descent).
fn parse_children(input: &[char], consts: &[(String, String)]) -> (r: Vec<WidgetChild>)
    requires
        input@.len() < usize::MAX,
    ensures
        children_model(r@) == children_from(input@, 0, consts_model(consts@)),
    decreases input@.len(), 5int,
{
    let ghost s = input@;
    let ghost cm = consts_model(consts@);
    let mut children: Vec<WidgetChild> = Vec::new();
    let mut pos: usize = 0;
    assert(children_model(children@) + children_from(s, 0, cm) =~= children_from(s, 0, cm));
    while pos < input.len()
        invariant
            pos <= input.len(),
            s == input@,
            input@.len() < usize::MAX,
            cm == consts_model(consts@),
            children_model(children@) + children_from(s, pos as int, cm) == children_from(
                s,
                0,
                cm,
            ),
        ensures
            children_model(children@) == children_from(s, 0, cm),
        decreases input.len() - pos,
    {
        let p = skip_child_delimiters(input, pos);
        if p >= input.len() {
            assert(children_model(children@) + Seq::<WidgetChildModel>::empty() =~= children_model(
                children@,
            ));
            break;
        }
        let (new_pos, child) = parse_child_at(input, p, consts);
        let ghost before = children_model(children@);
        let ghost tail = children_from(s, new_pos as int, cm);
        proof {
            if new_pos >= input.len() {
                assert(tail =~= Seq::<WidgetChildModel>::empty());
            }
        }
        match child {
            Some(c) => {
                let ghost cmod = child_model(c);
                children.push(c);
                proof {
                    assert(children_model(children@) =~= before.push(cmod));
                    assert(before + (seq![cmod] + tail) =~= before.push(cmod) + tail);
                }
            },
            None => {},
        }
        pos = new_pos;
    }
    children
}

fn dispatch_element(tag: &[char], block: &[char], consts: &[(String, String)]) -> (r: WidgetChild)
    requires
        block@.len() < usize::MAX,
    ensures
        child_model(r) == element(tag@, block@, consts_model(consts@)),
    decreases block@.len(), 9int,
{
    if chars_eq_str(tag, "anchor") {
        parse_anchor_element(block, consts)
    } else {
        parse_element(tag, block, consts)
    }
}

fn parse_anchor_element(block: &[char], consts: &[(String, String)]) -> (r: WidgetChild)
    requires
        block@.len() < usize::MAX,
    ensures
        child_model(r) == anchor_element(block@, consts_model(consts@)),
{
    let attrs = collect_attrs(block, consts);
    let mut widget = WidgetDef::new("");
    widget.tag_owned = Some(String::from_str("anchor"));
    widget.attrs = attrs;
    assert(anchors_model(widget.anchors@) =~= Seq::<AnchorDefModel>::empty());
    assert(children_model(widget.children@) =~= Seq::<WidgetChildModel>::empty());
    WidgetChild::Widget(widget)
}

fn parse_element(tag: &[char], block: &[char], consts: &[(String, String)]) -> (r: WidgetChild)
    requires
        block@.len() < usize::MAX,
        tag@ != "anchor"@,
    ensures
        child_model(r) == element(tag@, block@, consts_model(consts@)),
    decreases block@.len(), 8int,
{
    let mut widget = WidgetDef::new("");
    widget.tag_owned = Some(string_of(tag));
    widget.attrs = collect_attrs(block, consts);
    let ghost am = attrs_model(widget.attrs@);
    let mut name: Option<String> = None;
    let mut i: usize = 0;
    while i < widget.attrs.len()
        invariant_except_break
            i <= widget.attrs.len(),
            am == attrs_model(widget.attrs@),
            name is None,
            name_from_attrs(am, i as int) == name_from_attrs(am, 0),
        ensures
            opt_string_model(name) == name_from_attrs(am, 0),
        decreases widget.attrs.len() - i,
    {
        let a = &widget.attrs[i];
        if str_eq(a.effective_name(), "name") {
            match &a.value {
                AttrValue::Static(v) => {
                    name = Some(v.clone());
                },
                AttrValue::Dynamic(_) => {},
            }
            break;
        }
        i = i + 1;
    }
    widget.name = name;
    let ghost a0 = anchors_model(widget.anchors@);
    let ghost c0 = children_model(widget.children@);
    assert(a0 =~= Seq::<AnchorDefModel>::empty());
    assert(c0 =~= Seq::<WidgetChildModel>::empty());
    attach_children_and_anchors(&mut widget, block, consts);
    proof {
        let kids = children_from(block@, 0, consts_model(consts@));
        assert(a0 + anchors_of(kids) =~= anchors_of(kids));
        assert(c0 + plain_children(kids) =~= plain_children(kids));
    }
    WidgetChild::Widget(widget)
}

fn attach_children_and_anchors(widget: &mut WidgetDef, block: &[char], consts: &[(String, String)])
    requires
        block@.len() < usize::MAX,
    ensures
        final(widget).tag == old(widget).tag,
        final(widget).tag_owned == old(widget).tag_owned,
        final(widget).name == old(widget).name,
        final(widget).attrs == old(widget).attrs,
        anchors_model(final(widget).anchors@) == anchors_model(old(widget).anchors@) + anchors_of(
            children_from(block@, 0, consts_model(consts@)),
        ),
        children_model(final(widget).children@) == children_model(old(widget).children@)
            + plain_children(children_from(block@, 0, consts_model(consts@))),
    decreases block@.len(), 7int,
{
    let mut kids = parse_children(block, consts);
    let ghost all = children_model(kids@);
    let ghost a0 = anchors_model(widget.anchors@);
    let ghost c0 = children_model(widget.children@);
    let ghost mut k: int = 0;
    assert(all.subrange(0, 0) =~= Seq::<WidgetChildModel>::empty());
    assert(a0 + Seq::<AnchorDefModel>::empty() =~= a0);
    assert(c0 + Seq::<WidgetChildModel>::empty() =~= c0);
    assert(children_model(kids@) =~= all.subrange(0, all.len() as int));
    while kids.len() > 0
        invariant
            0 <= k <= all.len(),
            all.len() == k + kids@.len(),
            children_model(kids@) == all.subrange(k, all.len() as int),
            anchors_model(widget.anchors@) == a0 + anchors_of(all.subrange(0, k)),
            children_model(widget.children@) == c0 + plain_children(all.subrange(0, k)),
            widget.tag == old(widget).tag,
            widget.tag_owned == old(widget).tag_owned,
            widget.name == old(widget).name,
            widget.attrs == old(widget).attrs,
        decreases kids.len(),
    {
        let ghost km = children_model(kids@);
        let ghost ks = kids@;
        let child = kids.remove(0);
        let ghost cmod = child_model(child);
        proof {
            assert(cmod == km[0]);
            assert forall|j: int| 0 <= j < kids@.len() implies children_model(kids@)[j] == km[j
                + 1] by {
                assert(kids@[j] == ks[j + 1]);
            }
            assert(children_model(kids@) =~= all.subrange(k + 1, all.len() as int));
            assert(all.subrange(0, k + 1).drop_last() =~= all.subrange(0, k));
            assert(all.subrange(0, k + 1).last() == cmod);
        }
        let anchor = match &child {
            WidgetChild::Widget(w) => match &w.tag_owned {
                Some(t) => str_eq(t.as_str(), "anchor"),
                None => false,
            },
            _ => false,
        };
        if anchor {
            match child {
                WidgetChild::Widget(w) => {
                    let ghost before = anchors_model(widget.anchors@);
                    let a = anchor_from_widget(&w);
                    widget.anchors.push(a);
                    assert(anchors_model(widget.anchors@) =~= before.push(a@));
                },
                _ => {},
            }
        } else {
            let ghost before = children_model(widget.children@);
            widget.children.push(child);
            assert(children_model(widget.children@) =~= before.push(cmod));
        }
        proof {
            k = k + 1;
        }
    }
    assert(all.subrange(0, k) =~= all);
}

fn anchor_from_widget(w: &WidgetDef) -> (r: AnchorDef)
    ensures
        r@ == anchor_from(attrs_model(w.attrs@)),
{
    let ghost am = attrs_model(w.attrs@);
    let mut a = AnchorDef::default();
    let mut i: usize = 0;
    assert(am.subrange(0, 0) =~= Seq::<AttrModel>::empty());
    while i < w.attrs.len()
        invariant
            i <= w.attrs.len(),
            am == attrs_model(w.attrs@),
            a@ == anchor_from(am.subrange(0, i as int)),
        decreases w.attrs.len() - i,
    {
        let attr = &w.attrs[i];
        let n = attr.effective_name();
        let v = attr.value_str();
        if str_eq(n, "point") {
            a.point = String::from_str(v);
        } else if str_eq(n, "relative_to") {
            a.relative_to = String::from_str(v);
        } else if str_eq(n, "relative_point") {
            a.relative_point = String::from_str(v);
        } else if str_eq(n, "x") {
            a.x = String::from_str(v);
        } else if str_eq(n, "y") {
            a.y = String::from_str(v);
        }
        assert(am.subrange(0, i + 1).drop_last() =~= am.subrange(0, i as int));
        i = i + 1;
    }
    assert(am.subrange(0, i as int) =~= am);
    a
}

// ===========================================================================
// Constants and blocks
// ===========================================================================

fn extract_const_value(rhs: &[char]) -> (r: Option<String>)
    ensures
        opt_string_model(r) == const_value(rhs@),
{
    if rhs.len() > 0 && rhs[0] == '"' {
        return extract_string_literal(rhs);
    }
    proof {
        lemma_find_char_bounds(rhs@, '(', 0);
    }
    let paren_pos = match find_char_exec(rhs, '(', 0) {
        Some(p) => p,
        None => {
            return None;
        },
    };
    let after_paren = trim_start_exec(vstd::slice::slice_subrange(rhs, paren_pos + 1, rhs.len()));
    if after_paren.len() > 0 && after_paren[0] == '"' {
        extract_string_literal(after_paren)
    } else {
        None
    }
}

/// Parse `const NAME: Type = Type("value")` or `const NAME: &str = "value"` declarations.
pub fn parse_const_declarations(source: &str) -> (r: Vec<(String, String)>)
    ensures
        consts_model(r@) == consts_from(source@, 0),
{
    let chars = chars_of(source);
    let s = chars.as_slice();
    let pat = chars_of("const ");
    proof {
        reveal_strlit("const ");
    }
    let mut consts: Vec<(String, String)> = Vec::new();
    let mut cur: usize = 0;
    assert(consts_model(consts@) + consts_from(s@, 0) =~= consts_from(s@, 0));
    loop
        invariant
            cur <= s.len(),
            s@ == source@,
            pat@ == "const "@,
            pat@.len() == 6,
            consts_model(consts@) + consts_from(s@, cur as int) == consts_from(s@, 0),
        ensures
            consts_model(consts@) == consts_from(s@, 0),
        decreases s.len() - cur,
    {
        let i = match find_seq_exec(s, pat.as_slice(), cur) {
            Some(i) => i,
            None => {
                assert(consts_model(consts@) + Seq::<(Seq<char>, Seq<char>)>::empty() =~= consts_model(
                    consts@,
                ));
                break;
            },
        };
        proof {
            lemma_find_seq_bounds(s@, pat@, cur as int);
        }
        let r = i + 6;
        let mut name_end = r;
        while name_end < s.len() && (alphanumeric(s[name_end]) || s[name_end] == '_')
            invariant
                r <= name_end <= s.len(),
                const_name_end(s@, name_end as int) == const_name_end(s@, r as int),
            decreases s.len() - name_end,
        {
            name_end = name_end + 1;
        }
        let ghost before = consts_model(consts@);
        let ghost tail = consts_from(s@, r as int);
        if name_end != r {
            proof {
                lemma_find_char_bounds(s@, '=', r as int);
            }
            match find_char_exec(s, '=', r) {
                Some(e) => {
                    let rhs = trim_start_exec(vstd::slice::slice_subrange(s, e + 1, s.len()));
                    match extract_const_value(rhs) {
                        Some(v) => {
                            let name = string_of(vstd::slice::slice_subrange(s, r, name_end));
                            let ghost entry = (name@, v@);
                            consts.push((name, v));
                            assert(consts_model(consts@) =~= before.push(entry));
                            assert(before + (seq![entry] + tail) =~= before.push(entry) + tail);
                        },
                        None => {},
                    }
                },
                None => {},
            }
        }
        cur = r;
    }
    consts
}

/// Parse all `rsx! { ... }` blocks in a source file.
pub fn parse_rsx_blocks(source: &str, file_path: &str) -> (r: Vec<HotReloadTemplate>)
    requires
        utf8_len(source@) < u32::MAX,
    ensures
        templates_model(r@) == blocks_from(source@, 0, file_path@, consts_from(source@, 0)),
{
    let chars = chars_of(source);
    let s = chars.as_slice();
    let consts = parse_const_declarations(source);
    let ghost cm = consts_model(consts@);
    let pat = chars_of("rsx!");
    proof {
        reveal_strlit("rsx!");
        lemma_len_le_utf8_len(s@);
    }
    let mut results: Vec<HotReloadTemplate> = Vec::new();
    let mut search_from: usize = 0;
    assert(templates_model(results@) + blocks_from(s@, 0, file_path@, cm) =~= blocks_from(
        s@,
        0,
        file_path@,
        cm,
    ));
    loop
        invariant
            search_from <= s.len(),
            s@ == source@,
            s@.len() < u32::MAX,
            utf8_len(s@) < u32::MAX,
            pat@ == "rsx!"@,
            pat@.len() == 4,
            cm == consts_model(consts@),
            cm == consts_from(source@, 0),
            templates_model(results@) + blocks_from(s@, search_from as int, file_path@, cm)
                == blocks_from(s@, 0, file_path@, cm),
        ensures
            templates_model(results@) == blocks_from(s@, 0, file_path@, cm),
        decreases s.len() - search_from,
    {
        let abs_pos = match find_seq_exec(s, pat.as_slice(), search_from) {
            Some(p) => p,
            None => {
                assert(templates_model(results@) + Seq::<TemplateModel>::empty()
                    =~= templates_model(results@));
                break;
            },
        };
        proof {
            lemma_find_seq_bounds(s@, pat@, search_from as int);
        }
        let after_macro = abs_pos + 4;
        let trimmed = trim_start_exec(vstd::slice::slice_subrange(s, after_macro, s.len()));
        proof {
            lemma_trim_len(s@.subrange(after_macro as int, s@.len() as int));
        }
        if !(trimmed.len() > 0 && trimmed[0] == '{') {
            search_from = after_macro;
            continue;
        }
        let brace_pos = after_macro + (s.len() - after_macro - trimmed.len());
        let block = match extract_braced_block(vstd::slice::slice_subrange(s, brace_pos, s.len())) {
            Some(b) => b,
            None => {
                search_from = brace_pos + 1;
                continue;
            },
        };
        let before = vstd::slice::slice_subrange(s, 0, abs_pos);
        proof {
            lemma_count_char_le_len(before@, '\n');
        }
        let line = count_char_exec(before, '\n') as u32 + 1;
        proof {
            crate::text::lemma_rfind_char_bounds(before@, '\n');
        }
        let line_start = match rfind_char_exec(before, '\n') {
            Some(p) => p + 1,
            None => 0,
        };
        let on_line = vstd::slice::slice_subrange(s, line_start, abs_pos);
        proof {
            lemma_utf8_len_subrange(s@, line_start as int, abs_pos as int);
        }
        let col = utf8_len_exec(on_line) as u32 + 1;
        let inner = trim_exec(block);
        proof {
            lemma_trim_len(block@);
        }
        let defs = parse_children(inner, consts.as_slice());
        let ghost entry = TemplateModel {
            file: file_path@,
            line: line,
            column: col,
            defs: children_model(defs@),
        };
        let t = HotReloadTemplate { key: (String::from_str(file_path), line, col), defs };
        let ghost prev = templates_model(results@);
        let ghost tail = blocks_from(s@, (brace_pos + block.len() + 2) as int, file_path@, cm);
        results.push(t);
        proof {
            assert(templates_model(results@) =~= prev.push(entry));
            assert(prev + (seq![entry] + tail) =~= prev.push(entry) + tail);
        }
        search_from = brace_pos + block.len() + 2;
    }
    results
}

// ===========================================================================
// Laws of the parser
// ===========================================================================

/// Every attribute in the tree under `c` holds a static value.
pub open spec fn tree_static(c: WidgetChildModel) -> bool
    decreases c,
{
    match c {
        WidgetChildModel::Widget(w) => (forall|i: int|
            0 <= i < w.attrs.len() ==> (#[trigger] w.attrs[i]).value is Static) && (forall|i: int|
            0 <= i < w.children.len() ==> tree_static(#[trigger] w.children[i])),
        WidgetChildModel::Fragment(k) => forall|i: int|
            0 <= i < k.len() ==> tree_static(#[trigger] k[i]),
        WidgetChildModel::Dynamic => true,
    }
}

/// No widget in the tree under `c` has an `anchor` element among its children.
pub open spec fn anchors_apart(c: WidgetChildModel) -> bool
    decreases c,
{
    match c {
        WidgetChildModel::Widget(w) => (forall|i: int|
            0 <= i < w.children.len() ==> !is_anchor_child(#[trigger] w.children[i])) && (forall|
            i: int,
        |
            0 <= i < w.children.len() ==> anchors_apart(#[trigger] w.children[i])),
        WidgetChildModel::Fragment(k) => forall|i: int|
            0 <= i < k.len() ==> anchors_apart(#[trigger] k[i]),
        WidgetChildModel::Dynamic => true,
    }
}

/// What the parser promises of every tree it builds.
pub open spec fn parsed_ok(c: WidgetChildModel) -> bool {
    tree_static(c) && anchors_apart(c)
}

proof fn lemma_attrs_static(b: Seq<char>, pos: int, consts: Seq<(Seq<char>, Seq<char>)>)
    ensures
        forall|i: int|
            0 <= i < attrs_from(b, pos, consts).len() ==> (#[trigger] attrs_from(
                b,
                pos,
                consts,
            )[i]).value is Static,
    decreases b.len() - pos,
{
    let p = skip_separators(b, pos);
    if pos >= 0 && p < b.len() {
        match attr_step(b, p, consts) {
            AttrStepModel::Stop => {},
            AttrStepModel::Continue(np, a) => {
                let rest = if pos < np < b.len() {
                    lemma_attrs_static(b, np, consts);
                    attrs_from(b, np, consts)
                } else {
                    Seq::empty()
                };
                let all = attrs_from(b, pos, consts);
                assert(all == opt_cons(a, rest));
                assert forall|i: int| 0 <= i < all.len() implies (#[trigger] all[i]).value is Static by {
                    match a {
                        Some(x) => {
                            if i > 0 {
                                assert(all[i] == rest[i - 1]);
                            }
                        },
                        None => {},
                    }
                }
            },
        }
    }
}

proof fn lemma_plain_children_ok(kids: Seq<WidgetChildModel>)
    requires
        forall|j: int| 0 <= j < kids.len() ==> parsed_ok(#[trigger] kids[j]),
    ensures
        forall|i: int|
            0 <= i < plain_children(kids).len() ==> parsed_ok(#[trigger] plain_children(kids)[i])
                && !is_anchor_child(plain_children(kids)[i]),
    decreases kids.len(),
{
    if kids.len() > 0 {
        let init = kids.drop_last();
        assert forall|j: int| 0 <= j < init.len() implies parsed_ok(#[trigger] init[j]) by {
            assert(init[j] == kids[j]);
        }
        lemma_plain_children_ok(init);
        let last = kids[kids.len() - 1];
        assert(parsed_ok(last));
        let pc = plain_children(kids);
        let pi = plain_children(init);
        assert forall|i: int| 0 <= i < pc.len() implies parsed_ok(#[trigger] pc[i])
            && !is_anchor_child(pc[i]) by {
            if is_anchor_child(last) {
                assert(pc == pi);
            } else {
                assert(pc == pi.push(last));
                if i < pi.len() {
                    assert(pc[i] == pi[i]);
                }
            }
        }
    }
}

proof fn lemma_children_ok(s: Seq<char>, pos: int, consts: Seq<(Seq<char>, Seq<char>)>)
    ensures
        forall|i: int|
            0 <= i < children_from(s, pos, consts).len() ==> parsed_ok(
                #[trigger] children_from(s, pos, consts)[i],
            ),
    decreases s.len(), 3int, s.len() - pos,
{
    let p = skip_separators(s, pos);
    if pos >= 0 && p < s.len() {
        let np = child_next(s, p);
        lemma_child_value_ok(s, p, consts);
        let rest = if pos < np < s.len() {
            lemma_children_ok(s, np, consts);
            children_from(s, np, consts)
        } else {
            Seq::empty()
        };
        let all = children_from(s, pos, consts);
        let cv = child_value(s, p, consts);
        assert(all == opt_cons(cv, rest));
        assert forall|i: int| 0 <= i < all.len() implies parsed_ok(#[trigger] all[i]) by {
            match cv {
                Some(x) => {
                    if i > 0 {
                        assert(all[i] == rest[i - 1]);
                    }
                },
                None => {},
            }
        }
    }
}

proof fn lemma_child_value_ok(s: Seq<char>, p: int, consts: Seq<(Seq<char>, Seq<char>)>)
    ensures
        child_value(s, p, consts) matches Some(c) ==> parsed_ok(c),
    decreases s.len(), 2int, 0int,
{
    if 0 <= p < s.len() && !opens_dynamic(s, p) {
        let e = ident_end(s, p);
        if e != p {
            let ap = skip_blanks(s, e);
            if !(ap < s.len() && s[ap] == ':') {
                lemma_named_value_ok(s, ap, s.subrange(p, e), consts);
            }
        }
    }
}

proof fn lemma_named_value_ok(
    s: Seq<char>,
    ap: int,
    tag: Seq<char>,
    consts: Seq<(Seq<char>, Seq<char>)>,
)
    ensures
        named_value(s, ap, tag, consts) matches Some(c) ==> parsed_ok(c),
    decreases s.len(), 1int, 0int,
{
    if 0 <= ap < s.len() && s[ap] == '{' {
        match braced_block(s.subrange(ap, s.len() as int)) {
            Some(b) => {
                let tb = trim(b);
                if tb.len() < s.len() {
                    lemma_element_ok(tag, tb, consts);
                }
            },
            None => {},
        }
    }
}

proof fn lemma_element_ok(tag: Seq<char>, b: Seq<char>, consts: Seq<(Seq<char>, Seq<char>)>)
    ensures
        parsed_ok(element(tag, b, consts)),
    decreases b.len(), 4int, 0int,
{
    lemma_attrs_static(b, 0, consts);
    if tag != "anchor"@ {
        let kids = children_from(b, 0, consts);
        lemma_children_ok(b, 0, consts);
        lemma_plain_children_ok(kids);
    }
}

proof fn lemma_blocks_ok(
    s: Seq<char>,
    from: int,
    file: Seq<char>,
    consts: Seq<(Seq<char>, Seq<char>)>,
)
    ensures
        forall|k: int, i: int|
            0 <= k < blocks_from(s, from, file, consts).len() && 0 <= i < blocks_from(
                s,
                from,
                file,
                consts,
            )[k].defs.len() ==> parsed_ok(#[trigger] blocks_from(s, from, file, consts)[k].defs[i]),
    decreases s.len() - from,
{
    let all = blocks_from(s, from, file, consts);
    match find_seq(s, "rsx!"@, from) {
        None => {},
        Some(abs) => {
            let after = abs + 4;
            let t = trim_start(s.subrange(after, s.len() as int));
            if !(t.len() > 0 && t[0] == '{') {
                if from < after <= s.len() {
                    lemma_blocks_ok(s, after, file, consts);
                    assert(all == blocks_from(s, after, file, consts));
                } else {
                    assert(all.len() == 0);
                }
            } else {
                let bp = s.len() - t.len();
                match braced_block(s.subrange(bp, s.len() as int)) {
                    None => {
                        if from < bp + 1 <= s.len() {
                            lemma_blocks_ok(s, bp + 1, file, consts);
                            assert(all == blocks_from(s, bp + 1, file, consts));
                        } else {
                            assert(all.len() == 0);
                        }
                    },
                    Some(b) => {
                        let next = bp + b.len() + 2;
                        let rest = if from < next <= s.len() {
                            lemma_blocks_ok(s, next, file, consts);
                            blocks_from(s, next, file, consts)
                        } else {
                            Seq::empty()
                        };
                        lemma_children_ok(trim(b), 0, consts);
                        let first = TemplateModel {
                            file: file,
                            line: line_of(s, abs) as u32,
                            column: column_of(s, abs) as u32,
                            defs: children_from(trim(b), 0, consts),
                        };
                        assert(all == seq![first] + rest);
                        assert forall|k: int, i: int|
                            0 <= k < all.len() && 0 <= i < all[k].defs.len() implies parsed_ok(
                                #[trigger] all[k].defs[i],
                            ) by {
                            if k > 0 {
                                assert(all[k] == rest[k - 1]);
                            }
                        }
                    },
                }
            }
        },
    }
}

/// The trees of the templates that `parse_rsx_blocks` returns hold static
/// attribute values only, and every `anchor` element inside an element is
/// taken out of its children (it becomes one of the element's anchors).
pub proof fn parsed_templates_static_and_anchored(source: Seq<char>, file: Seq<char>)
    ensures
        forall|k: int, i: int|
            0 <= k < blocks_from(source, 0, file, consts_from(source, 0)).len() && 0 <= i
                < blocks_from(source, 0, file, consts_from(source, 0))[k].defs.len() ==> parsed_ok(
                #[trigger] blocks_from(source, 0, file, consts_from(source, 0))[k].defs[i],
            ),
{
    lemma_blocks_ok(source, 0, file, consts_from(source, 0));
}

/// The variant name of each anchor point reads as that point's WoW name,
/// which is the variant name in upper case; the only names read as
/// something else are variant names, each read as its own point's name.
pub proof fn anchor_variants_read_as_wow_names(x: AnchorPoint, v: Seq<char>)
    ensures
        anchor_point_word(point_variant(x)) == point_name(x),
        point_name(x) == upper_case(point_variant(x)),
        anchor_point_word(v) != v ==> exists|y: AnchorPoint| v == #[trigger] point_variant(y) && anchor_point_word(v) == point_name(y),
{
    reveal_strlit("BOTTOM");
    reveal_strlit("BOTTOMLEFT");
    reveal_strlit("BOTTOMRIGHT");
    reveal_strlit("Bottom");
    reveal_strlit("BottomLeft");
    reveal_strlit("BottomRight");
    reveal_strlit("CENTER");
    reveal_strlit("Center");
    reveal_strlit("LEFT");
    reveal_strlit("Left");
    reveal_strlit("RIGHT");
    reveal_strlit("Right");
    reveal_strlit("TOP");
    reveal_strlit("TOPLEFT");
    reveal_strlit("TOPRIGHT");
    reveal_strlit("Top");
    reveal_strlit("TopLeft");
    reveal_strlit("TopRight");
    assert(upper_case("TopLeft"@) =~= "TOPLEFT"@);
    assert(upper_case("Top"@) =~= "TOP"@);
    assert(upper_case("TopRight"@) =~= "TOPRIGHT"@);
    assert(upper_case("Left"@) =~= "LEFT"@);
    assert(upper_case("Center"@) =~= "CENTER"@);
    assert(upper_case("Right"@) =~= "RIGHT"@);
    assert(upper_case("BottomLeft"@) =~= "BOTTOMLEFT"@);
    assert(upper_case("Bottom"@) =~= "BOTTOM"@);
    assert(upper_case("BottomRight"@) =~= "BOTTOMRIGHT"@);
    match x {
        AnchorPoint::TopLeft => {
        },
        AnchorPoint::Top => {
            assert("Top"@.len() != "TopLeft"@.len());
        },
        AnchorPoint::TopRight => {
            assert("TopRight"@.len() != "TopLeft"@.len());
            assert("TopRight"@.len() != "Top"@.len());
        },
        AnchorPoint::Left => {
            assert("Left"@.len() != "TopLeft"@.len());
            assert("Left"@.len() != "Top"@.len());
            assert("Left"@.len() != "TopRight"@.len());
        },
        AnchorPoint::Center => {
            assert("Center"@.len() != "TopLeft"@.len());
            assert("Center"@.len() != "Top"@.len());
            assert("Center"@.len() != "TopRight"@.len());
            assert("Center"@.len() != "Left"@.len());
        },
        AnchorPoint::Right => {
            assert("Right"@.len() != "TopLeft"@.len());
            assert("Right"@.len() != "Top"@.len());
            assert("Right"@.len() != "TopRight"@.len());
            assert("Right"@.len() != "Left"@.len());
            assert("Right"@.len() != "Center"@.len());
        },
        AnchorPoint::BottomLeft => {
            assert("BottomLeft"@.len() != "TopLeft"@.len());
            assert("BottomLeft"@.len() != "Top"@.len());
            assert("BottomLeft"@.len() != "TopRight"@.len());
            assert("BottomLeft"@.len() != "Left"@.len());
            assert("BottomLeft"@.len() != "Center"@.len());
            assert("BottomLeft"@.len() != "Right"@.len());
        },
        AnchorPoint::Bottom => {
            assert("Bottom"@.len() != "TopLeft"@.len());
            assert("Bottom"@.len() != "Top"@.len());
            assert("Bottom"@.len() != "TopRight"@.len());
            assert("Bottom"@.len() != "Left"@.len());
            assert("Bottom"@[0] != "Center"@[0]);
            assert("Bottom"@.len() != "Right"@.len());
            assert("Bottom"@.len() != "BottomLeft"@.len());
        },
        AnchorPoint::BottomRight => {
            assert("BottomRight"@.len() != "TopLeft"@.len());
            assert("BottomRight"@.len() != "Top"@.len());
            assert("BottomRight"@.len() != "TopRight"@.len());
            assert("BottomRight"@.len() != "Left"@.len());
            assert("BottomRight"@.len() != "Center"@.len());
            assert("BottomRight"@.len() != "Right"@.len());
            assert("BottomRight"@.len() != "BottomLeft"@.len());
            assert("BottomRight"@.len() != "Bottom"@.len());
        },
    }
    if v == "TopLeft"@ {
        assert(v == point_variant(AnchorPoint::TopLeft));
    }
    if v == "Top"@ {
        assert("Top"@.len() != "TopLeft"@.len());
        assert(v == point_variant(AnchorPoint::Top));
    }
    if v == "TopRight"@ {
        assert("TopRight"@.len() != "TopLeft"@.len());
        assert("TopRight"@.len() != "Top"@.len());
        assert(v == point_variant(AnchorPoint::TopRight));
    }
    if v == "Left"@ {
        assert("Left"@.len() != "TopLeft"@.len());
        assert("Left"@.len() != "Top"@.len());
        assert("Left"@.len() != "TopRight"@.len());
        assert(v == point_variant(AnchorPoint::Left));
    }
    if v == "Center"@ {
        assert("Center"@.len() != "TopLeft"@.len());
        assert("Center"@.len() != "Top"@.len());
        assert("Center"@.len() != "TopRight"@.len());
        assert("Center"@.len() != "Left"@.len());
        assert(v == point_variant(AnchorPoint::Center));
    }
    if v == "Right"@ {
        assert("Right"@.len() != "TopLeft"@.len());
        assert("Right"@.len() != "Top"@.len());
        assert("Right"@.len() != "TopRight"@.len());
        assert("Right"@.len() != "Left"@.len());
        assert("Right"@.len() != "Center"@.len());
        assert(v == point_variant(AnchorPoint::Right));
    }
    if v == "BottomLeft"@ {
        assert("BottomLeft"@.len() != "TopLeft"@.len());
        assert("BottomLeft"@.len() != "Top"@.len());
        assert("BottomLeft"@.len() != "TopRight"@.len());
        assert("BottomLeft"@.len() != "Left"@.len());
        assert("BottomLeft"@.len() != "Center"@.len());
        assert("BottomLeft"@.len() != "Right"@.len());
        assert(v == point_variant(AnchorPoint::BottomLeft));
    }
    if v == "Bottom"@ {
        assert("Bottom"@.len() != "TopLeft"@.len());
        assert("Bottom"@.len() != "Top"@.len());
        assert("Bottom"@.len() != "TopRight"@.len());
        assert("Bottom"@.len() != "Left"@.len());
        assert("Bottom"@[0] != "Center"@[0]);
        assert("Bottom"@.len() != "Right"@.len());
        assert("Bottom"@.len() != "BottomLeft"@.len());
        assert(v == point_variant(AnchorPoint::Bottom));
    }
    if v == "BottomRight"@ {
        assert("BottomRight"@.len() != "TopLeft"@.len());
        assert("BottomRight"@.len() != "Top"@.len());
        assert("BottomRight"@.len() != "TopRight"@.len());
        assert("BottomRight"@.len() != "Left"@.len());
        assert("BottomRight"@.len() != "Center"@.len());
        assert("BottomRight"@.len() != "Right"@.len());
        assert("BottomRight"@.len() != "BottomLeft"@.len());
        assert("BottomRight"@.len() != "Bottom"@.len());
        assert(v == point_variant(AnchorPoint::BottomRight));
    }
}

/// The variant name of each horizontal justification reads as its WoW name,
/// which is the variant name in upper case; the only names read as
/// something else are variant names, each read as its own justification's
/// name.
pub proof fn justify_variants_read_as_wow_names(x: JustifyH, v: Seq<char>)
    ensures
        justify_word(justify_h_variant(x)) == justify_h_name(x),
        justify_h_name(x) == upper_case(justify_h_variant(x)),
        justify_word(v) != v ==> exists|y: JustifyH| v == #[trigger] justify_h_variant(y) && justify_word(v) == justify_h_name(y),
{
    reveal_strlit("CENTER");
    reveal_strlit("Center");
    reveal_strlit("LEFT");
    reveal_strlit("Left");
    reveal_strlit("RIGHT");
    reveal_strlit("Right");
    assert(upper_case("Left"@) =~= "LEFT"@);
    assert(upper_case("Center"@) =~= "CENTER"@);
    assert(upper_case("Right"@) =~= "RIGHT"@);
    match x {
        JustifyH::Left => {
        },
        JustifyH::Center => {
            assert("Center"@.len() != "Left"@.len());
            assert("Center"@.len() != "Right"@.len());
        },
        JustifyH::Right => {
            assert("Right"@.len() != "Left"@.len());
        },
    }
    if v == "Left"@ {
        assert(v == justify_h_variant(JustifyH::Left));
    }
    if v == "Center"@ {
        assert("Center"@.len() != "Left"@.len());
        assert("Center"@.len() != "Right"@.len());
        assert(v == justify_h_variant(JustifyH::Center));
    }
    if v == "Right"@ {
        assert("Right"@.len() != "Left"@.len());
        assert(v == justify_h_variant(JustifyH::Right));
    }
}

/// In an attribute value, the identifier `AnchorPoint::<variant>` stands for
/// the WoW name of that anchor point (what `AnchorPoint::as_str` gives, and
/// what `AnchorPoint::from_str` reads back as the same point).
pub proof fn anchor_identifiers_parse_to_point_names(x: AnchorPoint, ilen: int, s: Seq<char>, consts: Seq<(Seq<char>, Seq<char>)>)
    ensures
        known_ident("AnchorPoint::"@ + point_variant(x), ilen, s, consts) == Some((point_name(x), ilen)),
        point_named(point_name(x)) == Some(x),
{
    point_name_round_trip(x);
    let id = "AnchorPoint::"@ + point_variant(x);
    reveal_strlit("FontColor::new");
    reveal_strlit("FrameStrata::");
    reveal_strlit("DrawLayer::");
    reveal_strlit("GameFont::");
    reveal_strlit("AnchorPoint::");
    reveal_strlit("AnchorPoint::");
    anchor_variants_read_as_wow_names(x, point_variant(x));
    assert(id[0] == 'A');
    reveal_strlit("TopLeft");
    reveal_strlit("Top");
    reveal_strlit("TopRight");
    reveal_strlit("Left");
    reveal_strlit("Center");
    reveal_strlit("Right");
    reveal_strlit("BottomLeft");
    reveal_strlit("Bottom");
    reveal_strlit("BottomRight");
    assert(id.len() > "FontColor::new"@.len());
    if starts_with(id, "FrameStrata::"@) {
        assert(id.subrange(0, 13)[0] == id[0]);
    }
    if starts_with(id, "DrawLayer::"@) {
        assert(id.subrange(0, 11)[0] == id[0]);
    }
    if starts_with(id, "GameFont::"@) {
        assert(id.subrange(0, 10)[0] == id[0]);
    }
    assert(id.subrange(0, 13) =~= "AnchorPoint::"@);
    assert(after_prefix(id, "AnchorPoint::"@) =~= point_variant(x));
}

/// In an attribute value, the identifier `JustifyH::<variant>` stands for
/// the WoW name of that justification (what `JustifyH::as_str` gives).
pub proof fn justify_identifiers_parse_to_names(x: JustifyH, ilen: int, s: Seq<char>, consts: Seq<(Seq<char>, Seq<char>)>)
    ensures
        known_ident("JustifyH::"@ + justify_h_variant(x), ilen, s, consts) == Some((justify_h_name(x), ilen)),
{
    let id = "JustifyH::"@ + justify_h_variant(x);
    reveal_strlit("FontColor::new");
    reveal_strlit("FrameStrata::");
    reveal_strlit("DrawLayer::");
    reveal_strlit("GameFont::");
    reveal_strlit("AnchorPoint::");
    reveal_strlit("JustifyH::");
    justify_variants_read_as_wow_names(x, justify_h_variant(x));
    assert(id[0] == 'J');
    reveal_strlit("Left");
    reveal_strlit("Center");
    reveal_strlit("Right");
    assert(id[0] != "FontColor::new"@[0]);
    if starts_with(id, "FrameStrata::"@) {
        assert(id.subrange(0, 13)[0] == id[0]);
    }
    if starts_with(id, "DrawLayer::"@) {
        assert(id.subrange(0, 11)[0] == id[0]);
    }
    if starts_with(id, "GameFont::"@) {
        assert(id.subrange(0, 10)[0] == id[0]);
    }
    if starts_with(id, "AnchorPoint::"@) {
        assert(id.subrange(0, 13)[0] == id[0]);
    }
    assert(id.subrange(0, 10) =~= "JustifyH::"@);
    assert(after_prefix(id, "JustifyH::"@) =~= justify_h_variant(x));
}


} // verus!
