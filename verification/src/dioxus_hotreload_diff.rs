//! Tag comparison used when a hot-reloaded template is diffed against the
//! nodes already built: tags match up to a leading `r#` and ASCII case.
use vstd::prelude::*;

use crate::attrs::{ascii_lower, lower_char};
use crate::text::{chars_of, starts_with, starts_with_str};

verus! {

/// Whether two texts are equal once ASCII letters are taken in lower case
/// (`str::eq_ignore_ascii_case`).
pub open spec fn same_ignoring_ascii_case(a: Seq<char>, b: Seq<char>) -> bool {
    a.len() == b.len() && forall|i: int| 0 <= i < a.len() ==> ascii_lower(a[i]) == ascii_lower(b[i])
}

/// A tag without its leading `r#`, when it has one.
pub open spec fn raw_stripped(tag: Seq<char>) -> Seq<char> {
    if starts_with(tag, "r#"@) {
        tag.subrange(2, tag.len() as int)
    } else {
        tag
    }
}

/// Whether two optional tags name the same element.
pub open spec fn tags_agree(a: Option<Seq<char>>, b: Option<Seq<char>>) -> bool {
    match (a, b) {
        (Some(x), Some(y)) => same_ignoring_ascii_case(raw_stripped(x), raw_stripped(y)),
        (None, None) => true,
        _ => false,
    }
}

pub open spec fn opt_str_view(o: Option<&str>) -> Option<Seq<char>> {
    match o {
        Some(s) => Some(s@),
        None => None,
    }
}

pub fn strip_raw(tag: &str) -> (r: &str)
    ensures
        r@ == raw_stripped(tag@),
{
    let cs = chars_of(tag);
    proof {
        reveal_strlit("r#");
    }
    if starts_with_str(cs.as_slice(), "r#") {
        tag.substring_char(2, cs.len())
    } else {
        tag
    }
}

/// `str::eq_ignore_ascii_case`.
fn eq_ignore_ascii_case(a: &str, b: &str) -> (r: bool)
    ensures
        r == same_ignoring_ascii_case(a@, b@),
{
    let ca = chars_of(a);
    let cb = chars_of(b);
    if ca.len() != cb.len() {
        return false;
    }
    let mut i: usize = 0;
    while i < ca.len()
        invariant
            ca@ == a@,
            cb@ == b@,
            ca.len() == cb.len(),
            i <= ca.len(),
            forall|j: int| 0 <= j < i ==> ascii_lower(a@[j]) == ascii_lower(b@[j]),
        decreases ca.len() - i,
    {
        if lower_char(ca[i]) != lower_char(cb[i]) {
            return false;
        }
        i = i + 1;
    }
    true
}

pub fn tags_match(a: Option<&str>, b: Option<&str>) -> (r: bool)
    ensures
        r == tags_agree(opt_str_view(a), opt_str_view(b)),
{
    match (a, b) {
        (Some(a), Some(b)) => eq_ignore_ascii_case(strip_raw(a), strip_raw(b)),
        (None, None) => true,
        _ => false,
    }
}

} // verus!
