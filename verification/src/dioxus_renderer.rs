//! Lookup of the frame built for a node of a Dioxus template, by the node's
//! path in the template.
use vstd::prelude::*;

verus! {

/// The frames built for a template, as (node path, frame id) pairs.
pub open spec fn frames_model(frames: Seq<(Vec<u8>, u64)>) -> Seq<(Seq<u8>, u64)> {
    frames.map_values(|f: (Vec<u8>, u64)| (f.0@, f.1))
}

/// The frame of the first entry from index `i` on whose path is `path`.
pub open spec fn frame_at_path(frames: Seq<(Seq<u8>, u64)>, path: Seq<u8>, i: int) -> Option<u64>
    decreases frames.len() - i,
{
    if i < 0 || i >= frames.len() {
        None
    } else if frames[i].0 == path {
        Some(frames[i].1)
    } else {
        frame_at_path(frames, path, i + 1)
    }
}

/// Whether two byte slices are equal.
fn bytes_eq(a: &[u8], b: &[u8]) -> (r: bool)
    ensures
        r == (a@ == b@),
{
    if a.len() != b.len() {
        return false;
    }
    let mut i: usize = 0;
    while i < a.len()
        invariant
            a.len() == b.len(),
            i <= a.len(),
            forall|j: int| 0 <= j < i ==> a@[j] == b@[j],
        decreases a.len() - i,
    {
        if a[i] != b[i] {
            return false;
        }
        i = i + 1;
    }
    assert(a@ =~= b@);
    true
}

pub fn find_template_frame(frames: &[(Vec<u8>, u64)], path: &[u8]) -> (r: Option<u64>)
    ensures
        r == frame_at_path(frames_model(frames@), path@, 0),
{
    let ghost fm = frames_model(frames@);
    let mut i: usize = 0;
    while i < frames.len()
        invariant
            i <= frames.len(),
            fm == frames_model(frames@),
            frame_at_path(fm, path@, i as int) == frame_at_path(fm, path@, 0),
        decreases frames.len() - i,
    {
        if bytes_eq(frames[i].0.as_slice(), path) {
            return Some(frames[i].1);
        }
        i = i + 1;
    }
    None
}

} // verus!
