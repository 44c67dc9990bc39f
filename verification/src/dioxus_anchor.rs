//! Anchor attribute state for the Dioxus renderer: like the anchor state of
//! `anchor_resolve`, with a count of the dynamic attributes still expected.
use vstd::prelude::*;

use crate::anchor_resolve::{anchor_field_set, anchor_spec_text};
use crate::text::{push_char, str_eq};
use crate::widget_def::{default_anchor, AnchorDefModel};

verus! {

/// Accumulated anchor attribute state for anchors with dynamic attrs.
/// Static attrs are filled during template instantiation, dynamic attrs arrive via set_attribute.
pub struct AnchorState {
    pub point: String,
    pub relative_to: String,
    pub relative_point: String,
    pub x: String,
    pub y: String,
    /// Number of dynamic attrs still expected before we can apply.
    pub remaining_dynamic: usize,
}

impl View for AnchorState {
    type V = AnchorDefModel;

    open spec fn view(&self) -> AnchorDefModel {
        AnchorDefModel {
            point: self.point@,
            relative_to: self.relative_to@,
            relative_point: self.relative_point@,
            x: self.x@,
            y: self.y@,
        }
    }
}

impl AnchorState {
    pub fn new(remaining_dynamic: usize) -> (r: Self)
        ensures
            r@ == default_anchor(),
            r.remaining_dynamic == remaining_dynamic,
    {
        AnchorState {
            point: String::from_str("CENTER"),
            relative_to: String::from_str("$parent"),
            relative_point: String::from_str("CENTER"),
            x: String::from_str("0"),
            y: String::from_str("0"),
            remaining_dynamic,
        }
    }

    pub fn set(&mut self, name: &str, value: &str)
        ensures
            final(self)@ == anchor_field_set(old(self)@, name@, value@),
            final(self).remaining_dynamic == old(self).remaining_dynamic,
    {
        if str_eq(name, "point") {
            self.point = String::from_str(value);
        } else if str_eq(name, "relative_to") {
            self.relative_to = String::from_str(value);
        } else if str_eq(name, "relative_point") {
            self.relative_point = String::from_str(value);
        } else if str_eq(name, "x") {
            self.x = String::from_str(value);
        } else if str_eq(name, "y") {
            self.y = String::from_str(value);
        }
    }

    pub fn to_spec(&self) -> (r: String)
        ensures
            r@ == anchor_spec_text(self@),
    {
        let mut out = String::new();
        out.append(self.point.as_str());
        push_char(&mut out, ',');
        out.append(self.relative_to.as_str());
        push_char(&mut out, ',');
        out.append(self.relative_point.as_str());
        push_char(&mut out, ',');
        out.append(self.x.as_str());
        push_char(&mut out, ',');
        out.append(self.y.as_str());
        assert(out@ =~= anchor_spec_text(self@));
        out
    }
}

} // verus!
