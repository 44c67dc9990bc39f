//! Anchor attribute state accumulated while a widget tree is applied: the
//! five anchor attributes as text, starting from the default anchor.
use vstd::prelude::*;

use crate::text::{push_char, str_eq};
use crate::widget_def::{default_anchor, AnchorDefModel};

verus! {

/// `a` with the anchor field called `name` set to `value`; other names
/// leave it unchanged.
pub open spec fn anchor_field_set(a: AnchorDefModel, name: Seq<char>, value: Seq<char>) -> AnchorDefModel {
    if name == "point"@ {
        AnchorDefModel { point: value, ..a }
    } else if name == "relative_to"@ {
        AnchorDefModel { relative_to: value, ..a }
    } else if name == "relative_point"@ {
        AnchorDefModel { relative_point: value, ..a }
    } else if name == "x"@ {
        AnchorDefModel { x: value, ..a }
    } else if name == "y"@ {
        AnchorDefModel { y: value, ..a }
    } else {
        a
    }
}

/// The five fields joined by commas: `point,relative_to,relative_point,x,y`.
pub open spec fn anchor_spec_text(a: AnchorDefModel) -> Seq<char> {
    a.point + seq![','] + a.relative_to + seq![','] + a.relative_point + seq![','] + a.x + seq![
        ',',
    ] + a.y
}

/// Accumulated anchor attribute state for anchors with dynamic attrs.
/// Static attrs are filled during template instantiation, dynamic attrs arrive via set_attribute.
pub struct AnchorState {
    point: String,
    relative_to: String,
    relative_point: String,
    x: String,
    y: String,
}

impl View for AnchorState {
    type V = AnchorDefModel;

    closed spec fn view(&self) -> AnchorDefModel {
        AnchorDefModel {
            point: self.point@,
            relative_to: self.relative_to@,
            relative_point: self.relative_point@,
            x: self.x@,
            y: self.y@,
        }
    }
}

impl AnchorState {
    pub fn new() -> (r: Self)
        ensures
            r@ == default_anchor(),
    {
        AnchorState {
            point: String::from_str("CENTER"),
            relative_to: String::from_str("$parent"),
            relative_point: String::from_str("CENTER"),
            x: String::from_str("0"),
            y: String::from_str("0"),
        }
    }

    pub fn set(&mut self, name: &str, value: &str)
        ensures
            final(self)@ == anchor_field_set(old(self)@, name@, value@),
    {
        if str_eq(name, "point") {
            self.point = String::from_str(value);
        } else if str_eq(name, "relative_to") {
            self.relative_to = String::from_str(value);
        } else if str_eq(name, "relative_point") {
            self.relative_point = String::from_str(value);
        } else if str_eq(name, "x") {
            self.x = String::from_str(value);
        } else if str_eq(name, "y") {
            self.y = String::from_str(value);
        }
    }

    pub fn to_spec(&self) -> (r: String)
        ensures
            r@ == anchor_spec_text(self@),
    {
        let mut out = String::new();
        out.append(self.point.as_str());
        push_char(&mut out, ',');
        out.append(self.relative_to.as_str());
        push_char(&mut out, ',');
        out.append(self.relative_point.as_str());
        push_char(&mut out, ',');
        out.append(self.x.as_str());
        push_char(&mut out, ',');
        out.append(self.y.as_str());
        assert(out@ =~= anchor_spec_text(self@));
        out
    }

    /// The `relative_to` field, which decides whether the anchor can be applied now.
    pub fn relative_to(&self) -> (r: &str)
        ensures
            r@ == self@.relative_to,
    {
        self.relative_to.as_str()
    }
}

} // verus!
