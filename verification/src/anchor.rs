//! Frame names and the WoW anchor points by which frames are positioned.
use vstd::prelude::*;

use crate::text::str_eq;

verus! {

/// A typed frame name for use in `name:` and `relative_to:` RSX attributes.
/// Ensures the same constant is used at both definition and reference sites.
#[derive(Debug, Clone, Copy, PartialEq, Eq, Hash)]
pub struct FrameName(pub &'static str);

impl FrameName {
    pub fn as_str(self) -> (r: &'static str)
        ensures
            r@ == self.0@,
    {
        self.0
    }
}

/// WoW-style anchor points for UI frame positioning.
#[derive(Debug, Clone, Copy, PartialEq, Eq, Structural, Hash)]
pub enum AnchorPoint {
    TopLeft,
    Top,
    TopRight,
    Left,
    Center,
    Right,
    BottomLeft,
    Bottom,
    BottomRight,
}

/// The name of an anchor point as its variant is spelled, such as `TopLeft`.
pub open spec fn point_variant(p: AnchorPoint) -> Seq<char> {
    match p {
        AnchorPoint::TopLeft => "TopLeft"@,
        AnchorPoint::Top => "Top"@,
        AnchorPoint::TopRight => "TopRight"@,
        AnchorPoint::Left => "Left"@,
        AnchorPoint::Center => "Center"@,
        AnchorPoint::Right => "Right"@,
        AnchorPoint::BottomLeft => "BottomLeft"@,
        AnchorPoint::Bottom => "Bottom"@,
        AnchorPoint::BottomRight => "BottomRight"@,
    }
}

/// The WoW name of an anchor point, such as `TOPLEFT`.
pub open spec fn point_name(p: AnchorPoint) -> Seq<char> {
    match p {
        AnchorPoint::TopLeft => "TOPLEFT"@,
        AnchorPoint::Top => "TOP"@,
        AnchorPoint::TopRight => "TOPRIGHT"@,
        AnchorPoint::Left => "LEFT"@,
        AnchorPoint::Center => "CENTER"@,
        AnchorPoint::Right => "RIGHT"@,
        AnchorPoint::BottomLeft => "BOTTOMLEFT"@,
        AnchorPoint::Bottom => "BOTTOM"@,
        AnchorPoint::BottomRight => "BOTTOMRIGHT"@,
    }
}

/// The anchor point whose WoW name is `s`, if any (names are case-sensitive).
pub open spec fn point_named(s: Seq<char>) -> Option<AnchorPoint> {
    if s == "TOPLEFT"@ {
        Some(AnchorPoint::TopLeft)
    } else if s == "TOP"@ {
        Some(AnchorPoint::Top)
    } else if s == "TOPRIGHT"@ {
        Some(AnchorPoint::TopRight)
    } else if s == "LEFT"@ {
        Some(AnchorPoint::Left)
    } else if s == "CENTER"@ {
        Some(AnchorPoint::Center)
    } else if s == "RIGHT"@ {
        Some(AnchorPoint::Right)
    } else if s == "BOTTOMLEFT"@ {
        Some(AnchorPoint::BottomLeft)
    } else if s == "BOTTOM"@ {
        Some(AnchorPoint::Bottom)
    } else if s == "BOTTOMRIGHT"@ {
        Some(AnchorPoint::BottomRight)
    } else {
        None
    }
}

impl AnchorPoint {
    /// Parse a WoW anchor string like "TOPLEFT", "CENTER", etc.
    pub fn from_str(s: &str) -> (r: Option<Self>)
        ensures
            r == point_named(s@),
    {
        if str_eq(s, "TOPLEFT") {
            Some(AnchorPoint::TopLeft)
        } else if str_eq(s, "TOP") {
            Some(AnchorPoint::Top)
        } else if str_eq(s, "TOPRIGHT") {
            Some(AnchorPoint::TopRight)
        } else if str_eq(s, "LEFT") {
            Some(AnchorPoint::Left)
        } else if str_eq(s, "CENTER") {
            Some(AnchorPoint::Center)
        } else if str_eq(s, "RIGHT") {
            Some(AnchorPoint::Right)
        } else if str_eq(s, "BOTTOMLEFT") {
            Some(AnchorPoint::BottomLeft)
        } else if str_eq(s, "BOTTOM") {
            Some(AnchorPoint::Bottom)
        } else if str_eq(s, "BOTTOMRIGHT") {
            Some(AnchorPoint::BottomRight)
        } else {
            None
        }
    }

    pub fn as_str(self) -> (r: &'static str)
        ensures
            r@ == point_name(self),
    {
        match self {
            AnchorPoint::TopLeft => "TOPLEFT",
            AnchorPoint::Top => "TOP",
            AnchorPoint::TopRight => "TOPRIGHT",
            AnchorPoint::Left => "LEFT",
            AnchorPoint::Center => "CENTER",
            AnchorPoint::Right => "RIGHT",
            AnchorPoint::BottomLeft => "BOTTOMLEFT",
            AnchorPoint::Bottom => "BOTTOM",
            AnchorPoint::BottomRight => "BOTTOMRIGHT",
        }
    }
}

/// Parsing the name of an anchor point gives the point back:
/// `AnchorPoint::from_str(p.as_str()) == Some(p)` for every point.
pub proof fn point_name_round_trip(p: AnchorPoint)
    ensures
        point_named(point_name(p)) == Some(p),
{
    reveal_strlit("TOPLEFT");
    reveal_strlit("TOP");
    reveal_strlit("TOPRIGHT");
    reveal_strlit("LEFT");
    reveal_strlit("CENTER");
    reveal_strlit("RIGHT");
    reveal_strlit("BOTTOMLEFT");
    reveal_strlit("BOTTOM");
    reveal_strlit("BOTTOMRIGHT");
    assert("TOPLEFT"@.len() == 7 && "TOP"@.len() == 3 && "TOPRIGHT"@.len() == 8);
    assert("LEFT"@.len() == 4 && "CENTER"@.len() == 6 && "RIGHT"@.len() == 5);
    assert("BOTTOMLEFT"@.len() == 10 && "BOTTOM"@.len() == 6 && "BOTTOMRIGHT"@.len() == 11);
    assert("CENTER"@[0] != "BOTTOM"@[0]);
}

/// A string that parses to an anchor point is exactly that point's name:
/// `from_str(s) == Some(p)` implies `p.as_str() == s`.
pub proof fn point_named_round_trip(s: Seq<char>)
    ensures
        point_named(s) matches Some(p) ==> point_name(p) == s,
{
}

} // verus!
