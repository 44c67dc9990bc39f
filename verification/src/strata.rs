//! WoW frame strata and draw layers, which order the rendering of frames.
use vstd::prelude::*;

use crate::text::str_eq;

verus! {

/// WoW frame strata levels controlling render order of UI frames.
/// Higher strata render on top of lower ones.
#[derive(Debug, Clone, Copy, PartialEq, Eq, Structural, Hash, PartialOrd, Ord)]
pub enum FrameStrata {
    World,
    Background,
    Low,
    Medium,
    High,
    Dialog,
    Fullscreen,
    FullscreenDialog,
    Tooltip,
}

/// The name under which a stratum appears in WoW's XML and in RSX attributes.
pub open spec fn strata_name(s: FrameStrata) -> Seq<char> {
    match s {
        FrameStrata::World => "WORLD"@,
        FrameStrata::Background => "BACKGROUND"@,
        FrameStrata::Low => "LOW"@,
        FrameStrata::Medium => "MEDIUM"@,
        FrameStrata::High => "HIGH"@,
        FrameStrata::Dialog => "DIALOG"@,
        FrameStrata::Fullscreen => "FULLSCREEN"@,
        FrameStrata::FullscreenDialog => "FULLSCREEN_DIALOG"@,
        FrameStrata::Tooltip => "TOOLTIP"@,
    }
}

/// The stratum whose name is `s`, if any.
pub open spec fn strata_named(s: Seq<char>) -> Option<FrameStrata> {
    if s == "WORLD"@ {
        Some(FrameStrata::World)
    } else if s == "BACKGROUND"@ {
        Some(FrameStrata::Background)
    } else if s == "LOW"@ {
        Some(FrameStrata::Low)
    } else if s == "MEDIUM"@ {
        Some(FrameStrata::Medium)
    } else if s == "HIGH"@ {
        Some(FrameStrata::High)
    } else if s == "DIALOG"@ {
        Some(FrameStrata::Dialog)
    } else if s == "FULLSCREEN"@ {
        Some(FrameStrata::Fullscreen)
    } else if s == "FULLSCREEN_DIALOG"@ {
        Some(FrameStrata::FullscreenDialog)
    } else if s == "TOOLTIP"@ {
        Some(FrameStrata::Tooltip)
    } else {
        None
    }
}

impl FrameStrata {
    pub fn as_str(self) -> (r: &'static str)
        ensures
            r@ == strata_name(self),
    {
        match self {
            FrameStrata::World => "WORLD",
            FrameStrata::Background => "BACKGROUND",
            FrameStrata::Low => "LOW",
            FrameStrata::Medium => "MEDIUM",
            FrameStrata::High => "HIGH",
            FrameStrata::Dialog => "DIALOG",
            FrameStrata::Fullscreen => "FULLSCREEN",
            FrameStrata::FullscreenDialog => "FULLSCREEN_DIALOG",
            FrameStrata::Tooltip => "TOOLTIP",
        }
    }

    pub fn from_str(s: &str) -> (r: Option<Self>)
        ensures
            r == strata_named(s@),
    {
        if str_eq(s, "WORLD") {
            Some(FrameStrata::World)
        } else if str_eq(s, "BACKGROUND") {
            Some(FrameStrata::Background)
        } else if str_eq(s, "LOW") {
            Some(FrameStrata::Low)
        } else if str_eq(s, "MEDIUM") {
            Some(FrameStrata::Medium)
        } else if str_eq(s, "HIGH") {
            Some(FrameStrata::High)
        } else if str_eq(s, "DIALOG") {
            Some(FrameStrata::Dialog)
        } else if str_eq(s, "FULLSCREEN") {
            Some(FrameStrata::Fullscreen)
        } else if str_eq(s, "FULLSCREEN_DIALOG") {
            Some(FrameStrata::FullscreenDialog)
        } else if str_eq(s, "TOOLTIP") {
            Some(FrameStrata::Tooltip)
        } else {
            None
        }
    }
}

impl Default for FrameStrata {
    fn default() -> (r: Self)
        ensures
            r == FrameStrata::Medium,
    {
        FrameStrata::Medium
    }
}

/// WoW draw layer levels controlling render order within a single frame.
/// Higher layers render on top of lower ones within the same strata.
#[derive(Debug, Clone, Copy, PartialEq, Eq, Structural, Hash, PartialOrd, Ord)]
pub enum DrawLayer {
    Background,
    Border,
    Artwork,
    Overlay,
    Highlight,
}

/// The name under which a draw layer appears in WoW's XML and in RSX attributes.
pub open spec fn layer_name(l: DrawLayer) -> Seq<char> {
    match l {
        DrawLayer::Background => "BACKGROUND"@,
        DrawLayer::Border => "BORDER"@,
        DrawLayer::Artwork => "ARTWORK"@,
        DrawLayer::Overlay => "OVERLAY"@,
        DrawLayer::Highlight => "HIGHLIGHT"@,
    }
}

/// The draw layer whose name is `s`, if any.
pub open spec fn layer_named(s: Seq<char>) -> Option<DrawLayer> {
    if s == "BACKGROUND"@ {
        Some(DrawLayer::Background)
    } else if s == "BORDER"@ {
        Some(DrawLayer::Border)
    } else if s == "ARTWORK"@ {
        Some(DrawLayer::Artwork)
    } else if s == "OVERLAY"@ {
        Some(DrawLayer::Overlay)
    } else if s == "HIGHLIGHT"@ {
        Some(DrawLayer::Highlight)
    } else {
        None
    }
}

impl DrawLayer {
    pub fn as_str(self) -> (r: &'static str)
        ensures
            r@ == layer_name(self),
    {
        match self {
            DrawLayer::Background => "BACKGROUND",
            DrawLayer::Border => "BORDER",
            DrawLayer::Artwork => "ARTWORK",
            DrawLayer::Overlay => "OVERLAY",
            DrawLayer::Highlight => "HIGHLIGHT",
        }
    }

    pub fn from_str(s: &str) -> (r: Option<Self>)
        ensures
            r == layer_named(s@),
    {
        if str_eq(s, "BACKGROUND") {
            Some(DrawLayer::Background)
        } else if str_eq(s, "BORDER") {
            Some(DrawLayer::Border)
        } else if str_eq(s, "ARTWORK") {
            Some(DrawLayer::Artwork)
        } else if str_eq(s, "OVERLAY") {
            Some(DrawLayer::Overlay)
        } else if str_eq(s, "HIGHLIGHT") {
            Some(DrawLayer::Highlight)
        } else {
            None
        }
    }
}

impl Default for DrawLayer {
    fn default() -> (r: Self)
        ensures
            r == DrawLayer::Artwork,
    {
        DrawLayer::Artwork
    }
}

/// Reading back the name of a stratum gives the stratum: `from_str(as_str(s)) == Some(s)`.
pub proof fn strata_name_round_trip(s: FrameStrata)
    ensures
        strata_named(strata_name(s)) == Some(s),
{
    reveal_strlit("WORLD");
    reveal_strlit("BACKGROUND");
    reveal_strlit("LOW");
    reveal_strlit("MEDIUM");
    reveal_strlit("HIGH");
    reveal_strlit("DIALOG");
    reveal_strlit("FULLSCREEN");
    reveal_strlit("FULLSCREEN_DIALOG");
    reveal_strlit("TOOLTIP");
    assert("BACKGROUND"@[0] != "FULLSCREEN"@[0]);
    assert("MEDIUM"@[0] != "DIALOG"@[0]);
    assert("WORLD"@.len() == 5 && "BACKGROUND"@.len() == 10 && "LOW"@.len() == 3);
    assert("MEDIUM"@.len() == 6 && "HIGH"@.len() == 4 && "DIALOG"@.len() == 6);
    assert("FULLSCREEN"@.len() == 10 && "FULLSCREEN_DIALOG"@.len() == 17);
    assert("TOOLTIP"@.len() == 7);
}

/// A name that parses to a stratum is that stratum's name: `as_str(from_str(n)) == n`.
pub proof fn strata_named_round_trip(n: Seq<char>)
    ensures
        strata_named(n) matches Some(s) ==> strata_name(s) == n,
{
}

/// Reading back the name of a draw layer gives the layer: `from_str(as_str(l)) == Some(l)`.
pub proof fn layer_name_round_trip(l: DrawLayer)
    ensures
        layer_named(layer_name(l)) == Some(l),
{
    reveal_strlit("BACKGROUND");
    reveal_strlit("BORDER");
    reveal_strlit("ARTWORK");
    reveal_strlit("OVERLAY");
    reveal_strlit("HIGHLIGHT");
    assert("BACKGROUND"@.len() == 10 && "BORDER"@.len() == 6 && "ARTWORK"@.len() == 7);
    assert("OVERLAY"@.len() == 7 && "HIGHLIGHT"@.len() == 9);
    assert("ARTWORK"@[0] != "OVERLAY"@[0]);
}

/// A name that parses to a draw layer is that layer's name.
pub proof fn layer_named_round_trip(n: Seq<char>)
    ensures
        layer_named(n) matches Some(l) ==> layer_name(l) == n,
{
}

} // verus!
