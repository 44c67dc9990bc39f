//! Fonts and text layout choices of font strings.
use vstd::prelude::*;

use crate::text::str_eq;

verus! {

/// The fonts that the UI ships with.
#[derive(Debug, Clone, Copy, PartialEq, Eq, Structural, Hash)]
pub enum GameFont {
    FrizQuadrata,
    ArialNarrow,
}

/// Where the file of each font lies.
pub open spec fn font_path(f: GameFont) -> Seq<char> {
    match f {
        GameFont::FrizQuadrata => "/home/osso/Projects/wow/wow-ui-sim/fonts/FRIZQT__.TTF"@,
        GameFont::ArialNarrow => "/home/osso/Projects/wow/wow-ui-sim/fonts/ARIALN.ttf"@,
    }
}

/// The name of a font, as its variant is spelled.
pub open spec fn font_name(f: GameFont) -> Seq<char> {
    match f {
        GameFont::FrizQuadrata => "FrizQuadrata"@,
        GameFont::ArialNarrow => "ArialNarrow"@,
    }
}

/// The font that an attribute value names; any other value names the default font.
pub open spec fn font_from_attr(s: Seq<char>) -> GameFont {
    if s == "FrizQuadrata"@ {
        GameFont::FrizQuadrata
    } else if s == "ArialNarrow"@ {
        GameFont::ArialNarrow
    } else {
        GameFont::FrizQuadrata
    }
}

impl GameFont {
    pub fn path(self) -> (r: &'static str)
        ensures
            r@ == font_path(self),
    {
        match self {
            GameFont::FrizQuadrata => "/home/osso/Projects/wow/wow-ui-sim/fonts/FRIZQT__.TTF",
            GameFont::ArialNarrow => "/home/osso/Projects/wow/wow-ui-sim/fonts/ARIALN.ttf",
        }
    }

    pub fn from_attr(s: &str) -> (r: Self)
        ensures
            r == font_from_attr(s@),
    {
        if str_eq(s, "FrizQuadrata") {
            GameFont::FrizQuadrata
        } else if str_eq(s, "ArialNarrow") {
            GameFont::ArialNarrow
        } else {
            GameFont::default()
        }
    }
}

impl Default for GameFont {
    fn default() -> (r: Self)
        ensures
            r == GameFont::FrizQuadrata,
    {
        GameFont::FrizQuadrata
    }
}

/// Horizontal justification of text.
#[derive(Debug, Clone, Copy, PartialEq, Eq, Structural)]
pub enum JustifyH {
    Left,
    Center,
    Right,
}

pub open spec fn justify_h_name(j: JustifyH) -> Seq<char> {
    match j {
        JustifyH::Left => "LEFT"@,
        JustifyH::Center => "CENTER"@,
        JustifyH::Right => "RIGHT"@,
    }
}

/// The name of a horizontal justification, as its variant is spelled.
pub open spec fn justify_h_variant(j: JustifyH) -> Seq<char> {
    match j {
        JustifyH::Left => "Left"@,
        JustifyH::Center => "Center"@,
        JustifyH::Right => "Right"@,
    }
}

impl JustifyH {
    pub fn as_str(self) -> (r: &'static str)
        ensures
            r@ == justify_h_name(self),
    {
        match self {
            JustifyH::Left => "LEFT",
            JustifyH::Center => "CENTER",
            JustifyH::Right => "RIGHT",
        }
    }
}

/// Vertical justification of text.
#[derive(Debug, Clone, Copy, PartialEq, Eq, Structural)]
pub enum JustifyV {
    Top,
    Middle,
    Bottom,
}

/// Outline drawn around the glyphs of a font string.
#[derive(Debug, Clone, Copy, PartialEq, Eq, Structural)]
pub enum Outline {
    /// No outline (named `None` in WoW).
    NoOutline,
    Outline,
    ThickOutline,
}

/// Each font is read back from its variant name, and a value read as
/// anything but the default font is the other font's variant name.
pub proof fn font_names_round_trip(f: GameFont, v: Seq<char>)
    ensures
        font_from_attr(font_name(f)) == f,
        font_from_attr(v) != GameFont::FrizQuadrata ==> v == font_name(font_from_attr(v)),
{
    reveal_strlit("ArialNarrow");
    reveal_strlit("FrizQuadrata");
    assert("ArialNarrow"@.len() != "FrizQuadrata"@.len());
}

} // verus!
