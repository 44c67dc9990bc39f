//! Slider and status bar layout choices.
use vstd::prelude::*;

verus! {

/// The axis along which a slider or status bar runs.
#[derive(Debug, Clone, Copy, PartialEq, Eq, Structural)]
pub enum Orientation {
    Horizontal,
    Vertical,
}

/// How a status bar fills as its value grows.
#[derive(Debug, Clone, Copy, PartialEq, Eq, Structural)]
pub enum FillStyle {
    Standard,
    Center,
}

/// The name of an orientation, as its variant is spelled.
pub open spec fn orientation_name(o: Orientation) -> Seq<char> {
    match o {
        Orientation::Horizontal => "Horizontal"@,
        Orientation::Vertical => "Vertical"@,
    }
}

/// The name of a fill style, as its variant is spelled.
pub open spec fn fill_style_name(f: FillStyle) -> Seq<char> {
    match f {
        FillStyle::Standard => "Standard"@,
        FillStyle::Center => "Center"@,
    }
}

} // verus!
