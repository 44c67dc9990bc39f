//! Looping and easing choices of animations.
use vstd::prelude::*;

verus! {

/// What an animation group does when it reaches its end.
#[derive(Debug, Clone, Copy, PartialEq, Eq, Structural)]
pub enum LoopType {
    /// Play once and stop (named `None` in WoW).
    NoLoop,
    Repeat,
    Bounce,
}

/// The easing curve of an animation.
#[derive(Debug, Clone, Copy, PartialEq, Eq, Structural)]
pub enum Smoothing {
    /// Linear progress (named `None` in WoW).
    NoSmoothing,
    In,
    Out,
    InOut,
}

} // verus!
