//! Texture blending.
use vstd::prelude::*;

verus! {

/// How a texture is blended with what lies below it.
#[derive(Debug, Clone, Copy, PartialEq, Eq, Structural)]
pub enum BlendMode {
    AlphaKey,
    Additive,
}

} // verus!
