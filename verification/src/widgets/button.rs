//! Button states.
use vstd::prelude::*;

verus! {

/// The state a button is drawn in.
#[derive(Debug, Clone, Copy, PartialEq, Eq, Structural)]
pub enum ButtonState {
    Normal,
    Pushed,
    Disabled,
}

} // verus!
