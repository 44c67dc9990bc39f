//! Per-widget value types.
pub mod button;
pub mod edit_box;
pub mod font_string;
pub mod slider;
pub mod texture;
