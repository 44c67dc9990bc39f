//! Frames, widgets and the RSX hot-reload parser of a WoW-style UI toolkit.
pub mod anchor;
pub mod frame_graph;
pub mod anchor_resolve;
pub mod animation;
pub mod attrs;
pub mod dioxus_anchor;
pub mod dioxus_elements;
pub mod dioxus_hotreload_diff;
pub mod dioxus_renderer;
pub mod event;
pub mod frame;
pub mod hotreload;
pub mod id_sets;
pub mod registry;
pub mod screen;
pub mod strata;
pub mod text;
pub mod widget_def;
pub mod widget_def_diff;
pub mod widgets;
