//! Hot reload of RSX templates: a runtime parser for the `rsx! { ... }`
//! blocks of a source file.
use vstd::prelude::*;

use crate::widget_def::{children_model, WidgetChild, WidgetChildModel};

pub mod parser;

verus! {

/// A hot-reloaded RSX template identified by source location.
pub struct HotReloadTemplate {
    /// Source location key: (file_path, line, column).
    pub key: (String, u32, u32),
    /// Parsed widget tree (static values only).
    pub defs: Vec<WidgetChild>,
}

/// A template with its file path and widget tree taken as mathematical values.
pub struct TemplateModel {
    pub file: Seq<char>,
    pub line: u32,
    pub column: u32,
    pub defs: Seq<WidgetChildModel>,
}

pub open spec fn template_model(t: HotReloadTemplate) -> TemplateModel {
    TemplateModel { file: t.key.0@, line: t.key.1, column: t.key.2, defs: children_model(t.defs@) }
}

pub open spec fn templates_model(v: Seq<HotReloadTemplate>) -> Seq<TemplateModel> {
    v.map_values(|t: HotReloadTemplate| template_model(t))
}

} // verus!
