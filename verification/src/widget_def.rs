//! Core types for the custom RSX widget definition tree.
//! These replace Dioxus's VNode/Template types with a simpler representation
//! that can be produced by both a compile-time macro and the runtime parser
//! of `hotreload::parser`.
use vstd::prelude::*;

verus! {

/// A widget definition — one UI element with attributes, anchors, and children.
pub struct WidgetDef {
    /// Tag name from compile-time macro (e.g. "Frame", "Button").
    pub tag: &'static str,
    /// Tag name from runtime parser (hot-reload). Takes precedence over `tag` when set.
    pub tag_owned: Option<String>,
    /// Frame name for registry lookup.
    pub name: Option<String>,
    /// Attributes to apply to the frame.
    pub attrs: Vec<Attr>,
    /// Anchor pseudo-elements (positioning, NOT children).
    pub anchors: Vec<AnchorDef>,
    /// Child widgets.
    pub children: Vec<WidgetChild>,
}

/// A single attribute on a widget.
pub struct Attr {
    /// Attribute name from compile-time macro.
    pub name: &'static str,
    /// Attribute name from runtime parser. Takes precedence over `name` when set.
    pub name_owned: Option<String>,
    /// The attribute value.
    pub value: AttrValue,
}

/// Attribute value — either a static literal (hot-reloadable) or a dynamic expression result.
pub enum AttrValue {
    /// Literal string value (hot-reloadable).
    Static(String),
    /// Value produced by evaluating an expression at runtime (not hot-reloadable).
    Dynamic(String),
}

/// A child in the widget tree.
pub enum WidgetChild {
    /// A concrete widget definition.
    Widget(WidgetDef),
    /// A fragment — multiple children from a sub-function or conditional.
    Fragment(Vec<WidgetChild>),
    /// Placeholder for runtime-opaque dynamic content.
    Dynamic,
}

/// Anchor positioning definition (pseudo-element, not a frame).
pub struct AnchorDef {
    pub point: String,
    pub relative_to: String,
    pub relative_point: String,
    pub x: String,
    pub y: String,
}

/// Return type alias for RSX functions.
pub type Element = Vec<WidgetChild>;

// ---------------------------------------------------------------------------
// Mathematical models
// ---------------------------------------------------------------------------

/// The value of an attribute, as text.
pub enum AttrValueModel {
    Static(Seq<char>),
    Dynamic(Seq<char>),
}

/// An attribute: its compile-time name, its runtime name (if any) and its value.
pub struct AttrModel {
    pub name: Seq<char>,
    pub name_owned: Option<Seq<char>>,
    pub value: AttrValueModel,
}

/// An anchor definition, all five fields as text.
pub struct AnchorDefModel {
    pub point: Seq<char>,
    pub relative_to: Seq<char>,
    pub relative_point: Seq<char>,
    pub x: Seq<char>,
    pub y: Seq<char>,
}

/// A widget definition with every string taken as its characters.
pub struct WidgetDefModel {
    pub tag: Seq<char>,
    pub tag_owned: Option<Seq<char>>,
    pub name: Option<Seq<char>>,
    pub attrs: Seq<AttrModel>,
    pub anchors: Seq<AnchorDefModel>,
    pub children: Seq<WidgetChildModel>,
}

/// A child of the widget tree.
pub enum WidgetChildModel {
    Widget(WidgetDefModel),
    Fragment(Seq<WidgetChildModel>),
    Dynamic,
}

pub open spec fn opt_string_model(o: Option<String>) -> Option<Seq<char>> {
    match o {
        Some(s) => Some(s@),
        None => None,
    }
}

impl View for AttrValue {
    type V = AttrValueModel;

    open spec fn view(&self) -> AttrValueModel {
        match self {
            AttrValue::Static(s) => AttrValueModel::Static(s@),
            AttrValue::Dynamic(s) => AttrValueModel::Dynamic(s@),
        }
    }
}

impl View for Attr {
    type V = AttrModel;

    open spec fn view(&self) -> AttrModel {
        AttrModel {
            name: self.name@,
            name_owned: opt_string_model(self.name_owned),
            value: self.value@,
        }
    }
}

impl View for AnchorDef {
    type V = AnchorDefModel;

    open spec fn view(&self) -> AnchorDefModel {
        AnchorDefModel {
            point: self.point@,
            relative_to: self.relative_to@,
            relative_point: self.relative_point@,
            x: self.x@,
            y: self.y@,
        }
    }
}

pub open spec fn attrs_model(v: Seq<Attr>) -> Seq<AttrModel> {
    v.map_values(|a: Attr| a@)
}

pub open spec fn anchors_model(v: Seq<AnchorDef>) -> Seq<AnchorDefModel> {
    v.map_values(|a: AnchorDef| a@)
}

/// The model of a widget definition.
pub open spec fn def_model(d: WidgetDef) -> WidgetDefModel
    decreases d,
{
    WidgetDefModel {
        tag: d.tag@,
        tag_owned: opt_string_model(d.tag_owned),
        name: opt_string_model(d.name),
        attrs: attrs_model(d.attrs@),
        anchors: anchors_model(d.anchors@),
        children: children_model(d.children@),
    }
}

/// The models of a sequence of children.
pub open spec fn children_model(v: Seq<WidgetChild>) -> Seq<WidgetChildModel>
    decreases v,
{
    Seq::new(
        v.len(),
        |i: int|
            {
                if 0 <= i < v.len() {
                    child_model(v[i])
                } else {
                    WidgetChildModel::Dynamic
                }
            },
    )
}

/// The model of one child.
pub open spec fn child_model(c: WidgetChild) -> WidgetChildModel
    decreases c,
{
    match c {
        WidgetChild::Widget(d) => WidgetChildModel::Widget(def_model(d)),
        WidgetChild::Fragment(kids) => WidgetChildModel::Fragment(children_model(kids@)),
        WidgetChild::Dynamic => WidgetChildModel::Dynamic,
    }
}

/// The name under which an attribute is applied: the runtime name when set.
pub open spec fn effective_name_of(a: AttrModel) -> Seq<char> {
    match a.name_owned {
        Some(n) => n,
        None => a.name,
    }
}

/// The text of an attribute value, whichever its kind.
pub open spec fn value_text(v: AttrValueModel) -> Seq<char> {
    match v {
        AttrValueModel::Static(s) => s,
        AttrValueModel::Dynamic(s) => s,
    }
}

/// The tag under which a widget is created: the runtime tag when set.
pub open spec fn effective_tag_of(d: WidgetDefModel) -> Seq<char> {
    match d.tag_owned {
        Some(t) => t,
        None => d.tag,
    }
}

impl WidgetDef {
    pub fn new(tag: &'static str) -> (r: Self)
        ensures
            r.tag == tag,
            r.tag_owned is None,
            r.name is None,
            r.attrs@.len() == 0,
            r.anchors@.len() == 0,
            r.children@.len() == 0,
    {
        WidgetDef {
            tag,
            tag_owned: None,
            name: None,
            attrs: Vec::new(),
            anchors: Vec::new(),
            children: Vec::new(),
        }
    }

    /// Get the effective tag name (owned takes precedence).
    pub fn effective_tag(&self) -> (r: &str)
        ensures
            r@ == effective_tag_of(def_model(*self)),
    {
        match &self.tag_owned {
            Some(t) => t.as_str(),
            None => self.tag,
        }
    }
}

impl Attr {
    pub fn new_static(name: &'static str, value: String) -> (r: Self)
        ensures
            r.name == name,
            r.name_owned is None,
            r.value@ == AttrValueModel::Static(value@),
    {
        Attr { name, name_owned: None, value: AttrValue::Static(value) }
    }

    pub fn new_dynamic(name: &'static str, value: String) -> (r: Self)
        ensures
            r.name == name,
            r.name_owned is None,
            r.value@ == AttrValueModel::Dynamic(value@),
    {
        Attr { name, name_owned: None, value: AttrValue::Dynamic(value) }
    }

    /// Get the effective attribute name (owned takes precedence).
    pub fn effective_name(&self) -> (r: &str)
        ensures
            r@ == effective_name_of(self@),
    {
        match &self.name_owned {
            Some(n) => n.as_str(),
            None => self.name,
        }
    }

    /// Get the value as a string regardless of variant.
    pub fn value_str(&self) -> (r: &str)
        ensures
            r@ == value_text(self@.value),
    {
        match &self.value {
            AttrValue::Static(s) => s.as_str(),
            AttrValue::Dynamic(s) => s.as_str(),
        }
    }
}

/// The anchor that an `anchor {}` element without attributes describes:
/// its center on its parent's center, with no offset.
pub open spec fn default_anchor() -> AnchorDefModel {
    AnchorDefModel {
        point: "CENTER"@,
        relative_to: "$parent"@,
        relative_point: "CENTER"@,
        x: "0"@,
        y: "0"@,
    }
}

impl Default for AnchorDef {
    fn default() -> (r: Self)
        ensures
            r@ == default_anchor(),
    {
        AnchorDef {
            point: String::from_str("CENTER"),
            relative_to: String::from_str("$parent"),
            relative_point: String::from_str("CENTER"),
            x: String::from_str("0"),
            y: String::from_str("0"),
        }
    }
}

} // verus!
