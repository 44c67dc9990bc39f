use ui_toolkit::widget_def::{AnchorDef, Attr, AttrValue, WidgetDef};

#[test]
fn owned_names_take_precedence() {
    let mut a = Attr::new_static("width", "10".to_string());
    assert_eq!(a.effective_name(), "width");
    assert_eq!(a.value_str(), "10");
    a.name_owned = Some("height".to_string());
    assert_eq!(a.effective_name(), "height");
    let d = Attr::new_dynamic("text", "computed".to_string());
    assert_eq!(d.value_str(), "computed");
    assert!(matches!(d.value, AttrValue::Dynamic(_)));
}

#[test]
fn owned_tags_take_precedence() {
    let mut w = WidgetDef::new("Frame");
    assert_eq!(w.effective_tag(), "Frame");
    assert!(w.attrs.is_empty() && w.anchors.is_empty() && w.children.is_empty());
    assert!(w.name.is_none());
    w.tag_owned = Some("button".to_string());
    assert_eq!(w.effective_tag(), "button");
}

#[test]
fn default_anchor_def() {
    let a = AnchorDef::default();
    assert_eq!(a.point, "CENTER");
    assert_eq!(a.relative_to, "$parent");
    assert_eq!(a.relative_point, "CENTER");
    assert_eq!(a.x, "0");
    assert_eq!(a.y, "0");
}
