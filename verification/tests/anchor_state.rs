use ui_toolkit::anchor_resolve::AnchorState;
use ui_toolkit::dioxus_anchor::AnchorState as TemplateAnchorState;

#[test]
fn anchor_state_starts_centered_on_parent() {
    let s = AnchorState::new();
    assert_eq!(s.to_spec(), "CENTER,$parent,CENTER,0,0");
    assert_eq!(s.relative_to(), "$parent");
}

#[test]
fn anchor_state_sets_named_fields_only() {
    let mut s = AnchorState::new();
    s.set("point", "TOPLEFT");
    s.set("x", "12.5");
    s.set("relative_to", "Minimap");
    s.set("width", "100");
    assert_eq!(s.to_spec(), "TOPLEFT,Minimap,CENTER,12.5,0");
    assert_eq!(s.relative_to(), "Minimap");
    s.set("y", "-3");
    s.set("relative_point", "BOTTOM");
    assert_eq!(s.to_spec(), "TOPLEFT,Minimap,BOTTOM,12.5,-3");
}

#[test]
fn template_anchor_state_counts_dynamic_attrs() {
    let mut s = TemplateAnchorState::new(2);
    assert_eq!(s.remaining_dynamic, 2);
    s.set("relative_point", "TOP");
    assert_eq!(s.remaining_dynamic, 2);
    assert_eq!(s.to_spec(), "CENTER,$parent,TOP,0,0");
    s.set("bogus", "x");
    assert_eq!(s.to_spec(), "CENTER,$parent,TOP,0,0");
    assert_eq!(s.relative_to, "$parent");
}
