use ui_toolkit::hotreload::parser::{parse_const_declarations, parse_rsx_blocks};
use ui_toolkit::widget_def::{Attr, AttrValue, WidgetChild};

fn find_attr<'a>(attrs: &'a [Attr], name: &str) -> Option<&'a str> {
    attrs
        .iter()
        .find(|a| a.effective_name() == name)
        .map(|a| a.value_str())
}

#[test]
fn parse_simple_element() {
    let source = r#"rsx! { frame { name: "Foo", width: 320.0 } }"#;
    let templates = parse_rsx_blocks(source, "test.rs");
    assert_eq!(templates.len(), 1);
    assert_eq!(templates[0].defs.len(), 1);
    let WidgetChild::Widget(ref w) = templates[0].defs[0] else {
        panic!("expected Widget")
    };
    assert_eq!(w.effective_tag(), "frame");
    assert_eq!(find_attr(&w.attrs, "name"), Some("Foo"));
    assert_eq!(find_attr(&w.attrs, "width"), Some("320.0"));
}

#[test]
fn parse_nested_children() {
    let source = r#"rsx! {
            frame {
                name: "Outer",
                frame {
                    name: "Inner",
                }
            }
        }"#;
    let templates = parse_rsx_blocks(source, "test.rs");
    assert_eq!(templates.len(), 1);
    let WidgetChild::Widget(ref outer) = templates[0].defs[0] else {
        panic!()
    };
    assert_eq!(outer.children.len(), 1);
    let WidgetChild::Widget(ref inner) = outer.children[0] else {
        panic!()
    };
    assert_eq!(find_attr(&inner.attrs, "name"), Some("Inner"));
}

#[test]
fn parse_anchor_pseudo_element() {
    let source = r#"rsx! {
            frame {
                name: "Anchored",
                anchor {
                    point: AnchorPoint::Center,
                    relative_to: "$parent",
                    relative_point: AnchorPoint::Center,
                    x: 0.0,
                    y: 0.0,
                }
            }
        }"#;
    let templates = parse_rsx_blocks(source, "test.rs");
    let WidgetChild::Widget(ref frame) = templates[0].defs[0] else {
        panic!()
    };
    assert_eq!(frame.anchors.len(), 1);
    assert_eq!(frame.anchors[0].point, "CENTER");
    assert_eq!(frame.anchors[0].relative_to, "$parent");
    assert_eq!(frame.anchors[0].relative_point, "CENTER");
}

#[test]
fn parse_const_resolution() {
    let source = r#"
const MY_FRAME: FrameName = FrameName("LoginScreen");
fn build() -> Element { rsx! { frame { name: MY_FRAME } } }
"#;
    let templates = parse_rsx_blocks(source, "test.rs");
    assert_eq!(templates.len(), 1);
    let WidgetChild::Widget(ref w) = templates[0].defs[0] else {
        panic!()
    };
    assert_eq!(find_attr(&w.attrs, "name"), Some("LoginScreen"));
}

#[test]
fn parse_enum_variants() {
    let source = r#"rsx! { frame { strata: FrameStrata::Dialog, justify_h: JustifyH::Left } }"#;
    let templates = parse_rsx_blocks(source, "test.rs");
    let WidgetChild::Widget(ref w) = templates[0].defs[0] else {
        panic!()
    };
    assert_eq!(find_attr(&w.attrs, "strata"), Some("Dialog"));
    assert_eq!(find_attr(&w.attrs, "justify_h"), Some("LEFT"));
}

#[test]
fn parse_bool_and_number() {
    let source =
        r#"rsx! { frame { hidden: false, mouse_enabled: false, alpha: 0.5, frame_level: 3 } }"#;
    let templates = parse_rsx_blocks(source, "test.rs");
    let WidgetChild::Widget(ref w) = templates[0].defs[0] else {
        panic!()
    };
    assert_eq!(find_attr(&w.attrs, "hidden"), Some("false"));
    assert_eq!(find_attr(&w.attrs, "mouse_enabled"), Some("false"));
    assert_eq!(find_attr(&w.attrs, "alpha"), Some("0.5"));
    assert_eq!(find_attr(&w.attrs, "frame_level"), Some("3"));
}

#[test]
fn dynamic_expressions_produce_dynamic_child() {
    let source = r#"rsx! { frame { { some_var } } }"#;
    let templates = parse_rsx_blocks(source, "test.rs");
    let WidgetChild::Widget(ref w) = templates[0].defs[0] else {
        panic!()
    };
    assert_eq!(w.children.len(), 1);
    assert!(matches!(w.children[0], WidgetChild::Dynamic));
}

// ---------------------------------------------------------------------------

#[test]
fn template_key_gives_line_and_byte_column() {
    let source = "fn a() {}\n  // é\n    rsx! { frame {} }\n";
    let templates = parse_rsx_blocks(source, "ui/login.rs");
    assert_eq!(templates.len(), 1);
    assert_eq!(templates[0].key.0, "ui/login.rs");
    assert_eq!(templates[0].key.1, 3);
    assert_eq!(templates[0].key.2, 5);
    let source = "// é é\nlet x = 1; rsx! { frame {} }";
    let templates = parse_rsx_blocks(source, "f.rs");
    assert_eq!(templates[0].key.1, 2);
    assert_eq!(templates[0].key.2, 12);
    let source = "/* éé */ rsx! { frame {} }";
    let templates = parse_rsx_blocks(source, "f.rs");
    assert_eq!(templates[0].key.1, 1);
    assert_eq!(templates[0].key.2, 12);
}

#[test]
fn blocks_without_braces_are_skipped() {
    let source = "rsx!(frame) rsx! { } rsx! { frame { name: \"A\" } } rsx! {";
    let templates = parse_rsx_blocks(source, "t.rs");
    assert_eq!(templates.len(), 2);
    assert_eq!(templates[0].defs.len(), 0);
    assert_eq!(templates[1].defs.len(), 1);
}

#[test]
fn several_blocks_in_one_file() {
    let source = "rsx! { frame {} }\nrsx! { button {} texture {} }";
    let templates = parse_rsx_blocks(source, "t.rs");
    assert_eq!(templates.len(), 2);
    assert_eq!(templates[1].defs.len(), 2);
    assert_eq!(templates[1].key.1, 2);
    assert_eq!(templates[1].key.2, 1);
    let WidgetChild::Widget(ref b) = templates[1].defs[0] else {
        panic!()
    };
    assert_eq!(b.effective_tag(), "button");
    assert_eq!(b.tag, "");
}

#[test]
fn element_name_comes_from_name_attribute() {
    let source = r#"rsx! { frame { width: 10, name: "Main", name: "Second" } }"#;
    let templates = parse_rsx_blocks(source, "t.rs");
    let WidgetChild::Widget(ref w) = templates[0].defs[0] else {
        panic!()
    };
    assert_eq!(w.name.as_deref(), Some("Main"));
    assert_eq!(w.attrs.len(), 3);
    assert!(w.attrs.iter().all(|a| matches!(a.value, AttrValue::Static(_))));
    assert!(w.attrs.iter().all(|a| a.name == ""));
}

#[test]
fn string_escapes_are_resolved() {
    let source = r#"rsx! { frame { text: "a\"b\\c\nd\qe" } }"#;
    let templates = parse_rsx_blocks(source, "t.rs");
    let WidgetChild::Widget(ref w) = templates[0].defs[0] else {
        panic!()
    };
    assert_eq!(find_attr(&w.attrs, "text"), Some("a\"b\\c\nd\\qe"));
}

#[test]
fn unknown_values_are_skipped() {
    let source = r#"rsx! { frame { width: compute(1, 2), onclick: move |_| go(), height: -4., alpha: .5 } }"#;
    let templates = parse_rsx_blocks(source, "t.rs");
    let WidgetChild::Widget(ref w) = templates[0].defs[0] else {
        panic!()
    };
    assert_eq!(find_attr(&w.attrs, "width"), None);
    assert_eq!(find_attr(&w.attrs, "onclick"), None);
    assert_eq!(find_attr(&w.attrs, "height"), Some("-4"));
    assert_eq!(find_attr(&w.attrs, "alpha"), None);
}

#[test]
fn known_identifiers_are_resolved() {
    let source = r#"rsx! { fontstring {
        font: GameFont::FrizQuadrata,
        layer: DrawLayer::Overlay,
        color: FontColor::new(1.0, (0.5), 0.2),
        point: AnchorPoint::BottomRight,
        other: AnchorPoint::Middle,
        flag: trueish,
        yes: true,
    } }"#;
    let templates = parse_rsx_blocks(source, "t.rs");
    let WidgetChild::Widget(ref w) = templates[0].defs[0] else {
        panic!()
    };
    assert_eq!(find_attr(&w.attrs, "font"), Some("FrizQuadrata"));
    assert_eq!(find_attr(&w.attrs, "layer"), Some("Overlay"));
    assert_eq!(find_attr(&w.attrs, "color"), Some("1.0, (0.5), 0.2"));
    assert_eq!(find_attr(&w.attrs, "point"), Some("BOTTOMRIGHT"));
    assert_eq!(find_attr(&w.attrs, "other"), Some("Middle"));
    assert_eq!(find_attr(&w.attrs, "flag"), None);
    assert_eq!(find_attr(&w.attrs, "yes"), Some("true"));
}

#[test]
fn conditional_blocks_are_dynamic() {
    let source = r#"rsx! { frame {
        if show { frame { name: "A" } } else { frame { name: "B" } }
        button { name: "C" }
    } }"#;
    let templates = parse_rsx_blocks(source, "t.rs");
    let WidgetChild::Widget(ref w) = templates[0].defs[0] else {
        panic!()
    };
    assert_eq!(w.children.len(), 2);
    assert!(matches!(w.children[0], WidgetChild::Dynamic));
    let WidgetChild::Widget(ref b) = w.children[1] else {
        panic!()
    };
    assert_eq!(b.name.as_deref(), Some("C"));
}

#[test]
fn anchors_leave_the_children() {
    let source = r#"rsx! { frame {
        anchor { point: AnchorPoint::TopLeft, x: 4 }
        frame {}
        anchor { relative_to: "Other" }
    } }"#;
    let templates = parse_rsx_blocks(source, "t.rs");
    let WidgetChild::Widget(ref w) = templates[0].defs[0] else {
        panic!()
    };
    assert_eq!(w.children.len(), 1);
    assert_eq!(w.anchors.len(), 2);
    assert_eq!(w.anchors[0].point, "TOPLEFT");
    assert_eq!(w.anchors[0].x, "4");
    assert_eq!(w.anchors[0].relative_to, "$parent");
    assert_eq!(w.anchors[1].relative_to, "Other");
    assert_eq!(w.anchors[1].point, "CENTER");
    assert_eq!(w.anchors[1].y, "0");
}

#[test]
fn top_level_anchor_stays_an_element() {
    let source = r#"rsx! { anchor { point: AnchorPoint::Top } }"#;
    let templates = parse_rsx_blocks(source, "t.rs");
    let WidgetChild::Widget(ref a) = templates[0].defs[0] else {
        panic!()
    };
    assert_eq!(a.effective_tag(), "anchor");
    assert_eq!(find_attr(&a.attrs, "point"), Some("TOP"));
    assert_eq!(a.name, None);
    assert!(a.children.is_empty());
}

#[test]
fn const_declarations_in_order() {
    let source = r#"
const A: &str = "alpha";
const B: FrameName = FrameName( "beta");
const C: u32 = 3;
const D_2: Color = Color("x\ty");
const = "nameless";
"#;
    let consts = parse_const_declarations(source);
    assert_eq!(
        consts,
        vec![
            ("A".to_string(), "alpha".to_string()),
            ("B".to_string(), "beta".to_string()),
            ("C".to_string(), "x\ty".to_string()),
            ("D_2".to_string(), "x\ty".to_string()),
        ]
    );
}

#[test]
fn const_names_may_hold_unicode_letters() {
    let consts = parse_const_declarations("const NAMÉ: &str = \"v\";");
    assert_eq!(consts, vec![("NAMÉ".to_string(), "v".to_string())]);
    assert!(parse_const_declarations("no constants here").is_empty());
}
