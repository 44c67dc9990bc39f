use ui_toolkit::attrs::{
    apply_disabled_state, format_outline, is_clearing_texture, is_flag_on, lower_char, parse_bool,
    parse_fill_style, parse_flex_align, parse_flex_direction, parse_flex_justify,
    parse_justify_h, parse_orientation, parse_outline, set_bool, tag_to_widget_type,
};
use ui_toolkit::frame::{FlexAlign, FlexDirection, FlexJustify, WidgetType};
use ui_toolkit::widgets::button::ButtonState;
use ui_toolkit::widgets::font_string::{JustifyH, Outline};
use ui_toolkit::widgets::slider::{FillStyle, Orientation};

#[test]
fn widget_tags_and_aliases() {
    assert_eq!(tag_to_widget_type("frame"), Some(WidgetType::Frame));
    assert_eq!(tag_to_widget_type("r#frame"), Some(WidgetType::Frame));
    assert_eq!(tag_to_widget_type("Panel"), Some(WidgetType::Panel));
    assert_eq!(tag_to_widget_type("editbox"), Some(WidgetType::EditBox));
    assert_eq!(tag_to_widget_type("StatusBar"), Some(WidgetType::StatusBar));
    assert_eq!(tag_to_widget_type("texture"), Some(WidgetType::Texture));
    assert_eq!(tag_to_widget_type("FRAME"), None);
    assert_eq!(tag_to_widget_type("anchor"), None);
}

#[test]
fn booleans_in_three_spellings() {
    assert_eq!(parse_bool("true"), Some(true));
    assert_eq!(parse_bool("TRUE"), Some(true));
    assert_eq!(parse_bool("1"), Some(true));
    assert_eq!(parse_bool("0"), Some(false));
    assert_eq!(parse_bool("FALSE"), Some(false));
    assert_eq!(parse_bool("True"), None);
    assert_eq!(parse_bool("yes"), None);
}

#[test]
fn set_bool_keeps_value_on_unknown_text() {
    let mut b = true;
    set_bool(&mut b, "maybe");
    assert!(b);
    set_bool(&mut b, "false");
    assert!(!b);
    set_bool(&mut b, "1");
    assert!(b);
}

#[test]
fn flex_choices_with_defaults() {
    assert_eq!(parse_flex_direction("flex-row"), FlexDirection::Row);
    assert_eq!(parse_flex_direction("flex-row-wrap"), FlexDirection::RowWrap);
    assert_eq!(parse_flex_direction("column"), FlexDirection::Column);
    assert_eq!(parse_flex_justify("space-between"), FlexJustify::SpaceBetween);
    assert_eq!(parse_flex_justify("end"), FlexJustify::End);
    assert_eq!(parse_flex_justify("middle"), FlexJustify::Start);
    assert_eq!(parse_flex_align("stretch"), FlexAlign::Stretch);
    assert_eq!(parse_flex_align("start"), FlexAlign::Start);
    assert_eq!(parse_flex_align("baseline"), FlexAlign::Center);
}

#[test]
fn justify_and_outline_names() {
    assert_eq!(parse_justify_h("LEFT"), JustifyH::Left);
    assert_eq!(parse_justify_h("RIGHT"), JustifyH::Right);
    assert_eq!(parse_justify_h("left"), JustifyH::Center);
    assert_eq!(parse_outline("normal"), Outline::Outline);
    assert_eq!(parse_outline("thick"), Outline::ThickOutline);
    assert_eq!(parse_outline("NONE"), Outline::NoOutline);
    assert_eq!(parse_outline("whatever"), Outline::NoOutline);
    assert_eq!(format_outline(Outline::ThickOutline), "THICKOUTLINE");
}

#[test]
fn outline_names_read_back() {
    for o in [Outline::NoOutline, Outline::Outline, Outline::ThickOutline] {
        assert_eq!(parse_outline(&format_outline(o)), o);
    }
}

#[test]
fn justify_names_read_back() {
    for j in [JustifyH::Left, JustifyH::Center, JustifyH::Right] {
        assert_eq!(parse_justify_h(j.as_str()), j);
    }
}

#[test]
fn orientation_and_fill_style() {
    assert_eq!(parse_orientation("Vertical"), Some(Orientation::Vertical));
    assert_eq!(parse_orientation("HORIZONTAL"), Some(Orientation::Horizontal));
    assert_eq!(parse_orientation("diagonal"), None);
    assert_eq!(parse_fill_style("CENTER"), FillStyle::Center);
    assert_eq!(parse_fill_style("REVERSE"), FillStyle::Standard);
    assert_eq!(parse_fill_style("anything"), FillStyle::Standard);
}

#[test]
fn disabled_flag_on_buttons() {
    assert!(is_flag_on("TRUE"));
    assert!(!is_flag_on("false"));
    assert_eq!(apply_disabled_state(ButtonState::Pushed, "1"), ButtonState::Disabled);
    assert_eq!(apply_disabled_state(ButtonState::Disabled, "false"), ButtonState::Normal);
    assert_eq!(apply_disabled_state(ButtonState::Pushed, "false"), ButtonState::Pushed);
    assert_eq!(apply_disabled_state(ButtonState::Disabled, "no"), ButtonState::Normal);
}

#[test]
fn clearing_texture_values() {
    assert!(is_clearing_texture(""));
    assert!(is_clearing_texture("none"));
    assert!(is_clearing_texture("NoNe"));
    assert!(!is_clearing_texture("nones"));
    assert!(!is_clearing_texture("Interface\\Buttons\\Thumb"));
    assert_eq!(lower_char('Q'), 'q');
    assert_eq!(lower_char('é'), 'é');
}
