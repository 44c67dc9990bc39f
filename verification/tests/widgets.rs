use ui_toolkit::animation::{LoopType, Smoothing};
use ui_toolkit::dioxus_elements::tag_to_widget_type;
use ui_toolkit::frame::{FlexAlign, FlexDirection, FlexJustify, WidgetType};
use ui_toolkit::widgets::font_string::{GameFont, JustifyH};

#[test]
fn fonts_and_their_files() {
    assert_eq!(GameFont::from_attr("ArialNarrow"), GameFont::ArialNarrow);
    assert_eq!(GameFont::from_attr("FrizQuadrata"), GameFont::FrizQuadrata);
    assert_eq!(GameFont::from_attr("Comic"), GameFont::FrizQuadrata);
    assert!(GameFont::ArialNarrow.path().ends_with("ARIALN.ttf"));
    assert!(GameFont::FrizQuadrata.path().ends_with("FRIZQT__.TTF"));
    assert_eq!(GameFont::default(), GameFont::FrizQuadrata);
}

#[test]
fn justify_h_names() {
    assert_eq!(JustifyH::Left.as_str(), "LEFT");
    assert_eq!(JustifyH::Center.as_str(), "CENTER");
    assert_eq!(JustifyH::Right.as_str(), "RIGHT");
}

#[test]
fn element_tags_to_widget_types() {
    assert_eq!(tag_to_widget_type("Frame"), Some(WidgetType::Frame));
    assert_eq!(tag_to_widget_type("label"), Some(WidgetType::FontString));
    assert_eq!(tag_to_widget_type("CheckButton"), Some(WidgetType::CheckButton));
    assert_eq!(tag_to_widget_type("GameTooltip"), Some(WidgetType::GameTooltip));
    assert_eq!(tag_to_widget_type("checkbutton"), None);
    assert_eq!(tag_to_widget_type("panel"), None);
}

#[test]
fn layout_defaults() {
    assert_eq!(WidgetType::default(), WidgetType::Frame);
    assert_eq!(FlexDirection::default(), FlexDirection::Column);
    assert_eq!(FlexAlign::default(), FlexAlign::Center);
    assert_eq!(FlexJustify::default(), FlexJustify::Start);
    assert_ne!(LoopType::NoLoop, LoopType::Repeat);
    assert_ne!(Smoothing::NoSmoothing, Smoothing::In);
}
