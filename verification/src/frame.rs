//! Widget kinds and flex layout choices of frames.
use vstd::prelude::*;

use crate::text::lower_case;

verus! {

/// WoW widget types corresponding to frame XML element names.
#[derive(Debug, Clone, Copy, PartialEq, Eq, Structural, Hash)]
pub enum WidgetType {
    Frame,
    Button,
    CheckButton,
    Texture,
    FontString,
    Line,
    EditBox,
    ScrollFrame,
    Slider,
    Panel,
    StatusBar,
    Cooldown,
    Model,
    PlayerModel,
    ModelScene,
    ColorSelect,
    MessageFrame,
    SimpleHTML,
    GameTooltip,
    Minimap,
}

impl Default for WidgetType {
    fn default() -> (r: Self)
        ensures
            r == WidgetType::Frame,
    {
        WidgetType::Frame
    }
}

/// Flex layout direction.
#[derive(Debug, Clone, Copy, PartialEq, Eq, Structural)]
pub enum FlexDirection {
    Column,
    Row,
    RowWrap,
}

impl Default for FlexDirection {
    fn default() -> (r: Self)
        ensures
            r == FlexDirection::Column,
    {
        FlexDirection::Column
    }
}

/// Alignment along the cross axis.
#[derive(Debug, Clone, Copy, PartialEq, Eq, Structural)]
pub enum FlexAlign {
    Start,
    Center,
    End,
    Stretch,
}

impl Default for FlexAlign {
    fn default() -> (r: Self)
        ensures
            r == FlexAlign::Center,
    {
        FlexAlign::Center
    }
}

/// Justification along the main axis.
#[derive(Debug, Clone, Copy, PartialEq, Eq, Structural)]
pub enum FlexJustify {
    Start,
    Center,
    End,
    SpaceBetween,
}

impl Default for FlexJustify {
    fn default() -> (r: Self)
        ensures
            r == FlexJustify::Start,
    {
        FlexJustify::Start
    }
}

/// The name of a widget type, as its variant is spelled.
pub open spec fn widget_type_name(w: WidgetType) -> Seq<char> {
    match w {
        WidgetType::Frame => "Frame"@,
        WidgetType::Button => "Button"@,
        WidgetType::CheckButton => "CheckButton"@,
        WidgetType::Texture => "Texture"@,
        WidgetType::FontString => "FontString"@,
        WidgetType::Line => "Line"@,
        WidgetType::EditBox => "EditBox"@,
        WidgetType::ScrollFrame => "ScrollFrame"@,
        WidgetType::Slider => "Slider"@,
        WidgetType::Panel => "Panel"@,
        WidgetType::StatusBar => "StatusBar"@,
        WidgetType::Cooldown => "Cooldown"@,
        WidgetType::Model => "Model"@,
        WidgetType::PlayerModel => "PlayerModel"@,
        WidgetType::ModelScene => "ModelScene"@,
        WidgetType::ColorSelect => "ColorSelect"@,
        WidgetType::MessageFrame => "MessageFrame"@,
        WidgetType::SimpleHTML => "SimpleHTML"@,
        WidgetType::GameTooltip => "GameTooltip"@,
        WidgetType::Minimap => "Minimap"@,
    }
}

/// The keyword of a justification in a `justify` attribute.
pub open spec fn flex_justify_keyword(j: FlexJustify) -> Seq<char> {
    match j {
        FlexJustify::Start => "start"@,
        FlexJustify::Center => "center"@,
        FlexJustify::End => "end"@,
        FlexJustify::SpaceBetween => "space-between"@,
    }
}

/// The keyword of an alignment in an `align` attribute.
pub open spec fn flex_align_keyword(a: FlexAlign) -> Seq<char> {
    match a {
        FlexAlign::Start => "start"@,
        FlexAlign::Center => "center"@,
        FlexAlign::End => "end"@,
        FlexAlign::Stretch => "stretch"@,
    }
}

/// The lower case of each widget type's name.
pub proof fn lemma_widget_names_lower()
    ensures
        lower_case("Frame"@) == "frame"@,
        lower_case("Button"@) == "button"@,
        lower_case("CheckButton"@) == "checkbutton"@,
        lower_case("Texture"@) == "texture"@,
        lower_case("FontString"@) == "fontstring"@,
        lower_case("Line"@) == "line"@,
        lower_case("EditBox"@) == "editbox"@,
        lower_case("ScrollFrame"@) == "scrollframe"@,
        lower_case("Slider"@) == "slider"@,
        lower_case("Panel"@) == "panel"@,
        lower_case("StatusBar"@) == "statusbar"@,
        lower_case("Cooldown"@) == "cooldown"@,
        lower_case("Model"@) == "model"@,
        lower_case("PlayerModel"@) == "playermodel"@,
        lower_case("ModelScene"@) == "modelscene"@,
        lower_case("ColorSelect"@) == "colorselect"@,
        lower_case("MessageFrame"@) == "messageframe"@,
        lower_case("SimpleHTML"@) == "simplehtml"@,
        lower_case("GameTooltip"@) == "gametooltip"@,
        lower_case("Minimap"@) == "minimap"@,
{
    reveal_strlit("Button");
    reveal_strlit("CheckButton");
    reveal_strlit("ColorSelect");
    reveal_strlit("Cooldown");
    reveal_strlit("EditBox");
    reveal_strlit("FontString");
    reveal_strlit("Frame");
    reveal_strlit("GameTooltip");
    reveal_strlit("Line");
    reveal_strlit("MessageFrame");
    reveal_strlit("Minimap");
    reveal_strlit("Model");
    reveal_strlit("ModelScene");
    reveal_strlit("Panel");
    reveal_strlit("PlayerModel");
    reveal_strlit("ScrollFrame");
    reveal_strlit("SimpleHTML");
    reveal_strlit("Slider");
    reveal_strlit("StatusBar");
    reveal_strlit("Texture");
    reveal_strlit("button");
    reveal_strlit("checkbutton");
    reveal_strlit("colorselect");
    reveal_strlit("cooldown");
    reveal_strlit("editbox");
    reveal_strlit("fontstring");
    reveal_strlit("frame");
    reveal_strlit("gametooltip");
    reveal_strlit("line");
    reveal_strlit("messageframe");
    reveal_strlit("minimap");
    reveal_strlit("model");
    reveal_strlit("modelscene");
    reveal_strlit("panel");
    reveal_strlit("playermodel");
    reveal_strlit("scrollframe");
    reveal_strlit("simplehtml");
    reveal_strlit("slider");
    reveal_strlit("statusbar");
    reveal_strlit("texture");
    assert(lower_case("Frame"@) =~= "frame"@);
    assert(lower_case("Button"@) =~= "button"@);
    assert(lower_case("CheckButton"@) =~= "checkbutton"@);
    assert(lower_case("Texture"@) =~= "texture"@);
    assert(lower_case("FontString"@) =~= "fontstring"@);
    assert(lower_case("Line"@) =~= "line"@);
    assert(lower_case("EditBox"@) =~= "editbox"@);
    assert(lower_case("ScrollFrame"@) =~= "scrollframe"@);
    assert(lower_case("Slider"@) =~= "slider"@);
    assert(lower_case("Panel"@) =~= "panel"@);
    assert(lower_case("StatusBar"@) =~= "statusbar"@);
    assert(lower_case("Cooldown"@) =~= "cooldown"@);
    assert(lower_case("Model"@) =~= "model"@);
    assert(lower_case("PlayerModel"@) =~= "playermodel"@);
    assert(lower_case("ModelScene"@) =~= "modelscene"@);
    assert(lower_case("ColorSelect"@) =~= "colorselect"@);
    assert(lower_case("MessageFrame"@) =~= "messageframe"@);
    assert(lower_case("SimpleHTML"@) =~= "simplehtml"@);
    assert(lower_case("GameTooltip"@) =~= "gametooltip"@);
    assert(lower_case("Minimap"@) =~= "minimap"@);
}


} // verus!
