//! The element namespace of the Dioxus-style RSX front end: tag names and
//! the widget types they stand for.
use vstd::prelude::*;

use crate::frame::{lemma_widget_names_lower, widget_type_name, WidgetType};
use crate::text::{chars_eq_str, chars_of, lower_case};

pub mod completions;

verus! {

/// The widget type that an element tag stands for (PascalCase tags and their lowercase aliases).
pub open spec fn element_widget_type(t: Seq<char>) -> Option<WidgetType> {
    if t == "Frame"@ {
        Some(WidgetType::Frame)
    } else if t == "frame"@ {
        Some(WidgetType::Frame)
    } else if t == "Button"@ {
        Some(WidgetType::Button)
    } else if t == "button"@ {
        Some(WidgetType::Button)
    } else if t == "CheckButton"@ {
        Some(WidgetType::CheckButton)
    } else if t == "Texture"@ {
        Some(WidgetType::Texture)
    } else if t == "texture"@ {
        Some(WidgetType::Texture)
    } else if t == "FontString"@ {
        Some(WidgetType::FontString)
    } else if t == "fontstring"@ {
        Some(WidgetType::FontString)
    } else if t == "label"@ {
        Some(WidgetType::FontString)
    } else if t == "Line"@ {
        Some(WidgetType::Line)
    } else if t == "line"@ {
        Some(WidgetType::Line)
    } else if t == "EditBox"@ {
        Some(WidgetType::EditBox)
    } else if t == "editbox"@ {
        Some(WidgetType::EditBox)
    } else if t == "ScrollFrame"@ {
        Some(WidgetType::ScrollFrame)
    } else if t == "Slider"@ {
        Some(WidgetType::Slider)
    } else if t == "slider"@ {
        Some(WidgetType::Slider)
    } else if t == "StatusBar"@ {
        Some(WidgetType::StatusBar)
    } else if t == "Cooldown"@ {
        Some(WidgetType::Cooldown)
    } else if t == "Model"@ {
        Some(WidgetType::Model)
    } else if t == "PlayerModel"@ {
        Some(WidgetType::PlayerModel)
    } else if t == "ModelScene"@ {
        Some(WidgetType::ModelScene)
    } else if t == "ColorSelect"@ {
        Some(WidgetType::ColorSelect)
    } else if t == "MessageFrame"@ {
        Some(WidgetType::MessageFrame)
    } else if t == "SimpleHTML"@ {
        Some(WidgetType::SimpleHTML)
    } else if t == "GameTooltip"@ {
        Some(WidgetType::GameTooltip)
    } else if t == "Minimap"@ {
        Some(WidgetType::Minimap)
    } else {
        None
    }
}

/// Maps a Dioxus element tag name to our WidgetType.
pub fn tag_to_widget_type(tag: &str) -> (r: Option<WidgetType>)
    ensures
        r == element_widget_type(tag@),
{
    let cs = chars_of(tag);
    let t = cs.as_slice();
    if chars_eq_str(t, "Frame") {
        Some(WidgetType::Frame)
    } else if chars_eq_str(t, "frame") {
        Some(WidgetType::Frame)
    } else if chars_eq_str(t, "Button") {
        Some(WidgetType::Button)
    } else if chars_eq_str(t, "button") {
        Some(WidgetType::Button)
    } else if chars_eq_str(t, "CheckButton") {
        Some(WidgetType::CheckButton)
    } else if chars_eq_str(t, "Texture") {
        Some(WidgetType::Texture)
    } else if chars_eq_str(t, "texture") {
        Some(WidgetType::Texture)
    } else if chars_eq_str(t, "FontString") {
        Some(WidgetType::FontString)
    } else if chars_eq_str(t, "fontstring") {
        Some(WidgetType::FontString)
    } else if chars_eq_str(t, "label") {
        Some(WidgetType::FontString)
    } else if chars_eq_str(t, "Line") {
        Some(WidgetType::Line)
    } else if chars_eq_str(t, "line") {
        Some(WidgetType::Line)
    } else if chars_eq_str(t, "EditBox") {
        Some(WidgetType::EditBox)
    } else if chars_eq_str(t, "editbox") {
        Some(WidgetType::EditBox)
    } else if chars_eq_str(t, "ScrollFrame") {
        Some(WidgetType::ScrollFrame)
    } else if chars_eq_str(t, "Slider") {
        Some(WidgetType::Slider)
    } else if chars_eq_str(t, "slider") {
        Some(WidgetType::Slider)
    } else if chars_eq_str(t, "StatusBar") {
        Some(WidgetType::StatusBar)
    } else if chars_eq_str(t, "Cooldown") {
        Some(WidgetType::Cooldown)
    } else if chars_eq_str(t, "Model") {
        Some(WidgetType::Model)
    } else if chars_eq_str(t, "PlayerModel") {
        Some(WidgetType::PlayerModel)
    } else if chars_eq_str(t, "ModelScene") {
        Some(WidgetType::ModelScene)
    } else if chars_eq_str(t, "ColorSelect") {
        Some(WidgetType::ColorSelect)
    } else if chars_eq_str(t, "MessageFrame") {
        Some(WidgetType::MessageFrame)
    } else if chars_eq_str(t, "SimpleHTML") {
        Some(WidgetType::SimpleHTML)
    } else if chars_eq_str(t, "GameTooltip") {
        Some(WidgetType::GameTooltip)
    } else if chars_eq_str(t, "Minimap") {
        Some(WidgetType::Minimap)
    } else {
        None
    }
}

/// An element tag spells the name of the widget type it creates: the type's
/// name or its lower case (and `label` for a font string); every widget type
/// but the panel has its name as a tag, and the lower case of a name, where
/// it is a tag, creates the same type.
pub proof fn element_tags_spell_type_names(t: Seq<char>, w: WidgetType)
    ensures
        element_widget_type(t) == Some(w) ==> t == widget_type_name(w) || t == lower_case(
            widget_type_name(w),
        ) || (w == WidgetType::FontString && t == "label"@),
        w != WidgetType::Panel ==> element_widget_type(widget_type_name(w)) == Some(w),
        element_widget_type(lower_case(widget_type_name(w))) is Some ==> element_widget_type(
            lower_case(widget_type_name(w)),
        ) == Some(w),
{
    reveal_strlit("Button");
    reveal_strlit("CheckButton");
    reveal_strlit("ColorSelect");
    reveal_strlit("Cooldown");
    reveal_strlit("EditBox");
    reveal_strlit("FontString");
    reveal_strlit("Frame");
    reveal_strlit("GameTooltip");
    reveal_strlit("Line");
    reveal_strlit("MessageFrame");
    reveal_strlit("Minimap");
    reveal_strlit("Model");
    reveal_strlit("ModelScene");
    reveal_strlit("Panel");
    reveal_strlit("PlayerModel");
    reveal_strlit("ScrollFrame");
    reveal_strlit("SimpleHTML");
    reveal_strlit("Slider");
    reveal_strlit("StatusBar");
    reveal_strlit("Texture");
    reveal_strlit("button");
    reveal_strlit("checkbutton");
    reveal_strlit("colorselect");
    reveal_strlit("cooldown");
    reveal_strlit("editbox");
    reveal_strlit("fontstring");
    reveal_strlit("frame");
    reveal_strlit("gametooltip");
    reveal_strlit("label");
    reveal_strlit("line");
    reveal_strlit("messageframe");
    reveal_strlit("minimap");
    reveal_strlit("model");
    reveal_strlit("modelscene");
    reveal_strlit("panel");
    reveal_strlit("playermodel");
    reveal_strlit("scrollframe");
    reveal_strlit("simplehtml");
    reveal_strlit("slider");
    reveal_strlit("statusbar");
    reveal_strlit("texture");
    assert("Button"@.len() == 6 && "Button"@[0] == 'B');
    assert("CheckButton"@.len() == 11 && "CheckButton"@[0] == 'C' && "CheckButton"@[1] == 'h');
    assert("ColorSelect"@.len() == 11 && "ColorSelect"@[0] == 'C' && "ColorSelect"@[1] == 'o');
    assert("Cooldown"@.len() == 8 && "Cooldown"@[0] == 'C');
    assert("EditBox"@.len() == 7 && "EditBox"@[0] == 'E');
    assert("FontString"@.len() == 10 && "FontString"@[0] == 'F');
    assert("Frame"@.len() == 5 && "Frame"@[0] == 'F');
    assert("GameTooltip"@.len() == 11 && "GameTooltip"@[0] == 'G');
    assert("Line"@.len() == 4 && "Line"@[0] == 'L');
    assert("MessageFrame"@.len() == 12 && "MessageFrame"@[0] == 'M');
    assert("Minimap"@.len() == 7 && "Minimap"@[0] == 'M');
    assert("Model"@.len() == 5 && "Model"@[0] == 'M');
    assert("ModelScene"@.len() == 10 && "ModelScene"@[0] == 'M');
    assert("Panel"@.len() == 5 && "Panel"@[0] == 'P');
    assert("PlayerModel"@.len() == 11 && "PlayerModel"@[0] == 'P');
    assert("ScrollFrame"@.len() == 11 && "ScrollFrame"@[0] == 'S');
    assert("SimpleHTML"@.len() == 10 && "SimpleHTML"@[0] == 'S');
    assert("Slider"@.len() == 6 && "Slider"@[0] == 'S');
    assert("StatusBar"@.len() == 9 && "StatusBar"@[0] == 'S');
    assert("Texture"@.len() == 7 && "Texture"@[0] == 'T');
    assert("button"@.len() == 6 && "button"@[0] == 'b');
    assert("checkbutton"@.len() == 11 && "checkbutton"@[0] == 'c' && "checkbutton"@[1] == 'h');
    assert("colorselect"@.len() == 11 && "colorselect"@[0] == 'c' && "colorselect"@[1] == 'o');
    assert("cooldown"@.len() == 8 && "cooldown"@[0] == 'c');
    assert("editbox"@.len() == 7 && "editbox"@[0] == 'e');
    assert("fontstring"@.len() == 10 && "fontstring"@[0] == 'f');
    assert("frame"@.len() == 5 && "frame"@[0] == 'f');
    assert("gametooltip"@.len() == 11 && "gametooltip"@[0] == 'g');
    assert("label"@.len() == 5 && "label"@[0] == 'l');
    assert("line"@.len() == 4 && "line"@[0] == 'l');
    assert("messageframe"@.len() == 12 && "messageframe"@[0] == 'm');
    assert("minimap"@.len() == 7 && "minimap"@[0] == 'm');
    assert("model"@.len() == 5 && "model"@[0] == 'm');
    assert("modelscene"@.len() == 10 && "modelscene"@[0] == 'm');
    assert("panel"@.len() == 5 && "panel"@[0] == 'p');
    assert("playermodel"@.len() == 11 && "playermodel"@[0] == 'p');
    assert("scrollframe"@.len() == 11 && "scrollframe"@[0] == 's');
    assert("simplehtml"@.len() == 10 && "simplehtml"@[0] == 's');
    assert("slider"@.len() == 6 && "slider"@[0] == 's');
    assert("statusbar"@.len() == 9 && "statusbar"@[0] == 's');
    assert("texture"@.len() == 7 && "texture"@[0] == 't');
    lemma_widget_names_lower();
}


} // verus!
