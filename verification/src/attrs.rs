//! The parts of attribute application that turn attribute text into
//! enumerated values: widget tags, flex choices, justification, outlines,
//! orientation, fill style and boolean flags.
use vstd::prelude::*;

use crate::frame::{
    flex_align_keyword, flex_justify_keyword, lemma_widget_names_lower, widget_type_name, FlexAlign,
    FlexDirection, FlexJustify, WidgetType,
};
use crate::text::{chars_eq_str, chars_of, lower_case, str_eq, upper_case};
use crate::widgets::button::ButtonState;
use crate::widgets::font_string::{justify_h_name, JustifyH, Outline};
use crate::widgets::slider::{fill_style_name, orientation_name, FillStyle, Orientation};

verus! {

/// The widget type of a tag in the widget-definition tree (RSX and hot-reload tags).
pub open spec fn attr_widget_type(t: Seq<char>) -> Option<WidgetType> {
    if t == "frame"@ {
        Some(WidgetType::Frame)
    } else if t == "r#frame"@ {
        Some(WidgetType::Frame)
    } else if t == "Frame"@ {
        Some(WidgetType::Frame)
    } else if t == "panel"@ {
        Some(WidgetType::Panel)
    } else if t == "Panel"@ {
        Some(WidgetType::Panel)
    } else if t == "button"@ {
        Some(WidgetType::Button)
    } else if t == "Button"@ {
        Some(WidgetType::Button)
    } else if t == "editbox"@ {
        Some(WidgetType::EditBox)
    } else if t == "EditBox"@ {
        Some(WidgetType::EditBox)
    } else if t == "fontstring"@ {
        Some(WidgetType::FontString)
    } else if t == "FontString"@ {
        Some(WidgetType::FontString)
    } else if t == "slider"@ {
        Some(WidgetType::Slider)
    } else if t == "Slider"@ {
        Some(WidgetType::Slider)
    } else if t == "statusbar"@ {
        Some(WidgetType::StatusBar)
    } else if t == "StatusBar"@ {
        Some(WidgetType::StatusBar)
    } else if t == "texture"@ {
        Some(WidgetType::Texture)
    } else if t == "Texture"@ {
        Some(WidgetType::Texture)
    } else {
        None
    }
}

/// The widget type that a tag of the widget-definition tree stands for.
pub fn tag_to_widget_type(tag: &str) -> (r: Option<WidgetType>)
    ensures
        r == attr_widget_type(tag@),
{
    let cs = chars_of(tag);
    let t = cs.as_slice();
    if chars_eq_str(t, "frame") {
        Some(WidgetType::Frame)
    } else if chars_eq_str(t, "r#frame") {
        Some(WidgetType::Frame)
    } else if chars_eq_str(t, "Frame") {
        Some(WidgetType::Frame)
    } else if chars_eq_str(t, "panel") {
        Some(WidgetType::Panel)
    } else if chars_eq_str(t, "Panel") {
        Some(WidgetType::Panel)
    } else if chars_eq_str(t, "button") {
        Some(WidgetType::Button)
    } else if chars_eq_str(t, "Button") {
        Some(WidgetType::Button)
    } else if chars_eq_str(t, "editbox") {
        Some(WidgetType::EditBox)
    } else if chars_eq_str(t, "EditBox") {
        Some(WidgetType::EditBox)
    } else if chars_eq_str(t, "fontstring") {
        Some(WidgetType::FontString)
    } else if chars_eq_str(t, "FontString") {
        Some(WidgetType::FontString)
    } else if chars_eq_str(t, "slider") {
        Some(WidgetType::Slider)
    } else if chars_eq_str(t, "Slider") {
        Some(WidgetType::Slider)
    } else if chars_eq_str(t, "statusbar") {
        Some(WidgetType::StatusBar)
    } else if chars_eq_str(t, "StatusBar") {
        Some(WidgetType::StatusBar)
    } else if chars_eq_str(t, "texture") {
        Some(WidgetType::Texture)
    } else if chars_eq_str(t, "Texture") {
        Some(WidgetType::Texture)
    } else {
        None
    }
}

/// The word of a boolean.
pub open spec fn bool_word(b: bool) -> Seq<char> {
    if b {
        "true"@
    } else {
        "false"@
    }
}

/// The digit of a boolean.
pub open spec fn bool_digit(b: bool) -> Seq<char> {
    if b {
        "1"@
    } else {
        "0"@
    }
}

/// The boolean that a flag attribute spells (`true`, `TRUE`, `1`, `false`,
/// `FALSE`, `0`); other text leaves the flag as it was.
pub open spec fn bool_named(v: Seq<char>) -> Option<bool> {
    if v == "true"@ || v == "TRUE"@ || v == "1"@ {
        Some(true)
    } else if v == "false"@ || v == "FALSE"@ || v == "0"@ {
        Some(false)
    } else {
        None
    }
}

/// Reads a boolean attribute value; `None` when the text spells no boolean.
pub fn parse_bool(value: &str) -> (r: Option<bool>)
    ensures
        r == bool_named(value@),
{
    let cs = chars_of(value);
    let v = cs.as_slice();
    if chars_eq_str(v, "true") || chars_eq_str(v, "TRUE") || chars_eq_str(v, "1") {
        Some(true)
    } else if chars_eq_str(v, "false") || chars_eq_str(v, "FALSE") || chars_eq_str(v, "0") {
        Some(false)
    } else {
        None
    }
}

/// Sets `target` from a boolean attribute value; other text leaves it unchanged.
pub fn set_bool(target: &mut bool, value: &str)
    ensures
        *final(target) == match bool_named(value@) {
            Some(b) => b,
            None => *old(target),
        },
{
    match parse_bool(value) {
        Some(b) => *target = b,
        None => {},
    }
}

/// The keyword of a row direction in a `layout` attribute; the column
/// direction has none (it is what every other value selects), and the
/// empty text stands for it.
pub open spec fn flex_direction_keyword(d: FlexDirection) -> Seq<char> {
    match d {
        FlexDirection::Column => Seq::empty(),
        FlexDirection::Row => "flex-row"@,
        FlexDirection::RowWrap => "flex-row-wrap"@,
    }
}

/// The direction that a `layout` attribute selects.
pub open spec fn flex_direction_named(v: Seq<char>) -> FlexDirection {
    if v == "flex-row"@ {
        FlexDirection::Row
    } else if v == "flex-row-wrap"@ {
        FlexDirection::RowWrap
    } else {
        FlexDirection::Column
    }
}

/// The flex direction of a `layout` attribute value.
pub fn parse_flex_direction(value: &str) -> (r: FlexDirection)
    ensures
        r == flex_direction_named(value@),
{
    if str_eq(value, "flex-row") {
        FlexDirection::Row
    } else if str_eq(value, "flex-row-wrap") {
        FlexDirection::RowWrap
    } else {
        FlexDirection::Column
    }
}

pub open spec fn flex_justify_named(v: Seq<char>) -> FlexJustify {
    if v == "center"@ {
        FlexJustify::Center
    } else if v == "end"@ {
        FlexJustify::End
    } else if v == "space-between"@ {
        FlexJustify::SpaceBetween
    } else {
        FlexJustify::Start
    }
}

pub fn parse_flex_justify(value: &str) -> (r: FlexJustify)
    ensures
        r == flex_justify_named(value@),
{
    if str_eq(value, "center") {
        FlexJustify::Center
    } else if str_eq(value, "end") {
        FlexJustify::End
    } else if str_eq(value, "space-between") {
        FlexJustify::SpaceBetween
    } else {
        FlexJustify::Start
    }
}

pub open spec fn flex_align_named(v: Seq<char>) -> FlexAlign {
    if v == "start"@ {
        FlexAlign::Start
    } else if v == "end"@ {
        FlexAlign::End
    } else if v == "stretch"@ {
        FlexAlign::Stretch
    } else {
        FlexAlign::Center
    }
}

pub fn parse_flex_align(value: &str) -> (r: FlexAlign)
    ensures
        r == flex_align_named(value@),
{
    if str_eq(value, "start") {
        FlexAlign::Start
    } else if str_eq(value, "end") {
        FlexAlign::End
    } else if str_eq(value, "stretch") {
        FlexAlign::Stretch
    } else {
        FlexAlign::Center
    }
}

pub open spec fn justify_h_named(v: Seq<char>) -> JustifyH {
    if v == "LEFT"@ {
        JustifyH::Left
    } else if v == "RIGHT"@ {
        JustifyH::Right
    } else {
        JustifyH::Center
    }
}

pub fn parse_justify_h(s: &str) -> (r: JustifyH)
    ensures
        r == justify_h_named(s@),
{
    if str_eq(s, "LEFT") {
        JustifyH::Left
    } else if str_eq(s, "RIGHT") {
        JustifyH::Right
    } else {
        JustifyH::Center
    }
}

pub open spec fn outline_named(v: Seq<char>) -> Outline {
    if v == "OUTLINE"@ || v == "Outline"@ || v == "outline"@ || v == "NORMAL"@ || v == "Normal"@
        || v == "normal"@ {
        Outline::Outline
    } else if v == "THICKOUTLINE"@ || v == "ThickOutline"@ || v == "thick_outline"@ || v
        == "THICK"@ || v == "thick"@ {
        Outline::ThickOutline
    } else {
        Outline::NoOutline
    }
}

pub fn parse_outline(s: &str) -> (r: Outline)
    ensures
        r == outline_named(s@),
{
    let cs = chars_of(s);
    let v = cs.as_slice();
    if chars_eq_str(v, "OUTLINE") || chars_eq_str(v, "Outline") || chars_eq_str(v, "outline")
        || chars_eq_str(v, "NORMAL") || chars_eq_str(v, "Normal") || chars_eq_str(v, "normal") {
        Outline::Outline
    } else if chars_eq_str(v, "THICKOUTLINE") || chars_eq_str(v, "ThickOutline") || chars_eq_str(
        v,
        "thick_outline",
    ) || chars_eq_str(v, "THICK") || chars_eq_str(v, "thick") {
        Outline::ThickOutline
    } else {
        Outline::NoOutline
    }
}

pub open spec fn outline_name(o: Outline) -> Seq<char> {
    match o {
        Outline::NoOutline => "NONE"@,
        Outline::Outline => "OUTLINE"@,
        Outline::ThickOutline => "THICKOUTLINE"@,
    }
}

pub fn format_outline(outline: Outline) -> (r: String)
    ensures
        r@ == outline_name(outline),
{
    match outline {
        Outline::NoOutline => String::from_str("NONE"),
        Outline::Outline => String::from_str("OUTLINE"),
        Outline::ThickOutline => String::from_str("THICKOUTLINE"),
    }
}

pub open spec fn orientation_named(v: Seq<char>) -> Option<Orientation> {
    if v == "vertical"@ || v == "VERTICAL"@ || v == "Vertical"@ {
        Some(Orientation::Vertical)
    } else if v == "horizontal"@ || v == "HORIZONTAL"@ || v == "Horizontal"@ {
        Some(Orientation::Horizontal)
    } else {
        None
    }
}

/// The orientation that an `orientation` attribute names; other text names none.
pub fn parse_orientation(value: &str) -> (r: Option<Orientation>)
    ensures
        r == orientation_named(value@),
{
    let cs = chars_of(value);
    let v = cs.as_slice();
    if chars_eq_str(v, "vertical") || chars_eq_str(v, "VERTICAL") || chars_eq_str(v, "Vertical") {
        Some(Orientation::Vertical)
    } else if chars_eq_str(v, "horizontal") || chars_eq_str(v, "HORIZONTAL") || chars_eq_str(
        v,
        "Horizontal",
    ) {
        Some(Orientation::Horizontal)
    } else {
        None
    }
}

pub open spec fn fill_style_named(v: Seq<char>) -> FillStyle {
    if v == "center"@ || v == "CENTER"@ || v == "Center"@ {
        FillStyle::Center
    } else {
        FillStyle::Standard
    }
}

/// The fill style that a `fill_style` attribute names; other text names the standard fill.
pub fn parse_fill_style(value: &str) -> (r: FillStyle)
    ensures
        r == fill_style_named(value@),
{
    let cs = chars_of(value);
    let v = cs.as_slice();
    if chars_eq_str(v, "center") || chars_eq_str(v, "CENTER") || chars_eq_str(v, "Center") {
        FillStyle::Center
    } else {
        FillStyle::Standard
    }
}

/// Whether a flag value switches a behavior on (`true`, `TRUE` or `1`).
pub open spec fn flag_on(v: Seq<char>) -> bool {
    v == "true"@ || v == "TRUE"@ || v == "1"@
}

pub fn is_flag_on(value: &str) -> (r: bool)
    ensures
        r == flag_on(value@),
{
    let cs = chars_of(value);
    let v = cs.as_slice();
    chars_eq_str(v, "true") || chars_eq_str(v, "TRUE") || chars_eq_str(v, "1")
}

/// The state a button takes when its `disabled` attribute is set to `value`:
/// disabling always disables; enabling only lifts a disabled state.
pub open spec fn disabled_state(state: ButtonState, v: Seq<char>) -> ButtonState {
    if flag_on(v) {
        ButtonState::Disabled
    } else if state == ButtonState::Disabled {
        ButtonState::Normal
    } else {
        state
    }
}

pub fn apply_disabled_state(state: ButtonState, value: &str) -> (r: ButtonState)
    ensures
        r == disabled_state(state, value@),
{
    if is_flag_on(value) {
        ButtonState::Disabled
    } else if state == ButtonState::Disabled {
        ButtonState::Normal
    } else {
        state
    }
}

/// ASCII lower case of one character.
pub open spec fn ascii_lower(c: char) -> char {
    if 'A' <= c && c <= 'Z' {
        ((c as u32) + 32) as char
    } else {
        c
    }
}

/// Whether a texture value clears the texture: empty text or `none` in any ASCII case.
pub open spec fn clears_texture(v: Seq<char>) -> bool {
    v.len() == 0 || (v.len() == 4 && ascii_lower(v[0]) == 'n' && ascii_lower(v[1]) == 'o'
        && ascii_lower(v[2]) == 'n' && ascii_lower(v[3]) == 'e')
}

pub fn lower_char(c: char) -> (r: char)
    ensures
        r == ascii_lower(c),
{
    if 'A' <= c && c <= 'Z' {
        let u = (c as u32) + 32;
        proof {
            assert(0x61 <= u <= 0x7a);
        }
        char_from_ascii(u)
    } else {
        c
    }
}

/// The character of an ASCII code point.
fn char_from_ascii(u: u32) -> (r: char)
    requires
        u < 0x80,
    ensures
        r == u as char,
{
    let b = u as u8;
    b as char
}

/// Whether a thumb-texture value removes the thumb texture.
pub fn is_clearing_texture(value: &str) -> (r: bool)
    ensures
        r == clears_texture(value@),
{
    let cs = chars_of(value);
    if cs.len() == 0 {
        return true;
    }
    if cs.len() != 4 {
        return false;
    }
    lower_char(cs[0]) == 'n' && lower_char(cs[1]) == 'o' && lower_char(cs[2]) == 'n' && lower_char(
        cs[3],
    ) == 'e'
}

/// Reading back the name that `format_outline` writes gives the same outline.
pub proof fn outline_round_trip(o: Outline)
    ensures
        outline_named(outline_name(o)) == o,
{
    reveal_strlit("NONE");
    reveal_strlit("OUTLINE");
    reveal_strlit("THICKOUTLINE");
    reveal_strlit("Outline");
    reveal_strlit("outline");
    reveal_strlit("NORMAL");
    reveal_strlit("Normal");
    reveal_strlit("normal");
    reveal_strlit("ThickOutline");
    reveal_strlit("thick_outline");
    reveal_strlit("THICK");
    reveal_strlit("thick");
    match o {
        Outline::NoOutline => {
            assert("NONE"@[1] != "OUTLINE"@[1]);
            assert("NONE"@.len() != "Outline"@.len());
            assert("NONE"@.len() != "THICKOUTLINE"@.len());
            assert("NONE"@[0] != "THICK"@[0]);
            assert("NONE"@.len() != "NORMAL"@.len());
            assert("NONE"@.len() != "ThickOutline"@.len());
            assert("NONE"@.len() != "thick_outline"@.len());
            assert("NONE"@.len() != "thick"@.len());
            assert("NONE"@.len() != "Normal"@.len());
        },
        Outline::Outline => {},
        Outline::ThickOutline => {
            assert("THICKOUTLINE"@.len() != "OUTLINE"@.len());
            assert("THICKOUTLINE"@.len() != "NORMAL"@.len());
        },
    }
}

/// Reading back the name of a horizontal justification gives the same justification.
pub proof fn justify_h_round_trip(j: JustifyH)
    ensures
        justify_h_named(justify_h_name(j)) == j,
{
    reveal_strlit("LEFT");
    reveal_strlit("RIGHT");
    reveal_strlit("CENTER");
    assert("CENTER"@.len() != "LEFT"@.len());
    assert("CENTER"@.len() != "RIGHT"@.len());
    assert("RIGHT"@.len() != "LEFT"@.len());
}

/// A tag of the widget-definition tree spells the name of the widget type
/// it stands for: the type's name, its lower case, or (for `frame`) the raw
/// identifier `r#frame`; and a type whose name is a tag has the lower case
/// of its name as a tag too, for the same type.
pub proof fn widget_tags_spell_type_names(t: Seq<char>, w: WidgetType)
    ensures
        attr_widget_type(t) == Some(w) ==> t == widget_type_name(w) || t == lower_case(
            widget_type_name(w),
        ) || t == "r#"@ + lower_case(widget_type_name(w)),
        attr_widget_type(widget_type_name(w)) is Some ==> attr_widget_type(widget_type_name(w))
            == Some(w) && attr_widget_type(lower_case(widget_type_name(w))) == Some(w),
{
    reveal_strlit("Button");
    reveal_strlit("CheckButton");
    reveal_strlit("ColorSelect");
    reveal_strlit("Cooldown");
    reveal_strlit("EditBox");
    reveal_strlit("FontString");
    reveal_strlit("Frame");
    reveal_strlit("GameTooltip");
    reveal_strlit("Line");
    reveal_strlit("MessageFrame");
    reveal_strlit("Minimap");
    reveal_strlit("Model");
    reveal_strlit("ModelScene");
    reveal_strlit("Panel");
    reveal_strlit("PlayerModel");
    reveal_strlit("ScrollFrame");
    reveal_strlit("SimpleHTML");
    reveal_strlit("Slider");
    reveal_strlit("StatusBar");
    reveal_strlit("Texture");
    reveal_strlit("button");
    reveal_strlit("editbox");
    reveal_strlit("fontstring");
    reveal_strlit("frame");
    reveal_strlit("panel");
    reveal_strlit("r#");
    reveal_strlit("r#frame");
    reveal_strlit("slider");
    reveal_strlit("statusbar");
    reveal_strlit("texture");
    assert("Button"@.len() == 6 && "Button"@[0] == 'B');
    assert("CheckButton"@.len() == 11 && "CheckButton"@[0] == 'C' && "CheckButton"@[1] == 'h');
    assert("ColorSelect"@.len() == 11 && "ColorSelect"@[0] == 'C' && "ColorSelect"@[1] == 'o');
    assert("Cooldown"@.len() == 8);
    assert("EditBox"@.len() == 7 && "EditBox"@[0] == 'E');
    assert("FontString"@.len() == 10 && "FontString"@[0] == 'F');
    assert("Frame"@.len() == 5 && "Frame"@[0] == 'F');
    assert("GameTooltip"@.len() == 11 && "GameTooltip"@[0] == 'G');
    assert("Line"@.len() == 4);
    assert("MessageFrame"@.len() == 12);
    assert("Minimap"@.len() == 7 && "Minimap"@[0] == 'M');
    assert("Model"@.len() == 5 && "Model"@[0] == 'M');
    assert("ModelScene"@.len() == 10 && "ModelScene"@[0] == 'M');
    assert("Panel"@.len() == 5 && "Panel"@[0] == 'P');
    assert("PlayerModel"@.len() == 11 && "PlayerModel"@[0] == 'P');
    assert("ScrollFrame"@.len() == 11 && "ScrollFrame"@[0] == 'S');
    assert("SimpleHTML"@.len() == 10 && "SimpleHTML"@[0] == 'S');
    assert("Slider"@.len() == 6 && "Slider"@[0] == 'S');
    assert("StatusBar"@.len() == 9 && "StatusBar"@[0] == 'S');
    assert("Texture"@.len() == 7 && "Texture"@[0] == 'T');
    assert("button"@.len() == 6 && "button"@[0] == 'b');
    assert("editbox"@.len() == 7 && "editbox"@[0] == 'e');
    assert("fontstring"@.len() == 10 && "fontstring"@[0] == 'f');
    assert("frame"@.len() == 5 && "frame"@[0] == 'f');
    assert("panel"@.len() == 5 && "panel"@[0] == 'p');
    assert("r#"@.len() == 2);
    assert("r#frame"@.len() == 7 && "r#frame"@[0] == 'r');
    assert("slider"@.len() == 6 && "slider"@[0] == 's');
    assert("statusbar"@.len() == 9 && "statusbar"@[0] == 's');
    assert("texture"@.len() == 7 && "texture"@[0] == 't');
    lemma_widget_names_lower();
    assert("r#"@ + "frame"@ =~= "r#frame"@);
}

/// Each justification is read back from its own keyword, and a value read
/// as anything but the default `Start` is that justification's keyword.
pub proof fn flex_justify_keywords_round_trip(x: FlexJustify, v: Seq<char>)
    ensures
        flex_justify_named(flex_justify_keyword(x)) == x,
        flex_justify_named(v) != FlexJustify::Start ==> flex_justify_keyword(flex_justify_named(v)) == v,
{
    reveal_strlit("center");
    reveal_strlit("end");
    reveal_strlit("space-between");
    reveal_strlit("start");
    assert("center"@.len() == 6);
    assert("end"@.len() == 3);
    assert("space-between"@.len() == 13);
    assert("start"@.len() == 5);
}

/// Each alignment is read back from its own keyword, and a value read as
/// anything but the default `Center` is that alignment's keyword.
pub proof fn flex_align_keywords_round_trip(x: FlexAlign, v: Seq<char>)
    ensures
        flex_align_named(flex_align_keyword(x)) == x,
        flex_align_named(v) != FlexAlign::Center ==> flex_align_keyword(flex_align_named(v)) == v,
{
    reveal_strlit("center");
    reveal_strlit("end");
    reveal_strlit("start");
    reveal_strlit("stretch");
    assert("center"@.len() == 6);
    assert("end"@.len() == 3);
    assert("start"@.len() == 5);
    assert("stretch"@.len() == 7);
}

/// Each row direction is read back from its own keyword, and a value read
/// as anything but the default column direction is that direction's
/// keyword.
pub proof fn flex_direction_keywords_round_trip(d: FlexDirection, v: Seq<char>)
    ensures
        d != FlexDirection::Column ==> flex_direction_named(flex_direction_keyword(d)) == d,
        flex_direction_named(v) != FlexDirection::Column ==> flex_direction_keyword(
            flex_direction_named(v),
        ) == v,
{
    reveal_strlit("flex-row");
    reveal_strlit("flex-row-wrap");
    assert("flex-row"@.len() == 8);
    assert("flex-row-wrap"@.len() == 13);
}

/// The orientation read from a value does not depend on how its name is
/// cased: the name, its lower case and its upper case all read as that
/// orientation, and a value read as an orientation is one of those three
/// spellings of its name.
pub proof fn orientation_spellings(o: Orientation, v: Seq<char>)
    ensures
        orientation_named(orientation_name(o)) == Some(o),
        orientation_named(lower_case(orientation_name(o))) == Some(o),
        orientation_named(upper_case(orientation_name(o))) == Some(o),
        orientation_named(v) == Some(o) ==> v == orientation_name(o) || v == lower_case(
            orientation_name(o),
        ) || v == upper_case(orientation_name(o)),
{
    reveal_strlit("HORIZONTAL");
    reveal_strlit("Horizontal");
    reveal_strlit("VERTICAL");
    reveal_strlit("Vertical");
    reveal_strlit("horizontal");
    reveal_strlit("vertical");
    assert("HORIZONTAL"@.len() == 10 && "HORIZONTAL"@[0] == 'H' && "HORIZONTAL"@[1] == 'O');
    assert("Horizontal"@.len() == 10 && "Horizontal"@[0] == 'H' && "Horizontal"@[1] == 'o');
    assert("VERTICAL"@.len() == 8 && "VERTICAL"@[0] == 'V' && "VERTICAL"@[1] == 'E');
    assert("Vertical"@.len() == 8 && "Vertical"@[0] == 'V' && "Vertical"@[1] == 'e');
    assert("horizontal"@.len() == 10 && "horizontal"@[0] == 'h');
    assert("vertical"@.len() == 8 && "vertical"@[0] == 'v');
    assert(lower_case("Vertical"@) =~= "vertical"@);
    assert(upper_case("Vertical"@) =~= "VERTICAL"@);
    assert(lower_case("Horizontal"@) =~= "horizontal"@);
    assert(upper_case("Horizontal"@) =~= "HORIZONTAL"@);
}

/// A value reads as the centered fill exactly when it spells the name of
/// that fill style in any of its three casings (as named, lower, upper);
/// everything else reads as the standard fill.
pub proof fn fill_style_spellings(v: Seq<char>)
    ensures
        fill_style_named(v) == FillStyle::Center <==> (v == fill_style_name(FillStyle::Center) || v
            == lower_case(fill_style_name(FillStyle::Center)) || v == upper_case(
            fill_style_name(FillStyle::Center),
        )),
{
    reveal_strlit("CENTER");
    reveal_strlit("Center");
    reveal_strlit("center");
    assert("CENTER"@.len() == 6 && "CENTER"@[0] == 'C' && "CENTER"@[1] == 'E');
    assert("Center"@.len() == 6 && "Center"@[0] == 'C' && "Center"@[1] == 'e');
    assert("center"@.len() == 6 && "center"@[0] == 'c');
    assert(lower_case("Center"@) =~= "center"@);
    assert(upper_case("Center"@) =~= "CENTER"@);
}

/// A value reads as a boolean exactly when it is that boolean's word, the
/// word in upper case, or its digit (`1` or `0`); a flag is on exactly when
/// its value reads as true.
pub proof fn bool_spellings(b: bool, v: Seq<char>)
    ensures
        bool_named(v) == Some(b) <==> (v == bool_word(b) || v == upper_case(bool_word(b)) || v
            == bool_digit(b)),
        flag_on(v) <==> bool_named(v) == Some(true),
{
    reveal_strlit("0");
    reveal_strlit("1");
    reveal_strlit("FALSE");
    reveal_strlit("TRUE");
    reveal_strlit("false");
    reveal_strlit("true");
    assert("0"@.len() == 1 && "0"@[0] == '0');
    assert("1"@.len() == 1 && "1"@[0] == '1');
    assert("FALSE"@.len() == 5 && "FALSE"@[0] == 'F');
    assert("TRUE"@.len() == 4 && "TRUE"@[0] == 'T');
    assert("false"@.len() == 5 && "false"@[0] == 'f');
    assert("true"@.len() == 4 && "true"@[0] == 't');
    assert(upper_case("true"@) =~= "TRUE"@);
    assert(upper_case("false"@) =~= "FALSE"@);
}

/// The outline read from a value: the plain outline from the variant name
/// `Outline` or its alias `Normal`, each as spelled, in upper or in lower
/// case; the thick outline from the variant name `ThickOutline` as spelled,
/// in upper case or in snake case, or from its short form `Thick` in upper
/// or lower case; no outline from anything else.
pub proof fn outline_spellings(v: Seq<char>)
    ensures
        outline_named(v) == Outline::Outline <==> (v == "Outline"@ || v == upper_case("Outline"@)
            || v == lower_case("Outline"@) || v == "Normal"@ || v == upper_case("Normal"@) || v
            == lower_case("Normal"@)),
        outline_named(v) == Outline::ThickOutline <==> (v == "ThickOutline"@ || v == upper_case(
            "ThickOutline"@,
        ) || v == "thick_outline"@ || v == upper_case("Thick"@) || v == lower_case("Thick"@)),
{
    reveal_strlit("NORMAL");
    reveal_strlit("Normal");
    reveal_strlit("OUTLINE");
    reveal_strlit("Outline");
    reveal_strlit("THICK");
    reveal_strlit("THICKOUTLINE");
    reveal_strlit("Thick");
    reveal_strlit("ThickOutline");
    reveal_strlit("normal");
    reveal_strlit("outline");
    reveal_strlit("thick");
    reveal_strlit("thick_outline");
    assert("NORMAL"@.len() == 6 && "NORMAL"@[0] == 'N' && "NORMAL"@[1] == 'O');
    assert("Normal"@.len() == 6 && "Normal"@[0] == 'N' && "Normal"@[1] == 'o');
    assert("OUTLINE"@.len() == 7 && "OUTLINE"@[0] == 'O' && "OUTLINE"@[1] == 'U');
    assert("Outline"@.len() == 7 && "Outline"@[0] == 'O' && "Outline"@[1] == 'u');
    assert("THICK"@.len() == 5 && "THICK"@[0] == 'T' && "THICK"@[1] == 'H');
    assert("THICKOUTLINE"@.len() == 12 && "THICKOUTLINE"@[1] == 'H');
    assert("Thick"@.len() == 5 && "Thick"@[0] == 'T' && "Thick"@[1] == 'h');
    assert("ThickOutline"@.len() == 12 && "ThickOutline"@[1] == 'h');
    assert("normal"@.len() == 6 && "normal"@[0] == 'n');
    assert("outline"@.len() == 7 && "outline"@[0] == 'o');
    assert("thick"@.len() == 5 && "thick"@[0] == 't');
    assert("thick_outline"@.len() == 13);
    assert(upper_case("Outline"@) =~= "OUTLINE"@);
    assert(lower_case("Outline"@) =~= "outline"@);
    assert(upper_case("Normal"@) =~= "NORMAL"@);
    assert(lower_case("Normal"@) =~= "normal"@);
    assert(upper_case("ThickOutline"@) =~= "THICKOUTLINE"@);
    assert(upper_case("Thick"@) =~= "THICK"@);
    assert(lower_case("Thick"@) =~= "thick"@);
}


} // verus!
