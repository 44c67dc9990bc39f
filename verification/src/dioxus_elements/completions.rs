//! Element names offered for completion by editors (referenced by the RSX macro).
use vstd::prelude::*;

verus! {

#[allow(non_camel_case_types)]
pub enum CompleteWithBraces {
    frame {},
    button {},
    checkbutton {},
    texture {},
    fontstring {},
    editbox {},
    line {},
    scrollframe {},
    slider {},
    statusbar {},
    cooldown {},
    model {},
    playermodel {},
    modelscene {},
    colorselect {},
    messageframe {},
    simplehtml {},
    gametooltip {},
    minimap {},
    anchor {},
}

} // verus!
