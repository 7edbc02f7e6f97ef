//! The colour maps that the display offers.
use vstd::prelude::*;

verus! {

/// The name of colour map `mode`; any mode past the known ones is `Custom`.
pub fn format_recolor_mode(mode: u32) -> (s: &'static str)
    ensures
        s@ == match mode {
            0 => "Grayscale"@,
            1 => "Heat"@,
            2 => "Cool"@,
            3 => "Rainbow"@,
            4 => "Iron"@,
            5 => "Posterize"@,
            6 => "Tint"@,
            _ => "Custom"@,
        },
{
    match mode {
        0 => "Grayscale",
        1 => "Heat",
        2 => "Cool",
        3 => "Rainbow",
        4 => "Iron",
        5 => "Posterize",
        6 => "Tint",
        _ => "Custom",
    }
}

} // verus!
