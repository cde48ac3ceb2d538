use vstd::prelude::*;

verus! {

/// A color code of the brick library.
pub type ColorCode = u32;

/// The color code that stands for "the color of the referencing context".
pub const CURRENT_COLOR: ColorCode = 16;

/// The color that a reference stated as `color` takes under a parent whose
/// resolved color is `current_color`.
pub open spec fn resolved_color(color: ColorCode, current_color: ColorCode) -> ColorCode {
    if color == CURRENT_COLOR {
        current_color
    } else {
        color
    }
}

/// Resolves the inherit sentinel against the parent's resolved color; any
/// other code is kept as it is.
pub fn replace_color(color: ColorCode, current_color: ColorCode) -> (r: ColorCode)
    ensures
        r == resolved_color(color, current_color),
        color == CURRENT_COLOR ==> r == current_color,
        color != CURRENT_COLOR ==> r == color,
{
    if color == CURRENT_COLOR {
        current_color
    } else {
        color
    }
}

} // verus!
