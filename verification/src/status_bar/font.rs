use vstd::prelude::*;

use crate::status_bar::DisplayMode;

verus! {

/// The status-bar item that swaps the display font; loading the font
/// file and handing it to the renderer happens outside the library.
pub struct Font;

impl Default for Font {
    fn default() -> (r: Self) {
        Font
    }
}

impl Font {
    pub fn name(&self) -> (r: String)
        ensures
            r@ == "Font"@,
    {
        "Font".to_owned()
    }

    pub fn display_mode(&self) -> (r: DisplayMode)
        ensures
            r is Hidden,
    {
        DisplayMode::Hidden
    }
}

} // verus!
