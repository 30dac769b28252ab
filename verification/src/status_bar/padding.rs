use vstd::prelude::*;

use crate::status_bar::DisplayMode;

verus! {

/// The status-bar item that adjusts the board's animated padding; the
/// padding amounts themselves live with the renderer outside the
/// library.
pub struct Padding;

impl Default for Padding {
    fn default() -> (r: Self) {
        Padding
    }
}

impl Padding {
    pub fn name(&self) -> (r: String)
        ensures
            r@ == "Padding"@,
    {
        "Padding".to_owned()
    }

    pub fn display_mode(&self) -> (r: DisplayMode)
        ensures
            r is Hidden,
    {
        DisplayMode::Hidden
    }
}

} // verus!
