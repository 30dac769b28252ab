use vstd::prelude::*;

use crate::status_bar::DisplayMode;
use crate::sudoku_game::SudokuGame;

verus! {

/// A status-bar item that does nothing; a placeholder slot.
pub struct Dummy;

impl Default for Dummy {
    fn default() -> (r: Self) {
        Dummy
    }
}

impl Dummy {
    pub fn name(&self) -> (r: String)
        ensures
            r@ == "Dummy"@,
    {
        "Dummy".to_owned()
    }

    /// Activation does nothing.
    pub fn activated(&mut self, game: &mut SudokuGame)
        ensures
            *final(game) == *old(game),
    {
    }

    pub fn display_mode(&self) -> (r: DisplayMode)
        ensures
            r is Hidden,
    {
        DisplayMode::Hidden
    }
}

} // verus!
