use vstd::prelude::*;

use crate::status_bar::DisplayMode;
use crate::sudoku_game::{ResetSignal, SudokuGame};

verus! {

/// The status-bar item that asks for a hard reset of the whole game.
pub struct HardReset;

impl Default for HardReset {
    fn default() -> (r: Self) {
        HardReset
    }
}

impl HardReset {
    pub fn name(&self) -> (r: String)
        ensures
            r@ == "HardReset"@,
    {
        "HardReset".to_owned()
    }

    /// Activation signals a hard reset and changes nothing else.
    pub fn activated(&mut self, game: &mut SudokuGame)
        ensures
            final(game).reset_signalled == ResetSignal::Hard,
            final(game).board() == old(game).board(),
            final(game).unradified@ == old(game).unradified@,
            final(game).selected_cell == old(game).selected_cell,
            final(game).input == old(game).input,
    {
        game.reset_signalled = ResetSignal::Hard;
    }

    pub fn display_mode(&self) -> (r: DisplayMode)
        ensures
            r is NameOnly,
    {
        DisplayMode::NameOnly
    }
}

} // verus!
