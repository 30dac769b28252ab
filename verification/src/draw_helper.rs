use vstd::prelude::*;

use std::str::FromStr;

verus! {

/// Whether two string slices spell the same characters.
pub fn str_eq(a: &str, b: &str) -> (r: bool)
    ensures
        r == (a@ == b@),
{
    let owned_a = a.to_owned();
    let owned_b = b.to_owned();
    owned_a == owned_b
}

/// Every colour role the drawing layer distinguishes.
#[derive(Clone, Copy, Debug, Eq, Hash, PartialEq, Structural)]
pub enum AppColour {
    Background,
    StatusBar,
    StatusBarSeparator,
    StatusBarItemSelected,
    StatusBarItemOkay,
    StatusBarItemInProgress,
    StatusBarItemError,
    StatusBarBufferEdit,
    StatusBarItem,
    BoardBox,
    BoardLine,
    BoardCellBackground,
    BoardSelectedCellBackground,
    BoardHighlightedCellBackground,
    BoardMousedCellBackground,
    BoardRadifiedCell,
    BoardCorrectCell,
    BoardIncorrectCell,
    BoardUnknownCell,
}

impl FromStr for AppColour {
    type Err = ();

    fn from_str(s: &str) -> Result<Self, Self::Err> {
        if str_eq(s, "Background") {
            Ok(AppColour::Background)
        } else if str_eq(s, "StatusBar") {
            Ok(AppColour::StatusBar)
        } else if str_eq(s, "StatusBarSeparator") {
            Ok(AppColour::StatusBarSeparator)
        } else if str_eq(s, "StatusBarItemSelected") {
            Ok(AppColour::StatusBarItemSelected)
        } else if str_eq(s, "StatusBarItemOkay") {
            Ok(AppColour::StatusBarItemOkay)
        } else if str_eq(s, "StatusBarItemInProgress") {
            Ok(AppColour::StatusBarItemInProgress)
        } else if str_eq(s, "StatusBarItemError") {
            Ok(AppColour::StatusBarItemError)
        } else if str_eq(s, "StatusBarBufferEdit") {
            Ok(AppColour::StatusBarBufferEdit)
        } else if str_eq(s, "StatusBarItem") {
            Ok(AppColour::StatusBarItem)
        } else if str_eq(s, "BoardBox") {
            Ok(AppColour::BoardBox)
        } else if str_eq(s, "BoardLine") {
            Ok(AppColour::BoardLine)
        } else if str_eq(s, "BoardCellBackground") {
            Ok(AppColour::BoardCellBackground)
        } else if str_eq(s, "BoardSelectedCellBackground") {
            Ok(AppColour::BoardSelectedCellBackground)
        } else if str_eq(s, "BoardHighlightedCellBackground") {
            Ok(AppColour::BoardHighlightedCellBackground)
        } else if str_eq(s, "BoardMousedCellBackground") {
            Ok(AppColour::BoardMousedCellBackground)
        } else if str_eq(s, "BoardRadifiedCell") {
            Ok(AppColour::BoardRadifiedCell)
        } else if str_eq(s, "BoardCorrectCell") {
            Ok(AppColour::BoardCorrectCell)
        } else if str_eq(s, "BoardIncorrectCell") {
            Ok(AppColour::BoardIncorrectCell)
        } else if str_eq(s, "BoardUnknownCell") {
            Ok(AppColour::BoardUnknownCell)
        } else {
            Err(())
        }
    }
}

} // verus!
