use vstd::prelude::*;

use crate::status_bar::shorthands::{ascii_digit_val, is_ascii_digit};
use crate::status_bar::DisplayMode;
use crate::sudoku_game::{col_of, row_of, SudokuGame};

verus! {

/// The first cell at or after `t` that holds `d`, scanning forward.
pub open spec fn first_match_ahead(b: Seq<u8>, d: u8, t: int) -> Option<int>
    decreases 81 - t,
{
    if t < 0 || t >= 81 {
        Option::None
    } else if b[t] == d {
        Some(t)
    } else {
        first_match_ahead(b, d, t + 1)
    }
}

/// The first cell at or before `t` that holds `d`, scanning backward.
pub open spec fn first_match_behind(b: Seq<u8>, d: u8, t: int) -> Option<int>
    decreases t + 1,
{
    if t < 0 || t >= 81 {
        Option::None
    } else if b[t] == d {
        Some(t)
    } else {
        first_match_behind(b, d, t - 1)
    }
}

/// Which way a search walks the board.
#[derive(Clone, Copy, PartialEq, Eq, Structural)]
pub enum FindDirection {
    Ahead,
    Behind,
}

impl FindDirection {
    /// The index step a search in this direction takes.
    pub fn to_offset(self) -> (r: i8)
        ensures
            self is Ahead ==> r == 1,
            self is Behind ==> r == -1,
    {
        match self {
            FindDirection::Ahead => 1,
            FindDirection::Behind => -1,
        }
    }
}

/// Scan the board for the first cell holding `target`, from `start` in
/// the given direction — skipping the start cell itself when the cursor
/// was explicitly placed — and give its position.
pub fn find(
    game: &SudokuGame,
    target: u8,
    start: u32,
    direction: FindDirection,
    has_defined_cursor: bool,
) -> (r: Option<(u32, u32)>)
    requires
        game.wf(),
        start <= 81,
    ensures
        ({
            let s0 = if direction is Ahead {
                start + (if has_defined_cursor {
                    1int
                } else {
                    0int
                })
            } else {
                start - (if has_defined_cursor {
                    1int
                } else {
                    0int
                })
            };
            let m = if direction is Ahead {
                first_match_ahead(game.board(), target, s0)
            } else {
                first_match_behind(game.board(), target, s0)
            };
            match r {
                Some(pos) => m == Some(pos.1 * 9 + pos.0) && pos.0 < 9 && pos.1 < 9,
                Option::None => m is None,
            }
        }),
{
    let offset = direction.to_offset();
    let mut i: i64 = start as i64;
    if has_defined_cursor {
        i = i + offset as i64;
    }
    let ghost b = game.board();
    let ghost s0 = i as int;

    match direction {
        FindDirection::Ahead => {
            while i < 81
                invariant
                    direction is Ahead,
                    game.wf(),
                    b == game.board(),
                    s0 == start + (if has_defined_cursor { 1int } else { 0int }),
                    0 <= s0 <= i <= 82,
                    first_match_ahead(b, target, s0) == first_match_ahead(b, target, i as int),
                decreases 81 - i,
            {
                if game.cells.get(i as usize) == target {
                    proof {
                        assert(first_match_ahead(b, target, i as int) == Some(i as int));
                    }
                    let (x, y) = SudokuGame::idx_pos_to_xy(i as u32, 9);
                    proof {
                        assert(y * 9 + x == i as int);
                    }
                    return Some((x, y));
                }
                i = i + 1;
            }
            None
        },
        FindDirection::Behind => {
            if i >= 81 {
                return None;
            }
            while i >= 0
                invariant
                    direction is Behind,
                    game.wf(),
                    b == game.board(),
                    s0 == start - (if has_defined_cursor { 1int } else { 0int }),
                    -1 <= i < 81,
                    first_match_behind(b, target, s0) == first_match_behind(b, target, i as int),
                decreases i + 1,
            {
                if game.cells.get(i as usize) == target {
                    proof {
                        assert(first_match_behind(b, target, i as int) == Some(i as int));
                    }
                    let (x, y) = SudokuGame::idx_pos_to_xy(i as u32, 9);
                    proof {
                        assert(y * 9 + x == i as int);
                    }
                    return Some((x, y));
                }
                i = i - 1;
            }
            None
        },
    }
}

/// The status-bar item that moves the cursor to the next cell holding a
/// digit: a buffer of one digit searches forward, `.` before the digit
/// searches backward.
pub struct Find;

impl Default for Find {
    fn default() -> (r: Self) {
        Find
    }
}

impl Find {
    pub fn name(&self) -> (r: String)
        ensures
            r@ == "Find"@,
    {
        "Find".to_owned()
    }

    /// Parse the buffer and move the cursor to the found cell. Returns
    /// an error message when the buffer does not start with a digit or
    /// no cell holds the digit; the cursor then stays put.
    pub fn activated(&mut self, game: &mut SudokuGame, buffer: &String) -> (r: Option<String>)
        requires
            old(game).wf(),
            old(game).selected_cell matches Some(p) ==> p.0 < 9 && p.1 < 9,
        ensures
            final(game).wf(),
            final(game).board() == old(game).board(),
            final(game).unradified@ == old(game).unradified@,
            final(game).reset_signalled == old(game).reset_signalled,
            final(game).input == old(game).input,
            ({
                let bv = buffer@;
                let behind = bv.len() == 2 && bv[0] == '.';
                let eff = if behind {
                    bv.skip(1)
                } else {
                    bv
                };
                if eff.len() == 0 || !is_ascii_digit(eff[0]) {
                    &&& r matches Some(msg) && msg@ == "Expected to start with single digit character"@
                    &&& final(game).selected_cell == old(game).selected_cell
                } else {
                    let target = ascii_digit_val(eff[0]) as u8;
                    let auto = old(game).selected_cell is None;
                    let cursor = match old(game).selected_cell {
                        Some(p) => p.1 * 9 + p.0,
                        Option::None => if behind {
                            80int
                        } else {
                            0int
                        },
                    };
                    let primary = if behind {
                        first_match_behind(
                            old(game).board(),
                            target,
                            cursor - (if !auto {
                                1int
                            } else {
                                0int
                            }),
                        )
                    } else {
                        first_match_ahead(
                            old(game).board(),
                            target,
                            cursor + (if !auto {
                                1int
                            } else {
                                0int
                            }),
                        )
                    };
                    let fallback = if behind {
                        first_match_behind(old(game).board(), target, 81)
                    } else {
                        first_match_ahead(old(game).board(), target, 0)
                    };
                    let m = if primary is Some {
                        primary
                    } else {
                        fallback
                    };
                    match m {
                        Some(j) => r is None && final(game).selected_cell == Some(
                            ((col_of(j) as u32), (row_of(j) as u32)),
                        ),
                        Option::None => {
                            &&& r matches Some(msg) && msg@
                                == "Could not find instance of character"@
                            &&& final(game).selected_cell == old(game).selected_cell
                        },
                    }
                }
            }),
    {
        let blen = buffer.as_str().unicode_len();
        let mut direction = FindDirection::Ahead;
        let mut first_pos: usize = 0;
        if blen == 2 && buffer.as_str().get_char(0) == '.' {
            direction = FindDirection::Behind;
            first_pos = 1;
        }
        let ghost behind = direction is Behind;
        proof {
            if behind {
                assert(buffer@.skip(1)[0] == buffer@[1]);
            }
        }
        if first_pos >= blen {
            return Some("Expected to start with single digit character".to_owned());
        }
        let c = buffer.as_str().get_char(first_pos);
        let code = c as u32;
        if !(48 <= code && code <= 57) {
            return Some("Expected to start with single digit character".to_owned());
        }
        let target = (code - 48) as u8;

        let pos_auto_set = game.selected_cell.is_none();
        let cursor_pos: u32 = match game.selected_cell {
            Some((x, y)) => SudokuGame::xy_pos_to_idx(x, y, 9),
            Option::None => {
                if first_pos == 1 {
                    80
                } else {
                    0
                }
            },
        };
        let fallback_start: u32 = if first_pos == 1 {
            81
        } else {
            0
        };

        let primary = find(game, target, cursor_pos, direction, !pos_auto_set);
        let found = match primary {
            Some(p) => Some(p),
            Option::None => find(game, target, fallback_start, direction, false),
        };
        match found {
            Some((x, y)) => {
                game.selected_cell = Some((x, y));
                None
            },
            Option::None => Some("Could not find instance of character".to_owned()),
        }
    }

    pub fn display_mode(&self) -> (r: DisplayMode)
        ensures
            r is NameOnly,
    {
        DisplayMode::NameOnly
    }
}

} // verus!
