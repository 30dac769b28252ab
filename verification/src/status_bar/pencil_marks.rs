use vstd::prelude::*;

use crate::occupancy::{digit_in_sight, free_digits, get_occupied_numbers_at_cell};
use crate::status_bar::shorthands::{ascii_digit_val, is_ascii_digit};
use crate::status_bar::DisplayMode;
use crate::sudoku_game::SudokuGame;

verus! {

/// The number a run of decimal digits spells.
pub open spec fn digits_value(t: Seq<char>) -> int
    decreases t.len(),
{
    if t.len() == 0 {
        0
    } else {
        digits_value(t.drop_last()) * 10 + ascii_digit_val(t.last())
    }
}

/// A string that parses as a `u8`: at least one digit, digits only, and
/// a value that fits.
pub open spec fn parses_as_u8(t: Seq<char>) -> bool {
    &&& t.len() >= 1
    &&& forall|i: int| 0 <= i < t.len() ==> is_ascii_digit(#[trigger] t[i])
    &&& digits_value(t) <= 255
}

/// A digit string's value never goes below zero.
proof fn lemma_digits_value_nonneg(t: Seq<char>)
    requires
        forall|i: int| 0 <= i < t.len() ==> is_ascii_digit(#[trigger] t[i]),
    ensures
        digits_value(t) >= 0,
    decreases t.len(),
{
    if t.len() > 0 {
        lemma_digits_value_nonneg(t.drop_last());
    }
}

/// A digit string is worth at least any of its prefixes.
proof fn lemma_digits_value_prefix(t: Seq<char>, k: int)
    requires
        forall|i: int| 0 <= i < t.len() ==> is_ascii_digit(#[trigger] t[i]),
        0 <= k <= t.len(),
    ensures
        digits_value(t.take(k)) <= digits_value(t),
    decreases t.len() - k,
{
    if k == t.len() {
        assert(t.take(k) =~= t);
    } else {
        assert(t.take(k + 1).drop_last() =~= t.take(k));
        assert(t.take(k + 1).last() == t[k]);
        lemma_digits_value_nonneg(t.take(k));
        assert(digits_value(t.take(k + 1)) == digits_value(t.take(k)) * 10 + ascii_digit_val(
            t[k],
        ));
        lemma_digits_value_prefix(t, k + 1);
    }
}

/// Read a decimal `u8`: one or more digits whose value fits in a byte.
pub fn parse_u8(s: &str) -> (r: Option<u8>)
    ensures
        r is Some <==> parses_as_u8(s@),
        r matches Some(v) ==> v == digits_value(s@),
{
    let len = s.unicode_len();
    if len == 0 {
        return None;
    }
    let mut acc: u32 = 0;
    let mut k: usize = 0;
    while k < len
        invariant
            len == s@.len(),
            1 <= len,
            k <= len,
            forall|i: int| 0 <= i < k ==> is_ascii_digit(#[trigger] s@[i]),
            acc == digits_value(s@.take(k as int)),
            acc <= 255,
        decreases len - k,
    {
        let c = s.get_char(k);
        let code = c as u32;
        if !(48 <= code && code <= 57) {
            return None;
        }
        proof {
            assert(s@.take(k as int + 1).drop_last() =~= s@.take(k as int));
            assert(s@.take(k as int + 1).last() == s@[k as int]);
        }
        let newacc = acc * 10 + (code - 48);
        if newacc > 255 {
            proof {
                if forall|i: int| 0 <= i < s@.len() ==> is_ascii_digit(#[trigger] s@[i]) {
                    lemma_digits_value_prefix(s@, k as int + 1);
                }
            }
            return None;
        }
        acc = newacc;
        k = k + 1;
    }
    proof {
        assert(s@.take(len as int) =~= s@);
    }
    Some(acc as u8)
}

/// The status-bar item that draws the still-legal digits into blank
/// cells, up to a configured number of marks.
pub struct PencilMarks {
    num_max: u8,
}

impl Default for PencilMarks {
    fn default() -> (r: Self)
        ensures
            r.max_marks() == 2,
    {
        PencilMarks { num_max: 2 }
    }
}

impl PencilMarks {
    /// The largest number of candidate digits a cell may have and still
    /// get marks drawn.
    pub closed spec fn max_marks(&self) -> u8 {
        self.num_max
    }

    pub fn name(&self) -> (r: String)
        ensures
            r@ == "PencilMarks"@,
    {
        "PencilMarks".to_owned()
    }

    /// Activation re-reads the mark limit from the buffer, which the
    /// caller hands over already stripped of surrounding whitespace.
    /// Returns whether the buffer parsed; on failure nothing changes.
    pub fn activated(&mut self, buffer: &str) -> (r: bool)
        ensures
            r == parses_as_u8(buffer@),
            r ==> final(self).max_marks() == digits_value(buffer@),
            !r ==> *final(self) == *old(self),
    {
        match parse_u8(buffer) {
            Some(v) => {
                self.num_max = v;
                true
            },
            Option::None => false,
        }
    }

    pub fn display_mode(&self) -> (r: DisplayMode)
        ensures
            r is Hidden,
    {
        DisplayMode::Hidden
    }

    /// The digits that may still go into the cell at `index`: those not
    /// already in sight of it.
    pub fn marks_for_cell(game: &SudokuGame, index: u8) -> (r: Vec<u8>)
        requires
            game.wf(),
            index < 81,
        ensures
            forall|d: u8| #[trigger]
                r@.contains(d) <==> 1 <= d <= 9 && !digit_in_sight(
                    game.board(),
                    index as int,
                    d,
                ),
    {
        let pos = SudokuGame::idx_pos_to_xy(index as u32, 9);
        let occ = get_occupied_numbers_at_cell(game, pos);
        free_digits(&occ)
    }
}

} // verus!
