use vstd::prelude::*;

use crate::cells::{cell_seq, GridCells};
use crate::input_helper::InputState;
use crate::occupancy::digit_in_sight;

verus! {

broadcast use vstd::seq_lib::lemma_seq_contains_after_push;

/// How a board reset was requested.
#[derive(Clone, Copy, PartialEq, Eq, Structural)]
pub enum ResetSignal {
    Hard,
    Idle,
    Soft,
}

/// Row of the cell with linear index `i` on the 9 x 9 board.
pub open spec fn row_of(i: int) -> int {
    i / 9
}

/// Column of the cell with linear index `i`.
pub open spec fn col_of(i: int) -> int {
    i % 9
}

/// Two cell indices share a row, a column, or a 3 x 3 box. A cell is in
/// sight of itself.
pub open spec fn in_sight(i: int, j: int) -> bool {
    &&& 0 <= i < 81
    &&& 0 <= j < 81
    &&& {
        ||| row_of(i) == row_of(j)
        ||| col_of(i) == col_of(j)
        ||| (row_of(i) / 3 == row_of(j) / 3 && col_of(i) / 3 == col_of(j) / 3)
    }
}

/// A well-formed board: 81 cells, each holding 0 (blank) or a digit 1..=9.
pub open spec fn grid_wf(s: Seq<u8>) -> bool {
    &&& s.len() == 81
    &&& forall|i: int| 0 <= i < 81 ==> #[trigger] s[i] <= 9
}

/// Every cell holds a digit 1..=9; no blanks remain.
pub open spec fn grid_complete(s: Seq<u8>) -> bool {
    &&& s.len() == 81
    &&& forall|i: int| 0 <= i < 81 ==> 1 <= #[trigger] s[i] && s[i] <= 9
}

/// No two distinct cells in sight of each other hold the same nonzero
/// digit.
pub open spec fn grid_valid(s: Seq<u8>) -> bool {
    forall|i: int, j: int|
        0 <= i < 81 && 0 <= j < 81 && i != j && #[trigger] in_sight(i, j) && s[i] != 0 ==> s[i]
            != s[j]
}

/// `s` keeps every nonzero cell of `g`.
pub open spec fn extends(s: Seq<u8>, g: Seq<u8>) -> bool {
    forall|i: int| 0 <= i < 81 && g[i] != 0 ==> s[i] == #[trigger] g[i]
}

/// Every pair of distinct cells in sight that involves a cell blank in `g`
/// is conflict-free in `s`: whatever was written over `g`'s blanks clashes
/// with nothing it sees. Pairs of two givens of `g` are `g`'s own business.
pub open spec fn placements_legal(s: Seq<u8>, g: Seq<u8>) -> bool {
    forall|i: int, j: int|
        0 <= i < 81 && 0 <= j < 81 && i != j && #[trigger] in_sight(i, j) && (g[i] == 0 || g[j]
            == 0) && s[i] != 0 ==> s[i] != s[j]
}

/// `s` is a full, legal completion of the partial board `g`.
pub open spec fn is_solution(s: Seq<u8>, g: Seq<u8>) -> bool {
    &&& grid_complete(s)
    &&& extends(s, g)
    &&& placements_legal(s, g)
}

/// A solved board built over a valid partial board is valid throughout:
/// every pair of cells in sight holds distinct digits, and no blanks
/// remain.
pub proof fn lemma_solution_of_valid_grid_is_valid(s: Seq<u8>, g: Seq<u8>)
    requires
        grid_valid(g),
        g.len() == 81,
        is_solution(s, g),
    ensures
        grid_complete(s),
        grid_valid(s),
{
    assert forall|i: int, j: int|
        0 <= i < 81 && 0 <= j < 81 && i != j && #[trigger] in_sight(i, j) && s[i] != 0 implies s[i]
        != s[j] by {
        if g[i] != 0 && g[j] != 0 {
            assert(s[i] == g[i] && s[j] == g[j]);
        }
    }
}

/// The indices of the blank cells among the first `n`, in ascending
/// order, one entry per blank cell.
pub open spec fn blank_cells(b: Seq<u8>, n: int) -> Seq<u8>
    decreases n,
{
    if n <= 0 {
        Seq::empty()
    } else if b[n - 1] == 0 {
        blank_cells(b, n - 1).push((n - 1) as u8)
    } else {
        blank_cells(b, n - 1)
    }
}

/// How many cells of `s` hold a digit: the clue count of a puzzle board.
pub open spec fn nonzero_count(s: Seq<u8>) -> int
    decreases s.len(),
{
    if s.len() == 0 {
        0
    } else {
        nonzero_count(s.drop_last()) + if s.last() != 0 {
            1int
        } else {
            0int
        }
    }
}

/// The clue count never leaves `0 ..= len`.
pub proof fn lemma_nonzero_count_bounds(s: Seq<u8>)
    ensures
        0 <= nonzero_count(s) <= s.len(),
    decreases s.len(),
{
    if s.len() > 0 {
        lemma_nonzero_count_bounds(s.drop_last());
    }
}

/// A board with no blank cell has clue count equal to its length.
pub proof fn lemma_nonzero_count_full(s: Seq<u8>)
    requires
        forall|t: int| 0 <= t < s.len() ==> #[trigger] s[t] != 0,
    ensures
        nonzero_count(s) == s.len(),
    decreases s.len(),
{
    if s.len() > 0 {
        lemma_nonzero_count_full(s.drop_last());
    }
}

/// Writing one cell moves the clue count by the difference the write
/// makes.
pub proof fn lemma_nonzero_count_update(s: Seq<u8>, i: int, v: u8)
    requires
        0 <= i < s.len(),
    ensures
        nonzero_count(s.update(i, v)) == nonzero_count(s) - (if s[i] != 0 {
            1int
        } else {
            0int
        }) + (if v != 0 {
            1int
        } else {
            0int
        }),
    decreases s.len(),
{
    if i == s.len() - 1 {
        assert(s.update(i, v).drop_last() =~= s.drop_last());
    } else {
        assert(s.update(i, v).drop_last() =~= s.drop_last().update(i, v));
        lemma_nonzero_count_update(s.drop_last(), i, v);
    }
}

/// The in-game board: the 81 digits, the cells that were blank when the
/// board was made (and so may be edited), and the transient interaction
/// state that the surrounding program reads.
pub struct SudokuGame {
    pub cells: GridCells,
    pub unradified: Vec<u8>,
    pub selected_cell: Option<(u32, u32)>,
    pub reset_signalled: ResetSignal,
    pub input: InputState,
}

impl SudokuGame {
    /// The digits of the board, row by row.
    pub open spec fn board(&self) -> Seq<u8> {
        cell_seq(&self.cells)
    }

    pub open spec fn wf(&self) -> bool {
        grid_wf(self.board())
    }

    /// Linear index of the cell at column `x`, row `y` on a board of side
    /// `size`.
    #[inline(always)]
    pub fn xy_pos_to_idx(x: u32, y: u32, size: u32) -> (idx: u32)
        requires
            size == 9,
            x < size,
            y < size,
        ensures
            idx == y * 9 + x,
            idx < 81,
            row_of(idx as int) == y,
            col_of(idx as int) == x,
    {
        proof {
            lemma_row_col_of_idx(x as int, y as int);
        }
        y * size + x
    }

    /// Column and row of the cell with linear index `idx`.
    #[inline(always)]
    pub fn idx_pos_to_xy(idx: u32, size: u32) -> (pos: (u32, u32))
        requires
            size == 9,
            idx < 81,
        ensures
            pos.0 == col_of(idx as int),
            pos.1 == row_of(idx as int),
            pos.0 < 9,
            pos.1 < 9,
            idx == pos.1 * 9 + pos.0,
    {
        let x = idx % size;
        let y = idx / size;
        (x, y)
    }

    /// Every cell index that shares a row, a column, or a 3 x 3 box with
    /// the given position, the position's own cell excluded. The list may
    /// repeat an index where row, column and box overlap.
    pub fn get_cells_in_sight(&self, cell_pos: (u32, u32)) -> (r: Vec<u32>)
        requires
            cell_pos.0 < 9,
            cell_pos.1 < 9,
        ensures
            forall|j: u32| #[trigger]
                r@.contains(j) <==> j as int != cell_pos.1 * 9 + cell_pos.0 && in_sight(
                    (cell_pos.1 * 9 + cell_pos.0) as int,
                    j as int,
                ),
    {
        let (sx, sy) = cell_pos;
        let ghost base: int = (sy * 9 + sx) as int;
        let (box_x, box_y) = (sx / 3, sy / 3);
        proof {
            lemma_row_col_of_idx(sx as int, sy as int);
        }

        let mut cells_in_sight: Vec<u32> = Vec::with_capacity(21);

        let mut grid_pos: u32 = 0;
        while grid_pos < 9
            invariant
                sx < 9,
                sy < 9,
                base == sy * 9 + sx,
                grid_pos <= 9,
                forall|k: int|
                    0 <= k < cells_in_sight@.len() ==> #[trigger] cells_in_sight@[k] as int
                        != base && in_sight(base, cells_in_sight@[k] as int),
                forall|j: u32|
                    j < 81 && j as int != base && row_of(j as int) == sy && col_of(j as int)
                        < grid_pos ==> cells_in_sight@.contains(j),
                forall|j: u32|
                    j < 81 && j as int != base && col_of(j as int) == sx && row_of(j as int)
                        < grid_pos ==> cells_in_sight@.contains(j),
            decreases 9 - grid_pos,
        {
            let row_cell = sy * 9 + grid_pos;
            let col_cell = grid_pos * 9 + sx;
            proof {
                lemma_row_col_of_idx(grid_pos as int, sy as int);
                lemma_row_col_of_idx(sx as int, grid_pos as int);
            }
            if grid_pos != sx {
                cells_in_sight.push(row_cell);
            }
            if grid_pos != sy {
                cells_in_sight.push(col_cell);
            }
            proof {
                assert forall|j: u32|
                    j < 81 && j as int != base && row_of(j as int) == sy && col_of(j as int)
                        < grid_pos + 1 implies cells_in_sight@.contains(j) by {
                    lemma_idx_decomposition(j as int);
                    if col_of(j as int) == grid_pos {
                        assert(j == row_cell);
                        assert(grid_pos != sx);
                    }
                }
                assert forall|j: u32|
                    j < 81 && j as int != base && col_of(j as int) == sx && row_of(j as int)
                        < grid_pos + 1 implies cells_in_sight@.contains(j) by {
                    lemma_idx_decomposition(j as int);
                    if row_of(j as int) == grid_pos {
                        assert(j == col_cell);
                        assert(grid_pos != sy);
                    }
                }
            }
            grid_pos = grid_pos + 1;
        }

        let mut inner_box_x: u32 = 0;
        while inner_box_x < 3
            invariant
                sx < 9,
                sy < 9,
                base == sy * 9 + sx,
                box_x == sx / 3,
                box_y == sy / 3,
                inner_box_x <= 3,
                forall|k: int|
                    0 <= k < cells_in_sight@.len() ==> #[trigger] cells_in_sight@[k] as int
                        != base && in_sight(base, cells_in_sight@[k] as int),
                forall|j: u32|
                    j < 81 && j as int != base && row_of(j as int) == sy ==> cells_in_sight@
                        .contains(j),
                forall|j: u32|
                    j < 81 && j as int != base && col_of(j as int) == sx ==> cells_in_sight@
                        .contains(j),
                forall|j: u32|
                    j < 81 && row_of(j as int) / 3 == sy / 3 && col_of(j as int) / 3 == sx / 3
                        && row_of(j as int) != sy && col_of(j as int) != sx && col_of(j as int)
                        < box_x * 3 + inner_box_x ==> cells_in_sight@.contains(j),
            decreases 3 - inner_box_x,
        {
            let mut inner_box_y: u32 = 0;
            while inner_box_y < 3
                invariant
                    sx < 9,
                    sy < 9,
                    base == sy * 9 + sx,
                    box_x == sx / 3,
                    box_y == sy / 3,
                    inner_box_x < 3,
                    inner_box_y <= 3,
                    forall|k: int|
                        0 <= k < cells_in_sight@.len() ==> #[trigger] cells_in_sight@[k] as int
                            != base && in_sight(base, cells_in_sight@[k] as int),
                    forall|j: u32|
                        j < 81 && j as int != base && row_of(j as int) == sy ==> cells_in_sight@
                            .contains(j),
                    forall|j: u32|
                        j < 81 && j as int != base && col_of(j as int) == sx ==> cells_in_sight@
                            .contains(j),
                    forall|j: u32|
                        j < 81 && row_of(j as int) / 3 == sy / 3 && col_of(j as int) / 3 == sx / 3
                            && row_of(j as int) != sy && col_of(j as int) != sx && col_of(j as int)
                            < box_x * 3 + inner_box_x ==> cells_in_sight@.contains(j),
                    forall|j: u32|
                        j < 81 && row_of(j as int) / 3 == sy / 3 && col_of(j as int) == box_x * 3
                            + inner_box_x && row_of(j as int) != sy && col_of(j as int) != sx
                            && row_of(j as int) < box_y * 3 + inner_box_y ==> cells_in_sight@
                            .contains(j),
                decreases 3 - inner_box_y,
            {
                let inner_sx = box_x * 3 + inner_box_x;
                let inner_sy = box_y * 3 + inner_box_y;
                if inner_sx != sx && inner_sy != sy {
                    proof {
                        lemma_row_col_of_idx(inner_sx as int, inner_sy as int);
                        assert((inner_sx as int) / 3 == (sx as int) / 3
                            && (inner_sy as int) / 3 == (sy as int) / 3) by (nonlinear_arith)
                            requires
                                sx < 9 && sy < 9 && inner_box_x < 3 && inner_box_y < 3 && box_x
                                    == sx / 3 && box_y == sy / 3 && inner_sx == box_x * 3
                                    + inner_box_x && inner_sy == box_y * 3 + inner_box_y,
                        ;
                    }
                    let pushed = Self::xy_pos_to_idx(inner_sx, inner_sy, 9);
                    proof {
                        assert(pushed as int != base);
                    }
                    cells_in_sight.push(pushed);
                    proof {
                        assert forall|j: u32|
                            j < 81 && row_of(j as int) / 3 == sy / 3 && col_of(j as int) == box_x
                                * 3 + inner_box_x && row_of(j as int) != sy && col_of(j as int)
                                != sx && row_of(j as int) < box_y * 3 + inner_box_y
                                + 1 implies cells_in_sight@.contains(j) by {
                            lemma_idx_decomposition(j as int);
                            assert(box_y * 3 <= row_of(j as int)) by (nonlinear_arith)
                                requires
                                    sy < 9 && box_y == sy / 3 && 0 <= row_of(j as int) < 9 && row_of(
                                        j as int,
                                    ) / 3 == sy / 3,
                            ;
                            if row_of(j as int) == inner_sy {
                                assert(j == pushed);
                            }
                        }
                    }
                }
                inner_box_y = inner_box_y + 1;
            }
            proof {
                assert forall|j: u32|
                    j < 81 && row_of(j as int) / 3 == sy / 3 && col_of(j as int) / 3 == sx / 3
                        && row_of(j as int) != sy && col_of(j as int) != sx && col_of(j as int)
                        < box_x * 3 + inner_box_x + 1 implies cells_in_sight@.contains(j) by {
                    lemma_idx_decomposition(j as int);
                    assert(box_x * 3 <= col_of(j as int) && box_y * 3 <= row_of(j as int) < box_y
                        * 3 + 3) by (nonlinear_arith)
                        requires
                            sx < 9 && sy < 9 && box_x == sx / 3 && box_y == sy / 3 && 0 <= col_of(
                                j as int,
                            ) < 9 && 0 <= row_of(j as int) < 9 && col_of(j as int) / 3 == sx / 3
                                && row_of(j as int) / 3 == sy / 3,
                    ;
                }
            }
            inner_box_x = inner_box_x + 1;
        }

        proof {
            assert forall|j: u32|
                j as int != base && in_sight(base, j as int) implies cells_in_sight@.contains(
                j,
            ) by {
                lemma_idx_decomposition(j as int);
                if row_of(j as int) != sy && col_of(j as int) != sx {
                    assert(col_of(j as int) < box_x * 3 + 3) by (nonlinear_arith)
                        requires
                            sx < 9 && box_x == sx / 3 && 0 <= col_of(j as int) < 9 && col_of(
                                j as int,
                            ) / 3 == sx / 3,
                    ;
                }
            }
            assert forall|j: u32| cells_in_sight@.contains(j) implies j as int != base
                && in_sight(base, j as int) by {
                let k = choose|k: int|
                    0 <= k < cells_in_sight@.len() && cells_in_sight@[k] == j;
            }
        }

        cells_in_sight
    }

    /// Whether some other cell in sight of cell `j` holds the digit
    /// `num`; the cell itself does not count.
    pub fn cell_sees_digit(&self, j: u32, num: u8) -> (r: bool)
        requires
            self.wf(),
            j < 81,
        ensures
            r == digit_in_sight(self.board(), j as int, num),
    {
        let mut k: u32 = 0;
        while k < 81
            invariant
                self.wf(),
                j < 81,
                k <= 81,
                forall|t: int|
                    0 <= t < k ==> !(t != j as int && #[trigger] in_sight(j as int, t)
                        && self.board()[t] == num),
            decreases 81 - k,
        {
            if k != j && sees(k, j) && self.cells.get(k as usize) == num {
                proof {
                    assert(k as int != j as int && in_sight(j as int, k as int) && self.board()[
                        k as int] == num);
                }
                return true;
            }
            k = k + 1;
        }
        proof {
            if digit_in_sight(self.board(), j as int, num) {
                let t = choose|t: int|
                    t != j as int && #[trigger] in_sight(j as int, t) && self.board()[t] == num;
            }
        }
        false
    }

    /// Every cell index that is in sight of some cell holding `number`,
    /// the cells holding `number` themselves included: the cells on
    /// which `number` may no longer be placed. Empty when `number` is
    /// zero.
    pub fn get_all_cells_which_see_number(&self, number: u8) -> (r: Vec<u32>)
        requires
            self.wf(),
        ensures
            number != 0 ==> forall|j: u32| #[trigger]
                r@.contains(j) <==> j < 81 && (digit_in_sight(self.board(), j as int, number)
                    || self.board()[j as int] == number),
            number == 0 ==> r@ =~= Seq::<u32>::empty(),
    {
        let mut highlight_cells: Vec<u32> = Vec::with_capacity(21);
        if number == 0 {
            return highlight_cells;
        }
        let mut j: u32 = 0;
        while j < 81
            invariant
                self.wf(),
                number != 0,
                j <= 81,
                forall|x: u32| #[trigger]
                    highlight_cells@.contains(x) <==> x < j && (digit_in_sight(
                        self.board(),
                        x as int,
                        number,
                    ) || self.board()[x as int] == number),
            decreases 81 - j,
        {
            if self.cell_sees_digit(j, number) || self.cells.get(j as usize) == number {
                highlight_cells.push(j);
            }
            j = j + 1;
        }
        highlight_cells
    }

    /// The cells in sight of any cell that holds the same digit as the
    /// cell at `cell_pos`.
    pub fn get_cells_which_see_number_at_pos(&self, cell_pos: (u32, u32)) -> (r: Vec<u32>)
        requires
            self.wf(),
            cell_pos.0 < 9,
            cell_pos.1 < 9,
        ensures
            ({
                let num = self.board()[(cell_pos.1 * 9 + cell_pos.0) as int];
                &&& num != 0 ==> forall|j: u32| #[trigger]
                    r@.contains(j) <==> j < 81 && (digit_in_sight(self.board(), j as int, num)
                        || self.board()[j as int] == num)
                &&& num == 0 ==> r@ =~= Seq::<u32>::empty()
            }),
    {
        let (sx, sy) = cell_pos;
        let idx = Self::xy_pos_to_idx(sx, sy, 9);
        let current_selected = self.cells.get(idx as usize);
        self.get_all_cells_which_see_number(current_selected)
    }
}

/// A character that a board string may hold: `.` for a blank, or a
/// decimal digit.
pub open spec fn is_cell_char(c: char) -> bool {
    c == '.' || (48 <= c as int && c as int <= 57)
}

/// The cell value a board-string character stands for: `.` counts as 0.
pub open spec fn cell_char_val(c: char) -> u8 {
    if c == '.' {
        0
    } else {
        ((c as int) - 48) as u8
    }
}

impl SudokuGame {
    /// Build a game board. `None` gives an empty board; a string of 81
    /// characters out of `.` and the digits gives the board it spells,
    /// and any other string falls back to the empty board.
    pub fn new(cell_str: Option<&str>) -> (r: SudokuGame)
        ensures
            r.wf(),
            !r.input.enter_buffer,
            r.selected_cell is None,
            r.reset_signalled == ResetSignal::Idle,
            match cell_str {
                Option::None => r.board() =~= Seq::new(81, |i: int| 0u8),
                Some(t) => {
                    if t@.len() == 81 && (forall|i: int| 0 <= i < 81 ==> is_cell_char(#[trigger] t@[i])) {
                        r.board() =~= Seq::new(81, |i: int| cell_char_val(t@[i]))
                    } else {
                        r.board() =~= Seq::new(81, |i: int| 0u8)
                    }
                },
            },
            r.unradified@ == blank_cells(r.board(), 81),
            forall|k: int| 0 <= k < r.unradified@.len() ==> #[trigger] r.unradified@[k] < 81,
            forall|k: int|
                0 <= k < r.unradified@.len() ==> r.board()[#[trigger] r.unradified@[k] as int]
                    == 0,
            forall|i: u8| i < 81 && r.board()[i as int] == 0 ==> r.unradified@.contains(i),
    {
        let cells = match cell_str {
            Some(cell_str) => {
                match Self::generate_cells_from_string(cell_str) {
                    Some(board) => board,
                    Option::None => GridCells::zeros(),
                }
            },
            Option::None => GridCells::zeros(),
        };
        let unradified = Self::generate_unradified(&cells);

        SudokuGame {
            cells,
            unradified,
            selected_cell: None,
            reset_signalled: ResetSignal::Idle,
            input: InputState { enter_buffer: false },
        }
    }

    /// Read an 81-character board string, `.` or `0` for a blank cell.
    /// Any other length, or any character that is neither `.` nor a
    /// digit, is rejected.
    pub fn generate_cells_from_string(cell_str: &str) -> (r: Option<GridCells>)
        ensures
            r is Some <==> cell_str@.len() == 81 && (forall|i: int|
                0 <= i < 81 ==> is_cell_char(#[trigger] cell_str@[i])),
            match r {
                Some(g) => grid_wf(cell_seq(&g)) && cell_seq(&g) =~= Seq::new(
                    81,
                    |i: int| cell_char_val(cell_str@[i]),
                ),
                Option::None => true,
            },
    {
        if cell_str.unicode_len() != 81 {
            return None;
        }
        let mut cells = GridCells::zeros();
        let mut i: usize = 0;
        while i < 81
            invariant
                cell_str@.len() == 81,
                i <= 81,
                cell_seq(&cells).len() == 81,
                forall|t: int| 0 <= t < i ==> is_cell_char(#[trigger] cell_str@[t]),
                forall|t: int|
                    0 <= t < 81 ==> cell_seq(&cells)[t] == if t < i {
                        cell_char_val(cell_str@[t])
                    } else {
                        0u8
                    },
            decreases 81 - i,
        {
            let c = cell_str.get_char(i);
            let val: u8 = if c == '.' {
                0
            } else {
                let code = c as u32;
                if 48 <= code && code <= 57 {
                    (code - 48) as u8
                } else {
                    return None;
                }
            };
            cells.set(i, val);
            i = i + 1;
        }
        proof {
            assert(grid_wf(cell_seq(&cells))) by {
                assert(forall|t: int| 0 <= t < 81 ==> #[trigger] cell_seq(&cells)[t] <= 9);
            }
        }
        Some(cells)
    }

    /// The indices of the blank cells, in ascending order: the cells a
    /// player may edit.
    fn generate_unradified(cells: &GridCells) -> (r: Vec<u8>)
        requires
            cell_seq(cells).len() == 81,
        ensures
            r@ == blank_cells(cell_seq(cells), 81),
            forall|k: int| 0 <= k < r@.len() ==> #[trigger] r@[k] < 81,
            forall|k: int|
                0 <= k < r@.len() ==> cell_seq(cells)[#[trigger] r@[k] as int] == 0,
            forall|i: u8| i < 81 && cell_seq(cells)[i as int] == 0 ==> r@.contains(i),
    {
        let mut unradified: Vec<u8> = Vec::new();
        let mut i: u8 = 0;
        while i < 81
            invariant
                cell_seq(cells).len() == 81,
                i <= 81,
                unradified@ == blank_cells(cell_seq(cells), i as int),
                forall|k: int| 0 <= k < unradified@.len() ==> #[trigger] unradified@[k] < 81,
                forall|k: int|
                    0 <= k < unradified@.len() ==> cell_seq(cells)[#[trigger] unradified@[k] as int]
                        == 0,
                forall|t: u8| t < i && cell_seq(cells)[t as int] == 0 ==> unradified@.contains(t),
            decreases 81 - i,
        {
            if cells.get(i as usize) == 0 {
                unradified.push(i);
            }
            i = i + 1;
        }
        unradified
    }
}

/// The character that prints a cell value.
pub open spec fn digit_char(d: u8) -> char {
    seq!['0', '1', '2', '3', '4', '5', '6', '7', '8', '9'][d as int]
}

/// One printed row of the board from column `c` on: each cell as a digit
/// and a space, closed by a line break.
pub open spec fn row_text(b: Seq<u8>, r: int, c: int) -> Seq<char>
    decreases 9 - c,
{
    if c < 0 || c >= 9 {
        seq!['\n']
    } else {
        seq![digit_char(b[r * 9 + c]), ' '] + row_text(b, r, c + 1)
    }
}

/// The printed board from row `r` on.
pub open spec fn board_text(b: Seq<u8>, r: int) -> Seq<char>
    decreases 9 - r,
{
    if r < 0 || r >= 9 {
        Seq::empty()
    } else {
        row_text(b, r, 0) + board_text(b, r + 1)
    }
}

impl SudokuGame {
    /// Restore the board to `to_state` with that state's editable cells
    /// blanked, and recompute which cells are editable. Signals a soft
    /// reset.
    pub fn reset(&mut self, to_state: SudokuGame)
        requires
            to_state.wf(),
            forall|k: int| 0 <= k < to_state.unradified@.len() ==> #[trigger] to_state.unradified@[k] < 81,
        ensures
            final(self).wf(),
            forall|i: u8|
                i < 81 ==> final(self).board()[i as int] == (if to_state.unradified@.contains(i) {
                    0u8
                } else {
                    to_state.board()[i as int]
                }),
            final(self).reset_signalled == ResetSignal::Soft,
            final(self).selected_cell == to_state.selected_cell,
            final(self).unradified@ == blank_cells(final(self).board(), 81),
            forall|k: int| 0 <= k < final(self).unradified@.len() ==> #[trigger] final(self).unradified@[k] < 81,
            forall|k: int|
                0 <= k < final(self).unradified@.len()
                    ==> final(self).board()[#[trigger] final(self).unradified@[k] as int] == 0,
            forall|i: u8|
                i < 81 && final(self).board()[i as int] == 0 ==> final(self).unradified@.contains(
                    i,
                ),
    {
        let mut to_state = to_state;
        let ghost orig = to_state.board();
        let ghost blanks = to_state.unradified@;
        let ghost entry_sel = to_state.selected_cell;

        let mut k: usize = 0;
        while k < to_state.unradified.len()
            invariant
                to_state.wf(),
                to_state.unradified@ == blanks,
                to_state.selected_cell == entry_sel,
                k <= blanks.len(),
                forall|t: int| 0 <= t < blanks.len() ==> #[trigger] blanks[t] < 81,
                forall|i: u8|
                    i < 81 ==> to_state.board()[i as int] == (if exists|t: int|
                        0 <= t < k && blanks[t] == i {
                        0u8
                    } else {
                        orig[i as int]
                    }),
            decreases blanks.len() - k,
        {
            let idx = to_state.unradified[k];
            to_state.cells.set(idx as usize, 0);
            proof {
                assert forall|i: u8| i < 81 implies to_state.board()[i as int] == (if exists|t: int|
                    0 <= t < k + 1 && blanks[t] == i {
                    0u8
                } else {
                    orig[i as int]
                }) by {
                    if i == idx {
                        assert(blanks[k as int] == i);
                    } else {
                        assert(forall|t: int| 0 <= t < k + 1 && #[trigger] blanks[t] == i ==> t < k);
                    }
                }
            }
            k = k + 1;
        }
        proof {
            assert forall|i: u8| i < 81 implies to_state.board()[i as int] == (if blanks.contains(
                i,
            ) {
                0u8
            } else {
                orig[i as int]
            }) by {
                if blanks.contains(i) {
                    let t = choose|t: int| 0 <= t < blanks.len() && blanks[t] == i;
                }
            }
        }

        *self = to_state;
        self.unradified = Self::generate_unradified(&self.cells);
        self.reset_signalled = ResetSignal::Soft;
    }

    /// The board as one line of 81 digit characters, row by row.
    pub fn board_string(&self) -> (r: String)
        requires
            self.wf(),
        ensures
            r@ =~= Seq::new(81, |i: int| digit_char(self.board()[i])),
    {
        let digits = "0123456789";
        proof {
            reveal_strlit("0123456789");
            assert(digits.is_ascii()) by {
                assert(digits@ =~= seq!['0', '1', '2', '3', '4', '5', '6', '7', '8', '9']);
            }
        }
        let mut buf = String::new();
        let mut i: usize = 0;
        while i < 81
            invariant
                self.wf(),
                i <= 81,
                digits@ =~= seq!['0', '1', '2', '3', '4', '5', '6', '7', '8', '9'],
                vstd::string::is_ascii(digits),
                buf@ =~= Seq::new(i as nat, |t: int| digit_char(self.board()[t])),
            decreases 81 - i,
        {
            let cell = self.cells.get(i);
            buf.append(digits.substring_ascii(cell as usize, cell as usize + 1));
            proof {
                assert(buf@ =~= Seq::new((i + 1) as nat, |t: int| digit_char(self.board()[t])));
            }
            i = i + 1;
        }
        buf
    }

    /// The board as nine printed lines, each cell as a digit and a
    /// space.
    pub fn pretty_board_string(&self) -> (r: String)
        requires
            self.wf(),
        ensures
            r@ == board_text(self.board(), 0),
    {
        let digits = "0123456789";
        proof {
            reveal_strlit("0123456789");
            reveal_strlit("\n");
            assert(digits.is_ascii()) by {
                assert(digits@ =~= seq!['0', '1', '2', '3', '4', '5', '6', '7', '8', '9']);
            }
            assert(digits@ =~= seq!['0', '1', '2', '3', '4', '5', '6', '7', '8', '9']);
        }
        let nl = "\n";
        let sp = " ";
        proof {
            reveal_strlit(" ");
            assert(nl@ =~= seq!['\n']);
            assert(sp@ =~= seq![' ']);
        }
        let ghost b = self.board();
        let mut buf = String::new();
        let mut row: u32 = 0;
        while row < 9
            invariant
                self.wf(),
                b == self.board(),
                row <= 9,
                digits@ =~= seq!['0', '1', '2', '3', '4', '5', '6', '7', '8', '9'],
                vstd::string::is_ascii(digits),
                nl@ =~= seq!['\n'],
                sp@ =~= seq![' '],
                buf@ + board_text(b, row as int) == board_text(b, 0),
            decreases 9 - row,
        {
            let mut col: u32 = 0;
            while col < 9
                invariant
                    self.wf(),
                    b == self.board(),
                    row < 9,
                    col <= 9,
                    digits@ =~= seq!['0', '1', '2', '3', '4', '5', '6', '7', '8', '9'],
                    vstd::string::is_ascii(digits),
                    nl@ =~= seq!['\n'],
                    sp@ =~= seq![' '],
                    buf@ + row_text(b, row as int, col as int) + board_text(b, row as int + 1)
                        == board_text(b, 0),
                decreases 9 - col,
            {
                let idx = Self::xy_pos_to_idx(col, row, 9);
                let cell = self.cells.get(idx as usize);
                let ghost pre = buf@;
                buf.append(digits.substring_ascii(cell as usize, cell as usize + 1));
                buf.append(sp);
                proof {
                    assert(row_text(b, row as int, col as int) == seq![
                        digit_char(b[row as int * 9 + col as int]),
                        ' ',
                    ] + row_text(b, row as int, col as int + 1));
                    assert(buf@ =~= pre + seq![digit_char(b[row as int * 9 + col as int]), ' ']);
                    assert(buf@ + row_text(b, row as int, col as int + 1) + board_text(
                        b,
                        row as int + 1,
                    ) =~= (pre + row_text(b, row as int, col as int)) + board_text(
                        b,
                        row as int + 1,
                    ));
                }
                col = col + 1;
            }
            let ghost pre = buf@;
            buf.append(nl);
            proof {
                assert(row_text(b, row as int, 9) =~= seq!['\n']);
                assert(buf@ + board_text(b, row as int + 1) =~= (pre + row_text(b, row as int, 9))
                    + board_text(b, row as int + 1));
            }
            row = row + 1;
        }
        proof {
            assert(board_text(b, 9) =~= Seq::<char>::empty());
            assert(buf@ + board_text(b, 9) =~= buf@);
        }
        buf
    }
}

impl Clone for SudokuGame {
    /// A copy of the board and its bookkeeping; the transient input state
    /// starts fresh, as a copy is handed to background work.
    fn clone(&self) -> (r: Self)
        ensures
            r.board() == self.board(),
            r.unradified@ == self.unradified@,
            r.selected_cell == self.selected_cell,
            r.reset_signalled == self.reset_signalled,
            !r.input.enter_buffer,
    {
        let r = SudokuGame {
            cells: self.cells.clone(),
            unradified: self.unradified.clone(),
            selected_cell: self.selected_cell,
            reset_signalled: self.reset_signalled,
            input: InputState { enter_buffer: false },
        };
        proof {
            assert(r.unradified@ =~= self.unradified@);
        }
        r
    }
}

/// Whether two cell indices are in each other's sight, decided from their
/// rows, columns and boxes.
pub fn sees(i: u32, j: u32) -> (r: bool)
    requires
        i < 81,
        j < 81,
    ensures
        r == in_sight(i as int, j as int),
{
    let (ix, iy) = SudokuGame::idx_pos_to_xy(i, 9);
    let (jx, jy) = SudokuGame::idx_pos_to_xy(j, 9);
    iy == jy || ix == jx || (iy / 3 == jy / 3 && ix / 3 == jx / 3)
}

/// Cell index `j` lies in the 3 x 3 box with box column `bx` and box row
/// `by`.
pub open spec fn in_box(j: int, bx: int, by: int) -> bool {
    0 <= j < 81 && row_of(j) / 3 == by && col_of(j) / 3 == bx
}

/// The cell at row `by * 3 + r`, column `bx * 3 + c` lies in box
/// `(bx, by)`.
pub proof fn lemma_box_cell_index(bx: int, by: int, r: int, c: int)
    requires
        0 <= bx < 3,
        0 <= by < 3,
        0 <= r < 3,
        0 <= c < 3,
    ensures
        in_box((by * 3 + r) * 9 + (bx * 3 + c), bx, by),
        row_of((by * 3 + r) * 9 + (bx * 3 + c)) == by * 3 + r,
        col_of((by * 3 + r) * 9 + (bx * 3 + c)) == bx * 3 + c,
{
    lemma_row_col_of_idx(bx * 3 + c, by * 3 + r);
    assert((by * 3 + r) / 3 == by && (bx * 3 + c) / 3 == bx) by (nonlinear_arith)
        requires
            0 <= bx < 3 && 0 <= by < 3 && 0 <= r < 3 && 0 <= c < 3,
    ;
}

/// A cell of box `(bx, by)` sits at box-relative row `row_of(j) - by * 3`
/// and box-relative column `col_of(j) - bx * 3`, both in `0..3`.
pub proof fn lemma_box_cell_decomposition(j: int, bx: int, by: int)
    requires
        in_box(j, bx, by),
    ensures
        0 <= row_of(j) - by * 3 < 3,
        0 <= col_of(j) - bx * 3 < 3,
        j == (by * 3 + (row_of(j) - by * 3)) * 9 + (bx * 3 + (col_of(j) - bx * 3)),
        0 <= bx < 3,
        0 <= by < 3,
{
    lemma_idx_decomposition(j);
    assert(by * 3 <= row_of(j) < by * 3 + 3 && bx * 3 <= col_of(j) < bx * 3 + 3 && 0 <= bx < 3 && 0
        <= by < 3) by (nonlinear_arith)
        requires
            0 <= row_of(j) < 9 && 0 <= col_of(j) < 9 && row_of(j) / 3 == by && col_of(j) / 3 == bx,
    ;
}

/// A cell index splits into its row and column: `j == row_of(j) * 9 +
/// col_of(j)`, with both in range.
pub proof fn lemma_idx_decomposition(j: int)
    requires
        0 <= j < 81,
    ensures
        j == row_of(j) * 9 + col_of(j),
        0 <= row_of(j) < 9,
        0 <= col_of(j) < 9,
{
}

/// Row and column recovered from a linear index built as `y * 9 + x`.
pub proof fn lemma_row_col_of_idx(x: int, y: int)
    requires
        0 <= x < 9,
        0 <= y < 9,
    ensures
        row_of(y * 9 + x) == y,
        col_of(y * 9 + x) == x,
{
    assert(row_of(y * 9 + x) == y && col_of(y * 9 + x) == x) by (nonlinear_arith)
        requires
            0 <= x < 9 && 0 <= y < 9,
    ;
}

} // verus!
