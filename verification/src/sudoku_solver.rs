use vstd::prelude::*;

use crate::occupancy::digit_in_sight;
use crate::sudoku_game::{
    extends, grid_complete, grid_valid, grid_wf, in_box, in_sight, is_solution,
    lemma_box_cell_decomposition, lemma_box_cell_index, lemma_nonzero_count_bounds,
    lemma_nonzero_count_update, col_of, nonzero_count, placements_legal, row_of, SudokuGame,
};

verus! {

broadcast use vstd::seq_lib::lemma_seq_contains_after_push;

/// What one full run of the deductive pass guarantees: the result `p`
/// extends the input `g`, everything written is legal against what it
/// sees, and every valid solution of `g` is still a solution of `p` — the
/// pass only commits moves it can prove forced.
pub open spec fn propagation_of(p: Seq<u8>, g: Seq<u8>) -> bool {
    &&& grid_wf(p)
    &&& extends(p, g)
    &&& placements_legal(p, g)
    &&& forall|s: Seq<u8>| #[trigger] is_solution(s, g) && grid_valid(s) ==> is_solution(s, p)
}

/// Nine pairwise distinct digits out of 1..=9 leave none out: every
/// digit occurs among them.
#[verifier::rlimit(100)]
pub proof fn lemma_nine_distinct_digits_hit(v: Seq<u8>, d: u8)
    requires
        v.len() == 9,
        forall|t: int| 0 <= t < 9 ==> 1 <= #[trigger] v[t] <= 9,
        forall|t1: int, t2: int|
            0 <= t1 < 9 && 0 <= t2 < 9 && t1 != t2 ==> #[trigger] v[t1] != #[trigger] v[t2],
        1 <= d <= 9,
    ensures
        exists|t: int| 0 <= t < 9 && v[t] == d,
{
    assert(v[0] == d || v[1] == d || v[2] == d || v[3] == d || v[4] == d || v[5] == d || v[6] == d
        || v[7] == d || v[8] == d) by {
        assert(forall|t: int| 0 <= t < 9 ==> 1 <= #[trigger] v[t] <= 9);
        assert(v[0] != v[1] && v[0] != v[2] && v[0] != v[3] && v[0] != v[4] && v[0] != v[5] && v[0]
            != v[6] && v[0] != v[7] && v[0] != v[8]);
        assert(v[1] != v[2] && v[1] != v[3] && v[1] != v[4] && v[1] != v[5] && v[1] != v[6] && v[1]
            != v[7] && v[1] != v[8]);
        assert(v[2] != v[3] && v[2] != v[4] && v[2] != v[5] && v[2] != v[6] && v[2] != v[7] && v[2]
            != v[8]);
        assert(v[3] != v[4] && v[3] != v[5] && v[3] != v[6] && v[3] != v[7] && v[3] != v[8]);
        assert(v[4] != v[5] && v[4] != v[6] && v[4] != v[7] && v[4] != v[8]);
        assert(v[5] != v[6] && v[5] != v[7] && v[5] != v[8]);
        assert(v[6] != v[7] && v[6] != v[8]);
        assert(v[7] != v[8]);
    }
}

/// A complete valid board holds every digit somewhere in every box: its
/// nine box cells carry nine pairwise distinct digits out of 1..=9.
#[verifier::rlimit(100)]
pub proof fn lemma_complete_valid_box_has_digit(s: Seq<u8>, bx: int, by: int, d: u8)
    requires
        grid_complete(s),
        grid_valid(s),
        0 <= bx < 3,
        0 <= by < 3,
        1 <= d <= 9,
    ensures
        exists|m: int| #[trigger] in_box(m, bx, by) && s[m] == d,
{
    let v = Seq::new(9, |t: int| s[(by * 3 + t / 3) * 9 + (bx * 3 + t % 3)]);
    assert forall|t: int| 0 <= t < 9 implies 1 <= #[trigger] v[t] <= 9 by {
        lemma_box_cell_index(bx, by, t / 3, t % 3);
    }
    assert forall|t1: int, t2: int|
        0 <= t1 < 9 && 0 <= t2 < 9 && t1 != t2 implies #[trigger] v[t1] != #[trigger] v[t2] by {
        lemma_box_cell_index(bx, by, t1 / 3, t1 % 3);
        lemma_box_cell_index(bx, by, t2 / 3, t2 % 3);
        let i = (by * 3 + t1 / 3) * 9 + (bx * 3 + t1 % 3);
        let j = (by * 3 + t2 / 3) * 9 + (bx * 3 + t2 % 3);
        assert(t1 / 3 != t2 / 3 || t1 % 3 != t2 % 3);
        assert(i != j);
        assert(in_sight(i, j));
        assert(s[i] != 0);
        assert(v[t1] == s[i] && v[t2] == s[j]);
    }
    lemma_nine_distinct_digits_hit(v, d);
    let t = choose|t: int| 0 <= t < 9 && v[t] == d;
    lemma_box_cell_index(bx, by, t / 3, t % 3);
    assert(in_box((by * 3 + t / 3) * 9 + (bx * 3 + t % 3), bx, by) && s[(by * 3 + t / 3) * 9 + (bx
        * 3 + t % 3)] == d);
}

/// A cell of box `(bx, by)` on which the digit `num` may still be
/// placed: blank, and not in sight of any `num`.
pub open spec fn box_candidate(b: Seq<u8>, m: int, num: u8, bx: int, by: int) -> bool {
    &&& in_box(m, bx, by)
    &&& b[m] == 0
    &&& !digit_in_sight(b, m, num)
}

/// One committed move of the deductive pass: in box `(bx, by)` the digit
/// `num` had exactly one cell left that is blank and does not see `num`,
/// and `new` is `cur` with `num` written there.
pub open spec fn forced_placement(
    cur: Seq<u8>,
    new: Seq<u8>,
    c: int,
    num: u8,
    bx: int,
    by: int,
) -> bool {
    &&& 0 <= bx < 3
    &&& 0 <= by < 3
    &&& 1 <= num <= 9
    &&& box_candidate(cur, c, num, bx, by)
    &&& new == cur.update(c, num)
    &&& forall|m: int| #[trigger] box_candidate(cur, m, num, bx, by) ==> m == c
}

/// Box `(bx, by)` forces the digit `num`: exactly one of its cells can
/// still take it.
pub open spec fn box_forced(b: Seq<u8>, num: u8, bx: int, by: int) -> bool {
    exists|c: int|
        #[trigger] box_candidate(b, c, num, bx, by) && (forall|m: int|
            #[trigger] box_candidate(b, m, num, bx, by) ==> m == c)
}

/// The deductive pass has nothing left to do: no box forces any digit.
pub open spec fn propagation_fixpoint(b: Seq<u8>) -> bool {
    forall|num: u8, bx: int, by: int|
        1 <= num <= 9 && 0 <= bx < 3 && 0 <= by < 3 ==> !#[trigger] box_forced(b, num, bx, by)
}

/// A forced placement keeps every guarantee of the pass: the move is
/// legal against the original board `g`, and every valid solution of the
/// board so far agrees with it.
pub proof fn lemma_forced_placement_sound(
    g: Seq<u8>,
    cur: Seq<u8>,
    new: Seq<u8>,
    c: int,
    num: u8,
    bx: int,
    by: int,
)
    requires
        grid_wf(cur),
        extends(cur, g),
        placements_legal(cur, g),
        forced_placement(cur, new, c, num, bx, by),
    ensures
        grid_wf(new),
        extends(new, g),
        placements_legal(new, g),
        forall|s: Seq<u8>| #[trigger] is_solution(s, cur) && grid_valid(s) ==> is_solution(s, new),
{
    assert(grid_wf(new)) by {
        assert(forall|i: int| 0 <= i < 81 ==> #[trigger] new[i] <= 9);
    }
    assert(extends(new, g)) by {
        assert(g[c] == 0 || cur[c] == g[c]);
    }
    assert(placements_legal(new, g)) by {
        assert forall|i: int, j: int|
            0 <= i < 81 && 0 <= j < 81 && i != j && #[trigger] in_sight(i, j) && (g[i] == 0 || g[j]
                == 0) && new[i] != 0 implies new[i] != new[j] by {
            if i == c {
                if new[j] != 0 && new[j] == num {
                    assert(cur[j] == num);
                    assert(in_sight(c, j) && cur[j] == num);
                    assert(digit_in_sight(cur, c, num));
                }
            } else if j == c {
                if new[i] == num {
                    assert(cur[i] == num);
                    assert(in_sight(c, i) && cur[i] == num);
                    assert(digit_in_sight(cur, c, num));
                }
            }
        }
    }
    assert forall|s: Seq<u8>| #[trigger] is_solution(s, cur) && grid_valid(s) implies is_solution(
        s,
        new,
    ) by {
        lemma_complete_valid_box_has_digit(s, bx, by, num);
        let m = choose|m: int| #[trigger] in_box(m, bx, by) && s[m] == num;
        assert(cur[m] == 0) by {
            if cur[m] != 0 {
                assert(s[m] == cur[m]);
                assert(m != c);
                assert(in_sight(c, m));
                assert(digit_in_sight(cur, c, num));
            }
        }
        assert(!digit_in_sight(cur, m, num)) by {
            if digit_in_sight(cur, m, num) {
                let k = choose|k: int| #[trigger] in_sight(m, k) && cur[k] == num;
                assert(s[k] == cur[k]);
                assert(k != m);
                assert(s[m] != s[k]);
            }
        }
        assert(box_candidate(cur, m, num, bx, by));
        assert(m == c);
        assert(s[c] == num);
        assert(extends(s, new)) by {
            assert forall|i: int| 0 <= i < 81 && new[i] != 0 implies s[i] == #[trigger] new[i] by {
                if i != c {
                    assert(new[i] == cur[i]);
                }
            }
        }
        assert(placements_legal(s, new)) by {
            assert forall|i: int, j: int|
                0 <= i < 81 && 0 <= j < 81 && i != j && #[trigger] in_sight(i, j) && (new[i] == 0
                    || new[j] == 0) && s[i] != 0 implies s[i] != s[j] by {
                assert(cur[i] == 0 || cur[j] == 0);
            }
        }
    }
}


impl SudokuGame {
    /// Scan one box for the digit `num`: if exactly one of its cells is
    /// still blank and sees no `num`, write `num` there. Returns whether a
    /// digit was placed.
    fn run_solve_stage(&mut self, num: u8, box_pos: (u32, u32)) -> (made: bool)
        requires
            old(self).wf(),
            1 <= num <= 9,
            box_pos.0 < 3,
            box_pos.1 < 3,
        ensures
            final(self).wf(),
            !made ==> final(self).board() == old(self).board() && !box_forced(
                old(self).board(),
                num,
                box_pos.0 as int,
                box_pos.1 as int,
            ),
            made ==> exists|c: int| #[trigger] forced_placement(
                old(self).board(),
                final(self).board(),
                c,
                num,
                box_pos.0 as int,
                box_pos.1 as int,
            ),
            final(self).unradified@ == old(self).unradified@,
            final(self).selected_cell == old(self).selected_cell,
            final(self).reset_signalled == old(self).reset_signalled,
            final(self).input == old(self).input,
    {
        let (box_x, box_y) = box_pos;
        let ghost b0 = self.board();
        let ghost bxi = box_x as int;
        let ghost byi = box_y as int;

        let mut count: u32 = 0;
        let mut last: u32 = 0;
        let ghost mut snd: int = 0;

        let mut rr: u32 = 0;
        while rr < 3
            invariant
                self.wf(),
                self == old(self),
                self.board() == b0,
                1 <= num <= 9,
                box_x < 3,
                box_y < 3,
                bxi == box_x as int,
                byi == box_y as int,
                rr <= 3,
                count == 0 ==> forall|m: int| #[trigger]
                    box_candidate(b0, m, num, bxi, byi) ==> !(row_of(m) < byi * 3 + rr),
                count == 1 ==> last < 81 && box_candidate(b0, last as int, num, bxi, byi) && row_of(
                    last as int,
                ) < byi * 3 + rr,
                count == 1 ==> forall|m: int| #[trigger]
                    box_candidate(b0, m, num, bxi, byi) && row_of(m) < byi * 3 + rr ==> m
                    == last as int,
                count <= 2,
                count == 2 ==> box_candidate(b0, last as int, num, bxi, byi) && box_candidate(
                    b0,
                    snd,
                    num,
                    bxi,
                    byi,
                ) && last as int != snd,
            decreases 3 - rr,
        {
            let mut cc: u32 = 0;
            while cc < 3
                invariant
                    self.wf(),
                    self == old(self),
                    self.board() == b0,
                    1 <= num <= 9,
                    box_x < 3,
                    box_y < 3,
                    bxi == box_x as int,
                    byi == box_y as int,
                    rr < 3,
                    cc <= 3,
                    count == 0 ==> forall|m: int| #[trigger]
                        box_candidate(b0, m, num, bxi, byi) ==> !(row_of(m) < byi * 3 + rr || (
                        row_of(m) == byi * 3 + rr && col_of(m) < bxi * 3 + cc)),
                    count == 1 ==> last < 81 && box_candidate(b0, last as int, num, bxi, byi) && (
                    row_of(last as int) < byi * 3 + rr || (row_of(last as int) == byi * 3 + rr
                        && col_of(last as int) < bxi * 3 + cc)),
                    count == 1 ==> forall|m: int| #[trigger]
                        box_candidate(b0, m, num, bxi, byi) && (row_of(m) < byi * 3 + rr || (row_of(
                        m) == byi * 3 + rr && col_of(m) < bxi * 3 + cc)) ==> m == last as int,
                    count <= 2,
                    count == 2 ==> box_candidate(b0, last as int, num, bxi, byi) && box_candidate(
                        b0,
                        snd,
                        num,
                        bxi,
                        byi,
                    ) && last as int != snd,
                decreases 3 - cc,
            {
                let x = box_x * 3 + cc;
                let y = box_y * 3 + rr;
                let idx = Self::xy_pos_to_idx(x, y, 9);
                proof {
                    lemma_box_cell_index(bxi, byi, rr as int, cc as int);
                }
                let val = self.cells.get(idx as usize);
                let sees_num = self.cell_sees_digit(idx, num);
                if val == 0 && !sees_num {
                    proof {
                        assert(box_candidate(b0, idx as int, num, bxi, byi));
                    }
                    if count == 0 {
                        count = 1;
                        last = idx;
                    } else if count == 1 {
                        count = 2;
                        proof {
                            snd = idx as int;
                            lemma_box_cell_decomposition(last as int, bxi, byi);
                            assert(last as int != snd);
                        }
                    }
                }
                proof {
                    assert forall|m: int| #[trigger]
                        box_candidate(b0, m, num, bxi, byi) && (row_of(m) < byi * 3 + rr || (row_of(
                        m) == byi * 3 + rr && col_of(m) < bxi * 3 + cc + 1)) implies (row_of(m)
                        < byi * 3 + rr || (row_of(m) == byi * 3 + rr && col_of(m) < bxi * 3 + cc))
                        || m == idx as int by {
                        if !(row_of(m) < byi * 3 + rr || (row_of(m) == byi * 3 + rr && col_of(m)
                            < bxi * 3 + cc)) {
                            lemma_box_cell_decomposition(m, bxi, byi);
                        }
                    }
                }
                cc = cc + 1;
            }
            rr = rr + 1;
        }

        if count == 1 {
            proof {
                assert forall|m: int| #[trigger] box_candidate(b0, m, num, bxi, byi) implies m
                    == last as int by {
                    lemma_box_cell_decomposition(m, bxi, byi);
                    assert(row_of(m) < byi * 3 + 3);
                }
            }
            self.cells.set(last as usize, num);
            proof {
                assert(forced_placement(b0, self.board(), last as int, num, bxi, byi));
            }
            true
        } else {
            proof {
                assert(!box_forced(b0, num, bxi, byi)) by {
                    if box_forced(b0, num, bxi, byi) {
                        let c = choose|c: int|
                            #[trigger] box_candidate(b0, c, num, bxi, byi) && (forall|m: int|
                                #[trigger] box_candidate(b0, m, num, bxi, byi) ==> m == c);
                        if count == 0 {
                            lemma_box_cell_decomposition(c, bxi, byi);
                            assert(row_of(c) < byi * 3 + 3);
                        } else {
                            assert(last as int == c);
                            assert(snd == c);
                        }
                    }
                }
            }
            false
        }
    }
}

/// The deductive pass of the solver: fill every cell that box-level
/// elimination proves forced, and repeat until a pass places nothing —
/// on return no box forces any digit, so running the pass again would
/// change nothing. A hard cap on the number of passes guards against
/// runaway recursion, but can never be the reason the pass stops: every
/// repeated pass fills at least one of the 81 cells. Row- and
/// column-level elimination is deliberately not applied. The pass never
/// guesses: a valid solution of the starting board is a solution of the
/// result.
pub fn solve_basic_inner(game: &mut SudokuGame)
    requires
        old(game).wf(),
    ensures
        final(game).wf(),
        propagation_of(final(game).board(), old(game).board()),
        propagation_fixpoint(final(game).board()),
        final(game).unradified@ == old(game).unradified@,
        final(game).selected_cell == old(game).selected_cell,
        final(game).reset_signalled == old(game).reset_signalled,
        final(game).input == old(game).input,
{
    let ghost g0 = game.board();

    let mut depth: u32 = 0;
    let mut made_change = true;
    while made_change && depth < 1000
        invariant
            game.wf(),
            propagation_of(game.board(), g0),
            g0 == old(game).board(),
            depth <= 1000,
            made_change ==> nonzero_count(game.board()) >= nonzero_count(g0) + depth,
            !made_change ==> propagation_fixpoint(game.board()),
            game.unradified@ == old(game).unradified@,
            game.selected_cell == old(game).selected_cell,
            game.reset_signalled == old(game).reset_signalled,
            game.input == old(game).input,
        decreases 1000 - depth,
    {
        let ghost pass_board = game.board();
        made_change = false;
        let mut num: u8 = 1;
        while num <= 9
            invariant
                game.wf(),
                propagation_of(game.board(), g0),
                g0 == old(game).board(),
                1 <= num <= 10,
                nonzero_count(pass_board) >= nonzero_count(g0) + depth,
                !made_change ==> game.board() == pass_board,
                !made_change ==> forall|n: u8, x: int, y: int|
                    1 <= n < num && 0 <= x < 3 && 0 <= y < 3 ==> !#[trigger] box_forced(
                        pass_board,
                        n,
                        x,
                        y,
                    ),
                made_change ==> nonzero_count(game.board()) >= nonzero_count(pass_board) + 1,
                game.unradified@ == old(game).unradified@,
                game.selected_cell == old(game).selected_cell,
                game.reset_signalled == old(game).reset_signalled,
                game.input == old(game).input,
            decreases 10 - num,
        {
            let mut box_x: u32 = 0;
            while box_x < 3
                invariant
                    game.wf(),
                    propagation_of(game.board(), g0),
                    g0 == old(game).board(),
                    1 <= num <= 9,
                    box_x <= 3,
                    nonzero_count(pass_board) >= nonzero_count(g0) + depth,
                    !made_change ==> game.board() == pass_board,
                    !made_change ==> forall|n: u8, x: int, y: int|
                        1 <= n < num && 0 <= x < 3 && 0 <= y < 3 ==> !#[trigger] box_forced(
                            pass_board,
                            n,
                            x,
                            y,
                        ),
                    !made_change ==> forall|x: int, y: int|
                        0 <= x < box_x && 0 <= y < 3 ==> !#[trigger] box_forced(
                            pass_board,
                            num,
                            x,
                            y,
                        ),
                    made_change ==> nonzero_count(game.board()) >= nonzero_count(pass_board) + 1,
                    game.unradified@ == old(game).unradified@,
                    game.selected_cell == old(game).selected_cell,
                    game.reset_signalled == old(game).reset_signalled,
                    game.input == old(game).input,
                decreases 3 - box_x,
            {
                let mut box_y: u32 = 0;
                while box_y < 3
                    invariant
                        game.wf(),
                        propagation_of(game.board(), g0),
                        g0 == old(game).board(),
                        1 <= num <= 9,
                        box_x < 3,
                        box_y <= 3,
                        nonzero_count(pass_board) >= nonzero_count(g0) + depth,
                        !made_change ==> game.board() == pass_board,
                        !made_change ==> forall|n: u8, x: int, y: int|
                            1 <= n < num && 0 <= x < 3 && 0 <= y < 3 ==> !#[trigger] box_forced(
                                pass_board,
                                n,
                                x,
                                y,
                            ),
                        !made_change ==> forall|x: int, y: int|
                            0 <= x < box_x && 0 <= y < 3 ==> !#[trigger] box_forced(
                                pass_board,
                                num,
                                x,
                                y,
                            ),
                        !made_change ==> forall|y: int|
                            0 <= y < box_y ==> !#[trigger] box_forced(
                                pass_board,
                                num,
                                box_x as int,
                                y,
                            ),
                        made_change ==> nonzero_count(game.board()) >= nonzero_count(pass_board)
                            + 1,
                        game.unradified@ == old(game).unradified@,
                        game.selected_cell == old(game).selected_cell,
                        game.reset_signalled == old(game).reset_signalled,
                        game.input == old(game).input,
                    decreases 3 - box_y,
                {
                    let ghost pre = game.board();
                    let ghost pre_made = made_change;
                    if game.run_solve_stage(num, (box_x, box_y)) {
                        proof {
                            let c = choose|c: int| #[trigger] forced_placement(
                                pre,
                                game.board(),
                                c,
                                num,
                                box_x as int,
                                box_y as int,
                            );
                            lemma_forced_placement_sound(
                                g0,
                                pre,
                                game.board(),
                                c,
                                num,
                                box_x as int,
                                box_y as int,
                            );
                            assert forall|s: Seq<u8>| #[trigger] is_solution(s, g0)
                                && grid_valid(s) implies is_solution(s, game.board()) by {
                                assert(is_solution(s, pre));
                            }
                            lemma_nonzero_count_update(pre, c, num);
                            assert(nonzero_count(game.board()) == nonzero_count(pre) + 1);
                        }
                        made_change = true;
                    }
                    box_y = box_y + 1;
                }
                box_x = box_x + 1;
            }
            num = num + 1;
        }
        depth = depth + 1;
    }
    proof {
        if made_change {
            lemma_nonzero_count_bounds(game.board());
            lemma_nonzero_count_bounds(g0);
            assert(false);
        }
    }
}

/// A completion found after writing the legal digit `num` at the blank
/// cell `idx` also completes the board before the write.
pub proof fn lemma_branch_solution(sb: Seq<u8>, b0: Seq<u8>, idx: int, num: u8)
    requires
        b0.len() == 81,
        0 <= idx < 81,
        b0[idx] == 0,
        1 <= num <= 9,
        !digit_in_sight(b0, idx, num),
        is_solution(sb, b0.update(idx, num)),
    ensures
        is_solution(sb, b0),
{
    let b1 = b0.update(idx, num);
    assert(extends(sb, b0)) by {
        assert forall|i: int| 0 <= i < 81 && b0[i] != 0 implies sb[i] == #[trigger] b0[i] by {
            assert(b1[i] == b0[i]);
        }
    }
    assert(placements_legal(sb, b0)) by {
        assert forall|i: int, j: int|
            0 <= i < 81 && 0 <= j < 81 && i != j && #[trigger] in_sight(i, j) && (b0[i] == 0 || b0[
                j] == 0) && sb[i] != 0 implies sb[i] != sb[j] by {
            if b1[i] != 0 && b1[j] != 0 {
                if i == idx {
                    assert(sb[i] == num);
                    assert(b1[j] == b0[j]);
                    if sb[j] == num {
                        assert(sb[j] == b0[j]);
                        assert(in_sight(idx, j));
                        assert(digit_in_sight(b0, idx, num));
                        assert(false);
                    }
                } else if j == idx {
                    assert(sb[j] == num);
                    assert(b1[i] == b0[i]);
                    if sb[i] == num {
                        assert(sb[i] == b0[i]);
                        assert(in_sight(idx, i));
                        assert(digit_in_sight(b0, idx, num));
                        assert(false);
                    }
                } else {
                    assert(b1[i] == b0[i] && b1[j] == b0[j]);
                    assert(false);
                }
            }
        }
    }
}

/// A completion of a board that places `num` at the blank cell `idx`
/// also completes the board with `num` already written there.
pub proof fn lemma_solution_through_branch(s: Seq<u8>, b0: Seq<u8>, idx: int, num: u8)
    requires
        b0.len() == 81,
        0 <= idx < 81,
        b0[idx] == 0,
        is_solution(s, b0),
        s[idx] == num,
    ensures
        is_solution(s, b0.update(idx, num)),
{
    let b1 = b0.update(idx, num);
    assert(extends(s, b1)) by {
        assert forall|i: int| 0 <= i < 81 && b1[i] != 0 implies s[i] == #[trigger] b1[i] by {
            if i != idx {
                assert(b1[i] == b0[i]);
            }
        }
    }
    assert(placements_legal(s, b1)) by {
        assert forall|i: int, j: int|
            0 <= i < 81 && 0 <= j < 81 && i != j && #[trigger] in_sight(i, j) && (b1[i] == 0 || b1[
                j] == 0) && s[i] != 0 implies s[i] != s[j] by {
            assert(b0[i] == 0 || b0[j] == 0);
        }
    }
}

/// No full legal completion of `b` places digit `d` at cell `idx`.
pub open spec fn no_solution_with(b: Seq<u8>, idx: int, d: u8) -> bool {
    forall|s: Seq<u8>| #[trigger] is_solution(s, b) ==> s[idx] != d
}

/// Recursive backtracking over the blank cells at or after `start_idx`,
/// every cell before it being already filled. Returns the first full
/// legal completion found, or `None` exactly when the board has none. On
/// failure the board is left as it was found.
fn solve_inner(game: &mut SudokuGame, start_idx: usize) -> (r: Option<SudokuGame>)
    requires
        old(game).wf(),
        start_idx <= 81,
        forall|t: int| 0 <= t < start_idx ==> old(game).board()[t] != 0,
    ensures
        final(game).wf(),
        r is None ==> final(game).board() == old(game).board(),
        match r {
            Some(sol) => sol.wf() && is_solution(sol.board(), old(game).board()),
            None => forall|s: Seq<u8>| !is_solution(s, old(game).board()),
        },
    decreases 81 - start_idx,
{
    let ghost b0 = game.board();

    // Find the next blank cell.
    let mut idx = start_idx;
    while idx < 81
        invariant_except_break
            game.wf(),
            game.board() == b0,
            start_idx <= idx <= 81,
            forall|t: int| 0 <= t < idx ==> b0[t] != 0,
        ensures
            game.wf(),
            game.board() == b0,
            start_idx <= idx <= 81,
            forall|t: int| 0 <= t < idx ==> b0[t] != 0,
            idx < 81 ==> b0[idx as int] == 0,
        decreases 81 - idx,
    {
        if game.cells.get(idx) != 0 {
            idx = idx + 1;
        } else {
            break ;
        }
    }

    if idx == 81 {
        let sol = game.clone();
        proof {
            assert(grid_complete(b0));
            assert(is_solution(sol.board(), b0));
        }
        return Some(sol);
    }

    let cell_pos = SudokuGame::idx_pos_to_xy(idx as u32, 9);
    let occupied = crate::occupancy::get_occupied_numbers_at_cell(game, cell_pos);
    let valid_moves = crate::occupancy::free_digits(&occupied);
    let ghost moves = valid_moves@;
    proof {
        assert forall|d: u8| #[trigger]
            moves.contains(d) <==> 1 <= d <= 9 && !digit_in_sight(b0, idx as int, d) by {}
    }

    let mut t: usize = 0;
    while t < valid_moves.len()
        invariant
            game.wf(),
            game.board() == b0,
            b0 == old(game).board(),
            grid_wf(b0),
            valid_moves@ == moves,
            t <= moves.len(),
            start_idx <= idx < 81,
            b0[idx as int] == 0,
            forall|t2: int| 0 <= t2 < idx ==> b0[t2] != 0,
            forall|d: u8| #[trigger]
                moves.contains(d) <==> 1 <= d <= 9 && !digit_in_sight(b0, idx as int, d),
            forall|k: int| 0 <= k < t ==> no_solution_with(b0, idx as int, #[trigger] moves[k]),
        decreases moves.len() - t,
    {
        let num = valid_moves[t];
        proof {
            assert(moves.contains(moves[t as int]));
        }
        game.cells.set(idx, num);
        let ghost b1 = game.board();
        proof {
            assert(b1 == b0.update(idx as int, num));
        }
        let res = solve_inner(game, idx + 1);
        if let Some(sol) = res {
            proof {
                assert(moves.contains(num));
                lemma_branch_solution(sol.board(), b0, idx as int, num);
                assert(sol.wf());
            }
            return Some(sol);
        }
        game.cells.set(idx, 0);
        proof {
            assert(game.board() =~= b0);
            assert(no_solution_with(b0, idx as int, num)) by {
                assert forall|s: Seq<u8>| #[trigger] is_solution(s, b0) implies s[idx as int]
                    != num by {
                    if s[idx as int] == num {
                        lemma_solution_through_branch(s, b0, idx as int, num);
                    }
                }
            }
        }
        t = t + 1;
    }

    proof {
        assert forall|s: Seq<u8>| !is_solution(s, b0) by {
            if is_solution(s, b0) {
                let d = s[idx as int];
                assert(1 <= d <= 9);
                assert(!digit_in_sight(b0, idx as int, d)) by {
                    if digit_in_sight(b0, idx as int, d) {
                        let j = choose|j: int| #[trigger] in_sight(idx as int, j) && b0[j] == d;
                        assert(j != idx as int);
                        assert(s[j] == d);
                        assert(s[idx as int] != s[j]);
                    }
                }
                assert(moves.contains(d));
                let k = choose|k: int| 0 <= k < moves.len() && moves[k] == d;
                assert(no_solution_with(b0, idx as int, moves[k]));
            }
        }
    }
    None
}

/// Solve the board: run the deductive pass, then search the remaining
/// blanks. `Some` carries a full legal completion of the input; `None`
/// means no valid completion exists.
pub fn solve(game: &SudokuGame) -> (r: Option<SudokuGame>)
    requires
        game.wf(),
    ensures
        match r {
            Some(sol) => sol.wf() && is_solution(sol.board(), game.board()),
            None => forall|s: Seq<u8>|
                !(#[trigger] is_solution(s, game.board()) && grid_valid(s)),
        },
{
    let ghost g0 = game.board();
    let mut g = game.clone();
    solve_basic_inner(&mut g);
    let ghost p = g.board();
    let res = solve_inner(&mut g, 0);
    proof {
        match &res {
            Some(sol) => {
                let sb = sol.board();
                assert(extends(sb, g0)) by {
                    assert forall|i: int| 0 <= i < 81 && g0[i] != 0 implies sb[i] == #[trigger] g0[
                        i] by {
                        assert(p[i] == g0[i]);
                    }
                }
                assert(placements_legal(sb, g0)) by {
                    assert forall|i: int, j: int|
                        0 <= i < 81 && 0 <= j < 81 && i != j && #[trigger] in_sight(i, j) && (g0[i]
                            == 0 || g0[j] == 0) && sb[i] != 0 implies sb[i] != sb[j] by {
                        if p[i] != 0 && p[j] != 0 {
                            assert(sb[i] == p[i] && sb[j] == p[j]);
                        }
                    }
                }
                assert(is_solution(sb, g0));
            },
            Option::None => {
                assert forall|s: Seq<u8>|
                    !(#[trigger] is_solution(s, g0) && grid_valid(s)) by {
                    if is_solution(s, g0) && grid_valid(s) {
                        assert(is_solution(s, p));
                    }
                }
            },
        }
    }
    res
}

/// Run the deductive pass and locate the first branching point: the
/// propagated board together with its first blank cell and the digits
/// still legal there. `None` in place of a branching point means the
/// propagated board is already a full legal completion of the input.
pub fn prepare_search(game: &SudokuGame) -> (r: (SudokuGame, Option<(usize, Vec<u8>)>))
    requires
        game.wf(),
    ensures
        r.0.wf(),
        propagation_of(r.0.board(), game.board()),
        propagation_fixpoint(r.0.board()),
        match r.1 {
            Option::None => is_solution(r.0.board(), game.board()),
            Some((idx, moves)) => {
                &&& idx < 81
                &&& r.0.board()[idx as int] == 0
                &&& forall|t: int| 0 <= t < idx ==> r.0.board()[t] != 0
                &&& forall|d: u8| #[trigger]
                    moves@.contains(d) <==> 1 <= d <= 9 && !digit_in_sight(
                        r.0.board(),
                        idx as int,
                        d,
                    )
            },
        },
{
    let ghost g0 = game.board();
    let mut g = game.clone();
    solve_basic_inner(&mut g);
    let ghost p = g.board();

    let mut idx: usize = 0;
    while idx < 81
        invariant_except_break
            g.wf(),
            g.board() == p,
            idx <= 81,
            forall|t: int| 0 <= t < idx ==> p[t] != 0,
        ensures
            g.wf(),
            g.board() == p,
            idx <= 81,
            forall|t: int| 0 <= t < idx ==> p[t] != 0,
            idx < 81 ==> p[idx as int] == 0,
        decreases 81 - idx,
    {
        if g.cells.get(idx) != 0 {
            idx = idx + 1;
        } else {
            break ;
        }
    }

    if idx == 81 {
        proof {
            assert(grid_complete(p));
            assert(is_solution(p, g0)) by {
                assert(extends(p, g0));
                assert(placements_legal(p, g0));
            }
        }
        return (g, None);
    }

    let cell_pos = SudokuGame::idx_pos_to_xy(idx as u32, 9);
    let occupied = crate::occupancy::get_occupied_numbers_at_cell(&g, cell_pos);
    let moves = crate::occupancy::free_digits(&occupied);
    (g, Some((idx, moves)))
}

/// Search one branch of the root fan-out: place `digit` at the blank
/// cell `idx` and search the rest of the board. `Some` carries a full
/// legal completion of the board handed in; `None` means no completion
/// places `digit` there.
pub fn search_branch(game: &SudokuGame, idx: usize, digit: u8) -> (r: Option<SudokuGame>)
    requires
        game.wf(),
        idx < 81,
        game.board()[idx as int] == 0,
        forall|t: int| 0 <= t < idx ==> game.board()[t] != 0,
        1 <= digit <= 9,
        !digit_in_sight(game.board(), idx as int, digit),
    ensures
        match r {
            Some(sol) => sol.wf() && is_solution(sol.board(), game.board()),
            Option::None => forall|s: Seq<u8>| #[trigger]
                is_solution(s, game.board()) ==> s[idx as int] != digit,
        },
{
    let ghost b0 = game.board();
    let mut g = game.clone();
    g.cells.set(idx, digit);
    let res = solve_inner(&mut g, idx + 1);
    proof {
        match &res {
            Some(sol) => {
                lemma_branch_solution(sol.board(), b0, idx as int, digit);
            },
            Option::None => {
                assert forall|s: Seq<u8>| #[trigger] is_solution(s, b0) implies s[idx as int]
                    != digit by {
                    if s[idx as int] == digit {
                        lemma_solution_through_branch(s, b0, idx as int, digit);
                    }
                }
            },
        }
    }
    res
}

/// The deductive pass never contradicts the search: every digit it
/// places is the digit that any valid solution of the starting board —
/// in particular one found by the full solver on that board — holds at
/// the same cell.
pub proof fn lemma_propagator_agrees_with_solutions(g: Seq<u8>, p: Seq<u8>, s: Seq<u8>)
    requires
        propagation_of(p, g),
        is_solution(s, g),
        grid_valid(s),
    ensures
        forall|c: int| 0 <= c < 81 && #[trigger] p[c] != 0 ==> s[c] == p[c],
{
    assert(is_solution(s, p));
}

/// The nine cell indices of the box at `box_pos`, column-major as the
/// scan visits them: each column of the box top to bottom, left to
/// right, without repeats.
pub fn get_cells_in_box(_game: &SudokuGame, box_pos: (u32, u32)) -> (r: Vec<u32>)
    requires
        box_pos.0 < 3,
        box_pos.1 < 3,
    ensures
        r@ =~= Seq::new(
            9,
            |t: int| ((box_pos.1 * 3 + t % 3) * 9 + (box_pos.0 * 3 + t / 3)) as u32,
        ),
        forall|j: u32| #[trigger] r@.contains(j) <==> in_box(j as int, box_pos.0 as int, box_pos.1 as int),
{
    let (bx, by) = box_pos;
    let ghost boxseq = Seq::new(
        9,
        |t: int| ((by * 3 + t % 3) * 9 + (bx * 3 + t / 3)) as u32,
    );
    let mut cells: Vec<u32> = Vec::with_capacity(9);
    let mut ix: u32 = 0;
    while ix < 3
        invariant
            bx < 3,
            by < 3,
            ix <= 3,
            boxseq == Seq::new(
                9,
                |t: int| ((by * 3 + t % 3) * 9 + (bx * 3 + t / 3)) as u32,
            ),
            cells@ =~= boxseq.take(ix as int * 3),
            forall|k: int|
                0 <= k < cells@.len() ==> in_box(
                    #[trigger] cells@[k] as int,
                    bx as int,
                    by as int,
                ),
            forall|j: u32|
                j < 81 && in_box(j as int, bx as int, by as int) && col_of(j as int) < bx * 3 + ix
                    ==> cells@.contains(j),
        decreases 3 - ix,
    {
        let mut iy: u32 = 0;
        while iy < 3
            invariant
                bx < 3,
                by < 3,
                ix < 3,
                iy <= 3,
                boxseq == Seq::new(
                    9,
                    |t: int| ((by * 3 + t % 3) * 9 + (bx * 3 + t / 3)) as u32,
                ),
                cells@ =~= boxseq.take(ix as int * 3 + iy),
                forall|k: int|
                    0 <= k < cells@.len() ==> in_box(
                        #[trigger] cells@[k] as int,
                        bx as int,
                        by as int,
                    ),
                forall|j: u32|
                    j < 81 && in_box(j as int, bx as int, by as int) && col_of(j as int) < bx * 3
                        + ix ==> cells@.contains(j),
                forall|j: u32|
                    j < 81 && in_box(j as int, bx as int, by as int) && col_of(j as int) == bx * 3
                        + ix && row_of(j as int) < by * 3 + iy ==> cells@.contains(j),
            decreases 3 - iy,
        {
            proof {
                lemma_box_cell_index(bx as int, by as int, iy as int, ix as int);
            }
            let idx = SudokuGame::xy_pos_to_idx(bx * 3 + ix, by * 3 + iy, 9);
            cells.push(idx);
            proof {
                let t0 = ix as int * 3 + iy;
                assert(t0 / 3 == ix && t0 % 3 == iy) by (nonlinear_arith)
                    requires
                        ix < 3 && iy < 3 && t0 == ix as int * 3 + iy,
                ;
                assert(boxseq[t0] == idx);
                assert(cells@ =~= boxseq.take(t0 + 1));
                assert forall|j: u32|
                    j < 81 && in_box(j as int, bx as int, by as int) && col_of(j as int) == bx * 3
                        + ix && row_of(j as int) < by * 3 + iy + 1 implies cells@.contains(j) by {
                    lemma_box_cell_decomposition(j as int, bx as int, by as int);
                    if row_of(j as int) == by * 3 + iy {
                        assert(j == idx);
                    }
                }
            }
            iy = iy + 1;
        }
        proof {
            assert forall|j: u32|
                j < 81 && in_box(j as int, bx as int, by as int) && col_of(j as int) < bx * 3 + ix
                    + 1 implies cells@.contains(j) by {
                lemma_box_cell_decomposition(j as int, bx as int, by as int);
            }
        }
        ix = ix + 1;
    }
    proof {
        assert(cells@ =~= boxseq) by {
            assert(boxseq.take(9) =~= boxseq);
        }
        assert forall|j: u32| in_box(j as int, bx as int, by as int) implies cells@.contains(
            j,
        ) by {
            lemma_box_cell_decomposition(j as int, bx as int, by as int);
        }
    }
    cells
}

/// The nine cell indices of column `col`, top to bottom in ascending
/// order.
pub fn get_cells_in_col(_game: &SudokuGame, col: u32) -> (r: Vec<u32>)
    requires
        col < 9,
    ensures
        r@ =~= Seq::new(9, |t: int| (t * 9 + col) as u32),
        forall|j: u32| #[trigger]
            r@.contains(j) <==> j < 81 && col_of(j as int) == col,
{
    let mut cells: Vec<u32> = Vec::with_capacity(9);
    let mut row: u32 = 0;
    while row < 9
        invariant
            col < 9,
            row <= 9,
            cells@ =~= Seq::new(row as nat, |t: int| (t * 9 + col) as u32),
            forall|j: u32| #[trigger]
                cells@.contains(j) <==> j < 81 && col_of(j as int) == col && row_of(j as int)
                    < row,
        decreases 9 - row,
    {
        let idx = SudokuGame::xy_pos_to_idx(col, row, 9);
        cells.push(idx);
        proof {
            assert(cells@ =~= Seq::new((row + 1) as nat, |t: int| (t * 9 + col) as u32));
            assert forall|j: u32|
                j < 81 && col_of(j as int) == col && row_of(j as int) < row + 1 implies cells@
                .contains(j) by {
                crate::sudoku_game::lemma_idx_decomposition(j as int);
                if row_of(j as int) == row {
                    assert(j == idx);
                }
            }
        }
        row = row + 1;
    }
    cells
}

/// The nine cell indices of row `row`, in ascending order.
pub fn get_cells_in_row(_game: &SudokuGame, row: u32) -> (r: Vec<u32>)
    requires
        row < 9,
    ensures
        r@ =~= Seq::new(9, |t: int| (row * 9 + t) as u32),
        forall|j: u32| #[trigger]
            r@.contains(j) <==> j < 81 && row_of(j as int) == row,
{
    let mut cells: Vec<u32> = Vec::with_capacity(9);
    let mut col: u32 = 0;
    while col < 9
        invariant
            row < 9,
            col <= 9,
            cells@ =~= Seq::new(col as nat, |t: int| (row * 9 + t) as u32),
            forall|j: u32| #[trigger]
                cells@.contains(j) <==> j < 81 && row_of(j as int) == row && col_of(j as int)
                    < col,
        decreases 9 - col,
    {
        let idx = SudokuGame::xy_pos_to_idx(col, row, 9);
        cells.push(idx);
        proof {
            assert(cells@ =~= Seq::new((col + 1) as nat, |t: int| (row * 9 + t) as u32));
            assert forall|j: u32|
                j < 81 && row_of(j as int) == row && col_of(j as int) < col + 1 implies cells@
                .contains(j) by {
                crate::sudoku_game::lemma_idx_decomposition(j as int);
                if col_of(j as int) == col {
                    assert(j == idx);
                }
            }
        }
        col = col + 1;
    }
    cells
}

/// Nine digit slots of which eight distinct ones are fixed leave room
/// for exactly one digit: two digits that avoid all eight are equal.
proof fn lemma_eight_digits_leave_one(row: Seq<u8>, k: int, a: u8, b: u8)
    requires
        row.len() == 9,
        0 <= k < 9,
        forall|t: int| 0 <= t < 9 && t != k ==> 1 <= #[trigger] row[t] <= 9,
        forall|t1: int, t2: int|
            0 <= t1 < 9 && 0 <= t2 < 9 && t1 != t2 && t1 != k && t2 != k ==> #[trigger] row[t1]
                != #[trigger] row[t2],
        1 <= a <= 9,
        1 <= b <= 9,
        forall|t: int| 0 <= t < 9 && t != k ==> a != #[trigger] row[t] && b != row[t],
    ensures
        a == b,
{
    // The eight fixed digits plus `a` are nine pairwise distinct digits,
    // so they cover 1..=9; `b` avoids the eight, so it can only be `a`.
    let w = row.update(k, a);
    assert forall|t: int| 0 <= t < 9 implies 1 <= #[trigger] w[t] <= 9 by {
        if t != k {
            assert(w[t] == row[t]);
        }
    }
    assert forall|t1: int, t2: int|
        0 <= t1 < 9 && 0 <= t2 < 9 && t1 != t2 implies #[trigger] w[t1] != #[trigger] w[t2] by {
        if t1 != k && t2 != k {
            assert(w[t1] == row[t1] && w[t2] == row[t2]);
        } else if t1 == k {
            assert(w[t1] == a && w[t2] == row[t2]);
        } else {
            assert(w[t2] == a && w[t1] == row[t1]);
        }
    }
    lemma_nine_distinct_digits_hit(w, b);
    let t = choose|t: int| 0 <= t < 9 && w[t] == b;
    if t != k {
        assert(row[t] == b);
        assert(false);
    }
}

/// A valid board whose only blank is one removed clue has exactly one
/// solution: the blank cell's row already shows eight distinct digits,
/// so only the removed digit fits, and every solution restores it.
pub proof fn lemma_lone_blank_has_unique_solution(
    g: Seq<u8>,
    c: int,
    s1: Seq<u8>,
    s2: Seq<u8>,
)
    requires
        g.len() == 81,
        grid_valid(g),
        0 <= c < 81,
        g[c] == 0,
        forall|i: int| 0 <= i < 81 && i != c ==> #[trigger] g[i] != 0,
        is_solution(s1, g),
        is_solution(s2, g),
    ensures
        s1 =~= s2,
{
    assert forall|i: int| 0 <= i < 81 && i != c implies s1[i] == s2[i] by {
        assert(s1[i] == g[i] && s2[i] == g[i]);
    }
    let r = row_of(c);
    let k = col_of(c);
    crate::sudoku_game::lemma_idx_decomposition(c);
    assert forall|t1: int, t2: int|
        0 <= t1 < 9 && 0 <= t2 < 9 && t1 != t2 && t1 != k && t2 != k implies #[trigger] g[r * 9
        + t1] != #[trigger] g[r * 9 + t2] by {
        crate::sudoku_game::lemma_row_col_of_idx(t1, r);
        crate::sudoku_game::lemma_row_col_of_idx(t2, r);
        assert(in_sight(r * 9 + t1, r * 9 + t2));
        assert(g[r * 9 + t1] != 0);
    }
    assert forall|t: int| 0 <= t < 9 && t != k implies s1[c] != #[trigger] g[r * 9 + t] && s2[c]
        != #[trigger] g[r * 9 + t] && 1 <= g[r * 9 + t] <= 9 by {
        crate::sudoku_game::lemma_row_col_of_idx(t, r);
        crate::sudoku_game::lemma_row_col_of_idx(k, r);
        let j = r * 9 + t;
        assert(j != c);
        assert(in_sight(c, j));
        assert(s1[j] == g[j] && s2[j] == g[j]);
        assert(s1[c] != s1[j] && s2[c] != s2[j]);
        assert(1 <= s1[j] <= 9);
    }
    let row = Seq::new(9, |t: int| g[r * 9 + t]);
    assert(1 <= s1[c] <= 9 && 1 <= s2[c] <= 9);
    lemma_eight_digits_leave_one(row, k, s1[c], s2[c]);
}

} // verus!
