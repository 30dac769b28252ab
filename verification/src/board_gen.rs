use vstd::prelude::*;

use core::sync::atomic::{AtomicBool, Ordering};
use rand::seq::SliceRandom;
use std::sync::mpsc::{SendError, Sender};

use crate::sudoku_game::{
    extends, grid_complete, grid_valid, grid_wf, in_sight, is_solution, lemma_nonzero_count_full,
    lemma_nonzero_count_update, nonzero_count, SudokuGame,
};
use crate::sudoku_solver::solve;

verus! {

broadcast use vstd::seq_lib::lemma_seq_contains_after_push;

#[verifier::external_type_specification]
#[verifier::external_body]
#[verifier::reject_recursive_types(T)]
pub struct ExSender<T>(Sender<T>);

#[verifier::external_type_specification]
#[verifier::external_body]
#[verifier::reject_recursive_types(T)]
pub struct ExSendError<T>(SendError<T>);

/// Relies on std's `Sender::send`, which hands the value to the paired
/// receiver; nothing is assumed of the outcome, as the receiver may be
/// gone.
pub assume_specification<T>[ Sender::<T>::send ](s: &Sender<T>, t: T) -> Result<
    (),
    SendError<T>,
>;

/// Relies on rand's `SliceRandom::shuffle`, which reorders the elements
/// in place and neither adds, drops nor changes any.
#[verifier::external_body]
fn shuffle_vec(v: &mut Vec<u8>)
    ensures
        final(v)@.to_multiset() == old(v)@.to_multiset(),
        final(v)@.len() == old(v)@.len(),
        forall|x: u8| #[trigger] final(v)@.contains(x) <==> old(v)@.contains(x),
{
    v.shuffle(&mut rand::thread_rng());
}

/// A report sent from the generation task while it runs.
pub enum GenerationUpdate {
    FinalResult(Option<SudokuGame>),
    ProgressReport(u8),
}

/// The displayed state of a generation task.
#[derive(Clone, Copy, PartialEq, Eq, Structural)]
pub enum GenerationStatus {
    Done,
    Waiting(u8),
    NotStarted,
    Failed,
}

impl GenerationStatus {
    /// Fold one report from the generation task into the displayed
    /// status.
    pub fn apply(&mut self, update: &GenerationUpdate)
        ensures
            *final(self) == match update {
                GenerationUpdate::FinalResult(Some(_)) => GenerationStatus::Done,
                GenerationUpdate::FinalResult(Option::None) => GenerationStatus::Failed,
                GenerationUpdate::ProgressReport(p) => GenerationStatus::Waiting(*p),
            },
    {
        *self = match update {
            GenerationUpdate::FinalResult(Some(_)) => GenerationStatus::Done,
            GenerationUpdate::FinalResult(Option::None) => GenerationStatus::Failed,
            GenerationUpdate::ProgressReport(p) => GenerationStatus::Waiting(*p),
        };
    }
}

/// A fully valid board solves any board it extends.
pub proof fn lemma_valid_extension_is_solution(s: Seq<u8>, g: Seq<u8>)
    requires
        grid_complete(s),
        grid_valid(s),
        extends(s, g),
    ensures
        is_solution(s, g),
{
    assert forall|i: int, j: int|
        0 <= i < 81 && 0 <= j < 81 && i != j && #[trigger] in_sight(i, j) && (g[i] == 0 || g[j]
            == 0) && s[i] != 0 implies s[i] != s[j] by {}
}

/// Fill every blank cell at or after `start_idx`, trying the legal
/// digits of each cell in random order and backtracking on dead ends.
/// On success the board is a full legal completion of what it was; on
/// failure it is left unchanged, and no completion exists.
pub fn fill_board(game: &mut SudokuGame, start_idx: usize) -> (r: bool)
    requires
        old(game).wf(),
        start_idx <= 81,
        forall|t: int| 0 <= t < start_idx ==> old(game).board()[t] != 0,
    ensures
        final(game).wf(),
        r ==> is_solution(final(game).board(), old(game).board()),
        !r ==> final(game).board() == old(game).board(),
        !r ==> forall|s: Seq<u8>| !is_solution(s, old(game).board()),
    decreases 81 - start_idx,
{
    let ghost b0 = game.board();

    let mut idx = start_idx;
    while idx < 81
        invariant_except_break
            game.wf(),
            game.board() == b0,
            start_idx <= idx <= 81,
            forall|t: int| 0 <= t < idx ==> b0[t] != 0,
        ensures
            game.wf(),
            game.board() == b0,
            start_idx <= idx <= 81,
            forall|t: int| 0 <= t < idx ==> b0[t] != 0,
            idx < 81 ==> b0[idx as int] == 0,
        decreases 81 - idx,
    {
        if game.cells.get(idx) != 0 {
            idx = idx + 1;
        } else {
            break ;
        }
    }

    if idx == 81 {
        proof {
            assert(grid_complete(b0));
            assert(is_solution(b0, b0));
        }
        return true;
    }

    let cell_pos = SudokuGame::idx_pos_to_xy(idx as u32, 9);
    let occupied = crate::occupancy::get_occupied_numbers_at_cell(game, cell_pos);
    let mut numbers = crate::occupancy::free_digits(&occupied);
    shuffle_vec(&mut numbers);
    let ghost moves = numbers@;

    let mut t: usize = 0;
    while t < numbers.len()
        invariant
            game.wf(),
            game.board() == b0,
            b0 == old(game).board(),
            grid_wf(b0),
            numbers@ == moves,
            t <= moves.len(),
            start_idx <= idx < 81,
            b0[idx as int] == 0,
            forall|t2: int| 0 <= t2 < idx ==> b0[t2] != 0,
            forall|d: u8| #[trigger]
                moves.contains(d) <==> 1 <= d <= 9 && !crate::occupancy::digit_in_sight(
                    b0,
                    idx as int,
                    d,
                ),
            forall|k: int|
                0 <= k < t ==> crate::sudoku_solver::no_solution_with(
                    b0,
                    idx as int,
                    #[trigger] moves[k],
                ),
        decreases moves.len() - t,
    {
        let num = numbers[t];
        proof {
            assert(moves.contains(moves[t as int]));
        }
        game.cells.set(idx, num);
        let ghost b1 = game.board();
        if fill_board(game, idx + 1) {
            proof {
                assert(moves.contains(num));
                crate::sudoku_solver::lemma_branch_solution(game.board(), b0, idx as int, num);
            }
            return true;
        }
        game.cells.set(idx, 0);
        proof {
            assert(game.board() =~= b0);
            assert(crate::sudoku_solver::no_solution_with(b0, idx as int, num)) by {
                assert forall|s: Seq<u8>| #[trigger] is_solution(s, b0) implies s[idx as int]
                    != num by {
                    if s[idx as int] == num {
                        crate::sudoku_solver::lemma_solution_through_branch(
                            s,
                            b0,
                            idx as int,
                            num,
                        );
                    }
                }
            }
        }
        t = t + 1;
    }

    proof {
        assert forall|s: Seq<u8>| !is_solution(s, b0) by {
            if is_solution(s, b0) {
                let d = s[idx as int];
                assert(1 <= d <= 9);
                assert(!crate::occupancy::digit_in_sight(b0, idx as int, d)) by {
                    if crate::occupancy::digit_in_sight(b0, idx as int, d) {
                        let j = choose|j: int| #[trigger] in_sight(idx as int, j) && b0[j] == d;
                        assert(j != idx as int);
                        assert(s[j] == d);
                        assert(s[idx as int] != s[j]);
                    }
                }
                assert(moves.contains(d));
                let k = choose|k: int| 0 <= k < moves.len() && moves[k] == d;
                assert(crate::sudoku_solver::no_solution_with(b0, idx as int, moves[k]));
            }
        }
    }
    false
}

/// How a generation run ended.
pub enum GenerationOutcome {
    /// The clue target was reached; the board has exactly that many
    /// clues.
    Completed(SudokuGame),
    /// Cancellation was requested; the board is the best puzzle reached,
    /// with at least the requested number of clues.
    Cancelled(SudokuGame),
    /// The undo budget ran out before the target was reached.
    Exhausted,
    /// The clue target was no smaller than the whole board.
    InvalidTarget,
}

/// Generate a puzzle with `target` clues: fill a board with a random
/// complete legal grid, then remove clues one at a time, keeping a
/// removal only when the solver still derives the removed digit, with an
/// undo stack for rounds that get stuck. Progress is reported through
/// `progress` after every accepted removal. Cancellation through
/// `should_stop` ends the run early with the puzzle reached so far.
/// Whatever board comes back still has a full legal completion.
pub fn generate(
    target: u8,
    should_stop: &AtomicBool,
    progress: &Sender<GenerationUpdate>,
) -> (r: GenerationOutcome)
    ensures
        r is InvalidTarget <==> target >= 81,
        match r {
            GenerationOutcome::Completed(g) => g.wf() && nonzero_count(g.board()) == target
                && g.unradified@ =~= Seq::<u8>::empty() && (exists|s: Seq<u8>|
                is_solution(s, g.board()) && grid_valid(s)),
            GenerationOutcome::Cancelled(g) => g.wf() && nonzero_count(g.board()) >= target
                && g.unradified@ =~= Seq::<u8>::empty() && (exists|s: Seq<u8>|
                is_solution(s, g.board()) && grid_valid(s)),
            GenerationOutcome::Exhausted => true,
            GenerationOutcome::InvalidTarget => true,
        },
{
    if target >= 81 {
        return GenerationOutcome::InvalidTarget;
    }

    let mut game = SudokuGame::new(None);
    if !fill_board(&mut game, 0) {
        return GenerationOutcome::Exhausted;
    }
    let ghost f0 = game.board();
    proof {
        assert(grid_valid(f0) && grid_complete(f0)) by {
            crate::sudoku_game::lemma_solution_of_valid_grid_is_valid(
                f0,
                Seq::new(81, |i: int| 0u8),
            );
        }
        assert(extends(f0, f0));
    }

    let mut total: usize = 81;
    proof {
        lemma_nonzero_count_full(f0);
    }
    let mut previous_states: Vec<(SudokuGame, usize)> = Vec::new();
    let mut undo_count: u32 = 0;

    loop
        invariant
            target < 81,
            game.wf(),
            grid_complete(f0),
            grid_valid(f0),
            extends(f0, game.board()),
            total == nonzero_count(game.board()),
            target <= total <= 81,
            undo_count <= 10000,
            forall|e: int|
                0 <= e < previous_states@.len() ==> {
                    &&& (#[trigger] previous_states@[e]).0.wf()
                    &&& extends(f0, previous_states@[e].0.board())
                    &&& previous_states@[e].1 == nonzero_count(previous_states@[e].0.board())
                    &&& target <= previous_states@[e].1 <= 81
                },
        decreases 10001 - undo_count, total,
    {
        if total <= target as usize {
            game.unradified.clear();
            proof {
                assert(is_solution(f0, game.board()) && grid_valid(f0)) by {
                    lemma_valid_extension_is_solution(f0, game.board());
                }
            }
            return GenerationOutcome::Completed(game);
        }
        if should_stop.load(Ordering::Relaxed) {
            game.unradified.clear();
            proof {
                assert(is_solution(f0, game.board()) && grid_valid(f0)) by {
                    lemma_valid_extension_is_solution(f0, game.board());
                }
            }
            return GenerationOutcome::Cancelled(game);
        }

        // One pruning round: attempt each cell once, in random order.
        let mut order: Vec<u8> = Vec::with_capacity(81);
        let mut i: u8 = 0;
        while i < 81
            invariant
                i <= 81,
                forall|k: int| 0 <= k < order@.len() ==> #[trigger] order@[k] < 81,
            decreases 81 - i,
        {
            order.push(i);
            i = i + 1;
        }
        proof {
            assert(forall|k: int| 0 <= k < order@.len() ==> #[trigger] order@[k] < 81);
        }
        shuffle_vec(&mut order);
        proof {
            assert forall|k: int| 0 <= k < order@.len() implies #[trigger] order@[k] < 81 by {
                assert(order@.contains(order@[k]));
            }
        }

        let ghost pre_total = total;
        let mut removed = false;
        let mut t: usize = 0;
        while t < order.len() && !removed
            invariant
                target < 81,
                game.wf(),
                grid_complete(f0),
                grid_valid(f0),
                extends(f0, game.board()),
                total == nonzero_count(game.board()),
                target <= total <= 81,
                target < pre_total,
                !removed ==> total == pre_total,
                removed ==> total + 1 == pre_total,
                t <= order@.len(),
                forall|k: int| 0 <= k < order@.len() ==> #[trigger] order@[k] < 81,
                forall|e: int|
                    0 <= e < previous_states@.len() ==> {
                        &&& (#[trigger] previous_states@[e]).0.wf()
                        &&& extends(f0, previous_states@[e].0.board())
                        &&& previous_states@[e].1 == nonzero_count(previous_states@[e].0.board())
                        &&& target <= previous_states@[e].1 <= 81
                    },
            decreases order@.len() - t,
        {
            // Cancellation is polled before every attempt: up to one
            // solver call after the flag is raised, the run stops with
            // the puzzle reached so far.
            if should_stop.load(Ordering::Relaxed) {
                game.unradified.clear();
                proof {
                    assert(is_solution(f0, game.board()) && grid_valid(f0)) by {
                        lemma_valid_extension_is_solution(f0, game.board());
                    }
                }
                return GenerationOutcome::Cancelled(game);
            }
            proof {
                assert(order@[t as int] < 81);
            }
            let idx = order[t] as usize;
            let og = game.cells.get(idx);
            if og != 0 {
                let ghost before = game.board();
                game.cells.set(idx, 0);
                proof {
                    lemma_nonzero_count_update(before, idx as int, 0);
                    assert(extends(f0, game.board())) by {
                        assert forall|c: int|
                            0 <= c < 81 && game.board()[c] != 0 implies f0[c] == #[trigger] game
                            .board()[c] by {
                            assert(game.board()[c] == before[c]);
                        }
                    }
                }
                match solve(&game) {
                    Some(solved) => {
                        if solved.cells.get(idx) != og {
                            // Removing this clue loses the digit: put it
                            // back and move on.
                            game.cells.set(idx, og);
                            proof {
                                lemma_nonzero_count_update(
                                    before.update(idx as int, 0),
                                    idx as int,
                                    og,
                                );
                                assert(game.board() =~= before);
                            }
                        } else {
                            total = total - 1;
                            let _ = progress.send(
                                GenerationUpdate::ProgressReport(total as u8),
                            );
                            previous_states.push((game.clone(), total));
                            removed = true;
                        }
                    },
                    Option::None => {
                        // Cannot happen: the original filled grid still
                        // completes the board.
                        proof {
                            lemma_valid_extension_is_solution(f0, game.board());
                            assert(false);
                        }
                        game.cells.set(idx, og);
                    },
                }
            }
            t = t + 1;
        }

        if !removed {
            // The round is stuck: back up one accepted removal, within
            // the retry budget.
            if undo_count < 10000 && previous_states.len() > 0 {
                match previous_states.pop() {
                    Some(entry) => {
                        game = entry.0;
                        total = entry.1;
                        undo_count = undo_count + 1;
                    },
                    Option::None => {
                        return GenerationOutcome::Exhausted;
                    },
                }
            } else {
                return GenerationOutcome::Exhausted;
            }
        }
    }
}

} // verus!
