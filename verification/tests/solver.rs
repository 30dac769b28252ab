use sudoku::sudoku_game::SudokuGame;
use sudoku::sudoku_solver::{prepare_search, search_branch, solve, solve_basic_inner};

const CLASSIC: &str =
    "..3.2.6..9..3.5..1..18.64....81.29..7.......8..67.82....26.95..8..2.3..9..5.1.3..";
const CLASSIC_SOLUTION: &str =
    "483921657967345821251876493548132976729564138136798245372689514814253769695417382";

fn board_of(game: &SudokuGame) -> Vec<u8> {
    (0..81).map(|i| game.cells.get(i)).collect()
}

fn sees(i: usize, j: usize) -> bool {
    let (ir, ic) = (i / 9, i % 9);
    let (jr, jc) = (j / 9, j % 9);
    ir == jr || ic == jc || (ir / 3 == jr / 3 && ic / 3 == jc / 3)
}

fn assert_fully_valid(b: &[u8]) {
    assert_eq!(b.len(), 81);
    for i in 0..81 {
        assert!(1 <= b[i] && b[i] <= 9);
        for j in 0..81 {
            if i != j && sees(i, j) {
                assert_ne!(b[i], b[j]);
            }
        }
    }
}

#[test]
fn solver_finds_the_unique_classic_solution() {
    let game = SudokuGame::new(Some(CLASSIC));
    let solved = solve(&game).expect("the classic puzzle has a solution");
    assert_eq!(solved.board_string(), CLASSIC_SOLUTION);
}

#[test]
fn solved_grids_are_fully_valid() {
    let game = SudokuGame::new(Some(CLASSIC));
    let solved = solve(&game).expect("the classic puzzle has a solution");
    let b = board_of(&solved);
    assert_fully_valid(&b);
    // The givens survive.
    let g = board_of(&game);
    for i in 0..81 {
        if g[i] != 0 {
            assert_eq!(g[i], b[i]);
        }
    }
}

#[test]
fn row_duplicate_makes_the_grid_unsolvable() {
    // Two 9s share the top row; the remaining cell of that row sees
    // every digit and can never be filled.
    let grid = "99123456.........7........8......................................................";
    let game = SudokuGame::new(Some(grid));
    // The board really holds the duplicate digits.
    assert_eq!(game.cells.get(0), 9);
    assert_eq!(game.cells.get(1), 9);
    assert!(solve(&game).is_none());
}

#[test]
fn propagator_reaches_a_fixpoint() {
    let game = SudokuGame::new(Some(CLASSIC));
    let mut once = game.clone();
    solve_basic_inner(&mut once);
    // A second run has nothing left to place.
    let mut twice = once.clone();
    solve_basic_inner(&mut twice);
    assert_eq!(once.board_string(), twice.board_string());
}

#[test]
fn propagator_agrees_with_the_solver() {
    let game = SudokuGame::new(Some(CLASSIC));
    let mut propagated = game.clone();
    solve_basic_inner(&mut propagated);
    let solved = solve(&game).expect("the classic puzzle has a solution");
    let p = board_of(&propagated);
    let s = board_of(&solved);
    let mut placed = 0;
    for i in 0..81 {
        if p[i] != 0 {
            assert_eq!(p[i], s[i]);
        }
        if p[i] != 0 && game.cells.get(i) == 0 {
            placed += 1;
        }
    }
    // The deductive pass makes progress on this puzzle.
    assert!(placed > 0);
}

#[test]
fn root_branches_race_to_the_same_solution() {
    let game = SudokuGame::new(Some(CLASSIC));
    let (prepared, root) = prepare_search(&game);
    match root {
        None => {
            // Propagation alone finished the board.
            assert_eq!(prepared.board_string(), CLASSIC_SOLUTION);
        }
        Some((idx, moves)) => {
            assert!(idx < 81);
            assert_eq!(prepared.cells.get(idx), 0);
            let mut winner = None;
            for digit in moves {
                if let Some(sol) = search_branch(&prepared, idx, digit) {
                    winner = Some(sol);
                    break;
                }
            }
            let sol = winner.expect("some branch must succeed");
            assert_eq!(sol.board_string(), CLASSIC_SOLUTION);
        }
    }
}

#[test]
fn empty_board_solves_to_some_full_valid_grid() {
    let game = SudokuGame::new(None);
    let solved = solve(&game).expect("an empty board can always be completed");
    assert_fully_valid(&board_of(&solved));
}
