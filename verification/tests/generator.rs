use std::sync::atomic::AtomicBool;
use std::sync::mpsc::channel;

use sudoku::board_gen::{fill_board, generate, GenerationOutcome, GenerationUpdate};
use sudoku::sudoku_game::SudokuGame;
use sudoku::sudoku_solver::solve;

fn board_of(game: &SudokuGame) -> Vec<u8> {
    (0..81).map(|i| game.cells.get(i)).collect()
}

fn sees(i: usize, j: usize) -> bool {
    let (ir, ic) = (i / 9, i % 9);
    let (jr, jc) = (j / 9, j % 9);
    ir == jr || ic == jc || (ir / 3 == jr / 3 && ic / 3 == jc / 3)
}

fn assert_fully_valid(b: &[u8]) {
    for i in 0..81 {
        assert!(1 <= b[i] && b[i] <= 9);
        for j in 0..81 {
            if i != j && sees(i, j) {
                assert_ne!(b[i], b[j]);
            }
        }
    }
}

fn clue_count(b: &[u8]) -> usize {
    b.iter().filter(|&&x| x != 0).count()
}

#[test]
fn generate_reaches_the_requested_clue_count() {
    let cancel = AtomicBool::new(false);
    let (tx, rx) = channel::<GenerationUpdate>();
    match generate(30, &cancel, &tx) {
        GenerationOutcome::Completed(g) => {
            let b = board_of(&g);
            assert_eq!(clue_count(&b), 30);
            // The puzzle still has a solution.
            assert!(solve(&g).is_some());
            // Progress was reported down to the target.
            let reports: Vec<u8> = rx
                .try_iter()
                .filter_map(|u| match u {
                    GenerationUpdate::ProgressReport(n) => Some(n),
                    GenerationUpdate::FinalResult(_) => None,
                })
                .collect();
            assert!(!reports.is_empty());
            assert_eq!(*reports.last().unwrap(), 30);
        }
        _ => panic!("expected a completed generation"),
    }
}

#[test]
fn generate_rejects_an_oversized_target() {
    let cancel = AtomicBool::new(false);
    let (tx, _rx) = channel::<GenerationUpdate>();
    assert!(matches!(
        generate(81, &cancel, &tx),
        GenerationOutcome::InvalidTarget
    ));
    assert!(matches!(
        generate(255, &cancel, &tx),
        GenerationOutcome::InvalidTarget
    ));
}

#[test]
fn every_clue_the_generator_removed_is_derived_back() {
    // With a single clue removed the puzzle must have exactly one
    // solution: the solver derives the removed digit, and every other
    // digit clashes with a cell in sight.
    let cancel = AtomicBool::new(false);
    let (tx, _rx) = channel::<GenerationUpdate>();
    match generate(80, &cancel, &tx) {
        GenerationOutcome::Completed(g) => {
            let b = board_of(&g);
            assert_eq!(clue_count(&b), 80);
            let blank = (0..81).find(|&i| b[i] == 0).unwrap();
            let solved = solve(&g).expect("the pruned puzzle stays solvable");
            let s = board_of(&solved);
            assert_fully_valid(&s);
            for d in 1..=9u8 {
                if d != s[blank] {
                    // Any other digit is already in sight of the blank.
                    assert!((0..81).any(|j| j != blank && sees(blank, j) && b[j] == d));
                }
            }
        }
        _ => panic!("expected a completed generation"),
    }
}

#[test]
fn fill_stage_only_produces_fully_legal_grids() {
    for _ in 0..3 {
        let mut game = SudokuGame::new(None);
        assert!(fill_board(&mut game, 0));
        assert_fully_valid(&board_of(&game));
    }
}

#[test]
fn cancellation_yields_the_best_puzzle_so_far() {
    let cancel = AtomicBool::new(true);
    let (tx, _rx) = channel::<GenerationUpdate>();
    match generate(30, &cancel, &tx) {
        GenerationOutcome::Cancelled(g) => {
            let b = board_of(&g);
            assert!(clue_count(&b) >= 30);
            assert!(solve(&g).is_some());
        }
        _ => panic!("cancellation must still yield a puzzle"),
    }
}
