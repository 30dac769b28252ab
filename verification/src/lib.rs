//! A 9 x 9 Sudoku engine: the board and its sight rules, an occupancy
//! index over them, a deductive propagation pass, a backtracking solver,
//! a puzzle generator that fills a board and prunes it toward a clue
//! target under a cooperative cancellation flag, and the small pieces of
//! game state the surrounding program polls and edits.

pub mod board_gen;
pub mod cells;
pub mod draw_helper;
pub mod input_helper;
pub mod occupancy;
pub mod status_bar;
pub mod sudoku_game;
pub mod sudoku_solver;
pub mod task_status;

