use std::str::FromStr;

use sudoku::draw_helper::AppColour;
use sudoku::status_bar::colour_overwrite::parse_hex_color;
use sudoku::status_bar::dummy::Dummy;
use sudoku::status_bar::eval::{Eval, EvalRequest};
use sudoku::status_bar::find::Find;
use sudoku::status_bar::hard_reset::HardReset;
use sudoku::status_bar::on_board_init::OnBoardInit;
use sudoku::status_bar::pencil_marks::{parse_u8, PencilMarks};
use sudoku::status_bar::DisplayMode;
use sudoku::sudoku_game::{ResetSignal, SudokuGame};

const CLASSIC: &str =
    "..3.2.6..9..3.5..1..18.64....81.29..7.......8..67.82....26.95..8..2.3..9..5.1.3..";

#[test]
fn boards_parse_from_strings() {
    let game = SudokuGame::new(Some(CLASSIC));
    assert_eq!(game.cells.get(2), 3);
    assert_eq!(game.cells.get(0), 0);
    assert_eq!(game.cells.get(9), 9);
    assert_eq!(game.board_string(), CLASSIC.replace('.', "0"));
    // The blank cells are exactly the editable ones.
    for (i, ch) in CLASSIC.chars().enumerate() {
        let editable = game.unradified.contains(&(i as u8));
        assert_eq!(editable, ch == '.');
    }
}

#[test]
fn bad_board_strings_fall_back_to_an_empty_board() {
    let too_short = SudokuGame::new(Some("123"));
    assert!((0..81).all(|i| too_short.cells.get(i) == 0));
    let bad_char = SudokuGame::new(Some(
        "x.3.2.6..9..3.5..1..18.64....81.29..7.......8..67.82....26.95..8..2.3..9..5.1.3..",
    ));
    assert!((0..81).all(|i| bad_char.cells.get(i) == 0));
}

#[test]
fn index_conversions_round_trip() {
    for idx in 0..81u32 {
        let (x, y) = SudokuGame::idx_pos_to_xy(idx, 9);
        assert_eq!(SudokuGame::xy_pos_to_idx(x, y, 9), idx);
    }
    assert_eq!(SudokuGame::xy_pos_to_idx(4, 7, 9), 67);
    assert_eq!(SudokuGame::idx_pos_to_xy(67, 9), (4, 7));
}

#[test]
fn sight_covers_row_column_and_box() {
    let game = SudokuGame::new(None);
    let sight = game.get_cells_in_sight((4, 3));
    let mut distinct: Vec<u32> = sight.clone();
    distinct.sort();
    distinct.dedup();
    // 8 row mates + 8 column mates + 4 box mates; the cell itself is
    // not in its own sight set.
    assert_eq!(distinct.len(), 20);
    assert!(!distinct.contains(&(3 * 9 + 4))); // not itself
    assert!(distinct.contains(&(3 * 9 + 0))); // same row
    assert!(distinct.contains(&(8 * 9 + 4))); // same column
    assert!(distinct.contains(&(4 * 9 + 5))); // same box
    assert!(!distinct.contains(&(8 * 9 + 8)));
}

#[test]
fn seen_digits_are_reported() {
    let game = SudokuGame::new(Some(CLASSIC));
    // Cell (0,0) sees the 3 in its row, the 9 below it, and the 1 in
    // its box, among others.
    let seen = game.get_all_cells_which_see_number(3);
    assert!(seen.contains(&0));
    let none_seen = game.get_all_cells_which_see_number(0);
    assert!(none_seen.is_empty());
}

#[test]
fn pretty_board_string_draws_rows() {
    let game = SudokuGame::new(Some(CLASSIC));
    let text = game.pretty_board_string();
    let lines: Vec<&str> = text.lines().collect();
    assert_eq!(lines.len(), 9);
    assert_eq!(lines[0], "0 0 3 0 2 0 6 0 0 ");
    assert_eq!(lines[1], "9 0 0 3 0 5 0 0 1 ");
}

#[test]
fn reset_blanks_the_editable_cells() {
    let game = SudokuGame::new(Some(CLASSIC));
    let solved = sudoku::sudoku_solver::solve(&game).expect("solvable");
    let mut current = solved.clone();
    // Give the solved board the original blank set, then reset to it.
    let mut to_state = solved.clone();
    to_state.unradified = game.unradified.clone();
    current.reset(to_state);
    assert_eq!(current.board_string(), CLASSIC.replace('.', "0"));
    assert!(matches!(current.reset_signalled, ResetSignal::Soft));
}

#[test]
fn find_moves_the_cursor() {
    let mut game = SudokuGame::new(Some(CLASSIC));
    let mut find = Find::default();
    // Forward search for the first 3 from the top-left corner.
    let r = find.activated(&mut game, &String::from("3"));
    assert!(r.is_none());
    assert_eq!(game.selected_cell, Some((2, 0)));
    // Search again: moves past the cursor to the next 3.
    let r = find.activated(&mut game, &String::from("3"));
    assert!(r.is_none());
    assert_eq!(game.selected_cell, Some((3, 1)));
    // Backward search with the `.` prefix.
    let r = find.activated(&mut game, &String::from(".9"));
    assert!(r.is_none());
    assert_eq!(game.selected_cell, Some((0, 1)));
    // A buffer that does not start with a digit is rejected.
    let r = find.activated(&mut game, &String::from("x"));
    assert_eq!(
        r.as_deref(),
        Some("Expected to start with single digit character")
    );
}

#[test]
fn hex_colours_parse_exactly() {
    assert_eq!(parse_hex_color("#11223344"), Some((0x11, 0x22, 0x33, 0x44)));
    assert_eq!(parse_hex_color("#ffAA00e9"), Some((0xff, 0xaa, 0x00, 0xe9)));
    assert_eq!(parse_hex_color("11223344"), None);
    assert_eq!(parse_hex_color("#1122334"), None);
    assert_eq!(parse_hex_color("#112233445"), None);
    assert_eq!(parse_hex_color("#11g23344"), None);
}

#[test]
fn app_colours_parse_by_name() {
    assert_eq!(
        AppColour::from_str("Background"),
        Ok(AppColour::Background)
    );
    assert_eq!(
        AppColour::from_str("BoardCorrectCell"),
        Ok(AppColour::BoardCorrectCell)
    );
    assert_eq!(AppColour::from_str("NoSuchColour"), Err(()));
}

#[test]
fn pencil_mark_limits_parse() {
    assert_eq!(parse_u8("42"), Some(42));
    assert_eq!(parse_u8("255"), Some(255));
    assert_eq!(parse_u8("256"), None);
    assert_eq!(parse_u8(""), None);
    assert_eq!(parse_u8("4x"), None);

    let mut marks = PencilMarks::default();
    assert!(marks.activated("3"));
    assert!(!marks.activated("not a number"));
    assert_eq!(marks.name(), "PencilMarks");
}

#[test]
fn pencil_marks_list_the_free_digits() {
    let game = SudokuGame::new(Some(CLASSIC));
    // Cell 0 sees 3, 2, 6 in its row; 9 and 4 in its column; 1 in its
    // box; and more.
    let marks = PencilMarks::marks_for_cell(&game, 0);
    assert_eq!(marks, vec![4, 5]);
}

#[test]
fn eval_buffers_classify() {
    match Eval::parse_buffer(&String::from("@script.lua")) {
        EvalRequest::RunFile {
            name,
            allow_duplicate,
        } => {
            assert_eq!(name, "script.lua");
            assert!(!allow_duplicate);
        }
        _ => panic!("a leading @ names a file"),
    }
    match Eval::parse_buffer(&String::from("@!script.lua")) {
        EvalRequest::RunFile {
            name,
            allow_duplicate,
        } => {
            assert_eq!(name, "script.lua");
            assert!(allow_duplicate);
        }
        _ => panic!("@! allows a duplicate load"),
    }
    match Eval::parse_buffer(&String::from("print(1)")) {
        EvalRequest::RunRepl { code } => assert_eq!(code, "print(1)"),
        _ => panic!("anything else is evaluated in place"),
    }
}

#[test]
fn small_items_report_themselves() {
    let dummy = Dummy::default();
    assert_eq!(dummy.name(), "Dummy");
    assert!(matches!(dummy.display_mode(), DisplayMode::Hidden));

    let mut game = SudokuGame::new(None);
    let mut hard = HardReset::default();
    assert_eq!(hard.name(), "HardReset");
    hard.activated(&mut game);
    assert!(matches!(game.reset_signalled, ResetSignal::Hard));

    let mut obi = OnBoardInit::default();
    obi.activated(&String::from("CpuSolve run"));
    obi.activated(&String::from("BoardGen 30"));
    let cmds = obi.commands();
    assert_eq!(cmds.len(), 2);
    assert_eq!(cmds[0], "CpuSolve run");
    assert_eq!(cmds[1], "BoardGen 30");
}
