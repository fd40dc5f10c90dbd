use sudoku_backtrack::solver::CellType;
use sudoku_backtrack::solver::Sudoku;

/// The puzzle the solver was written around; it has a unique solution.
fn example_puzzle() -> [u8; 81] {
    [
        0, 3, 0, 9, 8, 4, 2, 0, 0, //
        0, 0, 9, 0, 0, 7, 0, 0, 3, //
        8, 0, 0, 0, 0, 0, 9, 0, 0, //
        0, 0, 6, 0, 0, 2, 0, 1, 0, //
        2, 0, 0, 7, 0, 5, 6, 3, 0, //
        0, 0, 0, 0, 9, 0, 4, 0, 8, //
        0, 6, 2, 0, 0, 0, 5, 0, 0, //
        1, 0, 0, 0, 0, 0, 0, 7, 0, //
        3, 0, 4, 0, 6, 1, 0, 0, 0,
    ]
}

/// A complete valid grid: cell (r, c) holds ((3r + r/3 + c) mod 9) + 1.
fn full_valid_grid() -> [u8; 81] {
    let mut board = [0u8; 81];
    for r in 0..9usize {
        for c in 0..9usize {
            board[9 * r + c] = (((3 * r + r / 3 + c) % 9) + 1) as u8;
        }
    }
    board
}

#[test]
fn new_copies_the_puzzle() {
    let puzzle = example_puzzle();
    let sudoku = Sudoku::new(puzzle);
    assert_eq!(sudoku.start_board, puzzle);
    assert_eq!(sudoku.solve_board, puzzle);
    assert_eq!(sudoku.cell_pointer, 0);
    for i in 0..81u8 {
        assert_eq!(sudoku.get_start_cell(i), puzzle[i as usize]);
        assert_eq!(sudoku.get_solve_cell(i), puzzle[i as usize]);
    }
}

#[test]
fn index_conversions_roundtrip() {
    assert_eq!(Sudoku::to_index(0, 0), 0);
    assert_eq!(Sudoku::to_index(8, 8), 80);
    assert_eq!(Sudoku::to_index(5, 3), 48);
    assert_eq!(Sudoku::to_row_col(48), (5, 3));
    for index in 0..81u8 {
        let (row, col) = Sudoku::to_row_col(index);
        assert_eq!(Sudoku::to_index(row, col), index);
    }
}

#[test]
fn cursor_bounds_are_respected() {
    let mut sudoku = Sudoku::new([0u8; 81]);
    assert!(sudoku.can_increase_cell_pointer());
    assert!(!sudoku.can_decrease_cell_pointer());
    sudoku.cell_pointer = 80;
    assert!(!sudoku.can_increase_cell_pointer());
    assert!(sudoku.can_decrease_cell_pointer());
}

#[test]
fn validation_function_counts_a_pattern() {
    let mut puzzle = [0u8; 81];
    puzzle[10] = 4; // row 1, col 1
    puzzle[14] = 4; // row 1, col 5
    let sudoku = Sudoku::new(puzzle);
    let row_pattern = [0, 1, 2, 3, 4, 5, 6, 7, 8];
    // the pattern anchored at the start of row 1 sees both 4's
    assert!(!sudoku.validation_function(9, row_pattern, 4));
    // anchored at row 0 or row 2 it sees none
    assert!(sudoku.validation_function(0, row_pattern, 4));
    assert!(sudoku.validation_function(18, row_pattern, 4));
    // a single occurrence passes
    assert!(sudoku.validation_function(9, row_pattern, 5));
    let col_pattern = [0, 9, 18, 27, 36, 45, 54, 63, 72];
    // columns 1 and 5 each hold one 4
    assert!(sudoku.validation_function(1, col_pattern, 4));
    assert!(sudoku.validation_function(5, col_pattern, 4));
}

#[test]
fn probe_leaves_the_board_unchanged() {
    // probing any value at any cell never changes the engine state
    let puzzle = example_puzzle();
    for index in [0u8, 4, 40, 80] {
        for value in 0..=9u8 {
            let mut sudoku = Sudoku::new(puzzle);
            sudoku.is_valid_placement(index, value);
            assert_eq!(sudoku.solve_board, puzzle);
            assert_eq!(sudoku.start_board, puzzle);
            assert_eq!(sudoku.cell_pointer, 0);
        }
    }
}

#[test]
fn probe_checks_all_three_regions() {
    let mut puzzle = [0u8; 81];
    puzzle[3] = 6; // row 0
    puzzle[9] = 7; // column 0
    puzzle[10] = 8; // box 0 only
    let mut sudoku = Sudoku::new(puzzle);
    assert!(!sudoku.is_valid_placement(0, 6));
    assert!(!sudoku.is_valid_placement(0, 7));
    assert!(!sudoku.is_valid_placement(0, 8));
    assert!(sudoku.is_valid_placement(0, 1));
    assert!(sudoku.is_valid_placement(0, 9));
}

#[test]
fn next_valid_value_is_monotonic() {
    // on an empty board the search starts right above the current value
    let mut sudoku = Sudoku::new([0u8; 81]);
    assert_eq!(sudoku.get_next_valid_value_from_cell(0), 1);
    for current in 1..9u8 {
        let mut s = Sudoku::new([0u8; 81]);
        s.solve_board[0] = current;
        let next = s.get_next_valid_value_from_cell(0);
        assert_eq!(next, current + 1);
        assert!(next > current);
    }
}

#[test]
fn next_valid_value_skips_blocked_values() {
    let mut puzzle = [0u8; 81];
    puzzle[1] = 1; // row of cell 0
    puzzle[9] = 2; // column and box of cell 0
    puzzle[11] = 3; // box of cell 0
    let mut sudoku = Sudoku::new(puzzle);
    assert_eq!(sudoku.get_next_valid_value_from_cell(0), 4);
}

#[test]
fn next_valid_value_exhausts_to_zero() {
    let mut puzzle = [0u8; 81];
    // row 0 holds 1..=8, so only 9 could go in the last cell,
    // but column 8 already holds a 9
    for c in 0..8usize {
        puzzle[c] = (c + 1) as u8;
    }
    puzzle[9 * 5 + 8] = 9;
    let mut sudoku = Sudoku::new(puzzle);
    assert_eq!(sudoku.get_next_valid_value_from_cell(8), 0);
}

#[test]
fn full_valid_board_solves_unchanged() {
    let grid = full_valid_grid();
    let mut sudoku = Sudoku::new(grid);
    assert!(sudoku.is_valid_board());
    let solved = sudoku.backtrack();
    assert!(solved);
    assert_eq!(sudoku.solve_board, grid);
    assert_eq!(sudoku.start_board, grid);
}

#[test]
fn contradictory_board_is_impossible_untouched() {
    let mut puzzle = [0u8; 81];
    // two 5's in row 0: a direct contradiction
    puzzle[0] = 5;
    puzzle[3] = 5;
    let mut sudoku = Sudoku::new(puzzle);
    assert!(!sudoku.is_valid_board());
    let solved = sudoku.backtrack();
    assert!(!solved);
    assert_eq!(sudoku.solve_board, puzzle);
}

#[test]
fn unsolvable_but_valid_board_is_impossible() {
    let mut puzzle = [0u8; 81];
    // row 0 holds 1..=8; its last cell needs a 9, but column 8 has one
    for c in 0..8usize {
        puzzle[c] = (c + 1) as u8;
    }
    puzzle[9 * 5 + 8] = 9;
    let mut sudoku = Sudoku::new(puzzle);
    assert!(sudoku.is_valid_board());
    let solved = sudoku.backtrack();
    assert!(!solved);
    // the transient guesses are cleared: the board is the puzzle again
    assert_eq!(sudoku.solve_board, puzzle);
}

#[test]
fn example_puzzle_solves_deterministically() {
    let puzzle = example_puzzle();
    let expected: [u8; 81] = [
        5, 3, 1, 9, 8, 4, 2, 6, 7, //
        6, 4, 9, 2, 5, 7, 1, 8, 3, //
        8, 2, 7, 6, 1, 3, 9, 5, 4, //
        4, 9, 6, 8, 3, 2, 7, 1, 5, //
        2, 1, 8, 7, 4, 5, 6, 3, 9, //
        7, 5, 3, 1, 9, 6, 4, 2, 8, //
        9, 6, 2, 3, 7, 8, 5, 4, 1, //
        1, 8, 5, 4, 2, 9, 3, 7, 6, //
        3, 7, 4, 5, 6, 1, 8, 9, 2,
    ];
    let mut first = Sudoku::new(puzzle);
    assert!(first.backtrack());
    // the result is the puzzle's unique solution: a complete valid grid
    // that keeps every given
    assert!(first.is_valid_board());
    for i in 0..81usize {
        let v = first.solve_board[i];
        assert!(1 <= v && v <= 9);
        if puzzle[i] != 0 {
            assert_eq!(v, puzzle[i]);
        }
    }
    assert_eq!(first.solve_board, expected);
    // solving the same puzzle again gives the identical grid
    let mut second = Sudoku::new(puzzle);
    assert!(second.backtrack());
    assert_eq!(first.solve_board, second.solve_board);
}

#[test]
fn cell_types_follow_cursor_and_givens() {
    let mut puzzle = [0u8; 81];
    puzzle[1] = 7;
    let mut sudoku = Sudoku::new(puzzle);
    // the cursor starts on cell 0
    assert_eq!(sudoku.get_cell_type(0), CellType::Check);
    assert_eq!(sudoku.get_cell_type(1), CellType::Fixed);
    assert_eq!(sudoku.get_cell_type(2), CellType::Empty);
    // a committed guess behind the cursor
    sudoku.solve_board[2] = 3;
    sudoku.cell_pointer = 5;
    assert_eq!(sudoku.get_cell_type(2), CellType::Guess);
    assert_eq!(sudoku.get_cell_type(5), CellType::Check);
    // a filled non-given cell at or past the cursor is out of order
    sudoku.solve_board[7] = 4;
    assert_eq!(sudoku.get_cell_type(7), CellType::Error);
}
