use sudoku_backtrack::validation::is_valid_board;
use sudoku_backtrack::validation::is_valid_helper;
use sudoku_backtrack::validation::is_valid_box;
use sudoku_backtrack::validation::is_valid_box_for_value;
use sudoku_backtrack::validation::is_valid_col;
use sudoku_backtrack::validation::is_valid_col_for_value;
use sudoku_backtrack::validation::is_valid_row;
use sudoku_backtrack::validation::is_valid_row_for_value;

fn empty_board() -> [u8; 81] {
    [0u8; 81]
}

#[test]
fn empty_board_is_valid() {
    let board = empty_board();
    assert!(is_valid_board(&board));
    for i in 0..81u8 {
        assert!(is_valid_row(&board, i));
        assert!(is_valid_col(&board, i));
        assert!(is_valid_box(&board, i));
    }
}

#[test]
fn row_duplicate_detected_for_value_only() {
    let mut board = empty_board();
    // two 7's in row 0, at columns 2 and 5
    board[2] = 7;
    board[5] = 7;
    // every cell of row 0 sees the duplicate of 7
    for c in 0..9u8 {
        assert!(!is_valid_row_for_value(&board, c, 7));
        assert!(is_valid_row_for_value(&board, c, 6));
    }
    // other rows are untouched
    assert!(is_valid_row_for_value(&board, 9, 7));
    assert!(!is_valid_row(&board, 0));
    assert!(is_valid_row(&board, 9));
    assert!(!is_valid_board(&board));
}

#[test]
fn single_occurrence_is_valid() {
    let mut board = empty_board();
    board[40] = 5;
    // one 5 in the middle row, column and box
    assert!(is_valid_row_for_value(&board, 40, 5));
    assert!(is_valid_col_for_value(&board, 40, 5));
    assert!(is_valid_box_for_value(&board, 40, 5));
    assert!(is_valid_board(&board));
}

#[test]
fn column_duplicate_detected() {
    let mut board = empty_board();
    // two 3's in column 4, at rows 1 and 6
    board[9 + 4] = 3;
    board[54 + 4] = 3;
    assert!(!is_valid_col_for_value(&board, 4, 3));
    assert!(!is_valid_col(&board, 4));
    // the rows and boxes holding them stay valid
    assert!(is_valid_row(&board, 9));
    assert!(is_valid_row(&board, 54));
    assert!(is_valid_box(&board, 9 + 4));
    assert!(is_valid_box(&board, 54 + 4));
    assert!(!is_valid_board(&board));
}

#[test]
fn box_duplicate_detected() {
    let mut board = empty_board();
    // two 9's in the top-left box, on different rows and columns
    board[1] = 9; // row 0, col 1
    board[11] = 9; // row 1, col 2
    assert!(!is_valid_box_for_value(&board, 0, 9));
    assert!(!is_valid_box(&board, 0));
    assert!(is_valid_row(&board, 0));
    assert!(is_valid_row(&board, 9));
    assert!(is_valid_col(&board, 1));
    assert!(is_valid_col(&board, 2));
    assert!(!is_valid_board(&board));
}

#[test]
fn helper_spots_duplicates_in_a_pattern() {
    let mut board = empty_board();
    board[27] = 2; // row 3, col 0
    board[31] = 2; // row 3, col 4
    let row_pattern = [0, 1, 2, 3, 4, 5, 6, 7, 8];
    assert!(!is_valid_helper(&board, 27, row_pattern));
    assert!(is_valid_helper(&board, 0, row_pattern));
    let col_pattern = [0, 9, 18, 27, 36, 45, 54, 63, 72];
    // each column holds one 2, so both stay valid
    assert!(is_valid_helper(&board, 0, col_pattern));
    assert!(is_valid_helper(&board, 4, col_pattern));
    // blanks repeat freely
    assert!(is_valid_helper(&board, 1, col_pattern));
}

#[test]
fn blanks_never_count_as_duplicates() {
    // a board full of blanks has nine 0's in every region and is still valid
    let board = empty_board();
    assert!(is_valid_board(&board));
    // counting the value 0 itself finds nine occurrences, which only
    // matters for 0: the whole-region checks try values 1..=9 alone
    assert!(!is_valid_row_for_value(&board, 0, 0));
}
