//! Read-only duplicate checks over a board snapshot.
//!
//! Each function takes the 81-cell board by reference together with a cell
//! index; the row, column or box checked is the one containing that cell.
//! The `_for_value` forms count one candidate value; the whole-region forms
//! try every value 1..=9 in turn.

use vstd::prelude::*;

use crate::counting::count_value;
use crate::counting::count_value_prefix;
use crate::counting::lemma_count_prefix_step;
use crate::regions::box_cells;
use crate::regions::box_of;
use crate::regions::box_start;
use crate::regions::board_valid;
use crate::regions::box_ok;
use crate::regions::col_cells;
use crate::regions::col_of;
use crate::regions::col_ok;
use crate::regions::lemma_box_cells_facts;
use crate::regions::no_duplicate_values;
use crate::regions::pattern_cells;
use crate::regions::row_cells;
use crate::regions::row_of;
use crate::regions::row_ok;

verus! {

/// The row of cell `index` holds `value` at most once.
pub fn is_valid_row_for_value(board: &[u8; 81], index: u8, value: u8) -> (r: bool)
    requires
        index < 81,
    ensures
        r == (count_value(board@, row_cells(row_of(index as int)), value) <= 1),
{
    let row: u8 = index / 9;
    let start: u8 = 9 * row;
    let mut count: u8 = 0;
    let mut k: u8 = 0;
    while k < 9
        invariant
            k <= 9,
            index < 81,
            row == index / 9,
            start == 9 * row,
            count <= k,
            count == count_value_prefix(board@, row_cells(row as int), value, k as int),
        decreases 9 - k,
    {
        if board[(start + k) as usize] == value {
            count = count + 1;
        }
        k = k + 1;
        proof {
            lemma_count_prefix_step(board@, row_cells(row as int), value, k as int);
        }
    }
    count <= 1
}

/// The column of cell `index` holds `value` at most once.
pub fn is_valid_col_for_value(board: &[u8; 81], index: u8, value: u8) -> (r: bool)
    requires
        index < 81,
    ensures
        r == (count_value(board@, col_cells(col_of(index as int)), value) <= 1),
{
    let col: u8 = index % 9;
    let mut count: u8 = 0;
    let mut k: u8 = 0;
    while k < 9
        invariant
            k <= 9,
            index < 81,
            col == index % 9,
            count <= k,
            count == count_value_prefix(board@, col_cells(col as int), value, k as int),
        decreases 9 - k,
    {
        if board[(col + 9 * k) as usize] == value {
            count = count + 1;
        }
        k = k + 1;
        proof {
            lemma_count_prefix_step(board@, col_cells(col as int), value, k as int);
        }
    }
    count <= 1
}

/// The 3x3 box of cell `index` holds `value` at most once.
pub fn is_valid_box_for_value(board: &[u8; 81], index: u8, value: u8) -> (r: bool)
    requires
        index < 81,
    ensures
        r == (count_value(board@, box_cells(box_of(index as int)), value) <= 1),
{
    let row: u8 = index / 9;
    let col: u8 = index % 9;
    let region: u8 = (col / 3) + 3 * (row / 3);
    let start: u8 = 3 * (region % 3) + 27 * (region / 3);
    let mut count: u8 = 0;
    let mut k: u8 = 0;
    proof {
        assert(region as int == box_of(index as int));
        assert(start as int == box_start(region as int));
    }
    while k < 9
        invariant
            k <= 9,
            index < 81,
            region as int == box_of(index as int),
            region < 9,
            start as int == box_start(region as int),
            start <= 60,
            count <= k,
            count == count_value_prefix(board@, box_cells(region as int), value, k as int),
        decreases 9 - k,
    {
        if board[(start + 9 * (k / 3) + k % 3) as usize] == value {
            count = count + 1;
        }
        k = k + 1;
        proof {
            lemma_count_prefix_step(board@, box_cells(region as int), value, k as int);
        }
    }
    count <= 1
}

/// The row of cell `index` holds no value 1..=9 more than once.
pub fn is_valid_row(board: &[u8; 81], index: u8) -> (r: bool)
    requires
        index < 81,
    ensures
        r == row_ok(board@, row_of(index as int)),
{
    let mut v: u8 = 1;
    while v <= 9
        invariant
            1 <= v <= 10,
            index < 81,
            forall|u: u8|
                1 <= u < v ==> count_value(board@, row_cells(row_of(index as int)), u) <= 1,
        decreases 10 - v,
    {
        if !is_valid_row_for_value(board, index, v) {
            return false;
        }
        v = v + 1;
    }
    true
}

/// The column of cell `index` holds no value 1..=9 more than once.
pub fn is_valid_col(board: &[u8; 81], index: u8) -> (r: bool)
    requires
        index < 81,
    ensures
        r == col_ok(board@, col_of(index as int)),
{
    let mut v: u8 = 1;
    while v <= 9
        invariant
            1 <= v <= 10,
            index < 81,
            forall|u: u8|
                1 <= u < v ==> count_value(board@, col_cells(col_of(index as int)), u) <= 1,
        decreases 10 - v,
    {
        if !is_valid_col_for_value(board, index, v) {
            return false;
        }
        v = v + 1;
    }
    true
}

/// The box of cell `index` holds no value 1..=9 more than once.
pub fn is_valid_box(board: &[u8; 81], index: u8) -> (r: bool)
    requires
        index < 81,
    ensures
        r == box_ok(board@, box_of(index as int)),
{
    let mut v: u8 = 1;
    while v <= 9
        invariant
            1 <= v <= 10,
            index < 81,
            forall|u: u8|
                1 <= u < v ==> count_value(board@, box_cells(box_of(index as int)), u) <= 1,
        decreases 10 - v,
    {
        if !is_valid_box_for_value(board, index, v) {
            return false;
        }
        v = v + 1;
    }
    true
}

/// The cells reached from `start_cell` by the displacements in
/// `cell_pattern` hold no duplicate non-blank value.
pub fn is_valid_helper(board: &[u8; 81], start_cell: u8, cell_pattern: [u8; 9]) -> (r: bool)
    requires
        forall|k: int| 0 <= k < 9 ==> start_cell + cell_pattern@[k] < 81,
    ensures
        r == no_duplicate_values(board@, pattern_cells(start_cell as int, cell_pattern@)),
{
    let ghost cells = pattern_cells(start_cell as int, cell_pattern@);
    let mut k1: u8 = 0;
    while k1 < 9
        invariant
            k1 <= 9,
            forall|j: int| 0 <= j < 9 ==> start_cell + cell_pattern@[j] < 81,
            cells == pattern_cells(start_cell as int, cell_pattern@),
            forall|i1: int, i2: int|
                0 <= i1 < k1 && i1 < i2 < 9 && board@[#[trigger] cells[i1]] != 0 ==> board@[
                    cells[i1]] != board@[#[trigger] cells[i2]],
        decreases 9 - k1,
    {
        let first = board[(start_cell + cell_pattern[k1 as usize]) as usize];
        if first != 0 {
            let mut k2: u8 = k1 + 1;
            while k2 < 9
                invariant
                    k1 < k2 <= 9,
                    forall|j: int| 0 <= j < 9 ==> start_cell + cell_pattern@[j] < 81,
                    cells == pattern_cells(start_cell as int, cell_pattern@),
                    first == board@[cells[k1 as int]],
                    first != 0,
                    forall|i2: int|
                        k1 < i2 < k2 ==> board@[cells[k1 as int]] != board@[#[trigger] cells[i2]],
                decreases 9 - k2,
            {
                if board[(start_cell + cell_pattern[k2 as usize]) as usize] == first {
                    proof {
                        assert(board@[cells[k2 as int]] == first);
                        assert(board@[cells[k1 as int]] != 0 && board@[cells[k1 as int]] == board@[
                            cells[k2 as int]]);
                    }
                    return false;
                }
                k2 = k2 + 1;
            }
        }
        k1 = k1 + 1;
    }
    true
}

/// Every row, column and box of the board is free of duplicates.
pub fn is_valid_board(board: &[u8; 81]) -> (r: bool)
    ensures
        r == board_valid(board@),
{
    let mut row: u8 = 0;
    while row < 9
        invariant
            row <= 9,
            forall|r2: int| 0 <= r2 < row ==> #[trigger] row_ok(board@, r2),
        decreases 9 - row,
    {
        if !is_valid_row(board, 9 * row) {
            return false;
        }
        row = row + 1;
    }
    let mut col: u8 = 0;
    while col < 9
        invariant
            col <= 9,
            forall|r2: int| 0 <= r2 < 9 ==> #[trigger] row_ok(board@, r2),
            forall|c2: int| 0 <= c2 < col ==> #[trigger] col_ok(board@, c2),
        decreases 9 - col,
    {
        if !is_valid_col(board, col) {
            return false;
        }
        col = col + 1;
    }
    let mut bx: u8 = 0;
    while bx < 9
        invariant
            bx <= 9,
            forall|r2: int| 0 <= r2 < 9 ==> #[trigger] row_ok(board@, r2),
            forall|c2: int| 0 <= c2 < 9 ==> #[trigger] col_ok(board@, c2),
            forall|x2: int| 0 <= x2 < bx ==> #[trigger] box_ok(board@, x2),
        decreases 9 - bx,
    {
        proof {
            lemma_box_cells_facts(bx as int);
        }
        if !is_valid_box(board, 3 * (bx % 3) + 27 * (bx / 3)) {
            return false;
        }
        bx = bx + 1;
    }
    true
}

} // verus!
