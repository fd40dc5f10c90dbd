//! Rows, columns and 3x3 boxes of the 81-cell board.
//!
//! A cell index i in 0..81 lies in row i / 9, column i % 9 and box
//! (i % 9) / 3 + 3 * ((i / 9) / 3).  Each of the 27 regions is described by
//! the sequence of the nine cell indices it covers, and a region is valid
//! when no value 1..=9 occurs in it more than once.

use vstd::prelude::*;

use crate::counting::count_value;
use crate::counting::lemma_count_agree;
use crate::counting::lemma_count_pointwise_le;
use crate::counting::lemma_count_ge_two_gives_two_matches;
use crate::counting::lemma_two_matches_count_ge_two;

verus! {

/// The board holds exactly 81 cells, each 0 (blank) or a digit 1..=9.
pub open spec fn board_wf(b: Seq<u8>) -> bool {
    &&& b.len() == 81
    &&& forall|i: int| 0 <= i < 81 ==> b[i] <= 9
}

pub open spec fn in_board(i: int) -> bool {
    0 <= i < 81
}

pub open spec fn row_of(i: int) -> int {
    i / 9
}

pub open spec fn col_of(i: int) -> int {
    i % 9
}

pub open spec fn box_of(i: int) -> int {
    (i % 9) / 3 + 3 * ((i / 9) / 3)
}

/// Top-left cell of box `x`.
pub open spec fn box_start(x: int) -> int {
    3 * (x % 3) + 27 * (x / 3)
}

/// The nine cell indices of row `r`, left to right.
pub open spec fn row_cells(r: int) -> Seq<int> {
    Seq::new(9, |k: int| 9 * r + k)
}

/// The nine cell indices of column `c`, top to bottom.
pub open spec fn col_cells(c: int) -> Seq<int> {
    Seq::new(9, |k: int| c + 9 * k)
}

/// The nine cell indices of box `x`, row-major.
pub open spec fn box_cells(x: int) -> Seq<int> {
    Seq::new(9, |k: int| box_start(x) + 9 * (k / 3) + k % 3)
}

/// Cell indices reached from `start` by the displacements in `pattern`.
pub open spec fn pattern_cells(start: int, pattern: Seq<u8>) -> Seq<int> {
    Seq::new(pattern.len(), |k: int| start + pattern[k])
}

/// No value 1..=9 occurs more than once among the listed cells.
pub open spec fn cells_ok(b: Seq<u8>, cells: Seq<int>) -> bool {
    forall|v: u8| 1 <= v <= 9 ==> count_value(b, cells, v) <= 1
}

pub open spec fn row_ok(b: Seq<u8>, r: int) -> bool {
    cells_ok(b, row_cells(r))
}

pub open spec fn col_ok(b: Seq<u8>, c: int) -> bool {
    cells_ok(b, col_cells(c))
}

pub open spec fn box_ok(b: Seq<u8>, x: int) -> bool {
    cells_ok(b, box_cells(x))
}

/// Every row, column and box of the board is free of duplicates.
pub open spec fn board_valid(b: Seq<u8>) -> bool {
    &&& forall|r: int| 0 <= r < 9 ==> #[trigger] row_ok(b, r)
    &&& forall|c: int| 0 <= c < 9 ==> #[trigger] col_ok(b, c)
    &&& forall|x: int| 0 <= x < 9 ==> #[trigger] box_ok(b, x)
}

/// Writing `v` at cell `i` leaves the row, the column and the box of `i`
/// free of duplicates.
pub open spec fn placement_valid(b: Seq<u8>, i: int, v: u8) -> bool {
    &&& row_ok(b.update(i, v), row_of(i))
    &&& col_ok(b.update(i, v), col_of(i))
    &&& box_ok(b.update(i, v), box_of(i))
}

/// Row cells lie on the board, belong to that row, and every cell of the
/// row is listed at its column position.
pub proof fn lemma_row_cells_facts(r: int)
    requires
        0 <= r < 9,
    ensures
        row_cells(r).len() == 9,
        forall|k: int|
            0 <= k < 9 ==> in_board(#[trigger] row_cells(r)[k]) && row_of(row_cells(r)[k]) == r,
        forall|i: int|
            in_board(i) && row_of(i) == r ==> 0 <= col_of(i) < 9 && row_cells(r)[#[trigger] col_of(
                i,
            )] == i,
{
}

/// Column cells lie on the board, belong to that column, and every cell of
/// the column is listed at its row position.
pub proof fn lemma_col_cells_facts(c: int)
    requires
        0 <= c < 9,
    ensures
        col_cells(c).len() == 9,
        forall|k: int|
            0 <= k < 9 ==> in_board(#[trigger] col_cells(c)[k]) && col_of(col_cells(c)[k]) == c,
        forall|i: int|
            in_board(i) && col_of(i) == c ==> 0 <= row_of(i) < 9 && col_cells(c)[#[trigger] row_of(
                i,
            )] == i,
{
}

/// Position of cell `i` within the cell list of its box.
pub open spec fn box_slot(i: int) -> int {
    3 * ((i / 9) % 3) + (i % 9) % 3
}

/// Box cells lie on the board, belong to that box, and every cell of the
/// box is listed at its slot position.
pub proof fn lemma_box_cells_facts(x: int)
    requires
        0 <= x < 9,
    ensures
        box_cells(x).len() == 9,
        forall|k: int|
            0 <= k < 9 ==> in_board(#[trigger] box_cells(x)[k]) && box_of(box_cells(x)[k]) == x,
        forall|i: int|
            in_board(i) && box_of(i) == x ==> 0 <= box_slot(i) < 9 && box_cells(x)[
                #[trigger] box_slot(i)] == i,
{
    assert forall|k: int| 0 <= k < 9 implies in_board(#[trigger] box_cells(x)[k]) && box_of(
        box_cells(x)[k],
    ) == x by {
        let cell = box_start(x) + 9 * (k / 3) + k % 3;
        assert(cell == 9 * (3 * (x / 3) + k / 3) + (3 * (x % 3) + k % 3));
        assert(0 <= 3 * (x % 3) + k % 3 < 9);
        vstd::arithmetic::div_mod::lemma_fundamental_div_mod_converse(
            cell,
            9,
            3 * (x / 3) + k / 3,
            3 * (x % 3) + k % 3,
        );
    }
    assert forall|i: int| in_board(i) && box_of(i) == x implies 0 <= box_slot(i) < 9 && box_cells(
        x,
    )[#[trigger] box_slot(i)] == i by {
        let k = box_slot(i);
        assert(box_cells(x)[k] == box_start(x) + 9 * (k / 3) + k % 3);
        assert(k / 3 == (i / 9) % 3 && k % 3 == (i % 9) % 3) by {
            vstd::arithmetic::div_mod::lemma_fundamental_div_mod_converse(
                k,
                3,
                (i / 9) % 3,
                (i % 9) % 3,
            );
        }
        assert(x % 3 == (i % 9) / 3 && x / 3 == (i / 9) / 3) by {
            vstd::arithmetic::div_mod::lemma_fundamental_div_mod_converse(
                x,
                3,
                (i / 9) / 3,
                (i % 9) / 3,
            );
        }
        assert(box_cells(x)[k] == 9 * (i / 9) + i % 9);
    }
}

/// Two boards that agree on every listed cell validate the region alike.
pub proof fn lemma_cells_ok_agree(b1: Seq<u8>, b2: Seq<u8>, cells: Seq<int>)
    requires
        forall|k: int| 0 <= k < cells.len() ==> b1[#[trigger] cells[k]] == b2[cells[k]],
    ensures
        cells_ok(b1, cells) == cells_ok(b2, cells),
{
    assert forall|v: u8| 1 <= v <= 9 implies count_value(b1, cells, v) == count_value(
        b2,
        cells,
        v,
    ) by {
        lemma_count_agree(b1, b2, cells, v, cells.len() as int);
    }
}

/// Blanking cells never creates a duplicate: if every listed cell of `b1`
/// agrees with `b2` or is blank, a region valid in `b2` is valid in `b1`.
pub proof fn lemma_cells_ok_pointwise(b1: Seq<u8>, b2: Seq<u8>, cells: Seq<int>)
    requires
        forall|k: int|
            0 <= k < cells.len() ==> b1[#[trigger] cells[k]] == b2[cells[k]] || b1[cells[k]] == 0,
        cells_ok(b2, cells),
    ensures
        cells_ok(b1, cells),
{
    assert forall|v: u8| 1 <= v <= 9 implies count_value(b1, cells, v) <= 1 by {
        assert(count_value(b2, cells, v) <= 1);
        lemma_count_pointwise_le(b1, b2, cells, v, cells.len() as int);
    }
}

/// A board whose every cell agrees with a valid board or is blank is valid.
pub proof fn lemma_board_valid_pointwise(b1: Seq<u8>, b2: Seq<u8>)
    requires
        b1.len() == 81,
        forall|j: int| 0 <= j < 81 ==> b1[j] == b2[j] || b1[j] == 0,
        board_valid(b2),
    ensures
        board_valid(b1),
{
    assert forall|r: int| 0 <= r < 9 implies #[trigger] row_ok(b1, r) by {
        lemma_row_cells_facts(r);
        assert(row_ok(b2, r));
        lemma_cells_ok_pointwise(b1, b2, row_cells(r));
    }
    assert forall|c: int| 0 <= c < 9 implies #[trigger] col_ok(b1, c) by {
        lemma_col_cells_facts(c);
        assert(col_ok(b2, c));
        lemma_cells_ok_pointwise(b1, b2, col_cells(c));
    }
    assert forall|x: int| 0 <= x < 9 implies #[trigger] box_ok(b1, x) by {
        lemma_box_cells_facts(x);
        assert(box_ok(b2, x));
        lemma_cells_ok_pointwise(b1, b2, box_cells(x));
    }
}

/// Writing a locally valid value keeps the whole board valid: regions away
/// from the written cell are untouched, and the three regions through it
/// are exactly what `placement_valid` checks.
pub proof fn lemma_placement_preserves_board_valid(b: Seq<u8>, i: int, v: u8)
    requires
        b.len() == 81,
        in_board(i),
        board_valid(b),
        placement_valid(b, i, v),
    ensures
        board_valid(b.update(i, v)),
{
    let b2 = b.update(i, v);
    assert forall|r: int| 0 <= r < 9 implies #[trigger] row_ok(b2, r) by {
        lemma_row_cells_facts(r);
        if r != row_of(i) {
            assert(row_ok(b, r));
            lemma_cells_ok_agree(b, b2, row_cells(r));
        }
    }
    assert forall|c: int| 0 <= c < 9 implies #[trigger] col_ok(b2, c) by {
        lemma_col_cells_facts(c);
        if c != col_of(i) {
            assert(col_ok(b, c));
            lemma_cells_ok_agree(b, b2, col_cells(c));
        }
    }
    assert forall|x: int| 0 <= x < 9 implies #[trigger] box_ok(b2, x) by {
        lemma_box_cells_facts(x);
        if x != box_of(i) {
            assert(box_ok(b, x));
            lemma_cells_ok_agree(b, b2, box_cells(x));
        }
    }
}

/// Blanking one cell keeps the board valid.
pub proof fn lemma_clear_preserves_board_valid(b: Seq<u8>, i: int)
    requires
        b.len() == 81,
        in_board(i),
        board_valid(b),
    ensures
        board_valid(b.update(i, 0)),
{
    lemma_board_valid_pointwise(b.update(i, 0), b);
}

/// No value 1..=9 occurs twice among the listed cells, said cell by cell:
/// no later cell repeats an earlier non-blank one.
pub open spec fn no_duplicate_values(b: Seq<u8>, cells: Seq<int>) -> bool {
    forall|k1: int, k2: int|
        0 <= k1 < k2 < cells.len() && b[#[trigger] cells[k1]] != 0 ==> b[cells[k1]] != b[
            #[trigger] cells[k2]]
}

/// A region is valid exactly when it holds no two equal non-blank values.
pub proof fn lemma_cells_ok_iff_no_duplicates(b: Seq<u8>, cells: Seq<int>)
    requires
        board_wf(b),
        forall|k: int| 0 <= k < cells.len() ==> in_board(#[trigger] cells[k]),
    ensures
        cells_ok(b, cells) <==> no_duplicate_values(b, cells),
{
    if cells_ok(b, cells) {
        assert forall|k1: int, k2: int|
            0 <= k1 < k2 < cells.len() && b[#[trigger] cells[k1]] != 0 implies b[cells[k1]] != b[
            #[trigger] cells[k2]] by {
            let v = b[cells[k1]];
            assert(v <= 9);
            if b[cells[k2]] == v {
                lemma_two_matches_count_ge_two(b, cells, v, k1, k2, cells.len() as int);
                assert(count_value(b, cells, v) >= 2);
            }
        }
    }
    if no_duplicate_values(b, cells) {
        assert forall|v: u8| 1 <= v <= 9 implies count_value(b, cells, v) <= 1 by {
            if count_value(b, cells, v) >= 2 {
                lemma_count_ge_two_gives_two_matches(b, cells, v, cells.len() as int);
                let (k1, k2) = choose|k1: int, k2: int|
                    0 <= k1 < k2 < cells.len() && b[#[trigger] cells[k1]] == v && b[
                        #[trigger] cells[k2]] == v;
                assert(b[cells[k1]] != 0 && b[cells[k1]] == b[cells[k2]]);
            }
        }
    }
}

/// The whole board is valid exactly when no row, column or box holds two
/// equal non-blank values.
pub proof fn lemma_board_valid_iff_no_duplicates(b: Seq<u8>)
    requires
        board_wf(b),
    ensures
        board_valid(b) <==> (forall|g: int|
            0 <= g < 9 ==> no_duplicate_values(b, #[trigger] row_cells(g)) && no_duplicate_values(
                b,
                col_cells(g),
            ) && no_duplicate_values(b, box_cells(g))),
{
    if board_valid(b) {
        assert forall|g: int|
            0 <= g < 9 implies no_duplicate_values(b, #[trigger] row_cells(g))
            && no_duplicate_values(b, col_cells(g)) && no_duplicate_values(b, box_cells(g)) by {
            lemma_row_cells_facts(g);
            lemma_col_cells_facts(g);
            lemma_box_cells_facts(g);
            assert(row_ok(b, g) && col_ok(b, g) && box_ok(b, g));
            lemma_cells_ok_iff_no_duplicates(b, row_cells(g));
            lemma_cells_ok_iff_no_duplicates(b, col_cells(g));
            lemma_cells_ok_iff_no_duplicates(b, box_cells(g));
        }
    }
    if forall|g: int|
        0 <= g < 9 ==> no_duplicate_values(b, #[trigger] row_cells(g)) && no_duplicate_values(
            b,
            col_cells(g),
        ) && no_duplicate_values(b, box_cells(g)) {
        assert forall|r: int| 0 <= r < 9 implies #[trigger] row_ok(b, r) by {
            lemma_row_cells_facts(r);
            assert(no_duplicate_values(b, row_cells(r)));
            lemma_cells_ok_iff_no_duplicates(b, row_cells(r));
        }
        assert forall|c: int| 0 <= c < 9 implies #[trigger] col_ok(b, c) by {
            lemma_col_cells_facts(c);
            assert(no_duplicate_values(b, row_cells(c)) && no_duplicate_values(b, col_cells(c)));
            lemma_cells_ok_iff_no_duplicates(b, col_cells(c));
        }
        assert forall|x: int| 0 <= x < 9 implies #[trigger] box_ok(b, x) by {
            lemma_box_cells_facts(x);
            assert(no_duplicate_values(b, row_cells(x)) && no_duplicate_values(b, box_cells(x)));
            lemma_cells_ok_iff_no_duplicates(b, box_cells(x));
        }
    }
}

} // verus!
