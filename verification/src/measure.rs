//! A decreasing measure for the search loop.
//!
//! Each loop iteration either raises the value at the cursor cell and moves
//! the cursor right, or blanks the cursor cell and moves it left.  Weighing
//! cell j by 11^(80-j) makes the raise drop the weighted blank-count `20 *
//! board_weight` by more than the cursor term `19 * 11^(80-cp)` can gain,
//! while a retreat moves the cursor term up by at least a factor 11, more
//! than the blanked cell can give back.

use vstd::prelude::*;

use vstd::arithmetic::power::pow;
use vstd::arithmetic::power::lemma_pow_adds;
use vstd::arithmetic::power::lemma_pow_positive;
use vstd::arithmetic::power::lemma_pow1;
use vstd::arithmetic::power::lemma_pow_increases;

verus! {

/// Sum over the first `n` cells of (9 - value) * 11^(80 - position).
pub open spec fn board_weight_prefix(b: Seq<u8>, n: int) -> int
    decreases n,
{
    if n <= 0 {
        0
    } else {
        board_weight_prefix(b, n - 1) + (9 - b[n - 1]) * pow(11, (81 - n) as nat)
    }
}

/// Total weight of the board's blanks; raising any cell value lowers it.
pub open spec fn board_weight(b: Seq<u8>) -> int {
    board_weight_prefix(b, 81)
}

/// The measure the search loop decreases.
pub open spec fn search_measure(b: Seq<u8>, cp: int) -> int {
    20 * board_weight(b) + 19 * (pow(11, 81) - pow(11, (80 - cp) as nat))
}

/// The weight of a board whose cells all hold digits 0..=9 is non-negative.
pub proof fn lemma_weight_prefix_nonneg(b: Seq<u8>, n: int)
    requires
        n <= 81,
        forall|i: int| 0 <= i < n ==> b[i] <= 9,
    ensures
        board_weight_prefix(b, n) >= 0,
    decreases n,
{
    if n > 0 {
        lemma_weight_prefix_nonneg(b, n - 1);
        lemma_pow_positive(11, (81 - n) as nat);
        assert((9 - b[n - 1]) * pow(11, (81 - n) as nat) >= 0) by (nonlinear_arith)
            requires
                9 - b[n - 1] >= 0,
                pow(11, (81 - n) as nat) > 0,
        ;
    }
}

/// Changing the single cell `j` changes the weight by the value drop at `j`
/// times the weight of position `j`.
pub proof fn lemma_weight_prefix_update(b1: Seq<u8>, b2: Seq<u8>, j: int, n: int)
    requires
        0 <= j < n <= 81,
        forall|i: int| 0 <= i < n && i != j ==> b1[i] == b2[i],
    ensures
        board_weight_prefix(b2, n) - board_weight_prefix(b1, n) == (b1[j] - b2[j]) * pow(
            11,
            (80 - j) as nat,
        ),
    decreases n,
{
    if j == n - 1 {
        assert(board_weight_prefix(b1, n - 1) == board_weight_prefix(b2, n - 1)) by {
            lemma_weight_prefix_agree(b1, b2, n - 1);
        }
        assert((9 - b2[j]) * pow(11, (81 - n) as nat) - (9 - b1[j]) * pow(11, (81 - n) as nat) == (
        b1[j] - b2[j]) * pow(11, (81 - n) as nat)) by (nonlinear_arith);
    } else {
        lemma_weight_prefix_update(b1, b2, j, n - 1);
    }
}

/// Boards that agree on their first `n` cells weigh the same over them.
pub proof fn lemma_weight_prefix_agree(b1: Seq<u8>, b2: Seq<u8>, n: int)
    requires
        n <= 81,
        forall|i: int| 0 <= i < n ==> b1[i] == b2[i],
    ensures
        board_weight_prefix(b1, n) == board_weight_prefix(b2, n),
    decreases n,
{
    if n > 0 {
        lemma_weight_prefix_agree(b1, b2, n - 1);
    }
}

/// Committing a larger value at the cursor and moving the cursor right
/// decreases the measure.
pub proof fn lemma_measure_decreases_commit(b: Seq<u8>, cp: int, v: u8, cp2: int)
    requires
        b.len() == 81,
        0 <= cp < cp2 <= 80,
        b[cp] < v <= 9,
        forall|i: int| 0 <= i < 81 ==> b[i] <= 9,
    ensures
        search_measure(b.update(cp, v), cp2) < search_measure(b, cp),
{
    let b2 = b.update(cp, v);
    let p1 = pow(11, (80 - cp) as nat);
    let p2 = pow(11, (80 - cp2) as nat);
    lemma_pow_positive(11, (80 - cp) as nat);
    lemma_pow_positive(11, (80 - cp2) as nat);
    lemma_weight_prefix_update(b, b2, cp, 81);
    assert(board_weight(b2) - board_weight(b) == (b[cp] - v) * p1);
    assert(20 * ((b[cp] - v) * p1) <= -20 * p1) by (nonlinear_arith)
        requires
            b[cp] - v <= -1,
            p1 > 0,
    ;
    assert(search_measure(b2, cp2) - search_measure(b, cp) == 20 * ((b[cp] - v) * p1) + 19 * p1
        - 19 * p2);
}

/// Blanking the cursor cell and moving the cursor left decreases the
/// measure: the cursor term grows by at least a factor 11.
pub proof fn lemma_measure_decreases_retreat(b: Seq<u8>, cp: int, cp2: int)
    requires
        b.len() == 81,
        0 <= cp2 < cp <= 80,
        forall|i: int| 0 <= i < 81 ==> b[i] <= 9,
    ensures
        search_measure(b.update(cp, 0), cp2) < search_measure(b, cp),
{
    let b2 = b.update(cp, 0);
    let p1 = pow(11, (80 - cp) as nat);
    let p2 = pow(11, (80 - cp2) as nat);
    lemma_pow_positive(11, (80 - cp) as nat);
    lemma_pow_positive(11, (80 - cp2) as nat);
    lemma_weight_prefix_update(b, b2, cp, 81);
    assert(board_weight(b2) - board_weight(b) == b[cp] * p1);
    assert(20 * (b[cp] * p1) <= 180 * p1) by (nonlinear_arith)
        requires
            0 <= b[cp] <= 9,
            p1 > 0,
    ;
    assert(p2 >= 11 * p1) by {
        lemma_pow_adds(11, (80 - cp) as nat, 1nat);
        lemma_pow1(11);
        assert(pow(11, (81 - cp) as nat) == p1 * 11);
        lemma_pow_increases(11, (81 - cp) as nat, (80 - cp2) as nat);
    }
    assert(search_measure(b2, cp2) - search_measure(b, cp) == 20 * (b[cp] * p1) + 19 * p1 - 19
        * p2);
    assert(19 * p2 >= 209 * p1) by (nonlinear_arith)
        requires
            p2 >= 11 * p1,
            p1 > 0,
    ;
}

/// The measure never drops below zero while the cursor is on the board.
pub proof fn lemma_measure_nonneg(b: Seq<u8>, cp: int)
    requires
        b.len() == 81,
        0 <= cp <= 80,
        forall|i: int| 0 <= i < 81 ==> b[i] <= 9,
    ensures
        search_measure(b, cp) >= 0,
{
    lemma_weight_prefix_nonneg(b, 81);
    lemma_pow_increases(11, (80 - cp) as nat, 81nat);
}

} // verus!
