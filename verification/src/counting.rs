//! Counting occurrences of a value over a selection of board cells.
//!
//! A region (row, column or 3x3 box) is described by the sequence of the
//! nine cell indices it covers; every duplicate check of the validator
//! reduces to "how many of these cells hold the value v".

use vstd::prelude::*;

verus! {

/// Number of positions among the first `n` entries of `cells` whose board
/// cell holds exactly `v`.
pub open spec fn count_value_prefix(b: Seq<u8>, cells: Seq<int>, v: u8, n: int) -> int
    decreases n,
{
    if n <= 0 {
        0
    } else {
        count_value_prefix(b, cells, v, n - 1) + if b[cells[n - 1]] == v {
            1int
        } else {
            0int
        }
    }
}

/// Number of cells listed in `cells` that hold exactly `v`.
pub open spec fn count_value(b: Seq<u8>, cells: Seq<int>, v: u8) -> int {
    count_value_prefix(b, cells, v, cells.len() as int)
}

/// A prefix count lies between 0 and the prefix length.
pub proof fn lemma_count_prefix_bounds(b: Seq<u8>, cells: Seq<int>, v: u8, n: int)
    requires
        0 <= n,
    ensures
        0 <= count_value_prefix(b, cells, v, n) <= n,
    decreases n,
{
    if n > 0 {
        lemma_count_prefix_bounds(b, cells, v, n - 1);
    }
}

/// Counting one more position adds one when that position matches and
/// nothing otherwise; stated for direct use by loop proofs.
pub proof fn lemma_count_prefix_step(b: Seq<u8>, cells: Seq<int>, v: u8, n: int)
    requires
        0 < n,
    ensures
        count_value_prefix(b, cells, v, n) == count_value_prefix(b, cells, v, n - 1) + (if b[
            cells[n - 1]] == v {
            1int
        } else {
            0int
        }),
{
}

/// Two boards that agree on every listed cell give the same count.
pub proof fn lemma_count_agree(b1: Seq<u8>, b2: Seq<u8>, cells: Seq<int>, v: u8, n: int)
    requires
        0 <= n <= cells.len(),
        forall|k: int| 0 <= k < n ==> b1[#[trigger] cells[k]] == b2[cells[k]],
    ensures
        count_value_prefix(b1, cells, v, n) == count_value_prefix(b2, cells, v, n),
    decreases n,
{
    if n > 0 {
        lemma_count_agree(b1, b2, cells, v, n - 1);
    }
}

/// If every listed cell of `b1` either agrees with `b2` or is blank, then
/// `b1` holds a non-zero value at most as often as `b2` does.
pub proof fn lemma_count_pointwise_le(b1: Seq<u8>, b2: Seq<u8>, cells: Seq<int>, v: u8, n: int)
    requires
        0 <= n <= cells.len(),
        v != 0,
        forall|k: int|
            0 <= k < n ==> b1[#[trigger] cells[k]] == b2[cells[k]] || b1[cells[k]] == 0,
    ensures
        count_value_prefix(b1, cells, v, n) <= count_value_prefix(b2, cells, v, n),
    decreases n,
{
    if n > 0 {
        lemma_count_pointwise_le(b1, b2, cells, v, n - 1);
        lemma_count_prefix_bounds(b2, cells, v, n - 1);
    }
}

/// Two distinct listed positions holding `v` push the count to at least 2.
pub proof fn lemma_two_matches_count_ge_two(
    b: Seq<u8>,
    cells: Seq<int>,
    v: u8,
    k1: int,
    k2: int,
    n: int,
)
    requires
        0 <= k1 < k2 < n <= cells.len(),
        b[cells[k1]] == v,
        b[cells[k2]] == v,
    ensures
        count_value_prefix(b, cells, v, n) >= 2,
    decreases n,
{
    if k2 == n - 1 {
        lemma_one_match_count_ge_one(b, cells, v, k1, n - 1);
    } else {
        lemma_two_matches_count_ge_two(b, cells, v, k1, k2, n - 1);
        lemma_count_prefix_bounds(b, cells, v, n - 1);
    }
}

/// One listed position holding `v` pushes the count to at least 1.
pub proof fn lemma_one_match_count_ge_one(b: Seq<u8>, cells: Seq<int>, v: u8, k: int, n: int)
    requires
        0 <= k < n <= cells.len(),
        b[cells[k]] == v,
    ensures
        count_value_prefix(b, cells, v, n) >= 1,
    decreases n,
{
    if k < n - 1 {
        lemma_one_match_count_ge_one(b, cells, v, k, n - 1);
    } else {
        lemma_count_prefix_bounds(b, cells, v, n - 1);
    }
}

/// A count of at least 2 produces two distinct listed positions holding `v`.
pub proof fn lemma_count_ge_two_gives_two_matches(b: Seq<u8>, cells: Seq<int>, v: u8, n: int)
    requires
        0 <= n <= cells.len(),
        count_value_prefix(b, cells, v, n) >= 2,
    ensures
        exists|k1: int, k2: int|
            0 <= k1 < k2 < n && b[#[trigger] cells[k1]] == v && b[#[trigger] cells[k2]] == v,
    decreases n,
{
    lemma_count_prefix_bounds(b, cells, v, n - 1);
    if b[cells[n - 1]] == v {
        if count_value_prefix(b, cells, v, n - 1) >= 2 {
            lemma_count_ge_two_gives_two_matches(b, cells, v, n - 1);
        } else {
            lemma_count_ge_one_gives_match(b, cells, v, n - 1);
            let k1 = choose|k: int| 0 <= k < n - 1 && b[#[trigger] cells[k]] == v;
            assert(0 <= k1 < n - 1 && b[cells[k1]] == v && b[cells[n - 1]] == v);
        }
    } else {
        lemma_count_ge_two_gives_two_matches(b, cells, v, n - 1);
    }
}

/// A count of at least 1 produces a listed position holding `v`.
pub proof fn lemma_count_ge_one_gives_match(b: Seq<u8>, cells: Seq<int>, v: u8, n: int)
    requires
        0 <= n <= cells.len(),
        count_value_prefix(b, cells, v, n) >= 1,
    ensures
        exists|k: int| 0 <= k < n && b[#[trigger] cells[k]] == v,
    decreases n,
{
    if b[cells[n - 1]] == v {
        assert(0 <= n - 1 < n && b[cells[n - 1]] == v);
    } else {
        lemma_count_ge_one_gives_match(b, cells, v, n - 1);
    }
}

} // verus!
