//! What counts as a solution, and which candidate grids the ordered search
//! has already ruled out.
//!
//! Candidates are explored in increasing order of the values written at
//! non-given cells, earlier cells weighing more.  The running invariant of
//! the search is `no_solution_below`: every solution still lies at or above
//! the current frontier.  Kept through every step, it turns a fruitless
//! exhaustion of the first free cell into a proof that no solution exists.

use vstd::prelude::*;

use crate::regions::board_valid;
use crate::regions::board_wf;
use crate::regions::box_of;
use crate::regions::box_ok;
use crate::regions::col_of;
use crate::regions::col_ok;
use crate::regions::in_board;
use crate::regions::lemma_board_valid_pointwise;
use crate::regions::placement_valid;
use crate::regions::row_of;
use crate::regions::row_ok;

verus! {

/// `b` keeps every given (non-zero) cell of the puzzle `g`.
pub open spec fn respects_givens(b: Seq<u8>, g: Seq<u8>) -> bool {
    forall|i: int| 0 <= i < 81 && g[i] != 0 ==> b[i] == g[i]
}

/// A solution of puzzle `g`: a complete grid of digits 1..=9, free of
/// duplicates in every region, that keeps the givens of `g`.
pub open spec fn is_solution(s: Seq<u8>, g: Seq<u8>) -> bool {
    &&& s.len() == 81
    &&& forall|i: int| 0 <= i < 81 ==> 1 <= #[trigger] s[i] <= 9
    &&& board_valid(s)
    &&& respects_givens(s, g)
}

/// The puzzle `g` has at least one solution.
pub open spec fn solvable(g: Seq<u8>) -> bool {
    exists|s: Seq<u8>| is_solution(s, g)
}

/// `s` exceeds the search frontier (b, cp): at some non-given cell `j` at
/// or below the cursor, `s` holds a larger value than `b` while agreeing
/// with `b` on every earlier non-given cell.
pub open spec fn exceeds_frontier(s: Seq<u8>, b: Seq<u8>, g: Seq<u8>, cp: int) -> bool {
    exists|j: int|
        0 <= j <= cp && (#[trigger] g[j]) == 0 && s[j] > b[j] && (forall|i: int|
            0 <= i < j && g[i] == 0 ==> s[i] == b[i])
}

/// Every solution lies above the search frontier (b, cp): candidates that
/// order below it have all been ruled out.
pub open spec fn no_solution_below(b: Seq<u8>, g: Seq<u8>, cp: int) -> bool {
    forall|s: Seq<u8>| #[trigger] is_solution(s, g) ==> exceeds_frontier(s, b, g, cp)
}

/// Exhibiting the cell `j` proves that `s` exceeds the frontier.
pub proof fn lemma_exceeds_frontier_witness(
    s: Seq<u8>,
    b: Seq<u8>,
    g: Seq<u8>,
    cp: int,
    j: int,
)
    requires
        0 <= j <= cp,
        g[j] == 0,
        s[j] > b[j],
        forall|i: int| 0 <= i < j && g[i] == 0 ==> s[i] == b[i],
    ensures
        exceeds_frontier(s, b, g, cp),
{
    assert(0 <= j <= cp && (g[j]) == 0 && s[j] > b[j] && (forall|i: int|
        0 <= i < j && g[i] == 0 ==> s[i] == b[i]));
}

/// `b` is the solution the ordered search arrives at: any other solution
/// holds a larger value at the first non-given cell where they differ.
/// One grid at most can be this, so a solver that returns it is
/// deterministic.
pub open spec fn least_solution(b: Seq<u8>, g: Seq<u8>) -> bool {
    &&& is_solution(b, g)
    &&& forall|s: Seq<u8>| #[trigger] is_solution(s, g) ==> s == b || exceeds_frontier(s, b, g, 80)
}

/// A puzzle whose givens already break a region has no solution: a solution
/// would keep those givens and inherit the duplicate.
pub proof fn lemma_invalid_board_has_no_solution(g: Seq<u8>)
    requires
        g.len() == 81,
        !board_valid(g),
    ensures
        !solvable(g),
{
    assert forall|s: Seq<u8>| !(#[trigger] is_solution(s, g)) by {
        if is_solution(s, g) {
            assert forall|j: int| 0 <= j < 81 implies g[j] == s[j] || g[j] == 0 by {}
            lemma_board_valid_pointwise(g, s);
        }
    }
}

/// A complete valid grid is a solution of itself, and its only one: solving
/// it can only return the grid unchanged.
pub proof fn lemma_full_valid_board_solution(g: Seq<u8>)
    requires
        board_wf(g),
        board_valid(g),
        forall|i: int| 0 <= i < 81 ==> g[i] != 0,
    ensures
        is_solution(g, g),
        solvable(g),
        forall|s: Seq<u8>| #[trigger] is_solution(s, g) ==> s == g,
        least_solution(g, g),
{
    assert(is_solution(g, g));
    assert forall|s: Seq<u8>| #[trigger] is_solution(s, g) implies s == g by {
        assert(s =~= g);
    }
}

/// The value a solution holds at the cursor cell is a locally valid
/// placement on the current board: the board agrees with the solution on
/// every filled cell and is blank elsewhere, so each region of the probe
/// counts no more occurrences than the solution's corresponding region.
pub proof fn lemma_solution_gives_valid_placement(b: Seq<u8>, g: Seq<u8>, s: Seq<u8>, cp: int)
    requires
        b.len() == 81,
        in_board(cp),
        g[cp] == 0,
        is_solution(s, g),
        respects_givens(b, g),
        forall|j: int| 0 <= j < cp && g[j] == 0 ==> b[j] == s[j],
        forall|j: int| cp < j < 81 && g[j] == 0 ==> b[j] == 0,
    ensures
        placement_valid(b, cp, s[cp]),
{
    let b2 = b.update(cp, s[cp]);
    assert forall|j: int| 0 <= j < 81 implies b2[j] == s[j] || b2[j] == 0 by {
        if j != cp && g[j] != 0 {
            assert(b2[j] == g[j] && s[j] == g[j]);
        }
    }
    lemma_board_valid_pointwise(b2, s);
    assert(0 <= row_of(cp) < 9 && 0 <= col_of(cp) < 9 && 0 <= box_of(cp) < 9);
    assert(row_ok(b2, row_of(cp)) && col_ok(b2, col_of(cp)) && box_ok(b2, box_of(cp)));
}

/// Entering the search at the first non-given cell rules nothing out:
/// the invariant holds of the untouched board.
pub proof fn lemma_no_solution_below_init(g: Seq<u8>, cp: int)
    requires
        g.len() == 81,
        0 <= cp <= 80,
        g[cp] == 0,
        forall|j: int| 0 <= j < cp ==> g[j] != 0,
    ensures
        no_solution_below(g, g, cp),
{
    assert forall|s: Seq<u8>| #[trigger] is_solution(s, g) implies exceeds_frontier(
        s,
        g,
        g,
        cp,
    ) by {
        assert(s[cp] >= 1);
        lemma_exceeds_frontier_witness(s, g, g, cp, cp);
    }
}

/// Committing the least candidate `v` at the cursor and advancing to the
/// next non-given cell keeps the invariant: a solution either already
/// exceeded the frontier strictly below the cursor, or holds a value above
/// `v` there, or holds exactly `v` and exceeds the blank new cursor cell.
pub proof fn lemma_no_solution_below_commit(b: Seq<u8>, g: Seq<u8>, cp: int, v: u8, cp2: int)
    requires
        b.len() == 81,
        g.len() == 81,
        0 <= cp < cp2 <= 80,
        g[cp] == 0,
        g[cp2] == 0,
        b[cp] < v <= 9,
        respects_givens(b, g),
        forall|j: int| cp < j < 81 && g[j] == 0 ==> b[j] == 0,
        forall|j: int| cp < j < cp2 ==> g[j] != 0,
        no_solution_below(b, g, cp),
        forall|u: u8| b[cp] < u < v ==> !placement_valid(b, cp, u),
    ensures
        no_solution_below(b.update(cp, v), g, cp2),
{
    let b2 = b.update(cp, v);
    assert forall|s: Seq<u8>| #[trigger] is_solution(s, g) implies exceeds_frontier(
        s,
        b2,
        g,
        cp2,
    ) by {
        assert(exceeds_frontier(s, b, g, cp));
        let j = choose|j: int|
            0 <= j <= cp && (#[trigger] g[j]) == 0 && s[j] > b[j] && (forall|i: int|
                0 <= i < j && g[i] == 0 ==> s[i] == b[i]);
        if j < cp {
            lemma_exceeds_frontier_witness(s, b2, g, cp2, j);
        } else {
            lemma_solution_gives_valid_placement(b, g, s, cp);
            assert(1 <= s[cp] <= 9);
            assert(s[cp] >= v) by {
                if s[cp] < v {
                    assert(!placement_valid(b, cp, s[cp] as u8));
                }
            }
            if s[cp] > v {
                lemma_exceeds_frontier_witness(s, b2, g, cp2, cp);
            } else {
                assert(s[cp] == v == b2[cp]);
                assert(s[cp2] >= 1 && b2[cp2] == 0);
                assert forall|i: int| 0 <= i < cp2 && g[i] == 0 implies s[i] == b2[i] by {
                    if i < cp {
                        assert(s[i] == b[i]);
                    }
                }
                lemma_exceeds_frontier_witness(s, b2, g, cp2, cp2);
            }
        }
    }
}

/// Committing the least candidate `v` at the cursor when every later cell
/// is a given completes the search: the grid reached is at or below every
/// solution, so it is the least one.
pub proof fn lemma_commit_completes_least_solution(b: Seq<u8>, g: Seq<u8>, cp: int, v: u8)
    requires
        b.len() == 81,
        g.len() == 81,
        0 <= cp <= 80,
        g[cp] == 0,
        b[cp] < v <= 9,
        respects_givens(b, g),
        forall|j: int| cp < j < 81 && g[j] == 0 ==> b[j] == 0,
        forall|j: int| cp < j < 81 ==> g[j] != 0,
        no_solution_below(b, g, cp),
        forall|u: u8| b[cp] < u < v ==> !placement_valid(b, cp, u),
        is_solution(b.update(cp, v), g),
    ensures
        least_solution(b.update(cp, v), g),
{
    let b2 = b.update(cp, v);
    assert forall|s: Seq<u8>| #[trigger] is_solution(s, g) implies s == b2 || exceeds_frontier(
        s,
        b2,
        g,
        80,
    ) by {
        assert(exceeds_frontier(s, b, g, cp));
        let j = choose|j: int|
            0 <= j <= cp && (#[trigger] g[j]) == 0 && s[j] > b[j] && (forall|i: int|
                0 <= i < j && g[i] == 0 ==> s[i] == b[i]);
        if j < cp {
            lemma_exceeds_frontier_witness(s, b2, g, 80, j);
        } else {
            lemma_solution_gives_valid_placement(b, g, s, cp);
            assert(1 <= s[cp] <= 9);
            assert(s[cp] >= v) by {
                if s[cp] < v {
                    assert(!placement_valid(b, cp, s[cp] as u8));
                }
            }
            if s[cp] > v {
                lemma_exceeds_frontier_witness(s, b2, g, 80, cp);
            } else {
                assert forall|i: int| 0 <= i < 81 implies s[i] == b2[i] by {
                    if g[i] != 0 {
                        assert(s[i] == g[i] && b2[i] == g[i]);
                    } else if i < cp {
                        assert(s[i] == b[i]);
                    }
                }
                assert(s =~= b2);
            }
        }
    }
}

/// Exhausting the candidates at the cursor, blanking the cell and
/// retreating to the previous non-given cell keeps the invariant: no
/// solution can agree with the frontier on everything below the cursor,
/// so each one already exceeded it at or below the retreat target.
pub proof fn lemma_no_solution_below_retreat(b: Seq<u8>, g: Seq<u8>, cp: int, cp2: int)
    requires
        b.len() == 81,
        g.len() == 81,
        0 <= cp2 < cp <= 80,
        g[cp] == 0,
        g[cp2] == 0,
        b[cp] <= 9,
        respects_givens(b, g),
        forall|j: int| cp < j < 81 && g[j] == 0 ==> b[j] == 0,
        forall|j: int| cp2 < j < cp ==> g[j] != 0,
        no_solution_below(b, g, cp),
        forall|u: u8| b[cp] < u <= 9 ==> !placement_valid(b, cp, u),
    ensures
        no_solution_below(b.update(cp, 0), g, cp2),
{
    let b2 = b.update(cp, 0);
    assert forall|s: Seq<u8>| #[trigger] is_solution(s, g) implies exceeds_frontier(
        s,
        b2,
        g,
        cp2,
    ) by {
        assert(exceeds_frontier(s, b, g, cp));
        let j = choose|j: int|
            0 <= j <= cp && (#[trigger] g[j]) == 0 && s[j] > b[j] && (forall|i: int|
                0 <= i < j && g[i] == 0 ==> s[i] == b[i]);
        if j == cp {
            lemma_solution_gives_valid_placement(b, g, s, cp);
            assert(b[cp] < s[cp] <= 9);
            assert(!placement_valid(b, cp, s[cp] as u8));
            assert(false);
        } else {
            assert(j <= cp2);
            lemma_exceeds_frontier_witness(s, b2, g, cp2, j);
        }
    }
}

/// When the candidates of the first non-given cell are exhausted, the
/// puzzle has no solution: every solution would have to exceed the frontier
/// at that cell, which the exhaustion rules out.
pub proof fn lemma_no_solution_at_exhaustion(b: Seq<u8>, g: Seq<u8>, cp: int)
    requires
        b.len() == 81,
        g.len() == 81,
        0 <= cp <= 80,
        g[cp] == 0,
        b[cp] <= 9,
        respects_givens(b, g),
        forall|j: int| 0 <= j < cp ==> g[j] != 0,
        forall|j: int| cp < j < 81 && g[j] == 0 ==> b[j] == 0,
        no_solution_below(b, g, cp),
        forall|u: u8| b[cp] < u <= 9 ==> !placement_valid(b, cp, u),
    ensures
        !solvable(g),
{
    assert forall|s: Seq<u8>| !(#[trigger] is_solution(s, g)) by {
        if is_solution(s, g) {
            assert(exceeds_frontier(s, b, g, cp));
            let j = choose|j: int|
                0 <= j <= cp && (#[trigger] g[j]) == 0 && s[j] > b[j] && (forall|i: int|
                    0 <= i < j && g[i] == 0 ==> s[i] == b[i]);
            assert(j == cp);
            lemma_solution_gives_valid_placement(b, g, s, cp);
            assert(b[cp] < s[cp] <= 9);
            assert(!placement_valid(b, cp, s[cp] as u8));
        }
    }
}

} // verus!
