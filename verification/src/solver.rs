//! The backtracking engine.
//!
//! A `Sudoku` owns the immutable givens (`start_board`), the board being
//! solved (`solve_board`) and a cursor (`cell_pointer`) over the cell
//! currently under consideration.  Candidate values for a cell are probed
//! in increasing order 1..=9; a probe writes the value, checks the three
//! regions through the cell and restores the previous value, so it never
//! leaves a committed mutation behind.

use vstd::prelude::*;

use crate::measure::lemma_measure_decreases_commit;
use crate::measure::lemma_measure_decreases_retreat;
use crate::measure::lemma_measure_nonneg;
use crate::measure::search_measure;
use crate::regions::board_valid;
use crate::regions::board_wf;
use crate::regions::box_of;
use crate::regions::col_of;
use crate::regions::lemma_clear_preserves_board_valid;
use crate::regions::pattern_cells;
use crate::regions::lemma_placement_preserves_board_valid;
use crate::regions::placement_valid;
use crate::regions::row_of;
use crate::search::is_solution;
use crate::search::least_solution;
use crate::search::lemma_commit_completes_least_solution;
use crate::search::lemma_full_valid_board_solution;
use crate::search::lemma_invalid_board_has_no_solution;
use crate::search::lemma_no_solution_at_exhaustion;
use crate::search::lemma_no_solution_below_commit;
use crate::search::lemma_no_solution_below_init;
use crate::search::lemma_no_solution_below_retreat;
use crate::search::no_solution_below;
use crate::search::solvable;
use crate::validation;

verus! {

/// How a cell relates to the search state; drives the display of a board
/// snapshot and nothing else.
#[derive(Clone, Copy, Debug, PartialEq, Eq, Structural)]
pub enum CellType {
    /// Blank on the solving board.
    Empty,
    /// Part of the input puzzle.
    Fixed,
    /// A tentative value committed by the search.
    Guess,
    /// The cell under the cursor.
    Check,
    /// Filled, not given, yet at or past the cursor: no step produces this.
    Error,
}

pub struct Sudoku {
    /// The input puzzle; never written after construction.
    pub start_board: [u8; 81],
    /// The board the search fills in; agrees with `start_board` on givens.
    pub solve_board: [u8; 81],
    /// The cell under consideration; 81 once the search has finished.
    pub cell_pointer: u8,
}

impl Sudoku {
    /// Both boards hold digits 0..=9 and the solving board still carries
    /// every given of the puzzle.
    pub open spec fn wf(self) -> bool {
        &&& board_wf(self.start_board@)
        &&& board_wf(self.solve_board@)
        &&& forall|i: int|
            0 <= i < 81 && self.start_board@[i] != 0 ==> self.solve_board@[i]
                == self.start_board@[i]
    }

    /// initializes the sudoku
    pub fn new(sudoku_board: [u8; 81]) -> (s: Self)
        requires
            forall|i: int| 0 <= i < 81 ==> sudoku_board@[i] <= 9,
        ensures
            s.start_board == sudoku_board,
            s.solve_board == sudoku_board,
            s.cell_pointer == 0,
            s.wf(),
    {
        Self { start_board: sudoku_board, solve_board: sudoku_board, cell_pointer: 0 }
    }

    /// takes a row, col and converts it into the corresponding index
    pub fn to_index(row: u8, col: u8) -> (index: u8)
        requires
            row < 9,
            col < 9,
        ensures
            index == col + 9 * row,
            index < 81,
    {
        col + 9 * row
    }

    /// takes an index and converts it into the corresponding (row, col) pair
    pub fn to_row_col(index: u8) -> (rc: (u8, u8))
        requires
            index < 81,
        ensures
            rc.0 == row_of(index as int),
            rc.1 == col_of(index as int),
    {
        (index / 9, index % 9)
    }

    /// gets the cell in start board at index -index-
    pub fn get_start_cell(&self, index: u8) -> (v: u8)
        requires
            index < 81,
        ensures
            v == self.start_board@[index as int],
    {
        self.start_board[index as usize]
    }

    /// gets the cell in solve board at index -index-
    pub fn get_solve_cell(&self, index: u8) -> (v: u8)
        requires
            index < 81,
        ensures
            v == self.solve_board@[index as int],
    {
        self.solve_board[index as usize]
    }

    /// sets the cell to value in solve board at index -index-
    fn set_solve_cell(&mut self, index: u8, value: u8)
        requires
            index < 81,
        ensures
            final(self).solve_board@ == old(self).solve_board@.update(index as int, value),
            final(self).start_board == old(self).start_board,
            final(self).cell_pointer == old(self).cell_pointer,
    {
        self.solve_board[index as usize] = value;
    }

    /// check if the cell_pointer could be increased without leaving the board
    pub fn can_increase_cell_pointer(&self) -> (r: bool)
        ensures
            r == (self.cell_pointer < 80),
    {
        self.cell_pointer < 80
    }

    /// check if the cell_pointer could be decreased without leaving the board
    pub fn can_decrease_cell_pointer(&self) -> (r: bool)
        ensures
            r == (self.cell_pointer > 0),
    {
        0 < self.cell_pointer
    }

    /// Display category of a cell, derived from the cell's relation to the
    /// cursor and to the givens alone.
    pub fn get_cell_type(&self, index: u8) -> (t: CellType)
        requires
            index < 81,
        ensures
            t == (if self.cell_pointer == index {
                CellType::Check
            } else if self.solve_board@[index as int] == 0 {
                CellType::Empty
            } else if self.start_board@[index as int] != 0 {
                CellType::Fixed
            } else if self.cell_pointer > index {
                CellType::Guess
            } else {
                CellType::Error
            }),
    {
        if self.cell_pointer == index {
            return CellType::Check;
        }
        if self.get_solve_cell(index) == 0 {
            return CellType::Empty;
        }
        if self.get_start_cell(index) != 0 {
            return CellType::Fixed;
        }
        if self.cell_pointer > index {
            return CellType::Guess;
        }
        CellType::Error
    }

    /// takes start_index, a pattern of cell displacements from start_index,
    /// and a value, and checks that fewer than 2 of the cells in the pattern
    /// hold that value (at least 2 make the pattern invalid for the value).
    pub fn validation_function(&self, start_cell: u8, cells_pattern: [u8; 9], value: u8) -> (r:
        bool)
        requires
            forall|k: int| 0 <= k < 9 ==> start_cell + cells_pattern@[k] < 81,
        ensures
            r == (crate::counting::count_value(
                self.solve_board@,
                pattern_cells(start_cell as int, cells_pattern@),
                value,
            ) < 2),
    {
        let mut count: u8 = 0;
        let mut k: u8 = 0;
        while k < 9
            invariant
                k <= 9,
                count <= k,
                forall|j: int| 0 <= j < 9 ==> start_cell + cells_pattern@[j] < 81,
                count == crate::counting::count_value_prefix(
                    self.solve_board@,
                    pattern_cells(start_cell as int, cells_pattern@),
                    value,
                    k as int,
                ),
            decreases 9 - k,
        {
            if self.solve_board[(start_cell + cells_pattern[k as usize]) as usize] == value {
                count = count + 1;
            }
            k = k + 1;
            proof {
                crate::counting::lemma_count_prefix_step(
                    self.solve_board@,
                    pattern_cells(start_cell as int, cells_pattern@),
                    value,
                    k as int,
                );
            }
        }
        count < 2
    }

    /// performs validation on the row of the index -index- for value -value-
    pub fn is_valid_row_for_value(&self, index: u8, value: u8) -> (r: bool)
        requires
            index < 81,
        ensures
            r == (crate::counting::count_value(
                self.solve_board@,
                crate::regions::row_cells(row_of(index as int)),
                value,
            ) <= 1),
    {
        validation::is_valid_row_for_value(&self.solve_board, index, value)
    }

    /// performs validation on the col of the index -index- for value -value-
    pub fn is_valid_col_for_value(&self, index: u8, value: u8) -> (r: bool)
        requires
            index < 81,
        ensures
            r == (crate::counting::count_value(
                self.solve_board@,
                crate::regions::col_cells(col_of(index as int)),
                value,
            ) <= 1),
    {
        validation::is_valid_col_for_value(&self.solve_board, index, value)
    }

    /// performs validation on the box of the index -index- for value -value-
    pub fn is_valid_box_for_value(&self, index: u8, value: u8) -> (r: bool)
        requires
            index < 81,
        ensures
            r == (crate::counting::count_value(
                self.solve_board@,
                crate::regions::box_cells(box_of(index as int)),
                value,
            ) <= 1),
    {
        validation::is_valid_box_for_value(&self.solve_board, index, value)
    }

    /// performs validation on the row of index -index- for all values 1..=9
    pub fn is_valid_row(&self, index: u8) -> (r: bool)
        requires
            index < 81,
        ensures
            r == crate::regions::row_ok(self.solve_board@, row_of(index as int)),
    {
        validation::is_valid_row(&self.solve_board, index)
    }

    /// performs validation on the col of index -index- for all values 1..=9
    pub fn is_valid_col(&self, index: u8) -> (r: bool)
        requires
            index < 81,
        ensures
            r == crate::regions::col_ok(self.solve_board@, col_of(index as int)),
    {
        validation::is_valid_col(&self.solve_board, index)
    }

    /// performs validation on the box of index -index- for all values 1..=9
    pub fn is_valid_box(&self, index: u8) -> (r: bool)
        requires
            index < 81,
        ensures
            r == crate::regions::box_ok(self.solve_board@, box_of(index as int)),
    {
        validation::is_valid_box(&self.solve_board, index)
    }

    /// performs validation on the entire solving board
    pub fn is_valid_board(&self) -> (r: bool)
        ensures
            r == board_valid(self.solve_board@),
    {
        validation::is_valid_board(&self.solve_board)
    }

    /// determines whether a specific value placed at some index yields a
    /// locally valid board; the probe writes the value, checks, and restores
    /// the previous value, so the board is left exactly as it was
    pub fn is_valid_placement(&mut self, index: u8, value: u8) -> (r: bool)
        requires
            index < 81,
        ensures
            *final(self) == *old(self),
            r == placement_valid(old(self).solve_board@, index as int, value),
    {
        let value_at_cell = self.get_solve_cell(index);
        self.set_solve_cell(index, value);
        let ghost probed = self.solve_board@;
        let valid = self.is_valid_row(index) && self.is_valid_col(index) && self.is_valid_box(
            index,
        );
        self.set_solve_cell(index, value_at_cell);
        proof {
            assert(self.solve_board =~= old(self).solve_board) by {
                assert(forall|i: int|
                    0 <= i < 81 ==> self.solve_board@[i] == old(self).solve_board@[i]);
            }
            assert(probed == old(self).solve_board@.update(index as int, value));
        }
        valid
    }

    /// finds the next highest valid value to place at some index, giving 0
    /// when no value above the current one can be placed
    pub fn get_next_valid_value_from_cell(&mut self, index: u8) -> (r: u8)
        requires
            index < 81,
            old(self).solve_board@[index as int] <= 9,
        ensures
            *final(self) == *old(self),
            r == 0 ==> forall|v: u8|
                old(self).solve_board@[index as int] < v <= 9 ==> !placement_valid(
                    old(self).solve_board@,
                    index as int,
                    v,
                ),
            r != 0 ==> old(self).solve_board@[index as int] < r <= 9 && placement_valid(
                old(self).solve_board@,
                index as int,
                r,
            ) && forall|v: u8|
                old(self).solve_board@[index as int] < v < r ==> !placement_valid(
                    old(self).solve_board@,
                    index as int,
                    v,
                ),
    {
        let current_value = self.get_solve_cell(index);
        let mut i: u8 = current_value + 1;
        while i <= 9
            invariant
                index < 81,
                *self == *old(self),
                current_value == old(self).solve_board@[index as int],
                current_value < i <= 10,
                forall|v: u8|
                    current_value < v < i ==> !placement_valid(
                        old(self).solve_board@,
                        index as int,
                        v,
                    ),
            decreases 10 - i,
        {
            if self.is_valid_placement(index, i) {
                return i;
            }
            i = i + 1;
        }
        0
    }

    /// moves the cursor forward to the first cell at or after it that is
    /// not a given, reporting whether one exists before the end of the board
    fn seek_free_cell(&mut self) -> (found: bool)
        requires
            old(self).cell_pointer <= 81,
        ensures
            final(self).solve_board == old(self).solve_board,
            final(self).start_board == old(self).start_board,
            old(self).cell_pointer <= final(self).cell_pointer <= 81,
            forall|j: int|
                old(self).cell_pointer <= j < final(self).cell_pointer ==> final(
                    self).start_board@[j] != 0,
            found == (final(self).cell_pointer <= 80),
            found ==> final(self).start_board@[final(self).cell_pointer as int] == 0,
    {
        while self.cell_pointer < 81 && self.get_start_cell(self.cell_pointer) != 0
            invariant
                old(self).cell_pointer <= self.cell_pointer <= 81,
                self.solve_board == old(self).solve_board,
                self.start_board == old(self).start_board,
                forall|j: int|
                    old(self).cell_pointer <= j < self.cell_pointer ==> self.start_board@[j] != 0,
            decreases 81 - self.cell_pointer,
        {
            self.cell_pointer = self.cell_pointer + 1;
        }
        self.cell_pointer < 81
    }

    /// moves the cursor backward to the nearest earlier cell that is not a
    /// given, reporting whether one exists; without one the cursor stays put
    fn retreat_cursor(&mut self) -> (found: bool)
        requires
            old(self).cell_pointer <= 80,
        ensures
            final(self).solve_board == old(self).solve_board,
            final(self).start_board == old(self).start_board,
            found ==> final(self).cell_pointer < old(self).cell_pointer && final(
                self).start_board@[final(self).cell_pointer as int] == 0 && (forall|j: int|
                final(self).cell_pointer < j < old(self).cell_pointer ==> final(
                    self).start_board@[j] != 0),
            !found ==> final(self).cell_pointer == old(self).cell_pointer && (forall|j: int|
                0 <= j < old(self).cell_pointer ==> final(self).start_board@[j] != 0),
    {
        let mut j: u8 = self.cell_pointer;
        while j > 0 && self.get_start_cell(j - 1) != 0
            invariant
                j <= old(self).cell_pointer <= 80,
                *self == *old(self),
                forall|i: int| j <= i < old(self).cell_pointer ==> self.start_board@[i] != 0,
            decreases j,
        {
            j = j - 1;
        }
        if j == 0 {
            false
        } else {
            self.cell_pointer = j - 1;
            true
        }
    }

    /// the backtracking algorithm: from a fresh engine, fills the solving
    /// board in place by exhaustive ordered search, returning true exactly
    /// when the puzzle has a solution; on failure the board is left as the
    /// puzzle was given
    pub fn backtrack(&mut self) -> (solved: bool)
        requires
            old(self).wf(),
            old(self).cell_pointer == 0,
            old(self).solve_board == old(self).start_board,
        ensures
            final(self).wf(),
            final(self).start_board == old(self).start_board,
            solved == solvable(old(self).start_board@),
            solved ==> is_solution(final(self).solve_board@, old(self).start_board@),
            solved ==> least_solution(final(self).solve_board@, old(self).start_board@),
            !solved ==> final(self).solve_board == old(self).start_board,
    {
        let ghost g = self.start_board@;
        if !self.is_valid_board() {
            proof {
                lemma_invalid_board_has_no_solution(g);
            }
            return false;
        }
        if !self.seek_free_cell() {
            // every cell is a given: the full valid grid is its own solution
            proof {
                lemma_full_valid_board_solution(g);
            }
            return true;
        }
        proof {
            lemma_no_solution_below_init(g, self.cell_pointer as int);
        }
        let mut solved: bool = false;
        loop
            invariant_except_break
                self.wf(),
                self.start_board@ == g,
                self.cell_pointer <= 80,
                g[self.cell_pointer as int] == 0,
                board_valid(self.solve_board@),
                forall|j: int| 0 <= j < self.cell_pointer ==> self.solve_board@[j] != 0,
                forall|j: int|
                    self.cell_pointer < j < 81 && g[j] == 0 ==> self.solve_board@[j] == 0,
                no_solution_below(self.solve_board@, g, self.cell_pointer as int),
            ensures
                self.wf(),
                self.start_board@ == g,
                solved ==> least_solution(self.solve_board@, g),
                !solved ==> !solvable(g) && self.solve_board@ =~= g,
            decreases search_measure(self.solve_board@, self.cell_pointer as int),
        {
            let cp: u8 = self.cell_pointer;
            let ghost pre = *self;
            let next_valid_value = self.get_next_valid_value_from_cell(cp);
            if next_valid_value > 0 {
                self.set_solve_cell(cp, next_valid_value);
                proof {
                    lemma_placement_preserves_board_valid(
                        pre.solve_board@,
                        cp as int,
                        next_valid_value,
                    );
                }
                self.cell_pointer = cp + 1;
                if !self.seek_free_cell() {
                    // advanced past the last cell: the grid is complete and valid
                    proof {
                        assert forall|i: int| 0 <= i < 81 implies 1 <= #[trigger] self
                            .solve_board@[i] <= 9 by {
                            if i > cp {
                                assert(self.solve_board@[i] == g[i]);
                            }
                        }
                        assert(is_solution(self.solve_board@, g));
                        lemma_commit_completes_least_solution(
                            pre.solve_board@,
                            g,
                            cp as int,
                            next_valid_value,
                        );
                    }
                    solved = true;
                    break ;
                }
                proof {
                    lemma_no_solution_below_commit(
                        pre.solve_board@,
                        g,
                        cp as int,
                        next_valid_value,
                        self.cell_pointer as int,
                    );
                    lemma_measure_decreases_commit(
                        pre.solve_board@,
                        cp as int,
                        next_valid_value,
                        self.cell_pointer as int,
                    );
                    lemma_measure_nonneg(self.solve_board@, self.cell_pointer as int);
                }
            } else {
                self.set_solve_cell(cp, 0);
                proof {
                    lemma_clear_preserves_board_valid(pre.solve_board@, cp as int);
                }
                if !self.retreat_cursor() {
                    // the first free cell is exhausted: no solution exists
                    proof {
                        lemma_no_solution_at_exhaustion(pre.solve_board@, g, cp as int);
                        assert(self.solve_board@ =~= g);
                    }
                    solved = false;
                    break ;
                }
                proof {
                    lemma_no_solution_below_retreat(
                        pre.solve_board@,
                        g,
                        cp as int,
                        self.cell_pointer as int,
                    );
                    lemma_measure_decreases_retreat(
                        pre.solve_board@,
                        cp as int,
                        self.cell_pointer as int,
                    );
                    lemma_measure_nonneg(self.solve_board@, self.cell_pointer as int);
                }
            }
        }
        // park the cursor past the board, as a finished search displays
        self.cell_pointer = 81;
        if solved {
            proof {
                assert(is_solution(self.solve_board@, g));
            }
            true
        } else {
            proof {
                assert(self.solve_board =~= old(self).start_board);
            }
            false
        }
    }
}

} // verus!
