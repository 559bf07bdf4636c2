//! The puzzle: a fixed solution matrix, the clues derived from it, and the
//! player's cell grid with win detection.

use crate::grid::{empty_grid, toggle_result, CellType, Grid};
use crate::runs::{clue, count_runs, to_ints};
use vstd::prelude::*;

verus! {

/// Why a puzzle operation was refused.
#[derive(Copy, Clone, PartialEq, Eq, Structural, Debug)]
pub enum PuzzleError {
    /// The solution matrix handed to construction is empty or not square.
    InvalidSolution,
    /// A toggle named a cell outside the grid; the caller should have
    /// resolved its click through the coordinate mapping first.
    OutOfBounds,
}

/// The rows of a solution matrix as mathematical sequences.
pub open spec fn rows_view(rows: Seq<Vec<bool>>) -> Seq<Seq<bool>> {
    rows.map_values(|row: Vec<bool>| row@)
}

/// A valid solution: at least one row, and every row exactly as long as
/// there are rows.
pub open spec fn valid_solution(s: Seq<Seq<bool>>) -> bool {
    &&& s.len() >= 1
    &&& forall|i: int| 0 <= i < s.len() ==> #[trigger] s[i].len() == s.len()
}

/// Column `j` of a solution, read top to bottom.
pub open spec fn column(s: Seq<Seq<bool>>, j: int) -> Seq<bool> {
    Seq::new(s.len(), |i: int| s[i][j])
}

/// The row clues of a solution: one clue per row, in row order.
pub open spec fn row_clues_of(s: Seq<Seq<bool>>) -> Seq<Seq<int>> {
    Seq::new(s.len(), |i: int| clue(s[i]))
}

/// The column clues of a solution: one clue per column, left to right.
pub open spec fn col_clues_of(s: Seq<Seq<bool>>) -> Seq<Seq<int>> {
    Seq::new(s.len(), |j: int| clue(column(s, j)))
}

/// A clue matrix as mathematical sequences of integers.
pub open spec fn clues_view(clues: Seq<Vec<usize>>) -> Seq<Seq<int>> {
    clues.map_values(|c: Vec<usize>| to_ints(c@))
}

/// The win condition: the cells marked `Filled` are exactly the cells the
/// solution fills, over the whole grid.
pub open spec fn solved(cells: Seq<Seq<Option<CellType>>>, s: Seq<Seq<bool>>) -> bool {
    forall|i: int, j: int|
        0 <= i < s.len() && 0 <= j < s.len() ==> ((#[trigger] cells[i][j]) == Some(
            CellType::Filled,
        )) == s[i][j]
}

/// One nonogram: a solution fixed at construction, its derived row and
/// column clues, and the player's grid, all of one dimension N.
pub struct Puzzle {
    grid: Grid,
    solution: Vec<Vec<bool>>,
    row_clues: Vec<Vec<usize>>,
    col_clues: Vec<Vec<usize>>,
    size: usize,
}

impl Puzzle {
    /// The solution matrix.
    pub closed spec fn sol(&self) -> Seq<Seq<bool>> {
        rows_view(self.solution@)
    }

    /// The player's cell states.
    pub closed spec fn cells(&self) -> Seq<Seq<Option<CellType>>> {
        self.grid@
    }

    /// The grid dimension N.
    pub open spec fn dim(&self) -> nat {
        self.sol().len()
    }

    /// Well-formed: the solution is square and non-empty, the grid matches
    /// its dimension, and the stored clues are the ones the solution derives.
    pub closed spec fn wf(&self) -> bool {
        &&& valid_solution(self.sol())
        &&& self.size == self.sol().len()
        &&& self.grid.inv()
        &&& self.grid@.len() == self.size
        &&& clues_view(self.row_clues@) == row_clues_of(self.sol())
        &&& clues_view(self.col_clues@) == col_clues_of(self.sol())
    }

    /// Builds a puzzle from a solution matrix: refuses an empty or
    /// non-square matrix, derives the row clues and, by transposing, the
    /// column clues, and starts with an all-empty grid of the same
    /// dimension.
    pub fn new(solution: Vec<Vec<bool>>) -> (puzzle: Result<Puzzle, PuzzleError>)
        ensures
            match puzzle {
                Ok(p) => {
                    &&& valid_solution(rows_view(solution@))
                    &&& p.wf()
                    &&& p.sol() == rows_view(solution@)
                    &&& p.cells() == empty_grid(rows_view(solution@).len())
                },
                Err(e) => {
                    &&& e == PuzzleError::InvalidSolution
                    &&& !valid_solution(rows_view(solution@))
                },
            },
    {
        let size = solution.len();
        if size == 0 {
            return Err(PuzzleError::InvalidSolution);
        }
        let mut i: usize = 0;
        while i < size
            invariant
                i <= size,
                size == solution@.len(),
                forall|k: int| 0 <= k < i ==> #[trigger] rows_view(solution@)[k].len() == size,
            decreases size - i,
        {
            if solution[i].len() != size {
                proof {
                    assert(rows_view(solution@)[i as int].len() != rows_view(solution@).len());
                }
                return Err(PuzzleError::InvalidSolution);
            }
            i = i + 1;
        }
        let ghost s = rows_view(solution@);
        proof {
            assert(valid_solution(s));
        }
        let mut row_clues: Vec<Vec<usize>> = Vec::new();
        let mut i: usize = 0;
        while i < size
            invariant
                i <= size,
                size == solution@.len(),
                s == rows_view(solution@),
                valid_solution(s),
                row_clues@.len() == i,
                forall|k: int| 0 <= k < i ==> #[trigger] to_ints(row_clues@[k]@) == clue(s[k]),
            decreases size - i,
        {
            let entries = count_runs(&solution[i]);
            row_clues.push(entries);
            i = i + 1;
        }
        let mut col_clues: Vec<Vec<usize>> = Vec::new();
        let mut j: usize = 0;
        while j < size
            invariant
                j <= size,
                size == solution@.len(),
                s == rows_view(solution@),
                valid_solution(s),
                col_clues@.len() == j,
                forall|k: int| 0 <= k < j ==> #[trigger] to_ints(col_clues@[k]@) == clue(column(s, k)),
            decreases size - j,
        {
            let mut line: Vec<bool> = Vec::new();
            let mut r: usize = 0;
            while r < size
                invariant
                    r <= size,
                    j < size,
                    size == solution@.len(),
                    s == rows_view(solution@),
                    valid_solution(s),
                    line@.len() == r,
                    forall|k: int| 0 <= k < r ==> #[trigger] line@[k] == s[k][j as int],
                decreases size - r,
            {
                proof {
                    assert(s[r as int].len() == size);
                }
                line.push(solution[r][j]);
                r = r + 1;
            }
            proof {
                assert(line@ =~= column(s, j as int));
            }
            let entries = count_runs(&line);
            col_clues.push(entries);
            j = j + 1;
        }
        let grid = Grid::new(size);
        let puzzle = Puzzle { grid, solution, row_clues, col_clues, size };
        proof {
            assert(puzzle.sol() == s);
            assert(clues_view(puzzle.row_clues@) =~= row_clues_of(s));
            assert(clues_view(puzzle.col_clues@) =~= col_clues_of(s));
        }
        Ok(puzzle)
    }

    /// The grid dimension N.
    pub fn size(&self) -> (n: usize)
        requires
            self.wf(),
        ensures
            n == self.dim(),
    {
        self.size
    }

    /// Toggles the cell at (row, col) with the given tool, after bounds
    /// validation: a cell outside the grid is refused with `OutOfBounds` and
    /// nothing changes.  Inside the grid the cell follows the three-state
    /// toggle and every other cell keeps its state.
    pub fn toggle_cell(&mut self, row: usize, col: usize, tool: CellType) -> (result: Result<
        (),
        PuzzleError,
    >)
        requires
            old(self).wf(),
        ensures
            final(self).wf(),
            final(self).sol() == old(self).sol(),
            row < old(self).dim() && col < old(self).dim() ==> {
                &&& result == Ok::<(), PuzzleError>(())
                &&& final(self).cells() == old(self).cells().update(
                    row as int,
                    old(self).cells()[row as int].update(
                        col as int,
                        toggle_result(old(self).cells()[row as int][col as int], tool),
                    ),
                )
            },
            !(row < old(self).dim() && col < old(self).dim()) ==> {
                &&& result == Err::<(), PuzzleError>(PuzzleError::OutOfBounds)
                &&& final(self).cells() == old(self).cells()
            },
    {
        if row < self.size && col < self.size {
            self.grid.toggle_at(row, col, tool);
            Ok(())
        } else {
            Err(PuzzleError::OutOfBounds)
        }
    }

    /// The win check, recomputed in full at each call: true exactly when the
    /// filled cells coincide with the solution element-wise.
    pub fn check_solved(&self) -> (is_solved: bool)
        requires
            self.wf(),
        ensures
            is_solved == solved(self.cells(), self.sol()),
    {
        let mut i: usize = 0;
        while i < self.size
            invariant
                self.wf(),
                i <= self.size,
                forall|r: int, c: int|
                    0 <= r < i && 0 <= c < self.dim() ==> ((#[trigger] self.cells()[r][c]) == Some(
                        CellType::Filled,
                    )) == self.sol()[r][c],
            decreases self.size - i,
        {
            let mut j: usize = 0;
            while j < self.size
                invariant
                    self.wf(),
                    i < self.size,
                    j <= self.size,
                    forall|r: int, c: int|
                        0 <= r < i && 0 <= c < self.dim() ==> ((
                        #[trigger] self.cells()[r][c]) == Some(CellType::Filled)) == self.sol()[r][c],
                    forall|c: int|
                        0 <= c < j ==> ((#[trigger] self.cells()[i as int][c]) == Some(
                            CellType::Filled,
                        )) == self.sol()[i as int][c],
                decreases self.size - j,
            {
                let filled = match self.grid.state_at(i, j) {
                    Some(CellType::Filled) => true,
                    _ => false,
                };
                proof {
                    assert(self.sol()[i as int].len() == self.dim());
                }
                if filled != self.solution[i][j] {
                    proof {
                        assert(((self.cells()[i as int][j as int]) == Some(CellType::Filled))
                            != self.sol()[i as int][j as int]);
                    }
                    return false;
                }
                j = j + 1;
            }
            i = i + 1;
        }
        true
    }

    /// The derived row clues, one per row in row order.
    pub fn row_clues(&self) -> (clues: &Vec<Vec<usize>>)
        requires
            self.wf(),
        ensures
            clues_view(clues@) == row_clues_of(self.sol()),
    {
        &self.row_clues
    }

    /// The derived column clues, one per column, left to right.
    pub fn column_clues(&self) -> (clues: &Vec<Vec<usize>>)
        requires
            self.wf(),
        ensures
            clues_view(clues@) == col_clues_of(self.sol()),
    {
        &self.col_clues
    }

    /// The state of one cell of the player's grid, for rendering.
    pub fn cell_state(&self, row: usize, col: usize) -> (state: Option<CellType>)
        requires
            self.wf(),
            row < self.dim(),
            col < self.dim(),
        ensures
            state == self.cells()[row as int][col as int],
    {
        self.grid.state_at(row, col)
    }

    /// One row of the solution, for a caller that must display or replay it.
    pub fn solution_row(&self, row: usize) -> (cells: &Vec<bool>)
        requires
            self.wf(),
            row < self.dim(),
        ensures
            cells@ == self.sol()[row as int],
    {
        &self.solution[row]
    }

    /// The player's grid, read-only: its view is this puzzle's cell states.
    pub fn grid(&self) -> (grid: &Grid)
        requires
            self.wf(),
        ensures
            grid.inv(),
            grid@ == self.cells(),
    {
        &self.grid
    }
}

} // verus!
