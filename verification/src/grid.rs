//! The interactive cell grid: per-cell state, the toggle state machine, and
//! the filled mask used for win detection.

use crate::coords::{locate, locate_spec, CELL_BOUND, COORD_BOUND};
use vstd::prelude::*;

verus! {

/// The mark a player's tool leaves in a cell: filled in, or crossed out.
/// A cell holding neither mark is empty.
#[derive(Copy, Clone, PartialEq, Eq, Structural, Debug)]
pub enum CellType {
    Filled,
    Cross,
}

/// The other of the two tools.
pub open spec fn other_tool(tool: CellType) -> CellType {
    match tool {
        CellType::Filled => CellType::Cross,
        CellType::Cross => CellType::Filled,
    }
}

/// The state one toggle leaves behind: a cell already holding the tool's own
/// mark is cleared to empty; any other cell takes the tool's mark, also when
/// it held the other mark before.
pub open spec fn toggle_result(state: Option<CellType>, tool: CellType) -> Option<CellType> {
    if state == Some(tool) {
        None
    } else {
        Some(tool)
    }
}

/// An all-empty square grid state of dimension `n`.
pub open spec fn empty_grid(n: nat) -> Seq<Seq<Option<CellType>>> {
    Seq::new(n, |i: int| Seq::new(n, |j: int| None::<CellType>))
}

/// An N×N mapping from (row, col) to a cell state, created all empty and
/// mutated one cell at a time.  Alongside the states it keeps the boolean
/// filled mask that win detection compares against the solution.
pub struct Grid {
    size: usize,
    states: Vec<Vec<Option<CellType>>>,
    cells: Vec<Vec<bool>>,
}

impl View for Grid {
    type V = Seq<Seq<Option<CellType>>>;

    closed spec fn view(&self) -> Seq<Seq<Option<CellType>>> {
        self.states@.map_values(|row: Vec<Option<CellType>>| row@)
    }
}

impl Grid {
    /// The grid's states form a square of dimension `size`, and the filled
    /// mask marks exactly the cells whose state is `Filled`.
    pub closed spec fn inv(&self) -> bool {
        &&& self.size >= 1
        &&& self.states@.len() == self.size
        &&& self.cells@.len() == self.size
        &&& forall|i: int| 0 <= i < self.size ==> #[trigger] self.states@[i]@.len() == self.size
        &&& forall|i: int| 0 <= i < self.size ==> #[trigger] self.cells@[i]@.len() == self.size
        &&& forall|i: int, j: int|
            0 <= i < self.size && 0 <= j < self.size ==> #[trigger] self.cells@[i]@[j] == (
            self.states@[i]@[j] == Some(CellType::Filled))
    }

    /// Creates a grid of dimension `size` with every cell empty.
    pub fn new(size: usize) -> (grid: Grid)
        requires
            size >= 1,
        ensures
            grid.inv(),
            grid@ == empty_grid(size as nat),
    {
        let mut states: Vec<Vec<Option<CellType>>> = Vec::new();
        let mut cells: Vec<Vec<bool>> = Vec::new();
        let mut i: usize = 0;
        while i < size
            invariant
                i <= size,
                states@.len() == i,
                cells@.len() == i,
                forall|k: int|
                    0 <= k < i ==> #[trigger] states@[k]@ == Seq::new(
                        size as nat,
                        |j: int| None::<CellType>,
                    ),
                forall|k: int| 0 <= k < i ==> #[trigger] cells@[k]@.len() == size,
                forall|k: int, j: int|
                    0 <= k < i && 0 <= j < size ==> #[trigger] cells@[k]@[j] == false,
            decreases size - i,
        {
            let mut srow: Vec<Option<CellType>> = Vec::new();
            let mut crow: Vec<bool> = Vec::new();
            let mut j: usize = 0;
            while j < size
                invariant
                    j <= size,
                    srow@.len() == j,
                    crow@.len() == j,
                    forall|k: int| 0 <= k < j ==> #[trigger] srow@[k] == None::<CellType>,
                    forall|k: int| 0 <= k < j ==> #[trigger] crow@[k] == false,
                decreases size - j,
            {
                srow.push(None);
                crow.push(false);
                j = j + 1;
            }
            proof {
                assert(srow@ =~= Seq::new(size as nat, |j: int| None::<CellType>));
            }
            states.push(srow);
            cells.push(crow);
            i = i + 1;
        }
        let grid = Grid { size, states, cells };
        proof {
            assert(grid@ =~= empty_grid(size as nat));
        }
        grid
    }

    /// The grid's dimension N.
    pub fn size(&self) -> (n: usize)
        requires
            self.inv(),
        ensures
            n == self@.len(),
    {
        self.size
    }

    /// The state of one cell, for a caller that must render or inspect it.
    pub fn state_at(&self, row: usize, col: usize) -> (state: Option<CellType>)
        requires
            self.inv(),
            row < self@.len(),
            col < self@.len(),
        ensures
            state == self@[row as int][col as int],
    {
        self.states[row][col]
    }

    /// Sets the cell at (row, col) to the given state, or clears it to empty
    /// when the argument is `None`.  Every other cell keeps its state.
    pub fn set_at(&mut self, row: usize, col: usize, cell_type: Option<CellType>)
        requires
            old(self).inv(),
            row < old(self)@.len(),
            col < old(self)@.len(),
        ensures
            final(self).inv(),
            final(self)@ == old(self)@.update(
                row as int,
                old(self)@[row as int].update(col as int, cell_type),
            ),
    {
        let filled = match cell_type {
            Some(CellType::Filled) => true,
            _ => false,
        };
        self.states[row].set(col, cell_type);
        self.cells[row].set(col, filled);
        proof {
            assert(self@ =~= old(self)@.update(
                row as int,
                old(self)@[row as int].update(col as int, cell_type),
            ));
        }
    }

    /// The three-state toggle: if the cell already holds `cell_type` it
    /// becomes empty, otherwise it takes `cell_type`, overwriting a previous
    /// different mark in a single step.
    pub fn toggle_at(&mut self, row: usize, col: usize, cell_type: CellType)
        requires
            old(self).inv(),
            row < old(self)@.len(),
            col < old(self)@.len(),
        ensures
            final(self).inv(),
            final(self)@ == old(self)@.update(
                row as int,
                old(self)@[row as int].update(
                    col as int,
                    toggle_result(old(self)@[row as int][col as int], cell_type),
                ),
            ),
    {
        let new_type = match self.states[row][col] {
            Some(held) => if held == cell_type {
                None
            } else {
                Some(cell_type)
            },
            None => Some(cell_type),
        };
        self.set_at(row, col, new_type);
    }

    /// Resolves a point of the puzzle's local coordinate space, for a grid
    /// rendered as a square of side `grid_size` centered on the origin, to
    /// the cell of this grid that contains it; `None` for a point outside.
    pub fn point_coords(&self, x: i64, y: i64, grid_size: i64) -> (cell: Option<(usize, usize)>)
        requires
            self.inv(),
            self@.len() <= CELL_BOUND,
            1 <= grid_size <= COORD_BOUND,
            -COORD_BOUND <= x <= COORD_BOUND,
            -COORD_BOUND <= y <= COORD_BOUND,
        ensures
            match cell {
                Some(rc) => locate_spec(x as int, y as int, grid_size as int, self@.len() as int)
                    == Some((rc.0 as int, rc.1 as int)),
                None => locate_spec(
                    x as int,
                    y as int,
                    grid_size as int,
                    self@.len() as int,
                ) is None,
            },
    {
        locate(x, y, grid_size, self.size)
    }

    /// The filled mask: `true` exactly where the cell state is `Filled`; a
    /// crossed or empty cell counts as not filled.
    pub fn get_cells(&self) -> (mask: &Vec<Vec<bool>>)
        requires
            self.inv(),
        ensures
            mask@.len() == self@.len(),
            forall|i: int| 0 <= i < self@.len() ==> #[trigger] mask@[i]@.len() == self@.len(),
            forall|i: int, j: int|
                0 <= i < self@.len() && 0 <= j < self@.len() ==> #[trigger] mask@[i]@[j] == (
                self@[i][j] == Some(CellType::Filled)),
    {
        &self.cells
    }
}

/// Toggling twice with the same tool restores the cell, provided the cell
/// did not hold the other tool's mark: from the other mark, the first toggle
/// overwrites and the second clears, so that starting state is excepted.
pub proof fn lemma_toggle_involution(state: Option<CellType>, tool: CellType)
    requires
        state != Some(other_tool(tool)),
    ensures
        toggle_result(toggle_result(state, tool), tool) == state,
{
    match state {
        None => {},
        Some(held) => {
            match (held, tool) {
                (CellType::Filled, CellType::Filled) => {},
                (CellType::Cross, CellType::Cross) => {},
                (CellType::Filled, CellType::Cross) => {},
                (CellType::Cross, CellType::Filled) => {},
            }
        },
    }
}

/// Toggling with one tool and then with the other always leaves the second
/// tool's mark: a single toggle overwrites, there is no three-way cycle.
pub proof fn lemma_toggle_overwrite(state: Option<CellType>, first: CellType, second: CellType)
    requires
        first != second,
    ensures
        toggle_result(toggle_result(state, first), second) == Some(second),
{
}

} // verus!
