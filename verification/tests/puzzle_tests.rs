use nonogram::grid::CellType;
use nonogram::puzzle::{Puzzle, PuzzleError};

fn fixed_solution() -> Vec<Vec<bool>> {
    let rows: [[u8; 10]; 10] = [
        [1, 1, 0, 0, 0, 0, 0, 1, 1, 0],
        [0, 0, 0, 1, 0, 1, 0, 1, 1, 1],
        [1, 1, 1, 1, 0, 0, 0, 1, 1, 1],
        [0, 1, 0, 0, 0, 0, 0, 0, 1, 1],
        [0, 0, 0, 0, 0, 0, 0, 0, 1, 1],
        [0, 0, 0, 0, 0, 0, 1, 0, 1, 1],
        [0, 0, 0, 0, 1, 0, 1, 1, 1, 1],
        [1, 1, 1, 1, 1, 0, 1, 0, 0, 1],
        [1, 1, 1, 1, 1, 1, 1, 0, 0, 0],
        [1, 1, 1, 1, 1, 1, 1, 0, 0, 0],
    ];
    rows.iter().map(|row| row.iter().map(|&v| v == 1).collect()).collect()
}

#[test]
fn mismatched_row_is_invalid_solution() {
    let solution = vec![vec![true, false], vec![true]];
    assert_eq!(Puzzle::new(solution).err(), Some(PuzzleError::InvalidSolution));
}

#[test]
fn empty_solution_is_invalid() {
    let solution: Vec<Vec<bool>> = vec![];
    assert_eq!(Puzzle::new(solution).err(), Some(PuzzleError::InvalidSolution));
}

#[test]
fn square_solution_is_accepted() {
    let puzzle = Puzzle::new(fixed_solution()).unwrap();
    assert_eq!(puzzle.size(), 10);
}

#[test]
fn row_clues_of_fixed_solution() {
    let puzzle = Puzzle::new(fixed_solution()).unwrap();
    let expected: Vec<Vec<usize>> = vec![
        vec![2, 2],
        vec![1, 1, 3],
        vec![4, 3],
        vec![1, 2],
        vec![2],
        vec![1, 2],
        vec![1, 4],
        vec![5, 1, 1],
        vec![7],
        vec![7],
    ];
    assert_eq!(puzzle.row_clues(), &expected);
}

#[test]
fn column_clues_of_fixed_solution() {
    let puzzle = Puzzle::new(fixed_solution()).unwrap();
    let expected: Vec<Vec<usize>> = vec![
        vec![1, 1, 3],
        vec![1, 2, 3],
        vec![1, 3],
        vec![2, 3],
        vec![4],
        vec![1, 2],
        vec![5],
        vec![3, 1],
        vec![7],
        vec![7],
    ];
    assert_eq!(puzzle.column_clues(), &expected);
}

#[test]
fn fresh_puzzle_is_not_solved() {
    let puzzle = Puzzle::new(fixed_solution()).unwrap();
    assert!(!puzzle.check_solved());
}

#[test]
fn filling_exactly_the_solution_solves() {
    let solution = fixed_solution();
    let mut puzzle = Puzzle::new(fixed_solution()).unwrap();
    for (r, row) in solution.iter().enumerate() {
        for (c, &filled) in row.iter().enumerate() {
            if filled {
                assert_eq!(puzzle.toggle_cell(r, c, CellType::Filled), Ok(()));
            }
        }
    }
    assert!(puzzle.check_solved());
}

#[test]
fn one_extra_filled_cell_unsolves() {
    let solution = fixed_solution();
    let mut puzzle = Puzzle::new(fixed_solution()).unwrap();
    for (r, row) in solution.iter().enumerate() {
        for (c, &filled) in row.iter().enumerate() {
            if filled {
                puzzle.toggle_cell(r, c, CellType::Filled).unwrap();
            }
        }
    }
    assert!(puzzle.check_solved());
    // (0, 2) is empty in the solution.
    puzzle.toggle_cell(0, 2, CellType::Filled).unwrap();
    assert!(!puzzle.check_solved());
    puzzle.toggle_cell(0, 2, CellType::Filled).unwrap();
    assert!(puzzle.check_solved());
}

#[test]
fn crossed_cells_do_not_count_as_filled() {
    let solution = fixed_solution();
    let mut puzzle = Puzzle::new(fixed_solution()).unwrap();
    for (r, row) in solution.iter().enumerate() {
        for (c, &filled) in row.iter().enumerate() {
            if filled {
                puzzle.toggle_cell(r, c, CellType::Filled).unwrap();
            } else {
                puzzle.toggle_cell(r, c, CellType::Cross).unwrap();
            }
        }
    }
    assert!(puzzle.check_solved());
}

#[test]
fn toggle_out_of_bounds_is_refused() {
    let mut puzzle = Puzzle::new(fixed_solution()).unwrap();
    assert_eq!(puzzle.toggle_cell(10, 0, CellType::Filled), Err(PuzzleError::OutOfBounds));
    assert_eq!(puzzle.toggle_cell(0, 10, CellType::Cross), Err(PuzzleError::OutOfBounds));
    assert!(!puzzle.check_solved());
    assert_eq!(puzzle.cell_state(0, 0), None);
}

#[test]
fn cell_state_follows_toggles() {
    let mut puzzle = Puzzle::new(fixed_solution()).unwrap();
    puzzle.toggle_cell(3, 4, CellType::Cross).unwrap();
    assert_eq!(puzzle.cell_state(3, 4), Some(CellType::Cross));
    puzzle.toggle_cell(3, 4, CellType::Filled).unwrap();
    assert_eq!(puzzle.cell_state(3, 4), Some(CellType::Filled));
    puzzle.toggle_cell(3, 4, CellType::Filled).unwrap();
    assert_eq!(puzzle.cell_state(3, 4), None);
}

#[test]
fn solution_row_reports_the_solution() {
    let puzzle = Puzzle::new(fixed_solution()).unwrap();
    let expected = fixed_solution();
    for r in 0..10 {
        assert_eq!(puzzle.solution_row(r), &expected[r]);
    }
}

#[test]
fn grid_accessor_reflects_toggles() {
    let mut puzzle = Puzzle::new(fixed_solution()).unwrap();
    puzzle.toggle_cell(2, 2, CellType::Filled).unwrap();
    assert!(puzzle.grid().get_cells()[2][2]);
    assert_eq!(puzzle.grid().point_coords(-135, 135, 300), Some((0, 0)));
}

#[test]
fn minimal_puzzle_solves() {
    let mut puzzle = Puzzle::new(vec![vec![true]]).unwrap();
    assert!(!puzzle.check_solved());
    puzzle.toggle_cell(0, 0, CellType::Filled).unwrap();
    assert!(puzzle.check_solved());
    assert_eq!(puzzle.row_clues(), &vec![vec![1]]);
    assert_eq!(puzzle.column_clues(), &vec![vec![1]]);
}

#[test]
fn all_empty_solution_clues_are_zero() {
    let puzzle = Puzzle::new(vec![vec![false, false], vec![false, false]]).unwrap();
    assert_eq!(puzzle.row_clues(), &vec![vec![0], vec![0]]);
    assert_eq!(puzzle.column_clues(), &vec![vec![0], vec![0]]);
    assert!(puzzle.check_solved());
}
