//! Mapping between pointer coordinates and grid cells.
//!
//! The puzzle grid occupies a square of side `grid_size`, centered at the
//! origin of the puzzle's local coordinate space and subdivided into
//! `cell_count` equal cells per axis.  Coordinates are integers in the same
//! unit as `grid_size`; a presentation layer working in a finer unit scales
//! both by the same factor.  To stay exact without fractions, the mapping
//! works with doubled coordinates: the translated point `2*p + grid_size`
//! ranges over `[0, 2*grid_size)` inside the grid.

use vstd::arithmetic::div_mod::{
    lemma_div_is_ordered,
    lemma_div_multiples_vanish,
    lemma_fundamental_div_mod,
    lemma_fundamental_div_mod_converse_div,
};
use vstd::arithmetic::mul::lemma_mul_upper_bound;
use vstd::prelude::*;

verus! {

/// Largest magnitude allowed for a coordinate or a grid side, so that the
/// fixed-width intermediate products below cannot overflow.
pub const COORD_BOUND: i64 = 0x1000_0000_0000_0000;

/// Largest cell count per axis allowed, for the same reason.
pub const CELL_BOUND: usize = 0x4000_0000;

/// The cell a point falls in: the per-axis index is the translated
/// coordinate divided by the cell side, floored; the vertical axis is
/// flipped so that column index 0 lies at the bottom of the grid.  A point
/// whose translated coordinate is negative on either axis, or whose index
/// reaches `n` on either axis, lies outside the grid.
pub open spec fn locate_spec(x: int, y: int, g: int, n: int) -> Option<(int, int)> {
    let ax = 2 * x + g;
    let ay = 2 * y + g;
    if ax < 0 || ay < 0 {
        None
    } else {
        let ix = (ax * n) / (2 * g);
        let iy = (ay * n) / (2 * g);
        if ix >= n || iy >= n {
            None
        } else {
            Some((ix, n - 1 - iy))
        }
    }
}

/// The coordinate, on one axis, of the center of the cell with per-axis
/// index `i`: cell anchors sit at cell centers, offset so that the whole
/// grid is centered on the origin.
pub open spec fn cell_center_x(i: int, g: int, n: int) -> int {
    let c = g / n;
    i * c + c / 2 - g / 2
}

/// Resolves a point of the puzzle's local coordinate space to the zero-based
/// (row, col) of the cell it lies in, or `None` for a point outside the
/// grid.  Rows index the horizontal axis; columns index the vertical axis,
/// flipped, so that a solution drawn row 0 at the top matches its clues.
pub fn locate(x: i64, y: i64, grid_size: i64, cell_count: usize) -> (cell: Option<(usize, usize)>)
    requires
        1 <= grid_size <= COORD_BOUND,
        1 <= cell_count <= CELL_BOUND,
        -COORD_BOUND <= x <= COORD_BOUND,
        -COORD_BOUND <= y <= COORD_BOUND,
    ensures
        match cell {
            Some(rc) => locate_spec(x as int, y as int, grid_size as int, cell_count as int)
                == Some((rc.0 as int, rc.1 as int)),
            None => locate_spec(x as int, y as int, grid_size as int, cell_count as int) is None,
        },
{
    let ax: i128 = 2 * (x as i128) + (grid_size as i128);
    let ay: i128 = 2 * (y as i128) + (grid_size as i128);
    if ax < 0 || ay < 0 {
        return None;
    }
    let axu = ax as u128;
    let ayu = ay as u128;
    let nu = cell_count as u128;
    let du = 2 * (grid_size as u128);
    proof {
        lemma_mul_upper_bound(axu as int, 3 * COORD_BOUND as int, nu as int, CELL_BOUND as int);
        lemma_mul_upper_bound(ayu as int, 3 * COORD_BOUND as int, nu as int, CELL_BOUND as int);
    }
    let ix = (axu * nu) / du;
    let iy = (ayu * nu) / du;
    if ix >= nu || iy >= nu {
        return None;
    }
    let row = ix as usize;
    let col = cell_count - 1 - (iy as usize);
    Some((row, col))
}

proof fn lemma_axis_round_trip(i: int, g: int, n: int)
    requires
        1 <= n,
        0 <= i < n,
        2 * n <= g,
        g % (2 * n) == 0,
    ensures
        2 * cell_center_x(i, g, n) + g >= 0,
        ((2 * cell_center_x(i, g, n) + g) * n) / (2 * g) == i,
{
    let k = g / (2 * n);
    lemma_fundamental_div_mod(g, 2 * n);
    assert(g == 2 * n * k);
    assert(k >= 1) by (nonlinear_arith)
        requires
            g == 2 * n * k,
            g >= 2 * n,
            n >= 1,
    ;
    let c = g / n;
    assert(g == n * (2 * k)) by (nonlinear_arith)
        requires
            g == 2 * n * k,
    ;
    assert(c == 2 * k) by {
        lemma_div_multiples_vanish(2 * k, n);
    }
    assert(g == 2 * (n * k)) by (nonlinear_arith)
        requires
            g == 2 * n * k,
    ;
    assert(g / 2 == n * k) by {
        lemma_div_multiples_vanish(n * k, 2);
    }
    let cx = cell_center_x(i, g, n);
    assert(cx == i * c + k - n * k);
    let ax = 2 * cx + g;
    assert(ax == 2 * c * i + 2 * k) by (nonlinear_arith)
        requires
            cx == i * c + k - n * k,
            ax == 2 * cx + g,
            g == 2 * (n * k),
    ;
    assert(ax >= 0) by (nonlinear_arith)
        requires
            ax == 2 * c * i + 2 * k,
            c >= 0,
            i >= 0,
            k >= 1,
    ;
    assert(ax * n == (2 * g) * i + 2 * k * n) by (nonlinear_arith)
        requires
            ax == 2 * c * i + 2 * k,
            c == 2 * k,
            g == 2 * n * k,
    ;
    assert(0 <= 2 * k * n < 2 * g) by (nonlinear_arith)
        requires
            g == 2 * n * k,
            k >= 1,
            n >= 1,
    ;
    lemma_fundamental_div_mod_converse_div(ax * n, 2 * g, i, 2 * k * n);
}

/// Round trip between cell placement and cell lookup: the center of the
/// rectangle a cell is rendered at resolves back to exactly that cell.  The
/// grid side must be a multiple of twice the cell count so that cell centers
/// fall on whole coordinates.
pub proof fn lemma_center_round_trip(row: int, col: int, g: int, n: int)
    requires
        1 <= n,
        0 <= row < n,
        0 <= col < n,
        2 * n <= g,
        g % (2 * n) == 0,
    ensures
        locate_spec(cell_center_x(row, g, n), cell_center_x(n - 1 - col, g, n), g, n) == Some(
            (row, col),
        ),
{
    lemma_axis_round_trip(row, g, n);
    lemma_axis_round_trip(n - 1 - col, g, n);
}

/// A point outside the grid's square bounds resolves to no cell.
pub proof fn lemma_locate_outside(x: int, y: int, g: int, n: int)
    requires
        1 <= n,
        1 <= g,
        2 * x + g < 0 || 2 * x + g >= 2 * g || 2 * y + g < 0 || 2 * y + g >= 2 * g,
    ensures
        locate_spec(x, y, g, n) is None,
{
    let ax = 2 * x + g;
    let ay = 2 * y + g;
    if ax >= 0 && ay >= 0 {
        assert((2 * g) * n / (2 * g) == n) by {
            lemma_div_multiples_vanish(n, 2 * g);
        }
        if ax >= 2 * g {
            assert((2 * g) * n <= ax * n) by (nonlinear_arith)
                requires
                    2 * g <= ax,
                    n >= 1,
            ;
            lemma_div_is_ordered((2 * g) * n, ax * n, 2 * g);
        } else {
            assert(ay >= 2 * g);
            assert((2 * g) * n <= ay * n) by (nonlinear_arith)
                requires
                    2 * g <= ay,
                    n >= 1,
            ;
            lemma_div_is_ordered((2 * g) * n, ay * n, 2 * g);
        }
    }
}

/// Computes the point at the center of the cell at (row, col), inverse to
/// `locate`: the rendered rectangle of that cell is anchored there.  The
/// grid side must be a multiple of twice the cell count so that the center
/// falls on whole coordinates.
pub fn cell_center(row: usize, col: usize, grid_size: i64, cell_count: usize) -> (center: (
    i64,
    i64,
))
    requires
        1 <= cell_count <= CELL_BOUND,
        row < cell_count,
        col < cell_count,
        2 * (cell_count as int) <= grid_size <= COORD_BOUND,
        grid_size as int % (2 * cell_count as int) == 0,
    ensures
        center.0 == cell_center_x(row as int, grid_size as int, cell_count as int),
        center.1 == cell_center_x(
            cell_count - 1 - col,
            grid_size as int,
            cell_count as int,
        ),
        locate_spec(center.0 as int, center.1 as int, grid_size as int, cell_count as int)
            == Some((row as int, col as int)),
{
    let gu = grid_size as u128;
    let nu = cell_count as u128;
    let c = gu / nu;
    proof {
        lemma_fundamental_div_mod(gu as int, nu as int);
        assert(nu as int * (c as int) <= gu as int);
        assert((row as int) * (c as int) + (c as int) <= gu as int) by (nonlinear_arith)
            requires
                (nu as int) * (c as int) <= gu as int,
                0 <= row as int <= nu as int - 1,
                c as int >= 0,
        ;
        assert((cell_count - 1 - col) as int * (c as int) + (c as int) <= gu as int)
            by (nonlinear_arith)
            requires
                (nu as int) * (c as int) <= gu as int,
                0 <= (cell_count - 1 - col) as int <= nu as int - 1,
                c as int >= 0,
        ;
    }
    let half_c = c / 2;
    let half_g = gu / 2;
    let cx = (row as u128) * c + half_c;
    let cy = ((cell_count - 1 - col) as u128) * c + half_c;
    let center_x = (cx as i128 - half_g as i128) as i64;
    let center_y = (cy as i128 - half_g as i128) as i64;
    proof {
        lemma_center_round_trip(row as int, col as int, grid_size as int, cell_count as int);
    }
    (center_x, center_y)
}

} // verus!
