//! A procedural fire: a grid of heat values that ashes feed from below and
//! a weighted kernel spreads upwards, shown through a black, red, yellow and
//! white palette.

use vstd::prelude::*;

pub mod color;
pub mod frame;
pub mod heat;
pub mod rng;

verus! {

/// Width of the grid, in cells.
pub const WIDTH: usize = 400;

/// Height of the grid, in cells.
pub const HEIGHT: usize = 300;

/// Number of cells of the grid and of the raster.
pub const SIZE: usize = WIDTH * HEIGHT;

/// Number of heat levels, and of colors in the palette.
pub const PALSIZE: usize = 256;

/// Row of the cell at flat index `i`.
pub open spec fn row(i: int) -> int {
    i / (WIDTH as int)
}

/// Column of the cell at flat index `i`.
pub open spec fn col(i: int) -> int {
    i % (WIDTH as int)
}

/// The cell in row `y` and column `x` lies at flat index `y * WIDTH + x`.
pub proof fn lemma_row_col(y: int, x: int)
    requires
        0 <= y,
        0 <= x < WIDTH,
    ensures
        row(y * WIDTH + x) == y,
        col(y * WIDTH + x) == x,
{
    assert((y * 400 + x) / 400 == y && (y * 400 + x) % 400 == x) by (nonlinear_arith)
        requires 0 <= y, 0 <= x < 400;
}

} // verus!
