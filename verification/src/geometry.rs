//! Units and the isometric projection.
//!
//! World positions are counted in quarter pixels of the unscaled sprite
//! sheet, so that the vertical step of a diagonal, three pixels and three
//! quarters, is a whole number. Scales are counted in hundredths. A screen
//! position is a world position times a scale, so one pixel on screen is
//! `SUBPIXELS * SCALE_ONE` screen units and no formula ever rounds.

use vstd::prelude::*;
use crate::textures::SPRITE_SIZE;

verus! {

/// A position or an offset, in world or in screen units.
#[derive(Clone, Copy, Debug, PartialEq, Eq, Structural, Hash)]
pub struct Point {
    pub x: i64,
    pub y: i64,
}

/// World units in one sprite pixel.
pub const SUBPIXELS: i64 = 4;

/// The scale at which one sprite pixel covers one pixel on screen.
pub const SCALE_ONE: i64 = 100;

/// Screen units in one pixel on screen.
pub const SCREEN_UNITS: i64 = 400;

/// The largest grid side that the layers accept. It keeps every position
/// far inside the range of `i64`.
pub const MAX_MAP_SIZE: usize = 0x10_0000;

/// The side of a sprite, in world units.
pub const SPRITE_UNITS: i64 = 64;

/// Horizontal distance between two neighbouring cells of a diagonal: half a
/// sprite's width.
pub const STEP_X: i64 = 32;

/// Vertical distance between two diagonals: a quarter of a sprite's height
/// less one pixel.
pub const STEP_Y: i64 = 15;

/// The steps are what the size of a sprite makes them: across, half a
/// sprite's width; down, a quarter of a sprite's height less one pixel, which
/// in quarter pixels is that height less one.
pub proof fn lemma_steps_follow_the_sprite()
    ensures
        SPRITE_UNITS == SUBPIXELS * SPRITE_SIZE,
        STEP_X == SPRITE_UNITS / 2,
        STEP_Y == SPRITE_SIZE - 1,
        SCREEN_UNITS == SUBPIXELS * SCALE_ONE,
{
}

/// Horizontal world position of a cell in a grid of side `n`:
/// half a sprite's width times `n - row + col - 1`.
pub open spec fn iso_x(n: int, row: int, col: int) -> int {
    STEP_X * (n - row + col - 1)
}

/// Vertical world position of a cell: a quarter of a sprite's height less
/// one pixel, times `row + col`.
pub open spec fn iso_y(row: int, col: int) -> int {
    STEP_Y * (row + col)
}

/// The world position of a cell.
pub open spec fn iso(n: int, row: int, col: int) -> Point {
    Point { x: iso_x(n, row, col) as i64, y: iso_y(row, col) as i64 }
}

/// The index of the diagonal that a cell lies on.
pub open spec fn diagonal_of(row: int, col: int) -> int {
    row + col
}

/// Number of diagonals of a grid of side `n`.
pub open spec fn diagonal_count(n: int) -> int {
    if n <= 0 {
        0
    } else {
        2 * n - 1
    }
}

/// The cells of a grid of side `n`, row by row, as `(col, row)` pairs.
pub open spec fn grid_cells(n: int) -> Seq<(usize, usize)> {
    Seq::new((n * n) as nat, |i: int| ((i % n) as usize, (i / n) as usize))
}

/// The world position of the cell at `(row, col)` with respect to a grid of
/// side `map_size`. The cell need not lie on the grid: the formula goes on
/// beyond its edges.
pub fn tile_position(map_size: usize, row: usize, col: usize) -> (position: Point)
    requires
        map_size <= MAX_MAP_SIZE,
        row <= MAX_MAP_SIZE,
        col <= MAX_MAP_SIZE,
    ensures
        position == iso(map_size as int, row as int, col as int),
        position.x == iso_x(map_size as int, row as int, col as int),
        position.y == iso_y(row as int, col as int),
        -STEP_X * (MAX_MAP_SIZE + 1) <= position.x <= STEP_X * (2 * MAX_MAP_SIZE),
        0 <= position.y <= STEP_Y * (2 * MAX_MAP_SIZE),
{
    let steps: i64 = map_size as i64 - row as i64 + col as i64 - 1;
    let depth: i64 = row as i64 + col as i64;
    Point { x: STEP_X * steps, y: STEP_Y * depth }
}

} // verus!
