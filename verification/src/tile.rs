//! The grid cell as the visualizer sees it: a terrain kind, an elevation and
//! an optional content kind.

use vstd::prelude::*;

verus! {

/// Terrain kinds of a grid cell.
#[derive(Clone, Copy, Debug, PartialEq, Eq, Structural, Hash)]
pub enum TileType {
    DeepWater,
    ShallowWater,
    Sand,
    Grass,
    Street,
    Hill,
    Mountain,
    Snow,
    Lava,
    Teleport,
    Wall,
}

/// What lies on a grid cell. Only the kind matters for drawing, so amounts
/// and capacities are not kept.
#[derive(Clone, Copy, Debug, PartialEq, Eq, Structural, Hash)]
pub enum Content {
    Rock,
    Tree,
    Garbage,
    Fire,
    Coin,
    Bin,
    Crate,
    Bank,
    Water,
    Market,
    Fish,
    Building,
    Bush,
    JollyBlock,
    Scarecrow,
    Nothing,
}

/// One cell of the grid.
#[derive(Clone, Copy, Debug, PartialEq, Eq, Structural, Hash)]
pub struct Tile {
    pub tile_type: TileType,
    pub content: Content,
    pub elevation: usize,
}

/// Elevations below this value are drawn with the half-height sprite, the
/// others with the full-height one.
pub const HIGH_ELEVATION: usize = 3;

/// Whether an elevation falls in the low visual tier.
pub open spec fn is_low(elevation: usize) -> bool {
    elevation < HIGH_ELEVATION
}

/// A grid is square: as many cells in each row as there are rows.
pub open spec fn is_square<T>(grid: Seq<Vec<T>>) -> bool {
    forall|row: int| 0 <= row < grid.len() ==> (#[trigger] grid[row]).len() == grid.len()
}

} // verus!
