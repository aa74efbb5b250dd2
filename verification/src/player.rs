//! The player marker: one sprite, kept by the cell that the player stands on.

use vstd::prelude::*;
use crate::camera::SCALE_LIMIT;
use crate::coordinated::VisualizerError;
use crate::geometry::{Point, MAX_MAP_SIZE, STEP_X, STEP_Y};

verus! {

/// How far above the cell's position the player is drawn: two pixels.
pub const PLAYER_LIFT: i64 = 8;

/// Where the player's sprite is drawn, before the camera's origin is taken
/// off: the world position of the cell at `(row, col)` in a grid `cols` wide,
/// raised by `PLAYER_LIFT`, times the scale.
pub open spec fn player_dest(cols: int, row: int, col: int, scale: int) -> (int, int) {
    ((STEP_X * (cols - row + col - 1)) * scale, (STEP_Y * (row + col) - PLAYER_LIFT) * scale)
}

/// The player marker.
#[derive(Clone, Copy, Debug)]
pub struct PlayerComponent {
    position: (usize, usize),
    map_size: (usize, usize),
}

/// What the player marker needs to draw: the camera's scale.
#[derive(Clone, Copy, Debug)]
pub struct PlayerComponentParam {
    pub scale: i64,
}

/// What the player marker takes in on an update: the player's cell, as
/// `(row, col)`.
#[derive(Clone, Copy, Debug)]
pub struct PlayerComponentUpdateParam {
    pub position: (usize, usize),
}

impl PlayerComponentParam {
    /// The parameters of one draw pass.
    pub fn new(scale: i64) -> (param: PlayerComponentParam)
        ensures
            param.scale == scale,
    {
        PlayerComponentParam { scale }
    }
}

impl PlayerComponentUpdateParam {
    /// The parameters of one update.
    pub fn new(position: (usize, usize)) -> (param: PlayerComponentUpdateParam)
        ensures
            param.position == position,
    {
        PlayerComponentUpdateParam { position }
    }
}

impl PlayerComponent {
    /// The player's cell, as `(row, col)`.
    pub closed spec fn spec_position(&self) -> (usize, usize) {
        self.position
    }

    /// The size of the grid, as `(rows, cols)`.
    pub closed spec fn spec_map_size(&self) -> (usize, usize) {
        self.map_size
    }

    /// The marker is valid: the grid and the player's cell lie within
    /// `MAX_MAP_SIZE`.
    pub open spec fn wf(&self) -> bool {
        &&& self.spec_map_size().0 <= MAX_MAP_SIZE
        &&& self.spec_map_size().1 <= MAX_MAP_SIZE
        &&& self.spec_position().0 <= MAX_MAP_SIZE
        &&& self.spec_position().1 <= MAX_MAP_SIZE
    }

    /// A marker on the cell `initial_position` of a grid of `map_size`.
    pub fn new(initial_position: (usize, usize), map_size: (usize, usize)) -> (player: PlayerComponent)
        requires
            map_size.0 <= MAX_MAP_SIZE,
            map_size.1 <= MAX_MAP_SIZE,
            initial_position.0 <= MAX_MAP_SIZE,
            initial_position.1 <= MAX_MAP_SIZE,
        ensures
            player.wf(),
            player.spec_position() == initial_position,
            player.spec_map_size() == map_size,
    {
        PlayerComponent { position: initial_position, map_size }
    }

    /// The player's cell, as `(row, col)`.
    pub fn position(&self) -> (position: (usize, usize))
        ensures
            position == self.spec_position(),
    {
        self.position
    }

    /// The size of the grid, as `(rows, cols)`.
    pub fn map_size(&self) -> (map_size: (usize, usize))
        ensures
            map_size == self.spec_map_size(),
    {
        self.map_size
    }

    /// Where the player's sprite is drawn at the given scale, in screen
    /// units, before the camera's origin is taken off.
    pub fn draw(&self, component_param: PlayerComponentParam) -> (dest: Point)
        requires
            self.wf(),
            1 <= component_param.scale <= SCALE_LIMIT,
        ensures
            dest.x == player_dest(
                self.spec_map_size().1 as int,
                self.spec_position().0 as int,
                self.spec_position().1 as int,
                component_param.scale as int,
            ).0,
            dest.y == player_dest(
                self.spec_map_size().1 as int,
                self.spec_position().0 as int,
                self.spec_position().1 as int,
                component_param.scale as int,
            ).1,
    {
        let y = self.position.0 as i64;
        let x = self.position.1 as i64;
        let scale = component_param.scale;
        let player_x: i64 = STEP_X * (self.map_size.1 as i64 - y + x - 1);
        let player_y: i64 = STEP_Y * (x + y) - PLAYER_LIFT;
        proof {
            assert(-0x4000_0000_0000 <= player_x * scale <= 0x4000_0000_0000) by (nonlinear_arith)
                requires
                    -0x400_0000 <= player_x <= 0x400_0000,
                    1 <= scale <= 1_000_000,
            ;
            assert(-0x4000_0000_0000 <= player_y * scale <= 0x4000_0000_0000) by (nonlinear_arith)
                requires
                    -0x400_0000 <= player_y <= 0x400_0000,
                    1 <= scale <= 1_000_000,
            ;
        }
        Point { x: player_x * scale, y: player_y * scale }
    }

    /// Puts the marker on another cell, which need not lie on the grid.
    pub fn update(&mut self, update_param: PlayerComponentUpdateParam) -> (result: Result<
        (),
        VisualizerError,
    >)
        requires
            old(self).wf(),
            update_param.position.0 <= MAX_MAP_SIZE,
            update_param.position.1 <= MAX_MAP_SIZE,
        ensures
            final(self).wf(),
            final(self).spec_map_size() == old(self).spec_map_size(),
            final(self).spec_position() == update_param.position,
            result is Ok,
    {
        self.position = update_param.position;
        Ok(())
    }
}

} // verus!
