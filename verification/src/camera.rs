//! The camera: where the world lies on screen and how large it is drawn.
//!
//! A world position `w` is drawn at `w * scale - origin`. All of it is exact:
//! world positions are counted in quarter pixels, scales in hundredths and
//! screen positions in their product (see `geometry`).

use vstd::prelude::*;
use vstd::arithmetic::div_mod::lemma_fundamental_div_mod;
use vstd::arithmetic::div_mod::lemma_fundamental_div_mod_converse;
use crate::geometry::{iso_x, iso_y, tile_position, Point, MAX_MAP_SIZE, SCREEN_UNITS};

verus! {

/// From a sprite's corner to the centre of the cell's top face, across: half
/// a sprite's width.
pub const ANCHOR_X: i64 = 32;

/// From a sprite's corner to the centre of the cell's top face, down: two
/// pixels.
pub const ANCHOR_Y: i64 = 8;

/// The smallest scale of the standard band: one half.
pub const MIN_SCALE: i64 = 50;

/// The largest scale of the standard band: four.
pub const MAX_SCALE: i64 = 400;

/// No band reaches beyond this scale.
pub const SCALE_LIMIT: i64 = 1_000_000;

/// The origin stays within this distance of zero on both axes, which keeps
/// every screen position inside the range of `i64`.
pub const ORIGIN_LIMIT: i64 = 0x2000_0000_0000_0000;

/// The centre of a window of `viewport.0` by `viewport.1` pixels, in screen
/// units.
pub open spec fn view_center(viewport: (u32, u32)) -> (int, int) {
    (viewport.0 * (SCREEN_UNITS / 2), viewport.1 * (SCREEN_UNITS / 2))
}

/// Where a world position lies on screen, on one axis.
pub open spec fn screen_of(world: int, scale: int, origin: int) -> int {
    world * scale - origin
}

/// The centre of a cell's top face, in world units.
pub open spec fn anchor(n: int, row: int, col: int) -> (int, int) {
    (iso_x(n, row, col) + ANCHOR_X, iso_y(row, col) + ANCHOR_Y)
}

/// The origin that puts a world position at `center`, on one axis.
pub open spec fn centered(world: int, scale: int, center: int) -> int {
    world * scale - center
}

/// The origin after a change of scale from `scale` to `target` that keeps
/// fixed what is drawn at `center`, on one axis: the distance from the
/// world's origin to the centre grows as the scale does, rounded down to a
/// whole screen unit.
pub open spec fn zoomed(origin: int, center: int, scale: int, target: int) -> int {
    ((origin + center) * target) / scale - center
}

/// What it is for a change of origin and scale to keep the centre fixed, on
/// one axis. A world position that was drawn at `center` is drawn there
/// again; and where the centre falls between two world units, what was
/// drawn there has moved by less than one screen unit.
pub open spec fn keeps_center(origin: int, scale: int, new_origin: int, new_scale: int, center: int) -> bool {
    &&& forall|world: int| #[trigger]
        screen_of(world, scale, origin) == center ==> screen_of(world, new_scale, new_origin)
            == center
    &&& 0 <= (origin + center) * new_scale - scale * (new_origin + center) < scale
}

/// A scale brought into a band.
pub open spec fn clamped(scale: int, min: int, max: int) -> int {
    if scale < min {
        min
    } else if scale > max {
        max
    } else {
        scale
    }
}

/// Whether a value is an origin coordinate that a camera accepts.
pub open spec fn in_reach(value: int) -> bool {
    -ORIGIN_LIMIT <= value <= ORIGIN_LIMIT
}

/// The centre of a window of `viewport.0` by `viewport.1` pixels, in screen
/// units.
pub fn window_center(viewport: (u32, u32)) -> (center: Point)
    ensures
        center.x == view_center(viewport).0,
        center.y == view_center(viewport).1,
        0 <= center.x <= u32::MAX * (SCREEN_UNITS / 2),
        0 <= center.y <= u32::MAX * (SCREEN_UNITS / 2),
{
    let half: i64 = SCREEN_UNITS / 2;
    Point { x: viewport.0 as i64 * half, y: viewport.1 as i64 * half }
}

/// The camera.
#[derive(Clone, Copy, Debug)]
pub struct Camera {
    map_size: usize,
    origin: Point,
    scale: i64,
    min_scale: i64,
    max_scale: i64,
}

impl Camera {
    /// The side of the grid that the camera looks at.
    pub closed spec fn size(&self) -> nat {
        self.map_size as nat
    }

    /// The world's origin on screen, negated: what is subtracted from every
    /// scaled world position.
    pub closed spec fn spec_origin(&self) -> Point {
        self.origin
    }

    /// The scale, in hundredths.
    pub closed spec fn spec_scale(&self) -> int {
        self.scale as int
    }

    /// The band that the scale stays in, both ends included.
    pub closed spec fn band(&self) -> (int, int) {
        (self.min_scale as int, self.max_scale as int)
    }

    /// The camera is valid: the scale lies in the band, the band between one
    /// hundredth and `SCALE_LIMIT`, the origin within `ORIGIN_LIMIT` and the
    /// grid within `MAX_MAP_SIZE`.
    pub open spec fn wf(&self) -> bool {
        &&& self.size() <= MAX_MAP_SIZE
        &&& 1 <= self.band().0 <= self.spec_scale() <= self.band().1 <= SCALE_LIMIT
        &&& in_reach(self.spec_origin().x as int)
        &&& in_reach(self.spec_origin().y as int)
    }

    /// Where the centre of a cell's top face lies on screen.
    pub open spec fn projected(&self, row: int, col: int) -> (int, int) {
        (
            screen_of(anchor(self.size() as int, row, col).0, self.spec_scale(), self.spec_origin().x as int),
            screen_of(anchor(self.size() as int, row, col).1, self.spec_scale(), self.spec_origin().y as int),
        )
    }

    /// A camera on a grid of side `map_size`, with the world's origin at the
    /// window's corner and `initial_scale` brought into the band.
    pub fn new(map_size: usize, initial_scale: i64, min_scale: i64, max_scale: i64) -> (camera: Camera)
        requires
            map_size <= MAX_MAP_SIZE,
            1 <= min_scale <= max_scale <= SCALE_LIMIT,
        ensures
            camera.wf(),
            camera.size() == map_size,
            camera.spec_origin() == (Point { x: 0, y: 0 }),
            camera.spec_scale() == clamped(initial_scale as int, min_scale as int, max_scale as int),
            camera.band() == (min_scale as int, max_scale as int),
    {
        let scale = if initial_scale < min_scale {
            min_scale
        } else if initial_scale > max_scale {
            max_scale
        } else {
            initial_scale
        };
        Camera { map_size, origin: Point { x: 0, y: 0 }, scale, min_scale, max_scale }
    }

    /// The origin.
    pub fn origin(&self) -> (origin: Point)
        ensures
            origin == self.spec_origin(),
    {
        self.origin
    }

    /// The scale, in hundredths.
    pub fn scale(&self) -> (scale: i64)
        ensures
            scale == self.spec_scale(),
    {
        self.scale
    }

    /// The side of the grid.
    pub fn map_size(&self) -> (map_size: usize)
        ensures
            map_size == self.size(),
    {
        self.map_size
    }

    /// The band of the scale, as `(min, max)`.
    pub fn scale_band(&self) -> (band: (i64, i64))
        ensures
            band.0 == self.band().0,
            band.1 == self.band().1,
    {
        (self.min_scale, self.max_scale)
    }

    /// Where the centre of the top face of the cell at `(row, col)` lies on
    /// screen. The cell need not lie on the grid.
    pub fn project(&self, row: usize, col: usize) -> (point: Point)
        requires
            self.wf(),
            row <= MAX_MAP_SIZE,
            col <= MAX_MAP_SIZE,
        ensures
            point.x == self.projected(row as int, col as int).0,
            point.y == self.projected(row as int, col as int).1,
    {
        let world = tile_position(self.map_size, row, col);
        proof {
            lemma_scaled_in_range(world.x + ANCHOR_X, self.scale as int);
            lemma_scaled_in_range(world.y + ANCHOR_Y, self.scale as int);
        }
        Point {
            x: (world.x + ANCHOR_X) * self.scale - self.origin.x,
            y: (world.y + ANCHOR_Y) * self.scale - self.origin.y,
        }
    }

    /// Moves the view by `delta`: across with it, and down against it, for
    /// the vertical axis of the controls points up.
    pub fn pan(&mut self, delta: Point)
        requires
            old(self).wf(),
            in_reach(old(self).spec_origin().x + delta.x),
            in_reach(old(self).spec_origin().y - delta.y),
        ensures
            final(self).wf(),
            final(self).spec_origin().x == old(self).spec_origin().x + delta.x,
            final(self).spec_origin().y == old(self).spec_origin().y - delta.y,
            final(self).spec_scale() == old(self).spec_scale(),
            final(self).band() == old(self).band(),
            final(self).size() == old(self).size(),
    {
        self.origin = Point { x: self.origin.x + delta.x, y: self.origin.y - delta.y };
    }

    /// Whether a change of the scale by `amount` hundredths is taken: the
    /// new scale must lie in the band.
    pub open spec fn accepts(&self, amount: int) -> bool {
        self.band().0 <= self.spec_scale() + amount <= self.band().1
    }

    /// Changes the scale by `amount` hundredths and moves the origin so that
    /// what is drawn at the centre of the window stays there. A change that
    /// would take the scale out of the band is not made.
    pub fn zoom(&mut self, amount: i64, viewport: (u32, u32))
        requires
            old(self).wf(),
            old(self).accepts(amount as int) ==> in_reach(
                zoomed(
                    old(self).spec_origin().x as int,
                    view_center(viewport).0,
                    old(self).spec_scale(),
                    old(self).spec_scale() + amount,
                ),
            ) && in_reach(
                zoomed(
                    old(self).spec_origin().y as int,
                    view_center(viewport).1,
                    old(self).spec_scale(),
                    old(self).spec_scale() + amount,
                ),
            ),
        ensures
            final(self).wf(),
            final(self).band() == old(self).band(),
            final(self).size() == old(self).size(),
            !old(self).accepts(amount as int) ==> *final(self) == *old(self),
            old(self).accepts(amount as int) ==> {
                &&& final(self).spec_scale() == old(self).spec_scale() + amount
                &&& final(self).spec_origin().x == zoomed(
                    old(self).spec_origin().x as int,
                    view_center(viewport).0,
                    old(self).spec_scale(),
                    old(self).spec_scale() + amount,
                )
                &&& final(self).spec_origin().y == zoomed(
                    old(self).spec_origin().y as int,
                    view_center(viewport).1,
                    old(self).spec_scale(),
                    old(self).spec_scale() + amount,
                )
                &&& keeps_center(
                    old(self).spec_origin().x as int,
                    old(self).spec_scale(),
                    final(self).spec_origin().x as int,
                    final(self).spec_scale(),
                    view_center(viewport).0,
                )
                &&& keeps_center(
                    old(self).spec_origin().y as int,
                    old(self).spec_scale(),
                    final(self).spec_origin().y as int,
                    final(self).spec_scale(),
                    view_center(viewport).1,
                )
            },
    {
        if amount < self.min_scale - self.scale || amount > self.max_scale - self.scale {
            return ;
        }
        let target = self.scale + amount;
        let center = window_center(viewport);
        let x = rescale(self.origin.x, center.x, self.scale, target);
        let y = rescale(self.origin.y, center.y, self.scale, target);
        proof {
            lemma_zoomed_keeps_center(self.origin.x as int, center.x as int, self.scale as int, target as int);
            lemma_zoomed_keeps_center(self.origin.y as int, center.y as int, self.scale as int, target as int);
        }
        self.origin = Point { x: x as i64, y: y as i64 };
        self.scale = target;
    }

    /// Whether `pan` can take `delta`: the origin stays within reach.
    pub fn can_pan(&self, delta: Point) -> (fits: bool)
        requires
            self.wf(),
        ensures
            fits == (in_reach(self.spec_origin().x + delta.x) && in_reach(
                self.spec_origin().y - delta.y,
            )),
    {
        let x: i128 = self.origin.x as i128 + delta.x as i128;
        let y: i128 = self.origin.y as i128 - delta.y as i128;
        let limit: i128 = ORIGIN_LIMIT as i128;
        -limit <= x && x <= limit && -limit <= y && y <= limit
    }

    /// Whether `zoom` can take `amount` in the given window: either the
    /// change is not made at all, or the origin stays within reach.
    pub fn can_zoom(&self, amount: i64, viewport: (u32, u32)) -> (fits: bool)
        requires
            self.wf(),
        ensures
            fits == (self.accepts(amount as int) ==> in_reach(
                zoomed(
                    self.spec_origin().x as int,
                    view_center(viewport).0,
                    self.spec_scale(),
                    self.spec_scale() + amount,
                ),
            ) && in_reach(
                zoomed(
                    self.spec_origin().y as int,
                    view_center(viewport).1,
                    self.spec_scale(),
                    self.spec_scale() + amount,
                ),
            )),
    {
        if amount < self.min_scale - self.scale || amount > self.max_scale - self.scale {
            return true;
        }
        let target = self.scale + amount;
        let center = window_center(viewport);
        let x = rescale(self.origin.x, center.x, self.scale, target);
        let y = rescale(self.origin.y, center.y, self.scale, target);
        let limit: i128 = ORIGIN_LIMIT as i128;
        -limit <= x && x <= limit && -limit <= y && y <= limit
    }

    /// Moves the origin so that the centre of the top face of the cell at
    /// `(row, col)` lies at the centre of the window. The cell need not lie
    /// on the grid.
    pub fn center_on(&mut self, row: usize, col: usize, viewport: (u32, u32))
        requires
            old(self).wf(),
            row <= MAX_MAP_SIZE,
            col <= MAX_MAP_SIZE,
        ensures
            final(self).wf(),
            final(self).spec_scale() == old(self).spec_scale(),
            final(self).band() == old(self).band(),
            final(self).size() == old(self).size(),
            final(self).spec_origin().x == centered(
                anchor(old(self).size() as int, row as int, col as int).0,
                old(self).spec_scale(),
                view_center(viewport).0,
            ),
            final(self).spec_origin().y == centered(
                anchor(old(self).size() as int, row as int, col as int).1,
                old(self).spec_scale(),
                view_center(viewport).1,
            ),
            final(self).projected(row as int, col as int) == view_center(viewport),
    {
        let world = tile_position(self.map_size, row, col);
        let center = window_center(viewport);
        proof {
            lemma_scaled_in_range(world.x + ANCHOR_X, self.scale as int);
            lemma_scaled_in_range(world.y + ANCHOR_Y, self.scale as int);
        }
        self.origin = Point {
            x: (world.x + ANCHOR_X) * self.scale - center.x,
            y: (world.y + ANCHOR_Y) * self.scale - center.y,
        };
    }
}

/// A world coordinate within reach of the grid, scaled, stays far inside the
/// origin's reach.
pub proof fn lemma_scaled_in_range(world: int, scale: int)
    requires
        -(32 * (2 * MAX_MAP_SIZE) + 32) <= world <= 32 * (2 * MAX_MAP_SIZE) + 32,
        1 <= scale <= SCALE_LIMIT,
    ensures
        -(32 * (2 * MAX_MAP_SIZE) + 32) * SCALE_LIMIT <= world * scale <= (32 * (2 * MAX_MAP_SIZE)
            + 32) * SCALE_LIMIT,
{
    assert(-(32 * (2 * MAX_MAP_SIZE) + 32) * SCALE_LIMIT <= world * scale <= (32 * (2
        * MAX_MAP_SIZE) + 32) * SCALE_LIMIT) by (nonlinear_arith)
        requires
            -(32 * (2 * MAX_MAP_SIZE) + 32) <= world <= 32 * (2 * MAX_MAP_SIZE) + 32,
            1 <= scale <= SCALE_LIMIT,
    ;
}

/// The origin coordinate after a change of scale, rounded down.
fn rescale(origin: i64, center: i64, scale: i64, target: i64) -> (moved: i128)
    requires
        in_reach(origin as int),
        0 <= center <= u32::MAX * (SCREEN_UNITS / 2),
        1 <= scale <= SCALE_LIMIT,
        1 <= target <= SCALE_LIMIT,
    ensures
        moved == zoomed(origin as int, center as int, scale as int, target as int),
{
    let reach: i128 = origin as i128 + center as i128;
    let divisor: i128 = scale as i128;
    proof {
        assert(-0x4000_0000_0000_0000_0000_0000 <= reach * (target as i128)
            <= 0x4000_0000_0000_0000_0000_0000) by (nonlinear_arith)
            requires
                -0x4000_0000_0000_0000 <= reach <= 0x4000_0000_0000_0000,
                1 <= target <= 1_000_000,
        ;
    }
    let grown: i128 = reach * (target as i128);
    let quotient: i128 = if grown >= 0 {
        grown / divisor
    } else {
        let up: i128 = (-grown + divisor - 1) / divisor;
        proof {
            let a = -grown as int;
            let d = divisor as int;
            lemma_fundamental_div_mod(a + d - 1, d);
            let q = (a + d - 1) / d;
            let r = (a + d - 1) % d;
            assert(a + d - 1 == d * q + r);
            assert(-a == (-q) * d + (d - 1 - r)) by (nonlinear_arith)
                requires
                    a + d - 1 == d * q + r,
            ;
            lemma_fundamental_div_mod_converse(-a, d, -q, d - 1 - r);
        }
        -up
    };
    proof {
        let g = grown as int;
        let d = divisor as int;
        lemma_fundamental_div_mod(g, d);
        vstd::arithmetic::div_mod::lemma_mod_bound(g, d);
        assert(-0x4000_0000_0000_0000_0000_0000 - 1 <= g / d <= 0x4000_0000_0000_0000_0000_0000)
            by (nonlinear_arith)
            requires
                g == d * (g / d) + g % d,
                0 <= g % d < d,
                1 <= d,
                -0x4000_0000_0000_0000_0000_0000 <= g <= 0x4000_0000_0000_0000_0000_0000,
        ;
    }
    quotient - center as i128
}

/// Centring the view on a cell puts the cell at the centre of the window:
/// with the origin that `center_on` sets, `project` gives the window's
/// centre, whatever the scale.
pub proof fn lemma_center_then_project(camera: Camera, row: int, col: int, viewport: (u32, u32))
    requires
        camera.spec_origin().x == centered(
            anchor(camera.size() as int, row, col).0,
            camera.spec_scale(),
            view_center(viewport).0,
        ),
        camera.spec_origin().y == centered(
            anchor(camera.size() as int, row, col).1,
            camera.spec_scale(),
            view_center(viewport).1,
        ),
    ensures
        camera.projected(row, col) == view_center(viewport),
{
}

/// A change of scale keeps the centre of the window fixed. On either axis,
/// a world position that was drawn at the centre is drawn there again; and
/// where the centre falls between two world units, what was drawn there
/// moves by less than one screen unit.
pub proof fn lemma_zoom_keeps_center(origin: int, center: int, scale: int, target: int, world: int)
    requires
        scale > 0,
    ensures
        screen_of(world, scale, origin) == center ==> screen_of(
            world,
            target,
            zoomed(origin, center, scale, target),
        ) == center,
        0 <= (origin + center) * target - scale * (zoomed(origin, center, scale, target) + center)
            < scale,
{
    let grown = (origin + center) * target;
    lemma_fundamental_div_mod(grown, scale);
    vstd::arithmetic::div_mod::lemma_mod_bound(grown, scale);
    if screen_of(world, scale, origin) == center {
        assert(grown == (world * target) * scale + 0) by (nonlinear_arith)
            requires
                world * scale - origin == center,
                grown == (origin + center) * target,
        ;
        lemma_fundamental_div_mod_converse(grown, scale, world * target, 0);
    }
}

/// The origin that `zoomed` gives keeps the centre fixed.
pub proof fn lemma_zoomed_keeps_center(origin: int, center: int, scale: int, target: int)
    requires
        scale > 0,
    ensures
        keeps_center(origin, scale, zoomed(origin, center, scale, target), target, center),
{
    assert forall|world: int| #[trigger]
        screen_of(world, scale, origin) == center implies screen_of(
        world,
        target,
        zoomed(origin, center, scale, target),
    ) == center by {
        lemma_zoom_keeps_center(origin, center, scale, target, world);
    }
    lemma_zoom_keeps_center(origin, center, scale, target, 0);
}

/// A change of scale keeps a centred cell centred: if the centre of a cell's
/// top face lay at the centre of the window before the change, `project`
/// gives the centre of the window for that cell after it.
pub proof fn lemma_zoom_keeps_centered_cell(
    before: Camera,
    after: Camera,
    amount: int,
    viewport: (u32, u32),
    row: int,
    col: int,
)
    requires
        before.spec_scale() > 0,
        before.projected(row, col) == view_center(viewport),
        after.size() == before.size(),
        after.spec_scale() == before.spec_scale() + amount,
        after.spec_origin().x == zoomed(
            before.spec_origin().x as int,
            view_center(viewport).0,
            before.spec_scale(),
            before.spec_scale() + amount,
        ),
        after.spec_origin().y == zoomed(
            before.spec_origin().y as int,
            view_center(viewport).1,
            before.spec_scale(),
            before.spec_scale() + amount,
        ),
    ensures
        after.projected(row, col) == view_center(viewport),
{
    let at = anchor(before.size() as int, row, col);
    lemma_zoom_keeps_center(
        before.spec_origin().x as int,
        view_center(viewport).0,
        before.spec_scale(),
        before.spec_scale() + amount,
        at.0,
    );
    lemma_zoom_keeps_center(
        before.spec_origin().y as int,
        view_center(viewport).1,
        before.spec_scale(),
        before.spec_scale() + amount,
        at.1,
    );
}

/// Panning by an offset and then by its opposite brings the origin back.
pub proof fn lemma_pan_back(origin: Point, delta: Point)
    requires
        delta.x != i64::MIN,
        delta.y != i64::MIN,
    ensures
        (origin.x + delta.x) + (-delta.x) == origin.x,
        (origin.y - delta.y) - (-delta.y) == origin.y,
{
}

} // verus!
