//! The visualizer: the two layers, the player marker and the camera, and
//! what each frame does to them.
//!
//! The visualizer draws nothing and waits for nothing. Each frame its caller
//! hands it what the simulation has produced, the map as far as it is known
//! and the pending events, and takes back what to paint.

use std::collections::VecDeque;
use vstd::prelude::*;
use crate::camera::{anchor, centered, clamped, in_reach, keeps_center, view_center, window_center, zoomed, Camera, MAX_SCALE, MIN_SCALE};
use crate::contents_map::{content_dest, ContentsMapComponent, ContentsMapComponentParam};
use crate::coordinated::{DrawEntry, Tint, VisualizerError};
use crate::geometry::{Point, MAX_MAP_SIZE};
use crate::player::{player_dest, PlayerComponent, PlayerComponentParam, PlayerComponentUpdateParam};
use crate::textures::{content_texture, Texture};
use crate::tile::{is_square, Tile};
use crate::tiles_map::{has_side, hidden_entry, TilesMapComponent, TilesMapComponentParam};

verus! {

/// What the simulation reports. Only two kinds of event concern the
/// visualizer; all others are passed over.
#[derive(Clone, Copy, Debug)]
pub enum Event {
    /// The player has moved onto the given tile, at `(row, col)`.
    Moved(Tile, (usize, usize)),
    /// The content of the cell at `(row, col)` has changed; the tile is the
    /// cell as it is now.
    TileContentUpdated(Tile, (usize, usize)),
    /// Any other event.
    Other,
}

/// What a frame does besides drawing.
#[derive(Clone, Copy, Debug, PartialEq, Eq, Structural)]
pub enum FrameAction {
    /// Nothing.
    Idle,
    /// Take in the map and the next pending event.
    HandleEvent,
    /// Let the simulation take one step.
    AdvanceSimulation,
}

/// Number of frames from one update to the next.
pub const TICK_INTERVAL: usize = 50;

/// What the frame with the given count does: on every `TICK_INTERVAL`th
/// frame an event is handled if one is pending, and the simulation advances
/// if none is; the frames between only draw.
pub fn frame_action(ticks: usize, pending: bool) -> (action: FrameAction)
    ensures
        action == (if ticks % TICK_INTERVAL != 0 {
            FrameAction::Idle
        } else if pending {
            FrameAction::HandleEvent
        } else {
            FrameAction::AdvanceSimulation
        }),
{
    if ticks % TICK_INTERVAL != 0 {
        FrameAction::Idle
    } else if pending {
        FrameAction::HandleEvent
    } else {
        FrameAction::AdvanceSimulation
    }
}

/// Whether an event concerns the visualizer.
pub open spec fn is_relevant(event: Event) -> bool {
    event is Moved || event is TileContentUpdated
}

/// The first event of a queue that concerns the visualizer.
pub open spec fn next_relevant(events: Seq<Event>) -> Option<Event>
    decreases events.len(),
{
    if events.len() == 0 {
        None
    } else if is_relevant(events[0]) {
        Some(events[0])
    } else {
        next_relevant(events.drop_first())
    }
}

/// What is left of a queue once its first event that concerns the
/// visualizer has been taken, with all those before it.
pub open spec fn after_relevant(events: Seq<Event>) -> Seq<Event>
    decreases events.len(),
{
    if events.len() == 0 {
        events
    } else if is_relevant(events[0]) {
        events.drop_first()
    } else {
        after_relevant(events.drop_first())
    }
}

/// Takes events off the front of the queue up to the first that concerns
/// the visualizer, and returns that one. The events before it are dropped.
pub fn next_event(event_queue: &mut VecDeque<Event>) -> (event: Option<Event>)
    ensures
        event == next_relevant(old(event_queue)@),
        final(event_queue)@ == after_relevant(old(event_queue)@),
        event matches Some(e) ==> is_relevant(e),
{
    let ghost start = event_queue@;
    loop
        invariant
            start == old(event_queue)@,
            next_relevant(event_queue@) == next_relevant(start),
            after_relevant(event_queue@) == after_relevant(start),
        decreases event_queue@.len(),
    {
        let ghost before = event_queue@;
        match event_queue.pop_front() {
            Some(event) => {
                proof {
                    assert(event_queue@ =~= before.drop_first());
                    assert(event == before[0]);
                    assert(next_relevant(before) == (if is_relevant(before[0]) {
                        Some(before[0])
                    } else {
                        next_relevant(before.drop_first())
                    }));
                    assert(after_relevant(before) == (if is_relevant(before[0]) {
                        before.drop_first()
                    } else {
                        after_relevant(before.drop_first())
                    }));
                }
                match event {
                    Event::Moved(_, _) => {
                        return Some(event);
                    },
                    Event::TileContentUpdated(_, _) => {
                        return Some(event);
                    },
                    Event::Other => {},
                }
            },
            None => {
                proof {
                    assert(next_relevant(before) is None);
                    assert(after_relevant(before) == before);
                }
                return None;
            },
        }
    }
}

/// The first of two outcomes that is an error, if either is.
pub open spec fn first_error(
    first: Result<(), VisualizerError>,
    second: Result<(), VisualizerError>,
) -> Result<(), VisualizerError> {
    if first is Err {
        first
    } else {
        second
    }
}

/// Whether a cell can be held: it lies within `MAX_MAP_SIZE` of the grid's
/// first cell on both axes. Every cell of a grid can; so can the cells that
/// a player may stand on beside it.
pub open spec fn in_range(coords: (usize, usize)) -> bool {
    coords.0 <= MAX_MAP_SIZE && coords.1 <= MAX_MAP_SIZE
}

/// Whether the visualizer can take an event: a move must go to a cell that
/// can be held.
pub open spec fn takes(event: Event) -> bool {
    event matches Event::Moved(_, coords) ==> in_range(coords)
}

/// Whether the visualizer can take every event of a queue.
pub open spec fn takes_all(events: Seq<Event>) -> bool {
    forall|i: int| 0 <= i < events.len() ==> takes(#[trigger] events[i])
}

/// Whether the visualizer can take an event.
pub fn can_take(event: &Event) -> (fits: bool)
    ensures
        fits == takes(*event),
{
    match event {
        Event::Moved(_, coords) => coords.0 <= MAX_MAP_SIZE && coords.1 <= MAX_MAP_SIZE,
        _ => true,
    }
}

/// Whether the visualizer can take every event of a queue.
pub fn can_take_all(event_queue: &VecDeque<Event>) -> (fits: bool)
    ensures
        fits == takes_all(event_queue@),
{
    let mut i: usize = 0;
    while i < event_queue.len()
        invariant
            i <= event_queue@.len(),
            forall|j: int| 0 <= j < i ==> takes(#[trigger] event_queue@[j]),
        decreases event_queue@.len() - i,
    {
        if !can_take(&event_queue[i]) {
            return false;
        }
        i += 1;
    }
    true
}

/// The event that `next_relevant` gives is one of the queue.
pub proof fn lemma_next_relevant_is_pending(events: Seq<Event>)
    ensures
        next_relevant(events) matches Some(event) ==> events.contains(event),
    decreases events.len(),
{
    if events.len() > 0 && !is_relevant(events[0]) {
        lemma_next_relevant_is_pending(events.drop_first());
        match next_relevant(events.drop_first()) {
            Some(event) => {
                let i = choose|i: int| 0 <= i < events.drop_first().len() && events.drop_first()[i] == event;
                assert(events[i + 1] == event);
            },
            None => {},
        }
    } else if events.len() > 0 {
        assert(events[0] == events[0]);
    }
}

/// How taking in an event ends on a grid of side `n`. A move succeeds; a
/// change of content succeeds on the cells of the grid.
pub open spec fn event_outcome(n: nat, event: Option<Event>) -> Result<(), VisualizerError> {
    match event {
        Some(Event::TileContentUpdated(_, coords)) => if coords.0 < n && coords.1 < n {
            Ok(())
        } else {
            Err(VisualizerError::OutOfBounds)
        },
        _ => Ok(()),
    }
}

/// A copy of a grid.
pub fn copy_grid(map: &Vec<Vec<Tile>>) -> (copy: Vec<Vec<Tile>>)
    ensures
        copy@.len() == map@.len(),
        forall|row: int| 0 <= row < map@.len() ==> (#[trigger] copy@[row])@ == map@[row]@,
{
    let mut copy: Vec<Vec<Tile>> = Vec::new();
    let mut y: usize = 0;
    while y < map.len()
        invariant
            y <= map@.len(),
            copy@.len() == y,
            forall|row: int| 0 <= row < y ==> (#[trigger] copy@[row])@ == map@[row]@,
        decreases map@.len() - y,
    {
        let source = &map[y];
        let mut cells: Vec<Tile> = Vec::new();
        let mut x: usize = 0;
        while x < source.len()
            invariant
                x <= source@.len(),
                cells@ == source@.subrange(0, x as int),
            decreases source@.len() - x,
        {
            cells.push(source[x]);
            proof {
                assert(cells@ =~= source@.subrange(0, x + 1));
            }
            x += 1;
        }
        proof {
            assert(cells@ =~= source@);
        }
        copy.push(cells);
        y += 1;
    }
    copy
}

/// What one frame paints, in painting order: the tile batches, then the
/// content batches, then the player.
#[derive(Debug)]
pub struct Frame {
    /// The corner of the window in the scaled world, in screen units.
    pub origin: Point,
    /// The size of the window, in screen units.
    pub window_size: Point,
    /// The scale at which every batch is drawn.
    pub scale: i64,
    /// The tile batches, each by its diagonal and its position in the
    /// sprite table.
    pub tiles: Vec<(usize, usize)>,
    /// The content batches, each by its sprite.
    pub contents: Vec<Texture>,
    /// Where the player's sprite is drawn, in the scaled world.
    pub player: Point,
}

/// The visualizer.
#[derive(Debug)]
pub struct Visualizer {
    camera: Camera,
    tiles_map_component: TilesMapComponent,
    contents_map_component: ContentsMapComponent,
    player_component: PlayerComponent,
}

impl Visualizer {
    /// The camera.
    pub closed spec fn camera(&self) -> Camera {
        self.camera
    }

    /// The tile layer.
    pub closed spec fn tiles(&self) -> TilesMapComponent {
        self.tiles_map_component
    }

    /// The content layer.
    pub closed spec fn contents(&self) -> ContentsMapComponent {
        self.contents_map_component
    }

    /// The player marker.
    pub closed spec fn player(&self) -> PlayerComponent {
        self.player_component
    }

    /// The side of the grid.
    pub open spec fn size(&self) -> nat {
        self.tiles().size()
    }

    /// The visualizer is consistent: each of its parts is, and all of them
    /// speak of one grid.
    pub open spec fn wf(&self) -> bool {
        &&& self.camera().wf()
        &&& self.tiles().wf()
        &&& self.contents().wf()
        &&& self.player().wf()
        &&& self.contents().size() == self.size()
        &&& self.camera().size() == self.size()
        &&& self.player().spec_map_size() == (self.size() as usize, self.size() as usize)
    }

    /// How taking in the known map ends: a snapshot of the wrong size is
    /// refused, and one that shows a content sprite that the content layer
    /// does not keep is reported.
    pub open spec fn observe_outcome(&self, world: Option<Vec<Vec<Option<Tile>>>>) -> Result<
        (),
        VisualizerError,
    > {
        match world {
            Some(snapshot) => if !has_side(snapshot@, self.size()) {
                Err(VisualizerError::OutOfBounds)
            } else if !self.contents().agrees_with(snapshot@) {
                Err(VisualizerError::MissingElement)
            } else {
                Ok(())
            },
            None => Ok(()),
        }
    }

    /// What taking in the known map does: where there is a snapshot of the
    /// grid's size, the tile layer is updated with it and the content layer
    /// revealed with it; otherwise the layers stay. Camera and player stay.
    pub open spec fn observed_from(&self, before: &Visualizer, world: Option<Vec<Vec<Option<Tile>>>>) -> bool {
        &&& self.camera() == before.camera()
        &&& self.player() == before.player()
        &&& match world {
            Some(snapshot) => if has_side(snapshot@, before.size()) {
                &&& self.tiles().updated_from(&before.tiles(), snapshot@)
                &&& self.contents().revealed_from(&before.contents(), snapshot@)
            } else {
                &&& self.tiles() == before.tiles()
                &&& self.contents() == before.contents()
            },
            None => {
                &&& self.tiles() == before.tiles()
                &&& self.contents() == before.contents()
            },
        }
    }

    /// What taking in an event does. A move puts the player marker on the
    /// cell, on the grid or beside it, and centres the camera on it; a
    /// change of content is handed to the content layer. A change of content
    /// outside the grid, an event of another kind, or none, changes nothing.
    pub open spec fn applied_from(&self, before: &Visualizer, event: Option<Event>, viewport: (u32, u32)) -> bool {
        match event {
            Some(Event::Moved(_, coords)) => {
                &&& self.tiles() == before.tiles()
                &&& self.contents() == before.contents()
                &&& self.player().spec_position() == coords
                &&& self.player().spec_map_size() == before.player().spec_map_size()
                &&& self.camera().spec_scale() == before.camera().spec_scale()
                &&& self.camera().band() == before.camera().band()
                &&& self.camera().size() == before.camera().size()
                &&& self.camera().spec_origin().x == centered(
                    anchor(before.size() as int, coords.0 as int, coords.1 as int).0,
                    before.camera().spec_scale(),
                    view_center(viewport).0,
                )
                &&& self.camera().spec_origin().y == centered(
                    anchor(before.size() as int, coords.0 as int, coords.1 as int).1,
                    before.camera().spec_scale(),
                    view_center(viewport).1,
                )
                &&& self.camera().projected(coords.0 as int, coords.1 as int) == view_center(viewport)
            },
            Some(Event::TileContentUpdated(tile, coords)) => if coords.0 < before.size() && coords.1
                < before.size() {
                &&& self.tiles() == before.tiles()
                &&& self.camera() == before.camera()
                &&& self.player() == before.player()
                &&& self.contents().changed_from(&before.contents(), tile, coords)
            } else {
                *self == *before
            },
            _ => *self == *before,
        }
    }

    /// A visualizer on the initial grid: both layers as their `from_map`
    /// builds them, every cell dark, the player on
    /// `initial_position`, given as `(row, col)`, the world's origin at the
    /// window's corner, and `initial_scale` brought into the standard band.
    pub fn new(map: Vec<Vec<Tile>>, initial_position: (usize, usize), initial_scale: i64) -> (visualizer:
        Visualizer)
        requires
            is_square(map@),
            map@.len() <= MAX_MAP_SIZE,
            initial_position.0 <= MAX_MAP_SIZE,
            initial_position.1 <= MAX_MAP_SIZE,
        ensures
            visualizer.wf(),
            visualizer.size() == map@.len(),
            visualizer.camera().spec_origin() == (Point { x: 0, y: 0 }),
            visualizer.camera().spec_scale() == clamped(
                initial_scale as int,
                MIN_SCALE as int,
                MAX_SCALE as int,
            ),
            visualizer.camera().band() == (MIN_SCALE as int, MAX_SCALE as int),
            visualizer.player().spec_position() == initial_position,
            visualizer.tiles().total_elements() == map@.len() * map@.len(),
            visualizer.tiles().is_fresh(),
            visualizer.contents().is_fresh(),
            forall|row: int, col: int|
                0 <= row < map@.len() && 0 <= col < map@.len() ==> {
                    &&& #[trigger] visualizer.tiles().tile_at(row, col) == map@[row]@[col]
                    &&& visualizer.tiles().entry_at(row, col) == Some(
                        hidden_entry(map@.len() as int, (col as usize, row as usize)),
                    )
                    &&& visualizer.contents().tile_at(row, col) == map@[row]@[col]
                    &&& visualizer.contents().entry_at(row, col) == (if content_texture(
                        map@[row]@[col].content,
                    ) is Some {
                        Some(
                            DrawEntry {
                                dest: content_dest(
                                    map@.len() as int,
                                    row,
                                    col,
                                    map@[row]@[col].elevation,
                                ),
                                tint: Tint::Hidden,
                            },
                        )
                    } else {
                        None
                    })
                },
    {
        let map_len = map.len();
        let copy = copy_grid(&map);
        proof {
            assert forall|row: int| 0 <= row < copy@.len() implies (#[trigger] copy@[row]).len()
                == copy@.len() by {
                assert(copy@[row]@ == map@[row]@);
            }
        }
        let tiles_map_component = TilesMapComponent::from_map(map);
        let contents_map_component = ContentsMapComponent::from_map(copy);
        let player_component = PlayerComponent::new(initial_position, (map_len, map_len));
        let camera = Camera::new(map_len, initial_scale, MIN_SCALE, MAX_SCALE);
        let visualizer = Visualizer {
            camera,
            tiles_map_component,
            contents_map_component,
            player_component,
        };
        proof {
            assert forall|row: int, col: int| 0 <= row < map@.len() && 0 <= col < map@.len() implies {
                &&& #[trigger] visualizer.tiles().tile_at(row, col) == map@[row]@[col]
                &&& visualizer.contents().tile_at(row, col) == map@[row]@[col]
                &&& visualizer.contents().entry_at(row, col) == (if content_texture(
                    map@[row]@[col].content,
                ) is Some {
                    Some(
                        DrawEntry {
                            dest: content_dest(map@.len() as int, row, col, map@[row]@[col].elevation),
                            tint: Tint::Hidden,
                        },
                    )
                } else {
                    None
                })
            } by {
                assert(copy@[row]@ == map@[row]@);
                assert(visualizer.contents().entry_at(row, col) == (if content_texture(
                    copy@[row]@[col].content,
                ) is Some {
                    Some(
                        DrawEntry {
                            dest: content_dest(copy@.len() as int, row, col, copy@[row]@[col].elevation),
                            tint: Tint::Hidden,
                        },
                    )
                } else {
                    None
                }));
            }
        }
        visualizer
    }

    /// The camera's origin.
    pub fn origin(&self) -> (origin: Point)
        ensures
            origin == self.camera().spec_origin(),
    {
        self.camera.origin()
    }

    /// The camera's scale, in hundredths.
    pub fn scale(&self) -> (scale: i64)
        ensures
            scale == self.camera().spec_scale(),
    {
        self.camera.scale()
    }

    /// The camera.
    pub fn get_camera(&self) -> (camera: &Camera)
        ensures
            *camera == self.camera(),
    {
        &self.camera
    }

    /// The tile layer.
    pub fn tiles_map_component(&self) -> (tiles: &TilesMapComponent)
        ensures
            *tiles == self.tiles(),
    {
        &self.tiles_map_component
    }

    /// The content layer.
    pub fn contents_map_component(&self) -> (contents: &ContentsMapComponent)
        ensures
            *contents == self.contents(),
    {
        &self.contents_map_component
    }

    /// The player marker.
    pub fn player_component(&self) -> (player: &PlayerComponent)
        ensures
            *player == self.player(),
    {
        &self.player_component
    }

    /// What the frame paints in a window of `viewport.0` by `viewport.1`
    /// pixels: the tile batches in view in painting order, the content
    /// batches that hold something, and the player, all at the camera's
    /// scale and seen from the camera's origin.
    pub fn draw(&self, viewport: (u32, u32)) -> (frame: Frame)
        requires
            self.wf(),
        ensures
            frame.origin == self.camera().spec_origin(),
            frame.window_size.x == 2 * view_center(viewport).0,
            frame.window_size.y == 2 * view_center(viewport).1,
            frame.scale == self.camera().spec_scale(),
            self.tiles().draws(
                TilesMapComponentParam {
                    origin: frame.origin,
                    window_size: frame.window_size,
                    scale: frame.scale,
                },
                frame.tiles@,
            ),
            self.contents().draws(frame.contents@),
            frame.player.x == player_dest(
                self.size() as int,
                self.player().spec_position().0 as int,
                self.player().spec_position().1 as int,
                self.camera().spec_scale(),
            ).0,
            frame.player.y == player_dest(
                self.size() as int,
                self.player().spec_position().0 as int,
                self.player().spec_position().1 as int,
                self.camera().spec_scale(),
            ).1,
    {
        let origin = self.camera.origin();
        let scale = self.camera.scale();
        let center = window_center(viewport);
        let window_size = Point { x: 2 * center.x, y: 2 * center.y };
        let tiles = self.tiles_map_component.draw(TilesMapComponentParam::new(origin, window_size, scale));
        let contents = self.contents_map_component.draw(ContentsMapComponentParam::new(scale));
        let player = self.player_component.draw(PlayerComponentParam::new(scale));
        Frame { origin, window_size, scale, tiles, contents, player }
    }

    /// Changes the scale by `scale` hundredths, keeping fixed what is drawn
    /// at the centre of the window. A change that would take the scale out
    /// of the band is not made.
    pub fn add_scale(&mut self, viewport: (u32, u32), scale: i64)
        requires
            old(self).wf(),
            old(self).camera().accepts(scale as int) ==> in_reach(
                zoomed(
                    old(self).camera().spec_origin().x as int,
                    view_center(viewport).0,
                    old(self).camera().spec_scale(),
                    old(self).camera().spec_scale() + scale,
                ),
            ) && in_reach(
                zoomed(
                    old(self).camera().spec_origin().y as int,
                    view_center(viewport).1,
                    old(self).camera().spec_scale(),
                    old(self).camera().spec_scale() + scale,
                ),
            ),
        ensures
            final(self).wf(),
            final(self).tiles() == old(self).tiles(),
            final(self).contents() == old(self).contents(),
            final(self).player() == old(self).player(),
            final(self).camera().band() == old(self).camera().band(),
            final(self).camera().size() == old(self).camera().size(),
            !old(self).camera().accepts(scale as int) ==> final(self).camera() == old(self).camera(),
            old(self).camera().accepts(scale as int) ==> {
                &&& final(self).camera().spec_scale() == old(self).camera().spec_scale() + scale
                &&& final(self).camera().spec_origin().x == zoomed(
                    old(self).camera().spec_origin().x as int,
                    view_center(viewport).0,
                    old(self).camera().spec_scale(),
                    old(self).camera().spec_scale() + scale,
                )
                &&& final(self).camera().spec_origin().y == zoomed(
                    old(self).camera().spec_origin().y as int,
                    view_center(viewport).1,
                    old(self).camera().spec_scale(),
                    old(self).camera().spec_scale() + scale,
                )
                &&& keeps_center(
                    old(self).camera().spec_origin().x as int,
                    old(self).camera().spec_scale(),
                    final(self).camera().spec_origin().x as int,
                    final(self).camera().spec_scale(),
                    view_center(viewport).0,
                )
                &&& keeps_center(
                    old(self).camera().spec_origin().y as int,
                    old(self).camera().spec_scale(),
                    final(self).camera().spec_origin().y as int,
                    final(self).camera().spec_scale(),
                    view_center(viewport).1,
                )
            },
    {
        self.camera.zoom(scale, viewport);
    }

    /// Moves the view by `offset`: across with it, and down against it.
    pub fn add_offset(&mut self, offset: Point)
        requires
            old(self).wf(),
            in_reach(old(self).camera().spec_origin().x + offset.x),
            in_reach(old(self).camera().spec_origin().y - offset.y),
        ensures
            final(self).wf(),
            final(self).tiles() == old(self).tiles(),
            final(self).contents() == old(self).contents(),
            final(self).player() == old(self).player(),
            final(self).camera().spec_origin().x == old(self).camera().spec_origin().x + offset.x,
            final(self).camera().spec_origin().y == old(self).camera().spec_origin().y - offset.y,
            final(self).camera().spec_scale() == old(self).camera().spec_scale(),
            final(self).camera().band() == old(self).camera().band(),
            final(self).camera().size() == old(self).camera().size(),
    {
        self.camera.pan(offset);
    }

    /// Centres the view on a cell, which need not lie on the grid.
    /// `tile_center` is the cell as `(col, row)`.
    pub fn set_center(&mut self, viewport: (u32, u32), tile_center: (usize, usize))
        requires
            old(self).wf(),
            tile_center.0 <= MAX_MAP_SIZE,
            tile_center.1 <= MAX_MAP_SIZE,
        ensures
            final(self).wf(),
            final(self).tiles() == old(self).tiles(),
            final(self).contents() == old(self).contents(),
            final(self).player() == old(self).player(),
            final(self).camera().spec_scale() == old(self).camera().spec_scale(),
            final(self).camera().band() == old(self).camera().band(),
            final(self).camera().size() == old(self).camera().size(),
            final(self).camera().spec_origin().x == centered(
                anchor(old(self).size() as int, tile_center.1 as int, tile_center.0 as int).0,
                old(self).camera().spec_scale(),
                view_center(viewport).0,
            ),
            final(self).camera().spec_origin().y == centered(
                anchor(old(self).size() as int, tile_center.1 as int, tile_center.0 as int).1,
                old(self).camera().spec_scale(),
                view_center(viewport).1,
            ),
            final(self).camera().projected(tile_center.1 as int, tile_center.0 as int) == view_center(
                viewport,
            ),
    {
        self.camera.center_on(tile_center.1, tile_center.0, viewport);
    }

    /// Takes in the map as far as it is known: the tile layer is updated
    /// with it, then the content layer revealed with it. Without a snapshot
    /// nothing changes. The first error is returned, but an error of the
    /// tile layer does not keep the content layer from its turn.
    pub fn observe(&mut self, world: &Option<Vec<Vec<Option<Tile>>>>) -> (result: Result<
        (),
        VisualizerError,
    >)
        requires
            old(self).wf(),
        ensures
            final(self).wf(),
            final(self).size() == old(self).size(),
            final(self).observed_from(old(self), *world),
            result == old(self).observe_outcome(*world),
    {
        match world {
            Some(snapshot) => {
                let shown = self.tiles_map_component.reveal_and_diff(snapshot);
                let revealed = self.contents_map_component.reveal_known(snapshot);
                match shown {
                    Ok(_) => match revealed {
                        Ok(_) => Ok(()),
                        Err(error) => Err(error),
                    },
                    Err(error) => Err(error),
                }
            },
            None => Ok(()),
        }
    }

    /// Takes in one event, as `applied_from` says. The event must be one
    /// that the visualizer can take, which `can_take` tests.
    pub fn apply_event(&mut self, event: Event, viewport: (u32, u32)) -> (result: Result<
        (),
        VisualizerError,
    >)
        requires
            old(self).wf(),
            takes(event),
        ensures
            final(self).wf(),
            final(self).size() == old(self).size(),
            final(self).applied_from(old(self), Some(event), viewport),
            result == event_outcome(old(self).size(), Some(event)),
    {
        match event {
            Event::Moved(_tile, coords) => {
                let _ = self.player_component.update(PlayerComponentUpdateParam::new(coords));
                self.camera.center_on(coords.0, coords.1, viewport);
                Ok(())
            },
            Event::TileContentUpdated(tile, coords) => {
                match self.contents_map_component.update_content(&tile, coords) {
                    Ok(_) => Ok(()),
                    Err(error) => Err(error),
                }
            },
            Event::Other => Ok(()),
        }
    }

    /// One update: takes in the map as far as it is known, then the first
    /// pending event that concerns the visualizer; the events before that
    /// one are dropped. A part that fails leaves its own work undone and
    /// does not stop the others; the first error is returned. The queue must
    /// hold only events that the visualizer can take, which `can_take_all`
    /// tests.
    pub fn handle_event(
        &mut self,
        world: &Option<Vec<Vec<Option<Tile>>>>,
        event_queue: &mut VecDeque<Event>,
        viewport: (u32, u32),
    ) -> (result: Result<(), VisualizerError>)
        requires
            old(self).wf(),
            takes_all(old(event_queue)@),
        ensures
            final(self).wf(),
            final(self).size() == old(self).size(),
            final(event_queue)@ == after_relevant(old(event_queue)@),
            exists|seen: Visualizer|
                {
                    &&& #[trigger] seen.observed_from(old(self), *world)
                    &&& seen.wf()
                    &&& final(self).applied_from(&seen, next_relevant(old(event_queue)@), viewport)
                },
            result == first_error(
                old(self).observe_outcome(*world),
                event_outcome(old(self).size(), next_relevant(old(event_queue)@)),
            ),
    {
        let observed = self.observe(world);
        let ghost seen = *self;
        proof {
            lemma_next_relevant_is_pending(event_queue@);
        }
        let applied = match next_event(event_queue) {
            Some(event) => self.apply_event(event, viewport),
            None => Ok(()),
        };
        proof {
            assert(seen.observed_from(old(self), *world));
        }
        match observed {
            Ok(_) => applied,
            Err(error) => Err(error),
        }
    }
}

} // verus!
