use std::collections::VecDeque;

use ui_guido::camera::window_center;
use ui_guido::coordinated::{Tint, VisualizerError};
use ui_guido::geometry::{Point, MAX_MAP_SIZE};
use ui_guido::textures::Texture;
use ui_guido::tile::{Content, Tile, TileType};
use ui_guido::visualizer::{
    can_take, can_take_all, copy_grid, frame_action, next_event, Event, FrameAction, Visualizer, TICK_INTERVAL,
};

const WINDOW: (u32, u32) = (1600, 1200);

fn grass(content: Content) -> Tile {
    Tile { tile_type: TileType::Grass, content, elevation: 0 }
}

fn map3() -> Vec<Vec<Tile>> {
    let mut map = vec![vec![grass(Content::Nothing); 3]; 3];
    map[0][0] = grass(Content::Tree);
    map[2][1] = grass(Content::Rock);
    map
}

fn known(map: &Vec<Vec<Tile>>) -> Vec<Vec<Option<Tile>>> {
    map.iter().map(|row| row.iter().map(|t| Some(*t)).collect()).collect()
}

fn tag(event: &Event) -> u8 {
    match event {
        Event::Moved(_, _) => 1,
        Event::TileContentUpdated(_, _) => 2,
        Event::Other => 0,
    }
}

#[test]
fn updates_come_every_fiftieth_frame() {
    assert_eq!(TICK_INTERVAL, 50);
    assert_eq!(frame_action(0, true), FrameAction::HandleEvent);
    assert_eq!(frame_action(0, false), FrameAction::AdvanceSimulation);
    assert_eq!(frame_action(1, true), FrameAction::Idle);
    assert_eq!(frame_action(49, false), FrameAction::Idle);
    assert_eq!(frame_action(50, true), FrameAction::HandleEvent);
    assert_eq!(frame_action(100, false), FrameAction::AdvanceSimulation);
    assert_eq!(frame_action(101, false), FrameAction::Idle);
}

#[test]
fn next_event_drops_what_does_not_concern_the_visualizer() {
    let mut queue = VecDeque::new();
    queue.push_back(Event::Other);
    queue.push_back(Event::Other);
    queue.push_back(Event::Moved(grass(Content::Nothing), (1, 2)));
    queue.push_back(Event::Other);
    queue.push_back(Event::TileContentUpdated(grass(Content::Rock), (0, 0)));
    match next_event(&mut queue) {
        Some(Event::Moved(_, coords)) => assert_eq!(coords, (1, 2)),
        _ => panic!("the move should come first"),
    }
    assert_eq!(queue.iter().map(tag).collect::<Vec<_>>(), vec![0, 2]);
    match next_event(&mut queue) {
        Some(Event::TileContentUpdated(tile, coords)) => {
            assert_eq!(tile.content, Content::Rock);
            assert_eq!(coords, (0, 0));
        }
        _ => panic!("the change of content should come next"),
    }
    assert!(queue.is_empty());
    assert!(next_event(&mut queue).is_none());
}

#[test]
fn next_event_empties_a_queue_of_other_events() {
    let mut queue = VecDeque::new();
    queue.push_back(Event::Other);
    queue.push_back(Event::Other);
    assert!(next_event(&mut queue).is_none());
    assert!(queue.is_empty());
}

#[test]
fn copy_of_a_grid_is_equal_to_it() {
    let map = map3();
    assert_eq!(copy_grid(&map), map);
    assert_eq!(copy_grid(&Vec::new()), Vec::<Vec<Tile>>::new());
}

#[test]
fn new_visualizer_shows_everything_dark() {
    let visualizer = Visualizer::new(map3(), (1, 1), 400);
    assert_eq!(visualizer.origin(), Point { x: 0, y: 0 });
    assert_eq!(visualizer.scale(), 400);
    assert_eq!(visualizer.player_component().position(), (1, 1));
    assert_eq!(visualizer.tiles_map_component().element_count(), 9);
    for row in 0..3 {
        for col in 0..3 {
            assert_eq!(visualizer.tiles_map_component().entry(row, col).unwrap().tint, Tint::Hidden);
        }
    }
    assert_eq!(visualizer.contents_map_component().entry(0, 0).unwrap().tint, Tint::Hidden);
    assert_eq!(visualizer.contents_map_component().entry(1, 1), None);
}

#[test]
fn initial_scale_is_brought_into_the_standard_band() {
    assert_eq!(Visualizer::new(map3(), (0, 0), 4_000).scale(), 400);
    assert_eq!(Visualizer::new(map3(), (0, 0), 1).scale(), 50);
}

#[test]
fn observe_reveals_both_layers() {
    let mut visualizer = Visualizer::new(map3(), (1, 1), 400);
    let mut snapshot = vec![vec![None; 3]; 3];
    snapshot[0][0] = Some(grass(Content::Tree));
    snapshot[1][1] = Some(grass(Content::Nothing));
    assert_eq!(visualizer.observe(&Some(snapshot)), Ok(()));
    assert_eq!(visualizer.tiles_map_component().entry(0, 0).unwrap().tint, Tint::Revealed);
    assert_eq!(visualizer.tiles_map_component().entry(1, 1).unwrap().tint, Tint::Revealed);
    assert_eq!(visualizer.tiles_map_component().entry(2, 1).unwrap().tint, Tint::Hidden);
    assert_eq!(visualizer.contents_map_component().entry(0, 0).unwrap().tint, Tint::Revealed);
    assert_eq!(visualizer.contents_map_component().entry(2, 1).unwrap().tint, Tint::Hidden);
}

#[test]
fn observe_without_a_snapshot_changes_nothing() {
    let mut visualizer = Visualizer::new(map3(), (1, 1), 400);
    assert_eq!(visualizer.observe(&None), Ok(()));
    assert_eq!(visualizer.tiles_map_component().entry(0, 0).unwrap().tint, Tint::Hidden);
    assert_eq!(visualizer.contents_map_component().entry(0, 0).unwrap().tint, Tint::Hidden);
}

#[test]
fn observe_refuses_a_snapshot_of_another_size() {
    let mut visualizer = Visualizer::new(map3(), (1, 1), 400);
    let snapshot = vec![vec![Some(grass(Content::Nothing)); 2]; 2];
    assert_eq!(visualizer.observe(&Some(snapshot)), Err(VisualizerError::OutOfBounds));
    assert_eq!(visualizer.tiles_map_component().entry(0, 0).unwrap().tint, Tint::Hidden);
}

#[test]
fn observe_reports_a_content_that_the_layer_does_not_keep() {
    let mut visualizer = Visualizer::new(map3(), (1, 1), 400);
    let mut snapshot = known(&map3());
    snapshot[0][0] = Some(grass(Content::Bush));
    assert_eq!(visualizer.observe(&Some(snapshot)), Err(VisualizerError::MissingElement));
    // The tile layer has taken the snapshot in all the same.
    assert_eq!(visualizer.tiles_map_component().entry(0, 0).unwrap().tint, Tint::Revealed);
    assert_eq!(visualizer.contents_map_component().entry(0, 0).unwrap().tint, Tint::Hidden);
    assert_eq!(visualizer.contents_map_component().entry(2, 1).unwrap().tint, Tint::Revealed);
}

#[test]
fn a_move_puts_the_player_there_and_centers_the_view() {
    let mut visualizer = Visualizer::new(map3(), (1, 1), 400);
    let moved = Event::Moved(grass(Content::Nothing), (2, 0));
    assert_eq!(visualizer.apply_event(moved, WINDOW), Ok(()));
    assert_eq!(visualizer.player_component().position(), (2, 0));
    assert_eq!(visualizer.get_camera().project(2, 0), window_center(WINDOW));
    // Cell (2, 0): anchor (32, 38) quarter pixels, at scale four.
    assert_eq!(visualizer.origin(), Point { x: 12_800 - 320_000, y: 15_200 - 240_000 });
}

#[test]
fn a_move_beside_the_grid_is_followed() {
    let mut visualizer = Visualizer::new(map3(), (1, 1), 400);
    let moved = Event::Moved(grass(Content::Nothing), (3, 0));
    assert_eq!(visualizer.apply_event(moved, WINDOW), Ok(()));
    assert_eq!(visualizer.player_component().position(), (3, 0));
    assert_eq!(visualizer.get_camera().project(3, 0), window_center(WINDOW));
    // Cell (3, 0) of a 3x3 grid: corner (-32, 45), anchor (0, 53) quarter pixels.
    assert_eq!(visualizer.origin(), Point { x: -320_000, y: 21_200 - 240_000 });
    let far = Event::Moved(grass(Content::Nothing), (5, 7));
    assert_eq!(visualizer.apply_event(far, WINDOW), Ok(()));
    assert_eq!(visualizer.player_component().position(), (5, 7));
    assert_eq!(visualizer.get_camera().project(5, 7), window_center(WINDOW));
}

#[test]
fn a_move_to_the_farthest_cell_is_followed() {
    let mut visualizer = Visualizer::new(map3(), (1, 1), 400);
    let edge = Event::Moved(grass(Content::Nothing), (MAX_MAP_SIZE, MAX_MAP_SIZE));
    assert!(can_take(&edge));
    assert_eq!(visualizer.apply_event(edge, WINDOW), Ok(()));
    assert_eq!(visualizer.player_component().position(), (MAX_MAP_SIZE, MAX_MAP_SIZE));
    assert_eq!(visualizer.get_camera().project(MAX_MAP_SIZE, MAX_MAP_SIZE), window_center(WINDOW));
}

#[test]
fn only_moves_beyond_reach_cannot_be_taken() {
    assert!(can_take(&Event::Other));
    assert!(can_take(&Event::Moved(grass(Content::Nothing), (0, 0))));
    assert!(can_take(&Event::Moved(grass(Content::Nothing), (MAX_MAP_SIZE, 0))));
    assert!(!can_take(&Event::Moved(grass(Content::Nothing), (MAX_MAP_SIZE + 1, 0))));
    assert!(!can_take(&Event::Moved(grass(Content::Nothing), (0, MAX_MAP_SIZE + 1))));
    assert!(can_take(&Event::TileContentUpdated(grass(Content::Rock), (MAX_MAP_SIZE + 1, 0))));
    let mut queue = VecDeque::new();
    assert!(can_take_all(&queue));
    queue.push_back(Event::Other);
    queue.push_back(Event::Moved(grass(Content::Nothing), (7, 7)));
    assert!(can_take_all(&queue));
    queue.push_back(Event::Moved(grass(Content::Nothing), (usize::MAX, 0)));
    assert!(!can_take_all(&queue));
    queue.push_back(Event::Other);
    assert!(!can_take_all(&queue));
}

#[test]
fn a_change_of_content_outside_the_grid_is_refused() {
    let mut visualizer = Visualizer::new(map3(), (1, 1), 400);
    let changed = Event::TileContentUpdated(grass(Content::Rock), (3, 0));
    assert_eq!(visualizer.apply_event(changed, WINDOW), Err(VisualizerError::OutOfBounds));
    assert_eq!(visualizer.contents_map_component().instance(Texture::Tree).len(), 1);
    assert_eq!(visualizer.contents_map_component().instance(Texture::Rock).len(), 1);
}

#[test]
fn a_change_of_content_reaches_the_content_layer() {
    let mut visualizer = Visualizer::new(map3(), (1, 1), 400);
    let changed = Event::TileContentUpdated(grass(Content::Rock), (0, 0));
    assert_eq!(visualizer.apply_event(changed, WINDOW), Ok(()));
    let contents = visualizer.contents_map_component();
    assert_eq!(contents.instance(Texture::Tree).len(), 0);
    assert_eq!(contents.instance(Texture::Rock).len(), 2);
    assert_eq!(contents.instance(Texture::Tree).find((0, 0)), None);
    assert_eq!(contents.instance(Texture::Rock).find((0, 0)), Some(1));
    assert_eq!(visualizer.origin(), Point { x: 0, y: 0 });
    assert_eq!(visualizer.player_component().position(), (1, 1));
}

#[test]
fn other_events_change_nothing() {
    let mut visualizer = Visualizer::new(map3(), (1, 1), 400);
    assert_eq!(visualizer.apply_event(Event::Other, WINDOW), Ok(()));
    assert_eq!(visualizer.player_component().position(), (1, 1));
    assert_eq!(visualizer.origin(), Point { x: 0, y: 0 });
}

#[test]
fn handle_event_takes_the_map_and_one_event() {
    let mut visualizer = Visualizer::new(map3(), (1, 1), 400);
    let mut queue = VecDeque::new();
    queue.push_back(Event::Other);
    queue.push_back(Event::Moved(grass(Content::Nothing), (0, 2)));
    queue.push_back(Event::TileContentUpdated(grass(Content::Rock), (0, 0)));
    let world = Some(known(&map3()));
    assert_eq!(visualizer.handle_event(&world, &mut queue, WINDOW), Ok(()));
    assert_eq!(queue.iter().map(tag).collect::<Vec<_>>(), vec![2]);
    assert_eq!(visualizer.player_component().position(), (0, 2));
    assert_eq!(visualizer.get_camera().project(0, 2), window_center(WINDOW));
    assert_eq!(visualizer.tiles_map_component().entry(2, 2).unwrap().tint, Tint::Revealed);
    assert_eq!(visualizer.contents_map_component().instance(Texture::Tree).len(), 1);
    assert_eq!(visualizer.handle_event(&world, &mut queue, WINDOW), Ok(()));
    assert!(queue.is_empty());
    assert_eq!(visualizer.contents_map_component().instance(Texture::Tree).len(), 0);
    assert_eq!(visualizer.contents_map_component().instance(Texture::Rock).len(), 2);
    // The snapshot still shows the tree that the layer no longer keeps.
    assert_eq!(visualizer.handle_event(&world, &mut queue, WINDOW), Err(VisualizerError::MissingElement));
    assert_eq!(visualizer.contents_map_component().instance(Texture::Rock).len(), 2);
}

#[test]
fn handle_event_goes_on_after_an_error() {
    let mut visualizer = Visualizer::new(map3(), (1, 1), 400);
    let mut queue = VecDeque::new();
    queue.push_back(Event::Moved(grass(Content::Nothing), (2, 2)));
    let wrong = Some(vec![vec![None; 2]; 2]);
    assert_eq!(visualizer.handle_event(&wrong, &mut queue, WINDOW), Err(VisualizerError::OutOfBounds));
    assert!(queue.is_empty());
    assert_eq!(visualizer.player_component().position(), (2, 2));
}

#[test]
fn handle_event_with_nothing_pending_only_takes_the_map() {
    let mut visualizer = Visualizer::new(map3(), (1, 1), 400);
    let mut queue = VecDeque::new();
    assert_eq!(visualizer.handle_event(&None, &mut queue, WINDOW), Ok(()));
    assert_eq!(visualizer.player_component().position(), (1, 1));
    assert_eq!(visualizer.origin(), Point { x: 0, y: 0 });
}

#[test]
fn camera_controls_reach_the_camera() {
    let mut visualizer = Visualizer::new(map3(), (1, 1), 400);
    visualizer.add_offset(Point { x: 5, y: 0 });
    assert_eq!(visualizer.origin(), Point { x: 5, y: 0 });
    visualizer.add_offset(Point { x: -5, y: 0 });
    assert_eq!(visualizer.origin(), Point { x: 0, y: 0 });
    visualizer.add_offset(Point { x: 0, y: 9 });
    assert_eq!(visualizer.origin(), Point { x: 0, y: -9 });
    // The cell is given as (col, row).
    visualizer.set_center(WINDOW, (0, 2));
    assert_eq!(visualizer.get_camera().project(2, 0), window_center(WINDOW));
    visualizer.add_scale(WINDOW, -150);
    assert_eq!(visualizer.scale(), 250);
    assert_eq!(visualizer.get_camera().project(2, 0), window_center(WINDOW));
    visualizer.add_scale(WINDOW, 151);
    assert_eq!(visualizer.scale(), 250);
}

#[test]
fn draw_says_what_to_paint() {
    let mut visualizer = Visualizer::new(map3(), (1, 1), 400);
    visualizer.set_center(WINDOW, (1, 1));
    let frame = visualizer.draw(WINDOW);
    assert_eq!(frame.origin, visualizer.origin());
    assert_eq!(frame.window_size, Point { x: 640_000, y: 480_000 });
    assert_eq!(frame.scale, 400);
    let half = Texture::GrassHalf.index();
    assert_eq!(frame.tiles, vec![(0, half), (1, half), (2, half), (3, half), (4, half)]);
    assert_eq!(frame.contents, vec![Texture::Tree, Texture::Rock]);
    assert_eq!(frame.player, Point { x: 25_600, y: 8_800 });
}

#[test]
fn handle_event_follows_a_move_beside_the_grid() {
    let mut visualizer = Visualizer::new(map3(), (1, 1), 400);
    let mut queue = VecDeque::new();
    queue.push_back(Event::Other);
    queue.push_back(Event::Moved(grass(Content::Nothing), (0, 4)));
    assert_eq!(visualizer.handle_event(&None, &mut queue, WINDOW), Ok(()));
    assert!(queue.is_empty());
    assert_eq!(visualizer.player_component().position(), (0, 4));
    assert_eq!(visualizer.get_camera().project(0, 4), window_center(WINDOW));
    let mut centered = Visualizer::new(map3(), (1, 1), 400);
    centered.set_center(WINDOW, (4, 0));
    assert_eq!(visualizer.origin(), centered.origin());
    assert_eq!(visualizer.contents_map_component().instance(Texture::Tree).elements(), &vec![(0, 0)]);
}
