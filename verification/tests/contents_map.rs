use ui_guido::contents_map::{
    content_position, ContentsMapComponent, ContentsMapComponentParam, ContentsMapComponentUpdateParam,
    ContentsMapComponentUpdateType,
};
use ui_guido::coordinated::{DrawEntry, Tint, VisualizerError};
use ui_guido::geometry::Point;
use ui_guido::textures::Texture;
use ui_guido::tile::{Content, Tile, TileType};

fn grass(content: Content) -> Tile {
    Tile { tile_type: TileType::Grass, content, elevation: 0 }
}

fn hill(content: Content) -> Tile {
    Tile { tile_type: TileType::Hill, content, elevation: 5 }
}

fn bare(n: usize) -> Vec<Vec<Tile>> {
    vec![vec![grass(Content::Nothing); n]; n]
}

fn unknown(n: usize) -> Vec<Vec<Option<Tile>>> {
    vec![vec![None; n]; n]
}

fn known(map: &Vec<Vec<Tile>>) -> Vec<Vec<Option<Tile>>> {
    map.iter().map(|row| row.iter().map(|t| Some(*t)).collect()).collect()
}

fn total(layer: &ContentsMapComponent) -> usize {
    layer.instances().iter().map(|b| b.len()).sum()
}

#[test]
fn contents_sit_above_the_tile() {
    // Two pixels up on low ground, six on high ground, in quarter pixels.
    assert_eq!(content_position(3, 1, 1, 0), Point { x: 64, y: 22 });
    assert_eq!(content_position(3, 1, 1, 2), Point { x: 64, y: 22 });
    assert_eq!(content_position(3, 1, 1, 3), Point { x: 64, y: 6 });
    assert_eq!(content_position(3, 0, 0, 0), Point { x: 64, y: -8 });
}

#[test]
fn only_drawn_contents_get_an_entry() {
    let mut map = bare(3);
    map[0][0] = grass(Content::Tree);
    map[1][2] = hill(Content::Rock);
    map[2][2] = grass(Content::Water);
    let layer = ContentsMapComponent::from_map(map);
    assert_eq!(total(&layer), 2);
    assert_eq!(layer.entry(0, 0), Some(DrawEntry { dest: Point { x: 64, y: -8 }, tint: Tint::Hidden }));
    assert_eq!(layer.entry(1, 2), Some(DrawEntry { dest: Point { x: 96, y: 21 }, tint: Tint::Hidden }));
    assert_eq!(layer.entry(2, 2), None);
    assert_eq!(layer.entry(1, 1), None);
    assert_eq!(layer.instance(Texture::Tree).elements(), &vec![(0, 0)]);
    assert_eq!(layer.instance(Texture::Rock).elements(), &vec![(2, 1)]);
}

#[test]
fn reveal_clears_the_tint_and_keeps_the_position() {
    let mut map = bare(3);
    map[0][0] = grass(Content::Tree);
    map[1][2] = hill(Content::Rock);
    let mut snapshot = unknown(3);
    snapshot[1][2] = Some(map[1][2]);
    let mut layer = ContentsMapComponent::from_map(map);
    assert_eq!(layer.reveal_known(&snapshot), Ok(()));
    assert_eq!(layer.entry(1, 2), Some(DrawEntry { dest: Point { x: 96, y: 21 }, tint: Tint::Revealed }));
    assert_eq!(layer.entry(0, 0), Some(DrawEntry { dest: Point { x: 64, y: -8 }, tint: Tint::Hidden }));
}

#[test]
fn revealing_twice_is_revealing_once() {
    let mut map = bare(4);
    map[0][0] = grass(Content::Tree);
    map[1][2] = hill(Content::Rock);
    map[3][3] = grass(Content::Coin);
    let mut snapshot = known(&map);
    snapshot[3][3] = None;
    let mut once = ContentsMapComponent::from_map(map.clone());
    assert_eq!(once.reveal_known(&snapshot), Ok(()));
    let mut twice = ContentsMapComponent::from_map(map);
    assert_eq!(twice.reveal_known(&snapshot), Ok(()));
    assert_eq!(twice.reveal_known(&snapshot), Ok(()));
    for row in 0..4 {
        for col in 0..4 {
            assert_eq!(once.entry(row, col), twice.entry(row, col));
        }
    }
    assert_eq!(twice.entry(0, 0).unwrap().tint, Tint::Revealed);
    assert_eq!(twice.entry(3, 3).unwrap().tint, Tint::Hidden);
}

#[test]
fn revealed_contents_never_hide_again() {
    let mut map = bare(2);
    map[1][0] = grass(Content::Bush);
    let snapshot = known(&map);
    let mut layer = ContentsMapComponent::from_map(map);
    assert_eq!(layer.reveal_known(&snapshot), Ok(()));
    assert_eq!(layer.reveal_known(&unknown(2)), Ok(()));
    assert_eq!(layer.entry(1, 0).unwrap().tint, Tint::Revealed);
}

#[test]
fn reveal_passes_over_a_content_that_the_layer_does_not_keep() {
    let mut map = bare(2);
    map[0][0] = grass(Content::Tree);
    map[1][1] = grass(Content::Bush);
    let mut snapshot = known(&map);
    snapshot[0][0] = Some(grass(Content::Rock));
    let mut layer = ContentsMapComponent::from_map(map);
    assert_eq!(layer.reveal_known(&snapshot), Err(VisualizerError::MissingElement));
    // The cell that was passed over stays dark, the others are revealed.
    assert_eq!(layer.entry(0, 0).unwrap().tint, Tint::Hidden);
    assert_eq!(layer.entry(1, 1).unwrap().tint, Tint::Revealed);
    assert_eq!(layer.instance(Texture::Tree).elements(), &vec![(0, 0)]);
}

#[test]
fn reveal_of_a_cell_shown_without_content_leaves_its_entry_dark() {
    let mut map = bare(2);
    map[0][1] = grass(Content::Fire);
    let mut snapshot = unknown(2);
    snapshot[0][1] = Some(grass(Content::Nothing));
    let mut layer = ContentsMapComponent::from_map(map);
    assert_eq!(layer.reveal_known(&snapshot), Ok(()));
    assert_eq!(layer.entry(0, 1).unwrap().tint, Tint::Hidden);
}

#[test]
fn reveal_with_a_snapshot_of_another_size_is_refused() {
    let mut map = bare(2);
    map[0][0] = grass(Content::Tree);
    let mut layer = ContentsMapComponent::from_map(map);
    let mut snapshot = unknown(3);
    snapshot[0][0] = Some(grass(Content::Tree));
    assert_eq!(layer.reveal_known(&snapshot), Err(VisualizerError::OutOfBounds));
    assert_eq!(layer.entry(0, 0).unwrap().tint, Tint::Hidden);
}

#[test]
fn tree_becomes_rock() {
    let mut map = bare(3);
    map[0][0] = grass(Content::Tree);
    map[2][1] = grass(Content::Tree);
    map[1][1] = grass(Content::Rock);
    let mut layer = ContentsMapComponent::from_map(map);
    let trees = layer.instance(Texture::Tree).len();
    let rocks = layer.instance(Texture::Rock).len();
    assert_eq!((trees, rocks), (2, 1));
    assert_eq!(layer.update_content(&grass(Content::Rock), (0, 0)), Ok(()));
    assert_eq!(layer.instance(Texture::Tree).len(), trees - 1);
    assert_eq!(layer.instance(Texture::Rock).len(), rocks + 1);
    assert_eq!(layer.instance(Texture::Tree).find((0, 0)), None);
    assert_eq!(layer.instance(Texture::Rock).find((0, 0)), Some(1));
    assert_eq!(layer.tile(0, 0).content, Content::Rock);
    assert_eq!(layer.entry(0, 0), Some(DrawEntry { dest: Point { x: 64, y: -8 }, tint: Tint::Hidden }));
    assert_eq!(total(&layer), 3);
}

#[test]
fn moved_content_keeps_its_tint() {
    let mut map = bare(2);
    map[1][0] = grass(Content::Tree);
    let snapshot = known(&map);
    let mut layer = ContentsMapComponent::from_map(map);
    assert_eq!(layer.reveal_known(&snapshot), Ok(()));
    let shown = layer.entry(1, 0);
    assert_eq!(layer.update_content(&grass(Content::Garbage), (1, 0)), Ok(()));
    assert_eq!(layer.entry(1, 0), shown);
    assert_eq!(layer.instance(Texture::Garbage).get((0, 1)), shown);
}

#[test]
fn same_content_again_changes_nothing() {
    let mut map = bare(2);
    map[1][0] = grass(Content::Tree);
    map[0][0] = grass(Content::Tree);
    let mut layer = ContentsMapComponent::from_map(map);
    assert_eq!(layer.update_content(&grass(Content::Tree), (0, 0)), Ok(()));
    assert_eq!(layer.instance(Texture::Tree).elements(), &vec![(0, 0), (0, 1)]);
    assert_eq!(total(&layer), 2);
}

#[test]
fn content_that_goes_away_loses_its_entry() {
    let mut map = bare(2);
    map[0][0] = grass(Content::Tree);
    map[0][1] = grass(Content::Tree);
    let mut layer = ContentsMapComponent::from_map(map);
    assert_eq!(layer.update_content(&grass(Content::Nothing), (0, 0)), Ok(()));
    assert_eq!(layer.entry(0, 0), None);
    assert_eq!(layer.tile(0, 0).content, Content::Nothing);
    assert_eq!(layer.instance(Texture::Tree).elements(), &vec![(1, 0)]);
    assert_eq!(total(&layer), 1);
}

#[test]
fn cell_without_entry_stays_as_it_is() {
    let mut layer = ContentsMapComponent::from_map(bare(2));
    assert_eq!(layer.update_content(&grass(Content::Rock), (1, 1)), Ok(()));
    assert_eq!(layer.entry(1, 1), None);
    assert_eq!(layer.tile(1, 1).content, Content::Nothing);
    assert_eq!(total(&layer), 0);
}

#[test]
fn change_outside_the_grid_is_refused() {
    let mut map = bare(2);
    map[0][0] = grass(Content::Tree);
    let mut layer = ContentsMapComponent::from_map(map);
    assert_eq!(layer.update_content(&grass(Content::Rock), (2, 0)), Err(VisualizerError::OutOfBounds));
    assert_eq!(layer.update_content(&grass(Content::Rock), (0, 2)), Err(VisualizerError::OutOfBounds));
    assert_eq!(layer.instance(Texture::Tree).elements(), &vec![(0, 0)]);
}

#[test]
fn update_takes_both_kinds() {
    let mut map = bare(2);
    map[0][1] = grass(Content::Coin);
    let snapshot = known(&map);
    let mut layer = ContentsMapComponent::from_map(map);
    let reveal = ContentsMapComponentUpdateParam::new(ContentsMapComponentUpdateType::WorldVisibility(snapshot));
    assert_eq!(layer.update(reveal), Ok(()));
    assert_eq!(layer.entry(0, 1).unwrap().tint, Tint::Revealed);
    let change = ContentsMapComponentUpdateParam::new(ContentsMapComponentUpdateType::ContentChange(
        grass(Content::Bank),
        (0, 1),
    ));
    assert_eq!(layer.update(change), Ok(()));
    assert_eq!(layer.instance(Texture::Bank).elements(), &vec![(1, 0)]);
    assert!(layer.instance(Texture::Coin).is_empty());
}

#[test]
fn draw_lists_the_sprites_that_have_entries() {
    let mut map = bare(3);
    map[0][0] = grass(Content::Rock);
    map[1][1] = grass(Content::Fish);
    map[2][2] = grass(Content::Rock);
    let mut layer = ContentsMapComponent::from_map(map);
    let param = ContentsMapComponentParam::new(100);
    assert_eq!(layer.draw(param), vec![Texture::Fish, Texture::Rock]);
    assert_eq!(layer.update_content(&grass(Content::Nothing), (1, 1)), Ok(()));
    assert_eq!(layer.draw(param), vec![Texture::Rock]);
}

#[test]
fn reveal_keeps_every_slot() {
    let mut map = bare(3);
    map[0][0] = grass(Content::Tree);
    map[1][1] = grass(Content::Tree);
    map[2][2] = grass(Content::Tree);
    let mut snapshot = unknown(3);
    snapshot[0][0] = Some(map[0][0]);
    snapshot[1][1] = Some(map[1][1]);
    let mut layer = ContentsMapComponent::from_map(map);
    assert_eq!(layer.instance(Texture::Tree).elements(), &vec![(0, 0), (1, 1), (2, 2)]);
    assert_eq!(layer.reveal_known(&snapshot), Ok(()));
    assert_eq!(layer.instance(Texture::Tree).elements(), &vec![(0, 0), (1, 1), (2, 2)]);
    let tints: Vec<Tint> = layer.instance(Texture::Tree).instances().iter().map(|e| e.tint).collect();
    assert_eq!(tints, vec![Tint::Revealed, Tint::Revealed, Tint::Hidden]);
}

#[test]
fn same_content_again_keeps_every_slot() {
    let mut map = bare(3);
    map[0][0] = grass(Content::Tree);
    map[1][1] = grass(Content::Tree);
    map[2][2] = grass(Content::Tree);
    let mut layer = ContentsMapComponent::from_map(map);
    let entries = layer.instance(Texture::Tree).instances().clone();
    assert_eq!(layer.update_content(&grass(Content::Tree), (0, 0)), Ok(()));
    assert_eq!(layer.instance(Texture::Tree).elements(), &vec![(0, 0), (1, 1), (2, 2)]);
    assert_eq!(layer.instance(Texture::Tree).instances(), &entries);
}

#[test]
fn a_move_swaps_the_last_slot_in_and_appends() {
    let mut map = bare(3);
    map[0][0] = grass(Content::Tree);
    map[1][1] = grass(Content::Tree);
    map[2][2] = grass(Content::Tree);
    map[0][1] = grass(Content::Rock);
    let mut layer = ContentsMapComponent::from_map(map);
    let moved = layer.entry(0, 0).unwrap();
    assert_eq!(layer.update_content(&grass(Content::Rock), (0, 0)), Ok(()));
    assert_eq!(layer.instance(Texture::Tree).elements(), &vec![(2, 2), (1, 1)]);
    assert_eq!(layer.instance(Texture::Rock).elements(), &vec![(1, 0), (0, 0)]);
    assert_eq!(layer.instance(Texture::Rock).instances()[1], moved);
}
