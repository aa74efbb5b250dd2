use ui_guido::coordinated::VisualizerError;
use ui_guido::geometry::Point;
use ui_guido::player::{PlayerComponent, PlayerComponentParam, PlayerComponentUpdateParam};

#[test]
fn params_carry_their_values() {
    assert_eq!(PlayerComponentUpdateParam::new((4, 9)).position, (4, 9));
    assert_eq!(PlayerComponentParam::new(250).scale, 250);
}

#[test]
fn player_starts_where_it_is_put() {
    let player = PlayerComponent::new((2, 1), (3, 3));
    assert_eq!(player.position(), (2, 1));
    assert_eq!(player.map_size(), (3, 3));
}

#[test]
fn player_is_drawn_two_pixels_above_its_cell() {
    let player = PlayerComponent::new((1, 1), (3, 3));
    assert_eq!(player.draw(PlayerComponentParam::new(100)), Point { x: 6_400, y: 2_200 });
    assert_eq!(player.draw(PlayerComponentParam::new(400)), Point { x: 25_600, y: 8_800 });
    let corner = PlayerComponent::new((0, 0), (3, 3));
    assert_eq!(corner.draw(PlayerComponentParam::new(100)), Point { x: 6_400, y: -800 });
    let left = PlayerComponent::new((2, 0), (3, 3));
    assert_eq!(left.draw(PlayerComponentParam::new(100)), Point { x: 0, y: 2_200 });
}

#[test]
fn update_moves_the_player() {
    let mut player = PlayerComponent::new((0, 0), (3, 3));
    assert_eq!(player.update(PlayerComponentUpdateParam::new((2, 1))), Ok(()));
    assert_eq!(player.position(), (2, 1));
    assert_eq!(player.map_size(), (3, 3));
}

#[test]
fn update_takes_a_cell_beside_the_grid() {
    let mut player = PlayerComponent::new((1, 1), (3, 3));
    assert_eq!(player.update(PlayerComponentUpdateParam::new((3, 0))), Ok(()));
    assert_eq!(player.position(), (3, 0));
    assert_eq!(player.update(PlayerComponentUpdateParam::new((5, 7))), Ok(()));
    assert_eq!(player.position(), (5, 7));
    assert_eq!(player.map_size(), (3, 3));
    // Eight pixels times (3 - 5 + 7 - 1), and 3.75 pixels times 12 less two.
    assert_eq!(player.draw(PlayerComponentParam::new(100)), Point { x: 12_800, y: 17_200 });
}

#[test]
fn player_left_of_the_grid_is_drawn_left_of_it() {
    let player = PlayerComponent::new((7, 0), (3, 3));
    assert_eq!(player.draw(PlayerComponentParam::new(100)), Point { x: -16_000, y: 9_700 });
}
