use ui_guido::geometry::{tile_position, Point, SCALE_ONE, SCREEN_UNITS, STEP_X, STEP_Y, SUBPIXELS};

#[test]
fn units_fit_together() {
    assert_eq!(SUBPIXELS, 4);
    assert_eq!(SCALE_ONE, 100);
    assert_eq!(SCREEN_UNITS, SUBPIXELS * SCALE_ONE);
    // Half a sprite's width, and three pixels and three quarters, in quarter pixels.
    assert_eq!(STEP_X, 32);
    assert_eq!(STEP_Y, 15);
}

#[test]
fn single_cell_sits_at_the_origin() {
    assert_eq!(tile_position(1, 0, 0), Point { x: 0, y: 0 });
}

#[test]
fn cells_of_a_three_by_three_grid() {
    // x = 8 px * (n - row + col - 1), y = 3.75 px * (row + col), in quarter pixels.
    assert_eq!(tile_position(3, 0, 0), Point { x: 64, y: 0 });
    assert_eq!(tile_position(3, 0, 2), Point { x: 128, y: 30 });
    assert_eq!(tile_position(3, 1, 1), Point { x: 64, y: 30 });
    assert_eq!(tile_position(3, 2, 0), Point { x: 0, y: 30 });
    assert_eq!(tile_position(3, 2, 2), Point { x: 64, y: 60 });
}

#[test]
fn columns_go_right_and_down_rows_left_and_down() {
    let here = tile_position(10, 4, 4);
    let next_col = tile_position(10, 4, 5);
    let next_row = tile_position(10, 5, 4);
    assert_eq!(next_col, Point { x: here.x + 32, y: here.y + 15 });
    assert_eq!(next_row, Point { x: here.x - 32, y: here.y + 15 });
}

#[test]
fn cells_of_one_diagonal_share_their_height() {
    for col in 0..5usize {
        assert_eq!(tile_position(5, 4 - col, col).y, 60);
    }
}

#[test]
fn the_formula_goes_on_beside_the_grid() {
    assert_eq!(tile_position(3, 3, 0), Point { x: -32, y: 45 });
    assert_eq!(tile_position(3, 5, 7), Point { x: 128, y: 180 });
    assert_eq!(tile_position(0, 0, 0), Point { x: -32, y: 0 });
}
