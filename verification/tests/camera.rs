use ui_guido::camera::{window_center, Camera, MAX_SCALE, MIN_SCALE, ORIGIN_LIMIT};
use ui_guido::geometry::Point;

const WINDOW: (u32, u32) = (1600, 1200);

fn camera(n: usize, scale: i64) -> Camera {
    Camera::new(n, scale, MIN_SCALE, MAX_SCALE)
}

#[test]
fn window_center_in_screen_units() {
    assert_eq!(window_center(WINDOW), Point { x: 320_000, y: 240_000 });
    assert_eq!(window_center((0, 0)), Point { x: 0, y: 0 });
    assert_eq!(window_center((1, 3)), Point { x: 200, y: 600 });
}

#[test]
fn new_camera_starts_at_the_origin() {
    let cam = camera(3, 400);
    assert_eq!(cam.origin(), Point { x: 0, y: 0 });
    assert_eq!(cam.scale(), 400);
    assert_eq!(cam.map_size(), 3);
    assert_eq!(cam.scale_band(), (50, 400));
}

#[test]
fn initial_scale_is_brought_into_the_band() {
    assert_eq!(camera(3, 1000).scale(), 400);
    assert_eq!(camera(3, 0).scale(), 50);
    assert_eq!(camera(3, -7).scale(), 50);
    assert_eq!(camera(3, 123).scale(), 123);
}

#[test]
fn project_scales_and_shifts_the_anchor() {
    let mut cam = camera(3, 100);
    // Cell (1, 1) of a 3x3 grid: corner (64, 30), anchor (96, 38) in quarter pixels.
    assert_eq!(cam.project(1, 1), Point { x: 9_600, y: 3_800 });
    cam.pan(Point { x: 600, y: 800 });
    assert_eq!(cam.project(1, 1), Point { x: 9_000, y: 4_600 });
    let wide = camera(3, 400);
    assert_eq!(wide.project(1, 1), Point { x: 38_400, y: 15_200 });
    assert_eq!(wide.project(0, 0), Point { x: 38_400, y: 3_200 });
}

#[test]
fn pan_adds_across_and_subtracts_down() {
    let mut cam = camera(3, 100);
    cam.pan(Point { x: 5, y: 7 });
    assert_eq!(cam.origin(), Point { x: 5, y: -7 });
    cam.pan(Point { x: -15, y: -3 });
    assert_eq!(cam.origin(), Point { x: -10, y: -4 });
    assert_eq!(cam.scale(), 100);
}

#[test]
fn pan_there_and_back() {
    let mut cam = camera(3, 250);
    cam.pan(Point { x: 123, y: -456 });
    let start = cam.origin();
    cam.pan(Point { x: 5, y: 0 });
    assert_eq!(cam.origin(), Point { x: start.x + 5, y: start.y });
    cam.pan(Point { x: -5, y: 0 });
    assert_eq!(cam.origin(), start);
}

#[test]
fn center_on_puts_the_cell_at_the_center() {
    let mut cam = camera(3, 400);
    cam.center_on(1, 1, WINDOW);
    assert_eq!(cam.origin(), Point { x: -281_600, y: -224_800 });
    assert_eq!(cam.project(1, 1), Point { x: 320_000, y: 240_000 });
    assert_eq!(cam.scale(), 400);
}

#[test]
fn center_on_any_cell_at_any_scale() {
    for scale in [50i64, 51, 99, 100, 237, 400] {
        for n in [1usize, 2, 5, 64] {
            for (row, col) in [(0, 0), (n - 1, 0), (0, n - 1), (n - 1, n - 1), (n / 2, n / 3)] {
                let mut cam = camera(n, scale);
                cam.pan(Point { x: 1_001, y: -77 });
                cam.center_on(row, col, WINDOW);
                assert_eq!(cam.project(row, col), window_center(WINDOW));
                assert_eq!(cam.scale(), scale);
            }
        }
    }
}

#[test]
fn zoom_out_of_the_band_is_not_made() {
    let mut cam = camera(3, 400);
    cam.center_on(1, 1, WINDOW);
    let before = cam.origin();
    cam.zoom(1, WINDOW);
    assert_eq!(cam.scale(), 400);
    assert_eq!(cam.origin(), before);
    cam.zoom(-351, WINDOW);
    assert_eq!(cam.scale(), 400);
    assert_eq!(cam.origin(), before);
    cam.zoom(i64::MAX, WINDOW);
    assert_eq!(cam.scale(), 400);
    cam.zoom(i64::MIN, WINDOW);
    assert_eq!(cam.scale(), 400);
    assert_eq!(cam.origin(), before);
}

#[test]
fn zoom_reaches_both_ends_of_the_band() {
    let mut cam = camera(3, 400);
    cam.zoom(-350, WINDOW);
    assert_eq!(cam.scale(), 50);
    cam.zoom(350, WINDOW);
    assert_eq!(cam.scale(), 400);
}

#[test]
fn zoom_keeps_the_center_fixed() {
    let mut cam = camera(3, 400);
    cam.center_on(1, 1, WINDOW);
    cam.zoom(-100, WINDOW);
    assert_eq!(cam.scale(), 300);
    assert_eq!(cam.origin(), Point { x: -291_200, y: -228_600 });
    assert_eq!(cam.project(1, 1), window_center(WINDOW));
    cam.zoom(-250, WINDOW);
    assert_eq!(cam.scale(), 50);
    assert_eq!(cam.project(1, 1), window_center(WINDOW));
    cam.zoom(150, WINDOW);
    assert_eq!(cam.scale(), 200);
    assert_eq!(cam.project(1, 1), window_center(WINDOW));
}

#[test]
fn zoom_keeps_any_centered_cell_fixed() {
    for n in [1usize, 4, 33] {
        for (row, col) in [(0, 0), (n - 1, 0), (n / 2, n - 1)] {
            for (scale, amount) in [(400i64, -1i64), (400, -399 + 50), (50, 1), (50, 350), (173, 5), (173, -5)] {
                let mut cam = camera(n, scale);
                cam.center_on(row, col, WINDOW);
                cam.zoom(amount, WINDOW);
                assert_eq!(cam.scale(), scale + amount);
                assert_eq!(cam.project(row, col), window_center(WINDOW));
            }
        }
    }
}

#[test]
fn zoom_rounds_the_origin_down() {
    // With an empty window the centre is the origin itself: 7 * 300 / 400 = 5.25.
    let mut cam = camera(3, 400);
    cam.pan(Point { x: 7, y: 7 });
    cam.zoom(-100, (0, 0));
    assert_eq!(cam.origin(), Point { x: 5, y: -6 });
    let mut exact = camera(3, 400);
    exact.pan(Point { x: 8, y: -8 });
    exact.zoom(-100, (0, 0));
    assert_eq!(exact.origin(), Point { x: 6, y: 6 });
}

#[test]
fn zoom_moves_the_center_by_less_than_one_unit() {
    let mut cam = camera(5, 317);
    cam.pan(Point { x: 12_345, y: 6_789 });
    let center = window_center(WINDOW);
    // The world position under the centre, times the old scale.
    let before = (cam.origin().x + center.x, cam.origin().y + center.y);
    cam.zoom(-94, WINDOW);
    let after = (cam.origin().x + center.x, cam.origin().y + center.y);
    for (b, a) in [(before.0, after.0), (before.1, after.1)] {
        let slack = (b as i128) * 223 - (a as i128) * 317;
        assert!(0 <= slack && slack < 317);
    }
}

#[test]
fn can_pan_says_whether_the_origin_stays_in_reach() {
    let mut cam = camera(3, 100);
    assert!(cam.can_pan(Point { x: 5, y: -5 }));
    assert!(cam.can_pan(Point { x: ORIGIN_LIMIT, y: ORIGIN_LIMIT }));
    assert!(!cam.can_pan(Point { x: ORIGIN_LIMIT + 1, y: 0 }));
    assert!(!cam.can_pan(Point { x: 0, y: ORIGIN_LIMIT + 1 }));
    assert!(!cam.can_pan(Point { x: i64::MIN, y: 0 }));
    cam.pan(Point { x: ORIGIN_LIMIT, y: 0 });
    assert!(!cam.can_pan(Point { x: 1, y: 0 }));
    assert!(cam.can_pan(Point { x: -1, y: 0 }));
}

#[test]
fn can_zoom_says_whether_the_origin_stays_in_reach() {
    let mut cam = camera(3, 50);
    assert!(cam.can_zoom(350, WINDOW));
    cam.pan(Point { x: ORIGIN_LIMIT, y: 0 });
    // Eight times the scale takes the origin eight times as far.
    assert!(!cam.can_zoom(350, WINDOW));
    // A change that is not made moves nothing.
    assert!(cam.can_zoom(351, WINDOW));
    assert!(cam.can_zoom(-1, WINDOW));
    assert!(cam.can_zoom(0, WINDOW));
}

#[test]
fn center_on_a_cell_beside_the_grid() {
    for (row, col) in [(3usize, 0usize), (0, 3), (5, 7), (100, 0), (0, 100)] {
        let mut cam = camera(3, 237);
        cam.center_on(row, col, WINDOW);
        assert_eq!(cam.project(row, col), window_center(WINDOW));
    }
    let mut cam = camera(3, 100);
    cam.center_on(5, 0, (0, 0));
    // 8 px * (3 - 5 + 0 - 1) plus half a sprite, 3.75 px * 5 plus two pixels.
    assert_eq!(cam.origin(), Point { x: -6_400, y: 8_300 });
}
