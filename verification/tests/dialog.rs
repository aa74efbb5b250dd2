use ui_guido::dialog::{DialogComponent, DialogComponentParam, DialogComponentUpdateParam};
use ui_guido::geometry::Point;

#[test]
fn update_param_carries_the_text() {
    assert_eq!(DialogComponentUpdateParam::new(String::from("hello")).text, "hello");
    assert_eq!(DialogComponentUpdateParam::new(String::new()).text, "");
}

#[test]
fn dialog_shows_its_text() {
    let dialog = DialogComponent::new(String::from("ready"));
    assert_eq!(dialog.text(), "ready");
}

#[test]
fn update_replaces_the_text() {
    let mut dialog = DialogComponent::new(String::from("ready"));
    assert_eq!(dialog.update(DialogComponentUpdateParam::new(String::from("moving"))), Ok(()));
    assert_eq!(dialog.text(), "moving");
}

#[test]
fn frame_and_text_are_laid_out_from_the_corner() {
    let dialog = DialogComponent::new(String::from("ready"));
    let layout = dialog.draw(DialogComponentParam::new(Point { x: 0, y: 0 }));
    assert_eq!(layout.frame, Point { x: 4_000, y: 4_000 });
    assert_eq!(layout.text, Point { x: 12_000, y: 8_000 });
    let moved = dialog.draw(DialogComponentParam::new(Point { x: -500, y: 250 }));
    assert_eq!(moved.frame, Point { x: 3_500, y: 4_250 });
    assert_eq!(moved.text, Point { x: 11_500, y: 8_250 });
}
