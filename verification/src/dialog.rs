//! The dialog box: a frame with one line of text, laid out from the corner
//! that the caller gives.

use vstd::prelude::*;
use crate::camera::in_reach;
use crate::coordinated::VisualizerError;
use crate::geometry::{Point, SCREEN_UNITS};

verus! {

/// From the dialog's corner to the corner of its frame, on both axes: ten
/// pixels.
pub const FRAME_MARGIN: i64 = 10;

/// From the dialog's corner to the corner of its text, across: thirty
/// pixels.
pub const TEXT_MARGIN_X: i64 = 30;

/// From the dialog's corner to the corner of its text, down: twenty pixels.
pub const TEXT_MARGIN_Y: i64 = 20;

/// The dialog box.
#[derive(Debug)]
pub struct DialogComponent {
    text: String,
}

/// What the dialog needs to draw: its corner, in screen units.
#[derive(Clone, Copy, Debug)]
pub struct DialogComponentParam {
    pub origin: Point,
}

/// What the dialog takes in on an update: the text to show.
#[derive(Debug)]
pub struct DialogComponentUpdateParam {
    pub text: String,
}

/// Where the parts of the dialog are drawn, in screen units.
#[derive(Clone, Copy, Debug)]
pub struct DialogLayout {
    pub frame: Point,
    pub text: Point,
}

impl DialogComponentParam {
    /// The parameters of one draw pass.
    pub fn new(origin: Point) -> (param: DialogComponentParam)
        ensures
            param.origin == origin,
    {
        DialogComponentParam { origin }
    }
}

impl DialogComponentUpdateParam {
    /// The parameters of one update.
    pub fn new(text: String) -> (param: DialogComponentUpdateParam)
        ensures
            param.text == text,
    {
        DialogComponentUpdateParam { text }
    }
}

impl DialogComponent {
    /// The text that the dialog shows.
    pub closed spec fn spec_text(&self) -> Seq<char> {
        self.text@
    }

    /// A dialog that shows `text`.
    pub fn new(text: String) -> (dialog: DialogComponent)
        ensures
            dialog.spec_text() == text@,
    {
        DialogComponent { text }
    }

    /// The text that the dialog shows.
    pub fn text(&self) -> (text: &str)
        ensures
            text@ == self.spec_text(),
    {
        self.text.as_str()
    }

    /// Where the frame and the text are drawn: the frame ten pixels in from
    /// the dialog's corner on both axes, the text thirty pixels across and
    /// twenty down.
    pub fn draw(&self, component_param: DialogComponentParam) -> (layout: DialogLayout)
        requires
            in_reach(component_param.origin.x as int),
            in_reach(component_param.origin.y as int),
        ensures
            layout.frame.x == component_param.origin.x + FRAME_MARGIN * SCREEN_UNITS,
            layout.frame.y == component_param.origin.y + FRAME_MARGIN * SCREEN_UNITS,
            layout.text.x == component_param.origin.x + TEXT_MARGIN_X * SCREEN_UNITS,
            layout.text.y == component_param.origin.y + TEXT_MARGIN_Y * SCREEN_UNITS,
    {
        let origin = component_param.origin;
        DialogLayout {
            frame: Point {
                x: origin.x + FRAME_MARGIN * SCREEN_UNITS,
                y: origin.y + FRAME_MARGIN * SCREEN_UNITS,
            },
            text: Point {
                x: origin.x + TEXT_MARGIN_X * SCREEN_UNITS,
                y: origin.y + TEXT_MARGIN_Y * SCREEN_UNITS,
            },
        }
    }

    /// Replaces the text that the dialog shows.
    pub fn update(&mut self, update_param: DialogComponentUpdateParam) -> (result: Result<
        (),
        VisualizerError,
    >)
        ensures
            result is Ok,
            final(self).spec_text() == update_param.text@,
    {
        self.text = update_param.text;
        Ok(())
    }
}

} // verus!
