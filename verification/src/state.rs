//! A named layout of UI elements together with its resting selection.

use vstd::prelude::*;

use crate::navigation::Position;
use crate::ui_bounding_box::UiBoundingBox;

verus! {

/// One screen's worth of navigable elements: an identifier, the element
/// bounds, and the position the cursor rests on within this layout.
#[derive(Debug)]
pub struct State {
    pub id: u8,
    pub elements: Vec<UiBoundingBox>,
    pub selected: Position,
}

impl Default for State {
    /// The empty layout: no elements, cursor at the origin.
    fn default() -> (r: Self)
        ensures
            r.id == 0,
            r.elements@.len() == 0,
            r.selected == (Position { x: 0, y: 0 }),
    {
        State { id: 0, elements: Vec::new(), selected: Position { x: 0, y: 0 } }
    }
}

} // verus!
