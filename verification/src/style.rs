//! What a rectangular area needs to know to be drawn.

use vstd::prelude::*;

verus! {

/// The state of a rectangular area for drawing: whether the pointer is over
/// it and whether it is pressed.
#[derive(PartialEq, Eq, Structural, Copy, Clone, Debug)]
pub struct RectAreaDraw {
    pub is_hover: bool,
    pub is_down: bool,
}

} // verus!
