//! Click and toggle detection of simple buttons.
//!
//! The buttons keep only the state that the detection needs; whether the
//! pointer is over the button is decided by the caller from the button's
//! rectangle and handed in as `inside`.

use vstd::prelude::*;

verus! {

/// Push button.
///
/// A click is detected when the mouse is released over the button after it
/// was pressed over it.
#[derive(PartialEq, Eq, Structural, Copy, Clone, Debug, Default)]
pub struct PushButton {
    pub is_hover: bool,
    pub is_down: bool,
}

impl PushButton {
    pub fn new() -> (b: Self)
        ensures
            b == (PushButton { is_hover: false, is_down: false }),
    {
        Self { is_hover: false, is_down: false }
    }

    /// Records whether the pointer is over the button and returns it.
    pub fn on_mouse_move(&mut self, inside: bool) -> (r: bool)
        ensures
            r == inside,
            *final(self) == (PushButton { is_hover: inside, ..*old(self) }),
    {
        self.is_hover = inside;
        self.is_hover
    }

    /// Return `true` if click is detected.
    pub fn on_mouse_button(&mut self, down: bool) -> (is_click: bool)
        ensures
            is_click == (!down && old(self).is_hover && old(self).is_down),
            *final(self) == (PushButton { is_down: down && old(self).is_hover, ..*old(self) }),
    {
        let is_click = !down && self.is_hover && self.is_down;
        self.is_down = down && self.is_hover;
        is_click
    }
}

/// Toggle button.
///
/// It detects a toggle when the mouse is released over the button after it
/// was pressed over it, and flips its toggle state then.
#[derive(PartialEq, Eq, Structural, Copy, Clone, Debug, Default)]
pub struct ToggleButton {
    pub is_hover: bool,
    pub is_down: bool,
    pub is_toggle: bool,
}

/// The state of a toggle button after a press (`down`) or release.
pub open spec fn toggle_after_button(b: ToggleButton, down: bool) -> ToggleButton {
    let is_click = !down && b.is_hover && b.is_down;
    ToggleButton {
        is_hover: b.is_hover,
        is_down: down && b.is_hover,
        is_toggle: if is_click {
            !b.is_toggle
        } else {
            b.is_toggle
        },
    }
}

impl ToggleButton {
    pub fn new() -> (b: Self)
        ensures
            b == (ToggleButton { is_hover: false, is_down: false, is_toggle: false }),
    {
        Self { is_hover: false, is_toggle: false, is_down: false }
    }

    /// Records whether the pointer is over the button and returns it.
    pub fn on_mouse_move(&mut self, inside: bool) -> (r: bool)
        ensures
            r == inside,
            *final(self) == (ToggleButton { is_hover: inside, ..*old(self) }),
    {
        self.is_hover = inside;
        self.is_hover
    }

    /// Return `true` if toggled (not a toggle state!).
    pub fn on_mouse_button(&mut self, down: bool) -> (is_click: bool)
        ensures
            is_click == (!down && old(self).is_hover && old(self).is_down),
            *final(self) == toggle_after_button(*old(self), down),
    {
        let is_click = !down && self.is_hover && self.is_down;
        self.is_down = down && self.is_hover;
        if is_click {
            self.is_toggle = !self.is_toggle;
        }
        is_click
    }
}

/// While the pointer stays over a toggle button, a press followed by a
/// release flips the toggle state, and two such clicks restore it; without
/// the pointer over the button, presses and releases change nothing of the
/// toggle state.
pub proof fn law_toggle_click(b: ToggleButton)
    ensures
        b.is_hover ==> toggle_after_button(toggle_after_button(b, true), false).is_toggle
            == !b.is_toggle,
        b.is_hover ==> ({
            let once = toggle_after_button(toggle_after_button(b, true), false);
            toggle_after_button(toggle_after_button(once, true), false).is_toggle == b.is_toggle
        }),
        !b.is_hover ==> toggle_after_button(b, true).is_toggle == b.is_toggle
            && toggle_after_button(b, false).is_toggle == b.is_toggle,
{
}

} // verus!
