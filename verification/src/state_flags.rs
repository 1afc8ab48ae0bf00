//! Control-flow flags of a widget.

use vstd::prelude::*;

verus! {

/// Call update for current widget.
pub const SELF_UPDATE: u16 = 0x1;

/// Some children need update.
pub const CHILDREN_UPDATE: u16 = 0x2;

/// Call draw for current widget.
pub const SELF_DRAW: u16 = 0x4;

/// Some children need draw.
pub const CHILDREN_DRAW: u16 = 0x8;

/// Request to delete this widget.
pub const SELF_DELETE: u16 = 0x10;

/// Widget has one or more children to delete.
pub const CHILDREN_DELETE: u16 = 0x20;

/// Visible state.
pub const IS_VISIBLE: u16 = 0x40;

/// Set if interaction events are desired like mouse and keyboard ones.
pub const IS_ENABLED: u16 = 0x80;

/// Set if background has transparent pixels.
pub const IS_TRANSPARENT: u16 = 0x100;

/// It is set when mouse is over the widgets rectangle.
pub const IS_OVER: u16 = 0x200;

/// Mouse tracking state.
pub const HAS_MOUSE_TRACKING: u16 = 0x400;

/// This flag is set when this widget has received focus.
pub const HAS_FOCUS: u16 = 0x800;

/// This flag is set when a child in the children hierarchy has received focus.
pub const HAS_CHILD_FOCUS: u16 = 0x1000;

/// The flags of a new widget: draw and update itself and its children,
/// visible and enabled.
pub const INIT_FLAGS: u16 = 0xcf;

/// Whether `f` is one of the single flags above.
pub open spec fn is_flag(f: u16) -> bool {
    f == SELF_UPDATE || f == CHILDREN_UPDATE || f == SELF_DRAW || f == CHILDREN_DRAW || f
        == SELF_DELETE || f == CHILDREN_DELETE || f == IS_VISIBLE || f == IS_ENABLED || f
        == IS_TRANSPARENT || f == IS_OVER || f == HAS_MOUSE_TRACKING || f == HAS_FOCUS || f
        == HAS_CHILD_FOCUS
}

/// Control flow flags for events.
#[derive(PartialEq, Eq, Structural, Copy, Clone, Debug)]
pub struct StateFlags {
    pub bits: u16,
}

impl StateFlags {
    /// Whether the single flag `f` is set.
    pub open spec fn has(self, f: u16) -> bool {
        self.bits & f == f
    }

    /// The flags with `f` set (`value == true`) or cleared.
    pub open spec fn with(self, f: u16, value: bool) -> StateFlags {
        StateFlags {
            bits: if value {
                self.bits | f
            } else {
                self.bits & !f
            },
        }
    }

    /// The flags of a new widget.
    pub fn init() -> (s: StateFlags)
        ensures
            s.bits == INIT_FLAGS,
    {
        StateFlags { bits: INIT_FLAGS }
    }

    pub fn contains(&self, f: u16) -> (b: bool)
        ensures
            b == self.has(f),
    {
        self.bits & f == f
    }

    pub fn set(&mut self, f: u16, value: bool)
        ensures
            *final(self) == old(self).with(f, value),
    {
        if value {
            self.bits = self.bits | f;
        } else {
            self.bits = self.bits & !f;
        }
    }

    pub fn insert(&mut self, f: u16)
        ensures
            *final(self) == old(self).with(f, true),
    {
        self.bits = self.bits | f;
    }

    pub fn remove(&mut self, f: u16)
        ensures
            *final(self) == old(self).with(f, false),
    {
        self.bits = self.bits & !f;
    }
}

/// Setting or clearing one flag sets or clears it and leaves every other
/// flag as it was.
pub proof fn lemma_with(s: StateFlags, f: u16, g: u16, value: bool)
    requires
        is_flag(f),
        is_flag(g),
    ensures
        s.with(f, value).has(f) == value,
        f != g ==> s.with(f, value).has(g) == s.has(g),
{
    let b = s.bits;
    assert(f & (f - 1) as u16 == 0 && f != 0) by {
        assert(1u16 & 0u16 == 0 && 2u16 & 1u16 == 0 && 4u16 & 3u16 == 0 && 8u16 & 7u16 == 0
            && 16u16 & 15u16 == 0 && 32u16 & 31u16 == 0 && 64u16 & 63u16 == 0 && 128u16 & 127u16
            == 0 && 256u16 & 255u16 == 0 && 512u16 & 511u16 == 0 && 1024u16 & 1023u16 == 0
            && 2048u16 & 2047u16 == 0 && 4096u16 & 4095u16 == 0) by (bit_vector);
    }
    assert(g & (g - 1) as u16 == 0 && g != 0) by {
        assert(1u16 & 0u16 == 0 && 2u16 & 1u16 == 0 && 4u16 & 3u16 == 0 && 8u16 & 7u16 == 0
            && 16u16 & 15u16 == 0 && 32u16 & 31u16 == 0 && 64u16 & 63u16 == 0 && 128u16 & 127u16
            == 0 && 256u16 & 255u16 == 0 && 512u16 & 511u16 == 0 && 1024u16 & 1023u16 == 0
            && 2048u16 & 2047u16 == 0 && 4096u16 & 4095u16 == 0) by (bit_vector);
    }
    assert((b | f) & f == f) by (bit_vector);
    assert((b & !f) & f != f) by (bit_vector)
        requires
            f & (f - 1) as u16 == 0 && f != 0,
    ;
    assert(f != g ==> (((b | f) & g == g) == (b & g == g))) by (bit_vector)
        requires
            f & (f - 1) as u16 == 0 && f != 0,
            g & (g - 1) as u16 == 0 && g != 0,
    ;
    assert(f != g ==> (((b & !f) & g == g) == (b & g == g))) by (bit_vector)
        requires
            f & (f - 1) as u16 == 0 && f != 0,
            g & (g - 1) as u16 == 0 && g != 0,
    ;
}

/// The flags of a new widget are exactly self and children update and draw,
/// visible and enabled.
pub proof fn lemma_init_flags(g: u16)
    requires
        is_flag(g),
    ensures
        (StateFlags { bits: INIT_FLAGS }).has(g) == (g == SELF_UPDATE || g == CHILDREN_UPDATE || g
            == SELF_DRAW || g == CHILDREN_DRAW || g == IS_VISIBLE || g == IS_ENABLED),
{
    assert(0xcfu16 & 1u16 == 1u16 && 0xcfu16 & 2u16 == 2u16 && 0xcfu16 & 4u16 == 4u16 && 0xcfu16
        & 8u16 == 8u16 && 0xcfu16 & 0x40u16 == 0x40u16 && 0xcfu16 & 0x80u16 == 0x80u16 && 0xcfu16
        & 0x10u16 != 0x10u16 && 0xcfu16 & 0x20u16 != 0x20u16 && 0xcfu16 & 0x100u16 != 0x100u16
        && 0xcfu16 & 0x200u16 != 0x200u16 && 0xcfu16 & 0x400u16 != 0x400u16 && 0xcfu16 & 0x800u16
        != 0x800u16 && 0xcfu16 & 0x1000u16 != 0x1000u16) by (bit_vector);
}

} // verus!
