//! Keyboard modifiers and mouse input kinds.

use vstd::prelude::*;

verus! {

/// Bit of the "shift" key.
pub const SHIFT_BIT: u32 = 0b100;

/// Bit of the "control" key.
pub const CTRL_BIT: u32 = 0b100000;

/// Bit of the "alt" key.
pub const ALT_BIT: u32 = 0b100000000;

/// Bit of the "windows" key on PC and "command" key on Mac.
pub const VENDOR_BIT: u32 = 0b100000000000;

/// All the modifier bits together.
pub const ALL_MODIFIER_BITS: u32 = 0b100100100100;

/// `b` with the bits of `o` set (`v == true`) or cleared.
pub open spec fn set_bits(b: u32, o: u32, v: bool) -> u32 {
    if v {
        b | o
    } else {
        b & !o
    }
}

/// Represents the current state of the keyboard modifiers.
///
/// Each flag represents a modifier and is set if this modifier is active.
#[derive(PartialEq, Eq, Structural, Copy, Clone, Debug, Hash, Default)]
pub struct Modifiers {
    bits: u32,
}

impl Modifiers {
    /// The raw bits.
    pub closed spec fn spec_bits(self) -> u32 {
        self.bits
    }

    pub fn empty() -> (m: Modifiers)
        ensures
            m.spec_bits() == 0,
    {
        Modifiers { bits: 0 }
    }

    /// All known modifiers.
    pub fn all() -> (m: Modifiers)
        ensures
            m.spec_bits() == ALL_MODIFIER_BITS,
    {
        Modifiers { bits: ALL_MODIFIER_BITS }
    }

    /// The "shift" key alone.
    pub fn shift_key() -> (m: Modifiers)
        ensures
            m.spec_bits() == SHIFT_BIT,
    {
        Modifiers { bits: SHIFT_BIT }
    }

    /// The "control" key alone.
    pub fn ctrl_key() -> (m: Modifiers)
        ensures
            m.spec_bits() == CTRL_BIT,
    {
        Modifiers { bits: CTRL_BIT }
    }

    /// The "alt" key alone.
    pub fn alt_key() -> (m: Modifiers)
        ensures
            m.spec_bits() == ALT_BIT,
    {
        Modifiers { bits: ALT_BIT }
    }

    /// The "windows"/"command" key alone.
    pub fn vendor_key() -> (m: Modifiers)
        ensures
            m.spec_bits() == VENDOR_BIT,
    {
        Modifiers { bits: VENDOR_BIT }
    }

    pub fn bits(&self) -> (b: u32)
        ensures
            b == self.spec_bits(),
    {
        self.bits
    }

    /// Keeps only the known modifier bits of `bits`.
    pub fn from_bits_truncate(bits: u32) -> (m: Modifiers)
        ensures
            m.spec_bits() == bits & ALL_MODIFIER_BITS,
    {
        Modifiers { bits: bits & ALL_MODIFIER_BITS }
    }

    /// Whether every bit of `other` is set in `self`.
    pub fn contains(&self, other: Modifiers) -> (b: bool)
        ensures
            b == (self.spec_bits() & other.spec_bits() == other.spec_bits()),
    {
        self.bits & other.bits == other.bits
    }

    /// Whether some bit of `other` is set in `self`.
    pub fn intersects(&self, other: Modifiers) -> (b: bool)
        ensures
            b == (self.spec_bits() & other.spec_bits() != 0),
    {
        self.bits & other.bits != 0
    }

    /// Sets (`value == true`) or clears the bits of `other`.
    pub fn set(&mut self, other: Modifiers, value: bool)
        ensures
            final(self).spec_bits() == if value {
                old(self).spec_bits() | other.spec_bits()
            } else {
                old(self).spec_bits() & !other.spec_bits()
            },
    {
        if value {
            self.bits = self.bits | other.bits;
        } else {
            self.bits = self.bits & !other.bits;
        }
    }

    /// Returns `true` if the shift key is pressed.
    pub fn shift(&self) -> (b: bool)
        ensures
            b == (self.spec_bits() & SHIFT_BIT != 0),
    {
        self.bits & SHIFT_BIT != 0
    }

    /// Returns `true` if the control key is pressed.
    pub fn ctrl(&self) -> (b: bool)
        ensures
            b == (self.spec_bits() & CTRL_BIT != 0),
    {
        self.bits & CTRL_BIT != 0
    }

    /// Returns `true` if the alt key is pressed.
    pub fn alt(&self) -> (b: bool)
        ensures
            b == (self.spec_bits() & ALT_BIT != 0),
    {
        self.bits & ALT_BIT != 0
    }

    /// Returns `true` if the logo key is pressed.
    pub fn vendor(&self) -> (b: bool)
        ensures
            b == (self.spec_bits() & VENDOR_BIT != 0),
    {
        self.bits & VENDOR_BIT != 0
    }
}

/// The modifiers as four named switches, the form in which they are stored
/// and read back by the serialization of the application.
#[derive(PartialEq, Eq, Structural, Copy, Clone, Debug, Default)]
pub struct ModifiersStateSerialize {
    pub shift: bool,
    pub ctrl: bool,
    pub alt: bool,
    pub vendor: bool,
}

impl ModifiersStateSerialize {
    /// The switches of the given modifiers.
    pub fn from_modifiers(m: &Modifiers) -> (s: ModifiersStateSerialize)
        ensures
            s.shift == (m.spec_bits() & SHIFT_BIT != 0),
            s.ctrl == (m.spec_bits() & CTRL_BIT != 0),
            s.alt == (m.spec_bits() & ALT_BIT != 0),
            s.vendor == (m.spec_bits() & VENDOR_BIT != 0),
    {
        ModifiersStateSerialize { shift: m.shift(), ctrl: m.ctrl(), alt: m.alt(), vendor: m.vendor() }
    }

    /// The modifiers with exactly the switched-on keys set.
    pub fn to_modifiers(&self) -> (m: Modifiers)
        ensures
            m.spec_bits() == (if self.shift {
                SHIFT_BIT
            } else {
                0
            }) | (if self.ctrl {
                CTRL_BIT
            } else {
                0
            }) | (if self.alt {
                ALT_BIT
            } else {
                0
            }) | (if self.vendor {
                VENDOR_BIT
            } else {
                0
            }),
    {
        let mut m = Modifiers::empty();
        m.set(Modifiers::shift_key(), self.shift);
        m.set(Modifiers::ctrl_key(), self.ctrl);
        m.set(Modifiers::alt_key(), self.alt);
        m.set(Modifiers::vendor_key(), self.vendor);
        proof {
            let s = self.shift;
            let c = self.ctrl;
            let a = self.alt;
            let v = self.vendor;
            let b = m.spec_bits();
            assert(b == set_bits(set_bits(set_bits(set_bits(0, 4, s), 32, c), 256, a), 2048, v));
            assert(set_bits(set_bits(set_bits(set_bits(0, 4, s), 32, c), 256, a), 2048, v) == (if s {
                4u32
            } else {
                0u32
            }) | (if c { 32u32 } else { 0u32 }) | (if a { 256u32 } else { 0u32 }) | (if v {
                2048u32
            } else {
                0u32
            })) by (bit_vector);
        }
        m
    }
}

/// Writing modifiers as switches and reading them back gives the same
/// modifiers when only known keys are set; reading switches into modifiers
/// and writing them out again always gives the same switches.
pub proof fn law_modifiers_serialize_roundtrip(b: u32, s: bool, c: bool, a: bool, v: bool)
    ensures
        b & ALL_MODIFIER_BITS == b ==> (if b & SHIFT_BIT != 0 {
            SHIFT_BIT
        } else {
            0
        }) | (if b & CTRL_BIT != 0 {
            CTRL_BIT
        } else {
            0
        }) | (if b & ALT_BIT != 0 {
            ALT_BIT
        } else {
            0
        }) | (if b & VENDOR_BIT != 0 {
            VENDOR_BIT
        } else {
            0
        }) == b,
        ({
            let m = (if s {
                SHIFT_BIT
            } else {
                0
            }) | (if c {
                CTRL_BIT
            } else {
                0
            }) | (if a {
                ALT_BIT
            } else {
                0
            }) | (if v {
                VENDOR_BIT
            } else {
                0
            });
            &&& (m & SHIFT_BIT != 0) == s
            &&& (m & CTRL_BIT != 0) == c
            &&& (m & ALT_BIT != 0) == a
            &&& (m & VENDOR_BIT != 0) == v
        }),
{
    assert(b & 2340u32 == b ==> (if b & 4u32 != 0 { 4u32 } else { 0u32 }) | (if b & 32u32 != 0 {
        32u32
    } else {
        0u32
    }) | (if b & 256u32 != 0 { 256u32 } else { 0u32 }) | (if b & 2048u32 != 0 {
        2048u32
    } else {
        0u32
    }) == b) by (bit_vector);
    let m: u32 = (if s { 4u32 } else { 0u32 }) | (if c { 32u32 } else { 0u32 }) | (if a {
        256u32
    } else {
        0u32
    }) | (if v { 2048u32 } else { 0u32 });
    assert((m & 4u32 != 0) == s && (m & 32u32 != 0) == c && (m & 256u32 != 0) == a && (m & 2048u32
        != 0) == v) by (bit_vector)
        requires
            m == (if s { 4u32 } else { 0u32 }) | (if c { 32u32 } else { 0u32 }) | (if a {
                256u32
            } else {
                0u32
            }) | (if v { 2048u32 } else { 0u32 }),
    ;
}

/// Whether a mouse button went down or up.
#[derive(PartialEq, Eq, Structural, Copy, Clone, Debug)]
pub enum MouseState {
    Pressed,
    Released,
}

/// Which mouse button an event is about.
#[derive(PartialEq, Eq, Structural, Copy, Clone, Debug)]
pub enum MouseButton {
    Left,
    Right,
    Middle,
    Other(u16),
}

} // verus!
