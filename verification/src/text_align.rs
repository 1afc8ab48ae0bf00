//! Text alignment properties.

use vstd::prelude::*;

verus! {

/// Vertical alignment.
#[derive(PartialEq, Eq, Structural, Copy, Clone, Debug)]
pub enum AlignV {
    Top,
    Middle,
    Bottom,
    /// It is mostly used for fonts.
    ///
    /// In layouts it is usually the same as [Self::Bottom].
    BaseLine,
}

/// Horizontal alignment.
#[derive(PartialEq, Eq, Structural, Copy, Clone, Debug)]
pub enum AlignH {
    Left,
    Center,
    Right,
}

/// Text align properties.
///
/// By default the text is aligned to the right and to the base line,
/// using the font metrics.
#[derive(PartialEq, Eq, Structural, Copy, Clone, Debug)]
pub struct TextAlign {
    tight: bool,
    h_a: AlignH,
    v_a: AlignV,
}

impl TextAlign {
    /// Whether tight, the horizontal and the vertical alignment.
    pub closed spec fn spec_get(self) -> (bool, AlignH, AlignV) {
        (self.tight, self.h_a, self.v_a)
    }

    pub fn new() -> (r: Self)
        ensures
            r.spec_get() == (false, AlignH::Right, AlignV::BaseLine),
    {
        Self { tight: false, h_a: AlignH::Right, v_a: AlignV::BaseLine }
    }

    /// Align horizontally to the left.
    pub fn left(self) -> (r: Self)
        ensures
            r.spec_get() == (self.spec_get().0, AlignH::Left, self.spec_get().2),
    {
        self.h_align(AlignH::Left)
    }

    /// Center horizontally.
    pub fn center(self) -> (r: Self)
        ensures
            r.spec_get() == (self.spec_get().0, AlignH::Center, self.spec_get().2),
    {
        self.h_align(AlignH::Center)
    }

    /// Align horizontally to the right.
    pub fn right(self) -> (r: Self)
        ensures
            r.spec_get() == (self.spec_get().0, AlignH::Right, self.spec_get().2),
    {
        self.h_align(AlignH::Right)
    }

    /// Align vertically: top.
    pub fn top(self) -> (r: Self)
        ensures
            r.spec_get() == (self.spec_get().0, self.spec_get().1, AlignV::Top),
    {
        self.v_align(AlignV::Top)
    }

    /// Align vertically: middle.
    pub fn middle(self) -> (r: Self)
        ensures
            r.spec_get() == (self.spec_get().0, self.spec_get().1, AlignV::Middle),
    {
        self.v_align(AlignV::Middle)
    }

    /// Align vertically: bottom.
    pub fn bottom(self) -> (r: Self)
        ensures
            r.spec_get() == (self.spec_get().0, self.spec_get().1, AlignV::Bottom),
    {
        self.v_align(AlignV::Bottom)
    }

    /// Align vertically: baseline.
    pub fn baseline(self) -> (r: Self)
        ensures
            r.spec_get() == (self.spec_get().0, self.spec_get().1, AlignV::BaseLine),
    {
        self.v_align(AlignV::BaseLine)
    }

    /// Use actual text geometry to align instead of the font metrics.
    ///
    /// For example it is useful to align text inside a button, if
    /// the font metrics is used the text may be a bit offset.
    pub fn tight(self) -> (r: Self)
        ensures
            r.spec_get() == (true, self.spec_get().1, self.spec_get().2),
    {
        let mut s = self;
        s.tight = true;
        s
    }

    /// Horizontal align.
    pub fn h_align(self, h_a: AlignH) -> (r: Self)
        ensures
            r.spec_get() == (self.spec_get().0, h_a, self.spec_get().2),
    {
        let mut s = self;
        s.h_a = h_a;
        s
    }

    /// Vertical align.
    pub fn v_align(self, v_a: AlignV) -> (r: Self)
        ensures
            r.spec_get() == (self.spec_get().0, self.spec_get().1, v_a),
    {
        let mut s = self;
        s.v_a = v_a;
        s
    }

    /// Get values.
    pub fn get(&self) -> (r: (bool, AlignH, AlignV))
        ensures
            r == self.spec_get(),
    {
        (self.tight, self.h_a, self.v_a)
    }
}

impl Default for TextAlign {
    fn default() -> (r: Self)
        ensures
            r.spec_get() == (false, AlignH::Right, AlignV::BaseLine),
    {
        Self::new()
    }
}

} // verus!
