//! Small identifier types: widgets, render cache entries, images and devices.

use vstd::prelude::*;

verus! {

/// Unique within application instance widget id.
///
/// The value 0 is the invalid id; fresh ids are handed out from 1 upwards
/// by the application's id source.
#[derive(PartialEq, Eq, Structural, Copy, Clone, Debug, Hash)]
pub struct WidgetId {
    id: usize,
}

impl WidgetId {
    /// The raw number behind the id.
    pub closed spec fn value(self) -> usize {
        self.id
    }

    /// The invalid id.
    pub fn invalid() -> (w: WidgetId)
        ensures
            w.value() == 0,
    {
        WidgetId { id: 0 }
    }

    /// An id with the given raw value; the type parameter names the kind of
    /// widget it is meant for and does not change the value.
    pub fn from_raw<T>(v: usize) -> (w: WidgetId)
        ensures
            w.value() == v,
    {
        WidgetId { id: v }
    }

    pub fn raw(&self) -> (r: usize)
        ensures
            r == self.value(),
    {
        self.id
    }

    /// Whether the id is not the invalid one.
    pub fn is_valid(self) -> (b: bool)
        ensures
            b == (self.value() != 0),
    {
        self.id != 0
    }
}

impl Default for WidgetId {
    /// The invalid id.
    fn default() -> (w: Self)
        ensures
            w.value() == 0,
    {
        WidgetId { id: 0 }
    }
}

/// Render object cache id.
///
/// Widgets can hold this id for render object entities.
/// The cache mechanism is left to the user of the library.
/// `u32::MAX` is the invalid id.
#[derive(PartialEq, Eq, Structural, Copy, Clone, Debug)]
pub struct CacheId(u32);

impl CacheId {
    pub closed spec fn value(self) -> u32 {
        self.0
    }

    /// The invalid cache id.
    pub fn invalid() -> (c: CacheId)
        ensures
            c.value() == u32::MAX,
    {
        CacheId(u32::MAX)
    }

    pub fn raw(&self) -> (r: u32)
        ensures
            r == self.value(),
    {
        self.0
    }

    /// The raw value, or `None` for the invalid id.
    pub fn raw_opt(&self) -> (r: Option<u32>)
        ensures
            r == (if self.value() != u32::MAX {
                Some(self.value())
            } else {
                None::<u32>
            }),
    {
        if self.0 != u32::MAX {
            Some(self.0)
        } else {
            None
        }
    }

    pub fn from_raw(val: u32) -> (c: CacheId)
        ensures
            c.value() == val,
    {
        CacheId(val)
    }

    pub fn is_valid(&self) -> (b: bool)
        ensures
            b == (self.value() != u32::MAX),
    {
        self.0 != u32::MAX
    }
}

impl Default for CacheId {
    /// The invalid cache id.
    fn default() -> (c: Self)
        ensures
            c.value() == u32::MAX,
    {
        CacheId(u32::MAX)
    }
}

/// Texture id allocated in a backend; -1 is the invalid id.
#[derive(PartialEq, Eq, Structural, Copy, Clone, Debug)]
pub struct ImageId(i32);

impl ImageId {
    pub closed spec fn value(self) -> i32 {
        self.0
    }

    /// The invalid image id.
    pub fn invalid() -> (c: ImageId)
        ensures
            c.value() == -1,
    {
        ImageId(-1)
    }

    pub fn raw(&self) -> (r: i32)
        ensures
            r == self.value(),
    {
        self.0
    }

    /// The raw value, or `None` for the invalid id.
    pub fn raw_opt(&self) -> (r: Option<i32>)
        ensures
            r == (if self.value() != -1 {
                Some(self.value())
            } else {
                None::<i32>
            }),
    {
        if self.0 != -1 {
            Some(self.0)
        } else {
            None
        }
    }

    pub fn from_raw(val: i32) -> (c: ImageId)
        ensures
            c.value() == val,
    {
        ImageId(val)
    }

    /// Whether the id is non-negative.
    pub fn is_valid(&self) -> (b: bool)
        ensures
            b == (self.value() > -1),
    {
        self.0 > -1
    }
}

impl Default for ImageId {
    /// The invalid image id.
    fn default() -> (c: Self)
        ensures
            c.value() == -1,
    {
        ImageId(-1)
    }
}

/// Input device id.
#[derive(PartialEq, Eq, Structural, Copy, Clone, Debug, Default)]
pub struct DeviceId(u32);

impl DeviceId {
    pub closed spec fn value(self) -> u32 {
        self.0
    }

    pub fn from_raw(v: u32) -> (d: DeviceId)
        ensures
            d.value() == v,
    {
        DeviceId(v)
    }

    pub fn raw(self) -> (r: u32)
        ensures
            r == self.value(),
    {
        self.0
    }
}

/// Two widget ids are the same id exactly when their raw values agree.
pub proof fn lemma_widget_id_eq(a: WidgetId, b: WidgetId)
    ensures
        (a == b) == (a.value() == b.value()),
{
}

} // verus!
