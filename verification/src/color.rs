//! Colors with 8-bit channels and their packed 32-bit forms.

use vstd::prelude::*;

verus! {

/// The byte of `v` at position `k` (0 is the least significant byte).
pub open spec fn byte_at(v: u32, k: nat) -> u8 {
    ((v as int / vstd::arithmetic::power::pow(256, k)) % 256) as u8
}

/// Four bytes packed big-endian into one integer: `b3` is the most significant.
pub open spec fn pack(b3: u8, b2: u8, b1: u8, b0: u8) -> int {
    b3 * 16777216 + b2 * 65536 + b1 * 256 + b0
}

/// Facts about splitting a `u32` into bytes and packing them back.
proof fn lemma_bytes(v: u32)
    ensures
        (v >> 24u32) as u8 == v / 16777216,
        (v >> 16u32) as u8 == (v / 65536) % 256,
        (v >> 8u32) as u8 == (v / 256) % 256,
        v as u8 == v % 256,
        v == (v / 16777216) * 16777216 + ((v / 65536) % 256) * 65536 + ((v / 256) % 256) * 256
            + v % 256,
{
    assert((v >> 24u32) as u8 == v / 16777216) by (bit_vector);
    assert((v >> 16u32) as u8 == (v / 65536) % 256) by (bit_vector);
    assert((v >> 8u32) as u8 == (v / 256) % 256) by (bit_vector);
    assert(v as u8 == v % 256) by (bit_vector);
    assert(v == (v / 16777216) * 16777216 + ((v / 65536) % 256) * 65536 + ((v / 256) % 256) * 256
        + v % 256) by (bit_vector);
}

proof fn lemma_pow_bytes()
    ensures
        vstd::arithmetic::power::pow(256, 0) == 1,
        vstd::arithmetic::power::pow(256, 1) == 256,
        vstd::arithmetic::power::pow(256, 2) == 65536,
        vstd::arithmetic::power::pow(256, 3) == 16777216,
{
    vstd::arithmetic::power::lemma_pow0(256);
    vstd::arithmetic::power::lemma_pow1(256);
    assert(vstd::arithmetic::power::pow(256, 2) == 256 * vstd::arithmetic::power::pow(256, 1)) by {
        reveal(vstd::arithmetic::power::pow);
    }
    assert(vstd::arithmetic::power::pow(256, 3) == 256 * vstd::arithmetic::power::pow(256, 2)) by {
        reveal(vstd::arithmetic::power::pow);
    }
}

/// Shifting packed bytes back out gives the bytes.
proof fn lemma_pack(b3: u8, b2: u8, b1: u8, b0: u8)
    ensures
        0 <= pack(b3, b2, b1, b0) <= u32::MAX,
        ({
            let v = pack(b3, b2, b1, b0) as u32;
            &&& (v >> 24u32) as u8 == b3
            &&& (v >> 16u32) as u8 == b2
            &&& (v >> 8u32) as u8 == b1
            &&& v as u8 == b0
            &&& ((b3 as u32) << 24u32) | ((b2 as u32) << 16u32) | ((b1 as u32) << 8u32) | (b0 as u32)
                == v
        }),
{
    let v: u32 = ((b3 as u32) << 24u32) | ((b2 as u32) << 16u32) | ((b1 as u32) << 8u32) | (
    b0 as u32);
    assert(v == b3 * 16777216 + b2 * 65536 + b1 * 256 + b0) by (bit_vector)
        requires
            v == ((b3 as u32) << 24u32) | ((b2 as u32) << 16u32) | ((b1 as u32) << 8u32) | (
            b0 as u32),
    ;
    assert((v >> 24u32) as u8 == b3 && (v >> 16u32) as u8 == b2 && (v >> 8u32) as u8 == b1
        && v as u8 == b0) by (bit_vector)
        requires
            v == ((b3 as u32) << 24u32) | ((b2 as u32) << 16u32) | ((b1 as u32) << 8u32) | (
            b0 as u32),
    ;
}

fn pack_u32(b3: u8, b2: u8, b1: u8, b0: u8) -> (r: u32)
    ensures
        r == pack(b3, b2, b1, b0),
{
    proof {
        lemma_pack(b3, b2, b1, b0);
    }
    ((b3 as u32) << 24u32) | ((b2 as u32) << 16u32) | ((b1 as u32) << 8u32) | (b0 as u32)
}

/// ARGB color with u8 values.
#[derive(PartialEq, Eq, Structural, Copy, Clone, Debug, Hash)]
pub struct Argb8 {
    pub a: u8,
    pub r: u8,
    pub g: u8,
    pub b: u8,
}

/// RGBA color with u8 values.
#[derive(PartialEq, Eq, Structural, Copy, Clone, Debug, Hash)]
pub struct Rgba8 {
    pub r: u8,
    pub g: u8,
    pub b: u8,
    pub a: u8,
}

impl Argb8 {
    /// The color whose channels are the bytes of `v` in the order a, r, g, b.
    pub open spec fn spec_init(v: u32) -> Argb8 {
        Argb8 { a: byte_at(v, 3), r: byte_at(v, 2), g: byte_at(v, 1), b: byte_at(v, 0) }
    }

    /// The color whose channels are the bytes of `v` in the order r, g, b, a.
    pub open spec fn spec_init_rgba(v: u32) -> Argb8 {
        Argb8 { r: byte_at(v, 3), g: byte_at(v, 2), b: byte_at(v, 1), a: byte_at(v, 0) }
    }

    /// The packed value a, r, g, b from the most significant byte down.
    pub open spec fn packed(self) -> int {
        pack(self.a, self.r, self.g, self.b)
    }

    /// The same channels in RGBA order.
    pub open spec fn to_rgba(self) -> Rgba8 {
        Rgba8 { r: self.r, g: self.g, b: self.b, a: self.a }
    }

    pub fn new(a: u8, r: u8, g: u8, b: u8) -> (c: Self)
        ensures
            c == (Argb8 { a, r, g, b }),
    {
        Self { a, r, g, b }
    }

    pub fn with_alpha(self, a: u8) -> (c: Self)
        ensures
            c == (Argb8 { a, ..self }),
    {
        Self { a, ..self }
    }

    pub fn init(v: u32) -> (c: Self)
        ensures
            c == Self::spec_init(v),
    {
        proof {
            lemma_bytes(v);
            lemma_pow_bytes();
        }
        Self { a: (v >> 24u32) as u8, r: (v >> 16u32) as u8, g: (v >> 8u32) as u8, b: v as u8 }
    }

    pub fn init_rgba(v: u32) -> (c: Self)
        ensures
            c == Self::spec_init_rgba(v),
    {
        proof {
            lemma_bytes(v);
            lemma_pow_bytes();
        }
        Self { r: (v >> 24u32) as u8, g: (v >> 16u32) as u8, b: (v >> 8u32) as u8, a: v as u8 }
    }
}

impl Default for Argb8 {
    /// Opaque black.
    fn default() -> (c: Self)
        ensures
            c == (Argb8 { r: 0, g: 0, b: 0, a: 255 }),
    {
        Self { r: 0, g: 0, b: 0, a: 255 }
    }
}

impl Rgba8 {
    /// The color whose channels are the bytes of `v` in the order r, g, b, a.
    pub open spec fn spec_init(v: u32) -> Rgba8 {
        Rgba8 { r: byte_at(v, 3), g: byte_at(v, 2), b: byte_at(v, 1), a: byte_at(v, 0) }
    }

    /// The color whose channels are the bytes of `v` in the order a, r, g, b.
    pub open spec fn spec_init_argb(v: u32) -> Rgba8 {
        Rgba8 { a: byte_at(v, 3), r: byte_at(v, 2), g: byte_at(v, 1), b: byte_at(v, 0) }
    }

    /// The packed value r, g, b, a from the most significant byte down.
    pub open spec fn packed(self) -> int {
        pack(self.r, self.g, self.b, self.a)
    }

    /// The same channels in ARGB order.
    pub open spec fn to_argb(self) -> Argb8 {
        Argb8 { a: self.a, r: self.r, g: self.g, b: self.b }
    }

    pub fn new(r: u8, g: u8, b: u8, a: u8) -> (c: Self)
        ensures
            c == (Rgba8 { r, g, b, a }),
    {
        Self { r, g, b, a }
    }

    pub fn with_alpha(self, a: u8) -> (c: Self)
        ensures
            c == (Rgba8 { a, ..self }),
    {
        Self { a, ..self }
    }

    pub fn init(v: u32) -> (c: Self)
        ensures
            c == Self::spec_init(v),
    {
        proof {
            lemma_bytes(v);
            lemma_pow_bytes();
        }
        Self { r: (v >> 24u32) as u8, g: (v >> 16u32) as u8, b: (v >> 8u32) as u8, a: v as u8 }
    }

    pub fn init_argb(v: u32) -> (c: Self)
        ensures
            c == Self::spec_init_argb(v),
    {
        proof {
            lemma_bytes(v);
            lemma_pow_bytes();
        }
        Self { a: (v >> 24u32) as u8, r: (v >> 16u32) as u8, g: (v >> 8u32) as u8, b: v as u8 }
    }
}

impl Default for Rgba8 {
    /// Opaque black.
    fn default() -> (c: Self)
        ensures
            c == (Rgba8 { r: 0, g: 0, b: 0, a: 255 }),
    {
        Self { r: 0, g: 0, b: 0, a: 255 }
    }
}

impl From<Rgba8> for Argb8 {
    fn from(v: Rgba8) -> Self {
        Self { a: v.a, r: v.r, g: v.g, b: v.b }
    }
}

impl vstd::std_specs::convert::FromSpecImpl<Rgba8> for Argb8 {
    open spec fn obeys_from_spec() -> bool {
        true
    }

    open spec fn from_spec(v: Rgba8) -> Argb8 {
        v.to_argb()
    }
}

impl From<Argb8> for Rgba8 {
    fn from(v: Argb8) -> Self {
        Self { r: v.r, g: v.g, b: v.b, a: v.a }
    }
}

impl vstd::std_specs::convert::FromSpecImpl<Argb8> for Rgba8 {
    open spec fn obeys_from_spec() -> bool {
        true
    }

    open spec fn from_spec(v: Argb8) -> Rgba8 {
        v.to_rgba()
    }
}

impl From<Argb8> for u32 {
    fn from(v: Argb8) -> u32 {
        pack_u32(v.a, v.r, v.g, v.b)
    }
}

impl vstd::std_specs::convert::FromSpecImpl<Argb8> for u32 {
    open spec fn obeys_from_spec() -> bool {
        true
    }

    open spec fn from_spec(v: Argb8) -> u32 {
        v.packed() as u32
    }
}

impl From<Rgba8> for u32 {
    fn from(v: Rgba8) -> u32 {
        pack_u32(v.r, v.g, v.b, v.a)
    }
}

impl vstd::std_specs::convert::FromSpecImpl<Rgba8> for u32 {
    open spec fn obeys_from_spec() -> bool {
        true
    }

    open spec fn from_spec(v: Rgba8) -> u32 {
        v.packed() as u32
    }
}

impl From<u32> for Argb8 {
    fn from(v: u32) -> Self {
        Self::init(v)
    }
}

impl vstd::std_specs::convert::FromSpecImpl<u32> for Argb8 {
    open spec fn obeys_from_spec() -> bool {
        true
    }

    open spec fn from_spec(v: u32) -> Argb8 {
        Argb8::spec_init(v)
    }
}

impl From<u32> for Rgba8 {
    fn from(v: u32) -> Self {
        Self::init(v)
    }
}

impl vstd::std_specs::convert::FromSpecImpl<u32> for Rgba8 {
    open spec fn obeys_from_spec() -> bool {
        true
    }

    open spec fn from_spec(v: u32) -> Rgba8 {
        Rgba8::spec_init(v)
    }
}

/// Packing an `Rgba8` into a `u32` and reading it back gives the same color,
/// and reading any `u32` as an `Rgba8` and packing it gives the same number.
pub proof fn law_rgba8_u32_roundtrip(c: Rgba8, v: u32)
    ensures
        0 <= c.packed() <= u32::MAX,
        Rgba8::spec_init(c.packed() as u32) == c,
        Rgba8::spec_init(v).packed() == v,
{
    lemma_pack(c.r, c.g, c.b, c.a);
    lemma_bytes(c.packed() as u32);
    lemma_bytes(v);
    lemma_pow_bytes();
}

/// The same round trip for `Argb8`.
pub proof fn law_argb8_u32_roundtrip(c: Argb8, v: u32)
    ensures
        0 <= c.packed() <= u32::MAX,
        Argb8::spec_init(c.packed() as u32) == c,
        Argb8::spec_init(v).packed() == v,
{
    lemma_pack(c.a, c.r, c.g, c.b);
    lemma_bytes(c.packed() as u32);
    lemma_bytes(v);
    lemma_pow_bytes();
}

/// Converting between the two channel orders keeps every channel, both ways,
/// and reading a number in ARGB order as an `Rgba8` agrees with reading it
/// as an `Argb8` and converting.
pub proof fn law_rgba8_argb8_roundtrip(c: Rgba8, d: Argb8, v: u32)
    ensures
        c.to_argb().to_rgba() == c,
        d.to_rgba().to_argb() == d,
        Rgba8::spec_init_argb(v) == Argb8::spec_init(v).to_rgba(),
{
}

} // verus!
