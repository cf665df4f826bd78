use vstd::prelude::*;

verus! {

/// A color with four 8-bit channels.
#[derive(Clone, Copy, PartialEq, Eq, Structural, Debug)]
pub struct RGBA8 {
    pub r: u8,
    pub g: u8,
    pub b: u8,
    pub a: u8,
}

/// The packed word of four channels, in little-endian byte order.
pub open spec fn pack(r: u8, g: u8, b: u8, a: u8) -> u32 {
    (r as u32) | ((g as u32) << 8u32) | ((b as u32) << 16u32) | ((a as u32) << 24u32)
}

/// Byte `k` (0 is the lowest) of a packed word.
pub open spec fn byte_of(raw: u32, k: u32) -> u8 {
    ((raw >> (8 * k)) & 0xFFu32) as u8
}

/// The color a packed word stands for.
pub open spec fn unpack(raw: u32) -> RGBA8 {
    RGBA8 { r: byte_of(raw, 0), g: byte_of(raw, 1), b: byte_of(raw, 2), a: byte_of(raw, 3) }
}

/// One channel composited over another, with `alpha` as the coverage of `over`.
pub open spec fn blend_channel(over: u8, under: u8, alpha: u8) -> u8 {
    ((over * alpha + under * (255 - alpha)) / 255) as u8
}

/// `over` composited on `under`; the result is always opaque.
pub open spec fn blend(over: RGBA8, under: RGBA8) -> RGBA8 {
    RGBA8 {
        r: blend_channel(over.r, under.r, over.a),
        g: blend_channel(over.g, under.g, over.a),
        b: blend_channel(over.b, under.b, over.a),
        a: 255,
    }
}

impl RGBA8 {
    pub open spec fn packed(self) -> u32 {
        pack(self.r, self.g, self.b, self.a)
    }

    pub fn new_rgba(r: u8, g: u8, b: u8, a: u8) -> (c: Self)
        ensures
            c == (RGBA8 { r, g, b, a }),
    {
        RGBA8 { r, g, b, a }
    }

    pub fn new_rgb(r: u8, g: u8, b: u8) -> (c: Self)
        ensures
            c == (RGBA8 { r, g, b, a: 255 }),
    {
        RGBA8 { r, g, b, a: 0xFF }
    }

    pub fn decode(raw: u32) -> (t: (u8, u8, u8, u8))
        ensures
            t == (byte_of(raw, 0), byte_of(raw, 1), byte_of(raw, 2), byte_of(raw, 3)),
    {
        let a = (raw & 0xFF) as u8;
        let b = ((raw >> 8) & 0xFF) as u8;
        let c = ((raw >> 16) & 0xFF) as u8;
        let d = ((raw >> 24) & 0xFF) as u8;
        assert(raw == raw >> (8 * 0u32)) by (bit_vector);
        (a, b, c, d)
    }

    pub fn from(raw: u32) -> (c: Self)
        ensures
            c == unpack(raw),
    {
        let (r, g, b, a) = Self::decode(raw);
        Self::new_rgba(r, g, b, a)
    }

    pub fn encode_impl(r: u8, g: u8, b: u8, a: u8) -> (w: u32)
        ensures
            w == pack(r, g, b, a),
    {
        let (r32, g32, b32, a32) = (r as u32, g as u32, b as u32, a as u32);
        let w = (r32 & 0xFF) | ((g32 & 0xFF) << 8) | ((b32 & 0xFF) << 16) | ((a32 & 0xFF) << 24);
        assert(w == r32 | (g32 << 8u32) | (b32 << 16u32) | (a32 << 24u32)) by (bit_vector)
            requires
                w == (r32 & 0xFF) | ((g32 & 0xFF) << 8) | ((b32 & 0xFF) << 16) | ((a32 & 0xFF)
                    << 24),
                r32 <= 255,
                g32 <= 255,
                b32 <= 255,
                a32 <= 255,
        ;
        w
    }

    pub fn encode(&self) -> (w: u32)
        ensures
            w == self.packed(),
    {
        Self::encode_impl(self.r, self.g, self.b, self.a)
    }

    pub fn blend_color_impl(under: u32, over: u32, alpha: u32) -> (c: u8)
        requires
            under <= 255,
            over <= 255,
            alpha <= 255,
        ensures
            c == blend_channel(over as u8, under as u8, alpha as u8),
    {
        let one_minus_a = 0xFF - alpha;
        assert(over * alpha + under * one_minus_a <= 255 * 255) by (nonlinear_arith)
            requires
                under <= 255,
                over <= 255,
                alpha <= 255,
                one_minus_a == 255 - alpha,
        ;
        ((over * alpha + under * one_minus_a) / 0xFF) as u8
    }

    /// Composites `self` over `other`, with `self.a` as coverage.
    pub fn blend_with(&self, other: Self) -> (c: Self)
        ensures
            c == blend(*self, other),
    {
        let r = Self::blend_color_impl(other.r as u32, self.r as u32, self.a as u32);
        let g = Self::blend_color_impl(other.g as u32, self.g as u32, self.a as u32);
        let b = Self::blend_color_impl(other.b as u32, self.b as u32, self.a as u32);
        Self::new_rgb(r, g, b)
    }
}

/// Decoding an encoded color gives the color back.
pub proof fn lemma_decode_encode(c: RGBA8)
    ensures
        unpack(c.packed()) == c,
{
    let (r, g, b, a) = (c.r, c.g, c.b, c.a);
    assert(byte_of(pack(r, g, b, a), 0) == r) by (bit_vector);
    assert(byte_of(pack(r, g, b, a), 1) == g) by (bit_vector);
    assert(byte_of(pack(r, g, b, a), 2) == b) by (bit_vector);
    assert(byte_of(pack(r, g, b, a), 3) == a) by (bit_vector);
}

/// Encoding a decoded word gives the word back.
pub proof fn lemma_encode_decode(raw: u32)
    ensures
        unpack(raw).packed() == raw,
{
    assert(pack(byte_of(raw, 0), byte_of(raw, 1), byte_of(raw, 2), byte_of(raw, 3)) == raw)
        by (bit_vector);
}

/// A fully opaque color blended over itself keeps its channels, made opaque.
pub proof fn lemma_blend_opaque_self(c: RGBA8)
    requires
        c.a == 255,
    ensures
        blend(c, c) == (RGBA8 { r: c.r, g: c.g, b: c.b, a: 255 }),
{
    assert(blend_channel(c.r, c.r, 255) == c.r);
    assert(blend_channel(c.g, c.g, 255) == c.g);
    assert(blend_channel(c.b, c.b, 255) == c.b);
}

/// A fully transparent color blended over another leaves the other's channels, made opaque.
pub proof fn lemma_blend_transparent(c: RGBA8, d: RGBA8)
    requires
        c.a == 0,
    ensures
        blend(c, d) == (RGBA8 { r: d.r, g: d.g, b: d.b, a: 255 }),
{
    assert(blend_channel(c.r, d.r, 0) == d.r);
    assert(blend_channel(c.g, d.g, 0) == d.g);
    assert(blend_channel(c.b, d.b, 0) == d.b);
}

} // verus!
