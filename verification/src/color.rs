use vstd::prelude::*;

verus! {

/// How the pixels of a buffer are laid out in memory.
#[derive(Clone, Copy, Debug, PartialEq, Eq, Structural)]
pub enum PixelLayout {
    /// Two bytes per pixel: the low byte holds three bits of green and five
    /// bits of blue, the high byte five bits of red and three bits of green.
    /// Clearing and single-pixel writes store the low byte first; filling a
    /// rectangle stores the high byte first, and reading takes the first
    /// byte as the high one.
    RGB565(),
    /// Four bytes per pixel: alpha, red, green, blue.
    ARGB(),
}

/// Bytes per pixel of a layout.
pub open spec fn bpp(layout: PixelLayout) -> int {
    match layout {
        PixelLayout::RGB565() => 2,
        PixelLayout::ARGB() => 4,
    }
}

impl PixelLayout {
    pub fn bytes_per_pixel(&self) -> (n: i32)
        ensures
            n == bpp(*self),
    {
        match self {
            PixelLayout::RGB565() => 2,
            PixelLayout::ARGB() => 4,
        }
    }
}

/// A colour with an alpha channel, eight bits per channel.
#[derive(Clone, Copy, Debug, PartialEq, Eq, Structural)]
pub struct ARGBColor {
    pub r: u8,
    pub g: u8,
    pub b: u8,
    pub a: u8,
}

/// Opaque black.
pub fn black() -> (c: ARGBColor)
    ensures
        c == (ARGBColor { r: 0, g: 0, b: 0, a: 255 }),
{
    ARGBColor { r: 0, g: 0, b: 0, a: 255 }
}

/// Opaque white.
pub fn white() -> (c: ARGBColor)
    ensures
        c == (ARGBColor { r: 255, g: 255, b: 255, a: 255 }),
{
    ARGBColor { r: 255, g: 255, b: 255, a: 255 }
}

/// The high byte of a packed 5-6-5 pixel.
pub open spec fn rgb565_upper(r: u8, g: u8) -> u8 {
    ((r >> 3u8) << 3u8) | ((g & 0xe0u8) >> 5u8)
}

/// The low byte of a packed 5-6-5 pixel.
pub open spec fn rgb565_lower(g: u8, b: u8) -> u8 {
    (((g & 0x1cu8) >> 2u8) << 5u8) | ((b & 0xf8u8) >> 3u8)
}

/// The bytes that store the colour given as `[a, r, g, b]` in a layout.
pub open spec fn encode(layout: PixelLayout, v: Seq<u8>) -> Seq<u8> {
    match layout {
        PixelLayout::ARGB() => seq![v[0], v[1], v[2], v[3]],
        PixelLayout::RGB565() => seq![rgb565_lower(v[2], v[3]), rgb565_upper(v[1], v[2])],
    }
}

/// The bytes that `fill_rect` stores for the colour `[a, r, g, b]`: as
/// `encode`, but in the 5-6-5 layout the high byte comes first.
pub open spec fn encode_fill(layout: PixelLayout, v: Seq<u8>) -> Seq<u8> {
    match layout {
        PixelLayout::ARGB() => seq![v[0], v[1], v[2], v[3]],
        PixelLayout::RGB565() => seq![rgb565_upper(v[1], v[2]), rgb565_lower(v[2], v[3])],
    }
}

/// The colour, as `[a, r, g, b]`, that the stored bytes of a pixel are read
/// as. In the 5-6-5 layout the first byte is taken as the high one: red is
/// its five high bits, green its three low bits followed by the three high
/// bits of the second byte, blue the five low bits of the second byte, and
/// the pixel is opaque.
pub open spec fn decode(layout: PixelLayout, p: Seq<u8>) -> Seq<u8> {
    match layout {
        PixelLayout::ARGB() => seq![p[0], p[1], p[2], p[3]],
        PixelLayout::RGB565() => seq![
            255u8,
            (p[0] >> 3u8) << 3u8,
            ((p[0] & 0x07u8) << 5u8) | ((p[1] >> 5u8) << 2u8),
            (p[1] & 0x1fu8) << 3u8,
        ],
    }
}

impl ARGBColor {
    pub open spec fn argb(self) -> Seq<u8> {
        seq![self.a, self.r, self.g, self.b]
    }

    pub fn new_rgb(r: u8, g: u8, b: u8) -> (c: ARGBColor)
        ensures
            c == (ARGBColor { r, g, b, a: 255 }),
    {
        ARGBColor { r, g, b, a: 255 }
    }

    pub fn new_argb(a: u8, r: u8, g: u8, b: u8) -> (c: ARGBColor)
        ensures
            c == (ARGBColor { r, g, b, a }),
    {
        ARGBColor { r, g, b, a }
    }

    pub fn to_argb_vec(&self) -> (v: Vec<u8>)
        ensures
            v@ == self.argb(),
    {
        let v = vec![self.a, self.r, self.g, self.b];
        assert(v@ =~= self.argb());
        v
    }

    pub fn from_argb_vec(v: &Vec<u8>) -> (c: ARGBColor)
        requires
            v.len() >= 4,
        ensures
            c == (ARGBColor { a: v[0], r: v[1], g: v[2], b: v[3] }),
    {
        ARGBColor { a: v[0], r: v[1], g: v[2], b: v[3] }
    }

    /// The bytes of one pixel of this colour in the given layout.
    pub fn as_layout(&self, layout: &PixelLayout) -> (v: Vec<u8>)
        ensures
            v@ == encode(*layout, self.argb()),
    {
        let v = pack(layout, self.a, self.r, self.g, self.b);
        v
    }
}

/// Packs a colour given by its four channels into the bytes of one pixel.
pub fn pack(layout: &PixelLayout, a: u8, r: u8, g: u8, b: u8) -> (v: Vec<u8>)
    ensures
        v@ == encode(*layout, seq![a, r, g, b]),
{
    match layout {
        PixelLayout::ARGB() => {
            let v = vec![a, r, g, b];
            assert(v@ =~= encode(*layout, seq![a, r, g, b]));
            v
        },
        PixelLayout::RGB565() => {
            let upper: u8 = ((r >> 3u8) << 3u8) | ((g & 0xe0u8) >> 5u8);
            let lower: u8 = (((g & 0x1cu8) >> 2u8) << 5u8) | ((b & 0xf8u8) >> 3u8);
            let v = vec![lower, upper];
            assert(v@ =~= encode(*layout, seq![a, r, g, b]));
            v
        },
    }
}

/// Packs a colour into the bytes that `fill_rect` stores for one pixel.
pub fn pack_fill(layout: &PixelLayout, a: u8, r: u8, g: u8, b: u8) -> (v: Vec<u8>)
    ensures
        v@ == encode_fill(*layout, seq![a, r, g, b]),
{
    match layout {
        PixelLayout::ARGB() => {
            let v = vec![a, r, g, b];
            assert(v@ =~= encode_fill(*layout, seq![a, r, g, b]));
            v
        },
        PixelLayout::RGB565() => {
            let upper: u8 = ((r >> 3u8) << 3u8) | ((g & 0xe0u8) >> 5u8);
            let lower: u8 = (((g & 0x1cu8) >> 2u8) << 5u8) | ((b & 0xf8u8) >> 3u8);
            let v = vec![upper, lower];
            assert(v@ =~= encode_fill(*layout, seq![a, r, g, b]));
            v
        },
    }
}

/// Reading back a colour stored in the four byte layout gives the colour.
pub proof fn lemma_argb_roundtrip(v: Seq<u8>)
    requires
        v.len() == 4,
    ensures
        decode(PixelLayout::ARGB(), encode(PixelLayout::ARGB(), v)) == v,
{
    assert(decode(PixelLayout::ARGB(), encode(PixelLayout::ARGB(), v)) =~= v);
}

/// Reading back a colour that `fill_rect` stored in the 5-6-5 layout keeps
/// the five high bits of red and blue and the six high bits of green, and
/// gives full opacity.
pub proof fn lemma_rgb565_fill_roundtrip(a: u8, r: u8, g: u8, b: u8)
    ensures
        decode(PixelLayout::RGB565(), encode_fill(PixelLayout::RGB565(), seq![a, r, g, b])) == seq![
            255u8,
            r & 0xf8u8,
            g & 0xfcu8,
            b & 0xf8u8,
        ],
{
    let lo = rgb565_lower(g, b);
    let hi = rgb565_upper(r, g);
    assert((hi >> 3u8) << 3u8 == r & 0xf8u8) by (bit_vector)
        requires
            hi == ((r >> 3u8) << 3u8) | ((g & 0xe0u8) >> 5u8),
    ;
    assert(((hi & 0x07u8) << 5u8) | ((lo >> 5u8) << 2u8) == g & 0xfcu8) by (bit_vector)
        requires
            hi == ((r >> 3u8) << 3u8) | ((g & 0xe0u8) >> 5u8),
            lo == (((g & 0x1cu8) >> 2u8) << 5u8) | ((b & 0xf8u8) >> 3u8),
    ;
    assert((lo & 0x1fu8) << 3u8 == b & 0xf8u8) by (bit_vector)
        requires
            lo == (((g & 0x1cu8) >> 2u8) << 5u8) | ((b & 0xf8u8) >> 3u8),
    ;
    assert(decode(PixelLayout::RGB565(), encode_fill(PixelLayout::RGB565(), seq![a, r, g, b])) =~= seq![
        255u8,
        r & 0xf8u8,
        g & 0xfcu8,
        b & 0xf8u8,
    ]);
}

} // verus!
