use vstd::prelude::*;
use crate::color::{encode, ARGBColor};
use crate::graphics::{lemma_pixel_index_bounds, lemma_wf_bounds, lemma_write_pixel, GFXBuffer};
use crate::text::chars_of;

verus! {

/// One glyph of a bitmap font. `data` holds `width` bits per row, row by
/// row; a bit of 1 is ink. Columns before `left` and the last `right`
/// columns are not drawn.
#[derive(Clone, Debug)]
pub struct GlyphInfo {
    pub id: u32,
    pub name: String,
    pub width: i32,
    pub height: i32,
    pub baseline: i32,
    pub data: Vec<u32>,
    pub ascent: i32,
    pub descent: i32,
    pub left: i32,
    pub right: i32,
}

/// A named bitmap font.
#[derive(Clone, Debug)]
pub struct FontInfo2 {
    pub name: String,
    pub glyphs: Vec<GlyphInfo>,
}

/// Whether `g` is a glyph for `c`: the low byte of its id is the code of `c`.
pub open spec fn glyph_matches(g: GlyphInfo, c: char) -> bool {
    (g.id as u8) as int == c as int
}

/// How far the pen moves right after drawing `g`.
pub open spec fn glyph_advance(g: GlyphInfo) -> int {
    g.width - g.left - g.right + 1
}

/// Where the bit of column `i`, row `j` of `g` is stored.
pub open spec fn bit_index(g: GlyphInfo, i: int, j: int) -> int {
    j * g.width + i
}

/// The part of `g` that is drawn: rows `0 .. height`, columns
/// `left .. width - right`.
pub open spec fn in_glyph(g: GlyphInfo, i: int, j: int) -> bool {
    0 <= j < g.height && g.left <= i < g.width - g.right
}

/// `g` has ink at column `i` of row `j`, in the part that is drawn.
pub open spec fn glyph_bit(g: GlyphInfo, i: int, j: int) -> bool {
    in_glyph(g, i, j) && g.data@[bit_index(g, i, j)] == 1
}

/// Every bit that drawing `g` reads lies inside its data.
pub open spec fn glyph_ok(g: GlyphInfo) -> bool {
    forall|i: int, j: int| in_glyph(g, i, j) ==> 0 <= #[trigger] bit_index(g, i, j) < g.data@.len()
}

/// The glyphs that drawing `text` reads can be read.
pub open spec fn glyphs_ok_for(glyphs: Seq<GlyphInfo>, text: Seq<char>) -> bool {
    forall|n: int, k: int|
        0 <= n < text.len() && 0 <= k < glyphs.len() && #[trigger] glyph_matches(glyphs[k], text[n])
            ==> glyph_ok(glyphs[k])
}

/// How far the pen has moved for `c` after the first `k` glyphs: every
/// glyph for `c` moves it on.
pub open spec fn char_advance(glyphs: Seq<GlyphInfo>, c: char, k: int) -> int
    decreases k,
{
    if k <= 0 {
        0
    } else {
        char_advance(glyphs, c, k - 1) + if glyph_matches(glyphs[k - 1], c) {
            glyph_advance(glyphs[k - 1])
        } else {
            0
        }
    }
}

/// How far the pen has moved after the first `n` characters of `text`.
pub open spec fn text_advance(glyphs: Seq<GlyphInfo>, text: Seq<char>, n: int) -> int
    decreases n,
{
    if n <= 0 {
        0
    } else {
        text_advance(glyphs, text, n - 1) + char_advance(glyphs, text[n - 1], glyphs.len() as int)
    }
}

/// Glyph `k` is one for `c` and, drawn for `c` with the pen starting at
/// `(ox, oy)`, it inks `(px, py)`.
pub open spec fn glyph_inks(glyphs: Seq<GlyphInfo>, c: char, ox: int, oy: int, k: int, px: int, py: int) -> bool {
    glyph_matches(glyphs[k], c) && glyph_bit(
        glyphs[k],
        px - (ox + char_advance(glyphs, c, k)),
        py - oy,
    )
}

/// Drawing `c` with the pen at `(ox, oy)` inks `(px, py)` through one of its
/// first `k_end` glyphs.
pub open spec fn char_inks(glyphs: Seq<GlyphInfo>, c: char, ox: int, oy: int, k_end: int, px: int, py: int) -> bool {
    exists|k: int| 0 <= k < k_end && #[trigger] glyph_inks(glyphs, c, ox, oy, k, px, py)
}

/// Character `n` of `text`, drawn where the pen stands after the characters
/// before it, inks `(px, py)`.
pub open spec fn text_char_inks(glyphs: Seq<GlyphInfo>, text: Seq<char>, ox: int, oy: int, n: int, px: int, py: int) -> bool {
    char_inks(glyphs, text[n], ox + text_advance(glyphs, text, n), oy, glyphs.len() as int, px, py)
}

/// Drawing the first `n_end` characters of `text` from `(ox, oy)` inks
/// `(px, py)`.
pub open spec fn text_inks(glyphs: Seq<GlyphInfo>, text: Seq<char>, ox: int, oy: int, n_end: int, px: int, py: int) -> bool {
    exists|n: int| 0 <= n < n_end && #[trigger] text_char_inks(glyphs, text, ox, oy, n, px, py)
}

/// `after` has the shape of `before`, and each of its pixels holds `ink`
/// where `inked` says so and its old bytes elsewhere.
pub open spec fn painted(before: GFXBuffer, after: GFXBuffer, ink: Seq<u8>, inked: spec_fn(int, int) -> bool) -> bool {
    &&& after.wf()
    &&& after.width == before.width
    &&& after.height == before.height
    &&& after.layout == before.layout
    &&& after.id == before.id
    &&& forall|px: int, py: int|
        after.in_bounds(px, py) ==> #[trigger] after.pixel_bytes(px, py) == if inked(px, py) {
            ink
        } else {
            before.pixel_bytes(px, py)
        }
}

/// Every glyph moves the pen by less than this.
pub open spec fn max_advance() -> int {
    0x2_0000_0000
}

proof fn lemma_char_advance_bound(glyphs: Seq<GlyphInfo>, c: char, k: int)
    requires
        0 <= k <= glyphs.len(),
    ensures
        -k * max_advance() <= char_advance(glyphs, c, k) <= k * max_advance(),
    decreases k,
{
    if k > 0 {
        lemma_char_advance_bound(glyphs, c, k - 1);
    }
}

proof fn lemma_text_advance_bound(glyphs: Seq<GlyphInfo>, text: Seq<char>, n: int)
    requires
        0 <= n <= text.len(),
    ensures
        -n * (glyphs.len() * max_advance()) <= text_advance(glyphs, text, n) <= n * (glyphs.len()
            * max_advance()),
    decreases n,
{
    if n > 0 {
        lemma_text_advance_bound(glyphs, text, n - 1);
        lemma_char_advance_bound(glyphs, text[n - 1], glyphs.len() as int);
        let b = glyphs.len() * max_advance();
        assert((n - 1) * b + b == n * b) by (nonlinear_arith);
        assert(-(n - 1) * b - b == -n * b) by (nonlinear_arith);
    }
}

/// Inks pixel `(fx, fy)` with `ink` when it lies in the buffer.
fn ink_pixel(buf: &mut GFXBuffer, fx: i64, fy: i64, ink: &Vec<u8>)
    requires
        old(buf).wf(),
        ink.len() == 4,
    ensures
        painted(*old(buf), *final(buf), encode(old(buf).layout, ink@), |px: int, py: int| px == fx && py == fy),
{
    let ghost before = *buf;
    if fx < 0 || fy < 0 || fx >= buf.width as i64 || fy >= buf.height as i64 {
        return;
    }
    proof {
        lemma_pixel_index_bounds(before.width as int, before.height as int, fx as int, fy as int);
        lemma_wf_bounds(before);
        assert(ink@.subrange(0, 4) =~= ink@);
    }
    buf.set_pixel_vec_argb(fx as i32, fy as i32, ink);
    proof {
        lemma_write_pixel(before, *buf, fx as int, fy as int, encode(before.layout, ink@));
    }
}

/// Draws glyph `g` with its top left corner at `(ox, oy)`: every set bit
/// of the part that is drawn inks its pixel.
fn draw_glyph(buf: &mut GFXBuffer, g: &GlyphInfo, ox: i64, oy: i64, ink: &Vec<u8>)
    requires
        old(buf).wf(),
        ink.len() == 4,
        glyph_ok(*g),
        -0x6000_0000_0000_0000 <= ox <= 0x6000_0000_0000_0000,
        -0x6000_0000_0000_0000 <= oy <= 0x6000_0000_0000_0000,
    ensures
        painted(
            *old(buf),
            *final(buf),
            encode(old(buf).layout, ink@),
            |px: int, py: int| glyph_bit(*g, px - ox, py - oy),
        ),
{
    let ghost before = *buf;
    let ghost bytes = encode(before.layout, ink@);
    let mut j: i32 = 0;
    while j < g.height
        invariant
            ink.len() == 4,
            bytes == encode(before.layout, ink@),
            glyph_ok(*g),
            -0x6000_0000_0000_0000 <= ox <= 0x6000_0000_0000_0000,
            -0x6000_0000_0000_0000 <= oy <= 0x6000_0000_0000_0000,
            0 <= j,
            j <= g.height || g.height <= 0,
            painted(before, *buf, bytes, |px: int, py: int| glyph_bit(*g, px - ox, py - oy) && py - oy < j),
        decreases g.height - j,
    {
        let i_end: i64 = g.width as i64 - g.right as i64;
        let mut i: i64 = g.left as i64;
        while i < i_end
            invariant
                ink.len() == 4,
                bytes == encode(before.layout, ink@),
                glyph_ok(*g),
                -0x6000_0000_0000_0000 <= ox <= 0x6000_0000_0000_0000,
                -0x6000_0000_0000_0000 <= oy <= 0x6000_0000_0000_0000,
                0 <= j < g.height,
                i_end == g.width - g.right,
                g.left <= i,
                i <= i_end || i == g.left,
                painted(
                    before,
                    *buf,
                    bytes,
                    |px: int, py: int|
                        glyph_bit(*g, px - ox, py - oy) && (py - oy < j || (py - oy == j && px - ox < i)),
                ),
            decreases i_end - i,
        {
            proof {
                assert(in_glyph(*g, i as int, j as int));
                assert(0 <= bit_index(*g, i as int, j as int) < g.data@.len());
                assert(-0x4000_0000_0000_0000 <= (j as int) * (g.width as int) <= 0x4000_0000_0000_0000)
                    by (nonlinear_arith)
                    requires
                        0 <= j <= i32::MAX,
                        i32::MIN <= g.width <= i32::MAX,
                ;
            }
            let idx: i64 = (j as i64) * (g.width as i64) + i;
            assert(idx == bit_index(*g, i as int, j as int));
            let data_len = g.data.len();
            assert(0 <= idx < data_len);
            let ui: usize = idx as usize;
            let bit = g.data[ui];
            assert(bit == g.data@[bit_index(*g, i as int, j as int)]);
            assert(in_glyph(*g, i as int, j as int));
            assert(glyph_bit(*g, i as int, j as int) == (bit == 1));
            if bit == 1 {
                let ghost mid = *buf;
                ink_pixel(buf, ox + i, oy + j as i64, ink);
                proof {
                    assert forall|px: int, py: int| buf.in_bounds(px, py) implies #[trigger] buf.pixel_bytes(px, py)
                        == if glyph_bit(*g, px - ox, py - oy) && (py - oy < j || (py - oy == j && px - ox < i + 1)) {
                        bytes
                    } else {
                        before.pixel_bytes(px, py)
                    } by {
                        assert(mid.in_bounds(px, py));
                        assert(buf.pixel_bytes(px, py) == if px == ox + i && py == oy + j {
                            bytes
                        } else {
                            mid.pixel_bytes(px, py)
                        });
                        assert(mid.pixel_bytes(px, py) == if glyph_bit(*g, px - ox, py - oy) && (py - oy < j || (
                        py - oy == j && px - ox < i)) {
                            bytes
                        } else {
                            before.pixel_bytes(px, py)
                        });
                    }
                }
            } else {
                proof {
                    assert forall|px: int, py: int| buf.in_bounds(px, py) implies #[trigger] buf.pixel_bytes(px, py)
                        == if glyph_bit(*g, px - ox, py - oy) && (py - oy < j || (py - oy == j && px - ox < i + 1)) {
                        bytes
                    } else {
                        before.pixel_bytes(px, py)
                    } by {
                        assert(buf.pixel_bytes(px, py) == if glyph_bit(*g, px - ox, py - oy) && (py - oy < j || (
                        py - oy == j && px - ox < i)) {
                            bytes
                        } else {
                            before.pixel_bytes(px, py)
                        });
                    }
                }
            }
            i = i + 1;
        }
        proof {
            assert forall|px: int, py: int| buf.in_bounds(px, py) implies #[trigger] buf.pixel_bytes(px, py)
                == if glyph_bit(*g, px - ox, py - oy) && py - oy < j + 1 {
                bytes
            } else {
                before.pixel_bytes(px, py)
            } by {
                if py - oy == j && glyph_bit(*g, px - ox, py - oy) {
                    assert(px - ox < i);
                }
            }
        }
        j = j + 1;
    }
    proof {
        assert forall|px: int, py: int| buf.in_bounds(px, py) implies #[trigger] buf.pixel_bytes(px, py)
            == if glyph_bit(*g, px - ox, py - oy) {
            bytes
        } else {
            before.pixel_bytes(px, py)
        } by {
            if glyph_bit(*g, px - ox, py - oy) {
                assert(py - oy < j);
            }
        }
    }
}

/// Whether `g` is a glyph for `c`.
fn glyph_is_for(g: &GlyphInfo, c: char) -> (r: bool)
    ensures
        r == glyph_matches(*g, c),
{
    let low: u8 = g.id as u8;
    (low as u32) == (c as u32)
}

/// The pen's advance after `g`.
fn advance_of(g: &GlyphInfo) -> (r: i64)
    ensures
        r == glyph_advance(*g),
{
    (g.width as i64) - (g.left as i64) - (g.right as i64) + 1
}

/// Draws every glyph for `c`, left to right from `(ox, oy)`, each where the
/// pen stands after the ones before it; gives the pen's final position.
fn draw_char(buf: &mut GFXBuffer, glyphs: &Vec<GlyphInfo>, c: char, ox: i64, oy: i64, ink: &Vec<u8>) -> (pen: i64)
    requires
        old(buf).wf(),
        ink.len() == 4,
        forall|k: int| 0 <= k < glyphs@.len() && #[trigger] glyph_matches(glyphs@[k], c) ==> glyph_ok(glyphs@[k]),
        glyphs@.len() <= 0x1000_0000,
        -0x3000_0000_0000_0000 <= ox <= 0x3000_0000_0000_0000,
        -0x3000_0000_0000_0000 <= oy <= 0x3000_0000_0000_0000,
    ensures
        pen == ox + char_advance(glyphs@, c, glyphs@.len() as int),
        painted(
            *old(buf),
            *final(buf),
            encode(old(buf).layout, ink@),
            |px: int, py: int| char_inks(glyphs@, c, ox as int, oy as int, glyphs@.len() as int, px, py),
        ),
{
    let ghost before = *buf;
    let ghost bytes = encode(before.layout, ink@);
    let mut pen: i64 = ox;
    let mut k: usize = 0;
    while k < glyphs.len()
        invariant
            ink.len() == 4,
            bytes == encode(before.layout, ink@),
            forall|k: int| 0 <= k < glyphs@.len() && #[trigger] glyph_matches(glyphs@[k], c) ==> glyph_ok(glyphs@[k]),
            glyphs@.len() <= 0x1000_0000,
            -0x3000_0000_0000_0000 <= ox <= 0x3000_0000_0000_0000,
            -0x3000_0000_0000_0000 <= oy <= 0x3000_0000_0000_0000,
            k <= glyphs@.len(),
            pen == ox + char_advance(glyphs@, c, k as int),
            painted(before, *buf, bytes, |px: int, py: int| char_inks(glyphs@, c, ox as int, oy as int, k as int, px, py)),
        decreases glyphs@.len() - k,
    {
        proof {
            lemma_char_advance_bound(glyphs@, c, k as int);
            assert(k * max_advance() <= 0x1000_0000 * max_advance()) by (nonlinear_arith)
                requires
                    k <= 0x1000_0000,
            ;
        }
        let g = &glyphs[k];
        if glyph_is_for(g, c) {
            let ghost mid = *buf;
            draw_glyph(buf, g, pen, oy, ink);
            proof {
                assert forall|px: int, py: int| buf.in_bounds(px, py) implies #[trigger] buf.pixel_bytes(px, py)
                    == if char_inks(glyphs@, c, ox as int, oy as int, k + 1, px, py) {
                    bytes
                } else {
                    before.pixel_bytes(px, py)
                } by {
                    assert(mid.in_bounds(px, py));
                    let here = glyph_inks(glyphs@, c, ox as int, oy as int, k as int, px, py);
                    if char_inks(glyphs@, c, ox as int, oy as int, k + 1, px, py) && !here {
                        let k2 = choose|k2: int|
                            0 <= k2 < k + 1 && #[trigger] glyph_inks(glyphs@, c, ox as int, oy as int, k2, px, py);
                        assert(k2 < k);
                    }
                }
            }
            pen = pen + advance_of(g);
        } else {
            proof {
                assert forall|px: int, py: int| buf.in_bounds(px, py) implies #[trigger] buf.pixel_bytes(px, py)
                    == if char_inks(glyphs@, c, ox as int, oy as int, k + 1, px, py) {
                    bytes
                } else {
                    before.pixel_bytes(px, py)
                } by {
                    if char_inks(glyphs@, c, ox as int, oy as int, k + 1, px, py) {
                        let k2 = choose|k2: int|
                            0 <= k2 < k + 1 && #[trigger] glyph_inks(glyphs@, c, ox as int, oy as int, k2, px, py);
                        assert(k2 < k);
                    }
                }
            }
        }
        k = k + 1;
    }
    pen
}

impl FontInfo2 {
    /// Draws `text` into `buf` in `color`, starting with the pen at
    /// `(x, y)`: for each character in turn, every glyph for it is drawn
    /// where the pen stands and moves the pen right by the glyph's width
    /// less its cut columns, plus one. Pixels outside the buffer are skipped.
    pub fn draw_text_at(&self, buf: &mut GFXBuffer, text: &str, x: i32, y: i32, color: &ARGBColor)
        requires
            old(buf).wf(),
            glyphs_ok_for(self.glyphs@, text@),
            text@.len() * self.glyphs@.len() <= 0x1000_0000,
        ensures
            painted(
                *old(buf),
                *final(buf),
                encode(old(buf).layout, color.argb()),
                |px: int, py: int| text_inks(self.glyphs@, text@, x as int, y as int, text@.len() as int, px, py),
            ),
    {
        let ghost before = *buf;
        let ink = color.to_argb_vec();
        let ghost bytes = encode(before.layout, ink@);
        let chars = chars_of(text);
        let ghost glyphs = self.glyphs@;
        let mut pen: i64 = x as i64;
        let mut n: usize = 0;
        while n < chars.len()
            invariant
                ink.len() == 4,
                ink@ == color.argb(),
                bytes == encode(before.layout, ink@),
                chars@ == text@,
                glyphs == self.glyphs@,
                glyphs_ok_for(glyphs, text@),
                text@.len() * glyphs.len() <= 0x1000_0000,
                n <= chars@.len(),
                pen == x + text_advance(glyphs, text@, n as int),
                painted(before, *buf, bytes, |px: int, py: int| text_inks(glyphs, text@, x as int, y as int, n as int, px, py)),
            decreases chars@.len() - n,
        {
            proof {
                lemma_text_advance_bound(glyphs, text@, n as int);
                let b = glyphs.len() * max_advance();
                assert(n * b <= 0x1000_0000 * max_advance()) by (nonlinear_arith)
                    requires
                        n < text@.len(),
                        b == glyphs.len() * max_advance(),
                        text@.len() * glyphs.len() <= 0x1000_0000,
                        max_advance() > 0,
                ;
                assert(glyphs.len() <= 0x1000_0000) by (nonlinear_arith)
                    requires
                        n < text@.len(),
                        text@.len() * glyphs.len() <= 0x1000_0000,
                ;
                assert(0 <= n * b) by (nonlinear_arith)
                    requires
                        n >= 0,
                        b == glyphs.len() * max_advance(),
                        max_advance() > 0,
                ;
                assert(-n * b == -(n * b)) by (nonlinear_arith);
                assert(-0x2000_0000_0000_0000 <= text_advance(glyphs, text@, n as int) <= 0x2000_0000_0000_0000);
            }
            let c = chars[n];
            let ghost mid = *buf;
            let next = draw_char(buf, &self.glyphs, c, pen, y as i64, &ink);
            proof {
                assert forall|px: int, py: int| buf.in_bounds(px, py) implies #[trigger] buf.pixel_bytes(px, py)
                    == if text_inks(glyphs, text@, x as int, y as int, n + 1, px, py) {
                    bytes
                } else {
                    before.pixel_bytes(px, py)
                } by {
                    assert(mid.in_bounds(px, py));
                    let here = text_char_inks(glyphs, text@, x as int, y as int, n as int, px, py);
                    if text_inks(glyphs, text@, x as int, y as int, n + 1, px, py) && !here {
                        let n2 = choose|n2: int|
                            0 <= n2 < n + 1 && #[trigger] text_char_inks(glyphs, text@, x as int, y as int, n2, px, py);
                        assert(n2 < n);
                    }
                }
            }
            pen = next;
            n = n + 1;
        }
    }
}

/// A glyph's bits are stored row by row: the bit after column `i` of a row
/// is column `i + 1` of the same row, a row starts `width` bits after the
/// one above, and the first bit is column 0 of row 0. So `g` has ink at
/// column `i`, row `j` exactly when that part is drawn and bit
/// `j * width + i` is set.
pub proof fn lemma_glyph_bits_row_major(g: GlyphInfo, i: int, j: int)
    ensures
        bit_index(g, 0, 0) == 0,
        bit_index(g, i + 1, j) == bit_index(g, i, j) + 1,
        bit_index(g, i, j + 1) == bit_index(g, i, j) + g.width,
        glyph_bit(g, i, j) <==> in_glyph(g, i, j) && g.data@[j * g.width + i] == 1,
{
    assert((j + 1) * g.width == j * g.width + g.width) by (nonlinear_arith);
}

/// Drawing a one-character text with a font whose only glyph is one for
/// that character inks, relative to the pen, column `i` of row `j` exactly
/// when that part of the glyph is drawn and bit `j * width + i` of it is
/// set.
pub proof fn lemma_single_glyph_ink(g: GlyphInfo, c: char, ox: int, oy: int, i: int, j: int)
    requires
        glyph_matches(g, c),
    ensures
        text_inks(seq![g], seq![c], ox, oy, 1, ox + i, oy + j) <==> (in_glyph(g, i, j) && g.data@[j * g.width
            + i] == 1),
{
    let glyphs = seq![g];
    let text = seq![c];
    assert(char_advance(glyphs, c, 0) == 0);
    assert(text_advance(glyphs, text, 0) == 0);
    lemma_glyph_bits_row_major(g, i, j);
    if in_glyph(g, i, j) && g.data@[j * g.width + i] == 1 {
        assert(glyph_inks(glyphs, c, ox, oy, 0, ox + i, oy + j));
        assert(text_char_inks(glyphs, text, ox, oy, 0, ox + i, oy + j));
    }
    if text_inks(glyphs, text, ox, oy, 1, ox + i, oy + j) {
        assert(text_char_inks(glyphs, text, ox, oy, 0, ox + i, oy + j));
        assert(glyph_inks(glyphs, c, ox, oy, 0, ox + i, oy + j));
    }
}

/// With a font whose only glyph is `g`, drawing a character of `g` moves the
/// pen right by the glyph's width less its cut columns, plus one; a
/// character with no glyph leaves the pen where it is; and each character of
/// a text starts where the pen stopped after the one before.
pub proof fn lemma_pen_advance(g: GlyphInfo, c: char, text: Seq<char>, n: int)
    requires
        0 <= n < text.len(),
    ensures
        glyph_matches(g, c) ==> char_advance(seq![g], c, 1) == g.width - g.left - g.right + 1,
        !glyph_matches(g, c) ==> char_advance(seq![g], c, 1) == 0,
        text_advance(seq![g], text, 0) == 0,
        text_advance(seq![g], text, n + 1) == text_advance(seq![g], text, n) + char_advance(seq![g], text[n], 1),
{
    assert(char_advance(seq![g], c, 0) == 0);
}

} // verus!
