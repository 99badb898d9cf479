use vstd::prelude::*;
use crate::color::{bpp, decode, encode, encode_fill, pack_fill, ARGBColor, PixelLayout};
use crate::geom::{fits_i32, Point, Rect};
use crate::ids::fresh_id;

verus! {

/// A rectangular block of pixels stored row by row in one of the layouts.
#[derive(Clone, Debug)]
pub struct GFXBuffer {
    pub layout: PixelLayout,
    pub id: u128,
    pub width: u32,
    pub height: u32,
    pub data: Vec<u8>,
}

/// `y * w + x`: the position of pixel `(x, y)` counted row by row.
pub open spec fn pixel_index(w: int, x: int, y: int) -> int {
    y * w + x
}

/// Pixels inside a `w` by `h` grid have distinct positions inside the grid.
pub proof fn lemma_pixel_index_bounds(w: int, h: int, x: int, y: int)
    requires
        0 <= x < w,
        0 <= y < h,
    ensures
        0 <= pixel_index(w, x, y) < w * h,
        pixel_index(w, x, y) + 1 <= w * h,
        0 <= y * w <= (h - 1) * w,
{
    assert(0 <= y * w) by (nonlinear_arith)
        requires
            0 <= y,
            0 <= w,
    ;
    assert(y * w <= (h - 1) * w) by (nonlinear_arith)
        requires
            y <= h - 1,
            0 <= w,
    ;
    assert((h - 1) * w + w == w * h) by (nonlinear_arith);
}

/// Two different pixels of a grid have different positions.
pub proof fn lemma_pixel_index_injective(w: int, x1: int, y1: int, x2: int, y2: int)
    requires
        0 <= x1 < w,
        0 <= x2 < w,
        0 <= y1,
        0 <= y2,
        x1 != x2 || y1 != y2,
    ensures
        pixel_index(w, x1, y1) != pixel_index(w, x2, y2),
{
    if y1 == y2 {
    } else if y1 < y2 {
        assert(y1 * w + w <= y2 * w) by (nonlinear_arith)
            requires
                y1 < y2,
                0 <= w,
        ;
    } else {
        assert(y2 * w + w <= y1 * w) by (nonlinear_arith)
            requires
                y2 < y1,
                0 <= w,
        ;
    }
}


/// Simple consequences of well-formedness.
pub proof fn lemma_wf_bounds(b: GFXBuffer)
    requires
        b.wf(),
    ensures
        0 <= b.num_pixels() <= b.data@.len(),
        b.num_pixels() <= u32::MAX,
        b.num_pixels() <= i32::MAX,
        b.bpp() == 2 || b.bpp() == 4,
{
    assert(b.num_pixels() <= b.bpp() * b.num_pixels()) by (nonlinear_arith)
        requires
            b.bpp() >= 2,
            b.num_pixels() >= 0,
    ;
    assert(0 <= b.num_pixels()) by (nonlinear_arith)
        requires
            b.num_pixels() == b.width * b.height,
            b.width >= 0,
            b.height >= 0,
    ;
}

/// Replacing the bytes of the pixel at position `n` leaves the other pixels
/// as they were.
pub proof fn lemma_data_with(b: GFXBuffer, b2: GFXBuffer, n: int, bytes: Seq<u8>)
    requires
        b.wf(),
        b2.layout == b.layout,
        b2.width == b.width,
        b2.height == b.height,
        bytes.len() == b.bpp(),
        0 <= n < b.num_pixels(),
        b2.data@ == b.data_with(n, bytes),
    ensures
        b2.wf(),
        forall|m: int|
            0 <= m < b.num_pixels() ==> #[trigger] b2.bytes_at(m) == if m == n {
                bytes
            } else {
                b.bytes_at(m)
            },
{
    let np = b.num_pixels();
    assert(b2.data@.len() == b.data@.len());
    assert forall|m: int| 0 <= m < np implies #[trigger] b2.bytes_at(m) == if m == n {
        bytes
    } else {
        b.bytes_at(m)
    } by {
        if m == n {
            assert(b2.bytes_at(m) =~= bytes);
        } else {
            assert(b2.bytes_at(m) =~= b.bytes_at(m));
        }
    }
}

/// The pixel at `(x, y)` of an in-bounds position lies at position
/// `y * width + x`, inside the buffer, and no other in-bounds coordinates
/// share it.
pub proof fn lemma_pixel_position(b: GFXBuffer, x: int, y: int)
    requires
        b.wf(),
        b.in_bounds(x, y),
    ensures
        0 <= pixel_index(b.width as int, x, y) < b.num_pixels(),
        forall|x2: int, y2: int|
            #![trigger pixel_index(b.width as int, x2, y2)]
            b.in_bounds(x2, y2) && (x2 != x || y2 != y) ==> pixel_index(b.width as int, x2, y2)
                != pixel_index(b.width as int, x, y),
{
    lemma_pixel_index_bounds(b.width as int, b.height as int, x, y);
    assert forall|x2: int, y2: int|
        #![trigger pixel_index(b.width as int, x2, y2)]
        b.in_bounds(x2, y2) && (x2 != x || y2 != y) implies pixel_index(b.width as int, x2, y2)
        != pixel_index(b.width as int, x, y) by {
        lemma_pixel_index_injective(b.width as int, x2, y2, x, y);
    }
}


/// Writing the pixel at `(x0, y0)` changes that pixel only.
pub proof fn lemma_write_pixel(before: GFXBuffer, after: GFXBuffer, x0: int, y0: int, bytes: Seq<u8>)
    requires
        before.wf(),
        before.in_bounds(x0, y0),
        after.layout == before.layout,
        after.width == before.width,
        after.height == before.height,
        bytes.len() == before.bpp(),
        after.data@ == before.data_with(pixel_index(before.width as int, x0, y0), bytes),
    ensures
        after.wf(),
        after.pixel_bytes(x0, y0) == bytes,
        forall|x: int, y: int|
            after.in_bounds(x, y) ==> #[trigger] after.pixel_bytes(x, y) == if x == x0 && y == y0 {
                bytes
            } else {
                before.pixel_bytes(x, y)
            },
{
    let w = before.width as int;
    lemma_pixel_position(before, x0, y0);
    lemma_data_with(before, after, pixel_index(w, x0, y0), bytes);
    assert forall|x: int, y: int| after.in_bounds(x, y) implies #[trigger] after.pixel_bytes(x, y)
        == if x == x0 && y == y0 {
        bytes
    } else {
        before.pixel_bytes(x, y)
    } by {
        lemma_pixel_position(before, x, y);
        let m = pixel_index(w, x, y);
        assert(after.pixel_bytes(x, y) == after.bytes_at(m));
        assert(before.pixel_bytes(x, y) == before.bytes_at(m));
    }
}

/// In the four byte layout, `get_pixel_vec_argb` reads back at a pixel
/// that `set_pixel_vec_argb` has just written with the colour `v` the colour
/// `v` itself, and every other pixel as before.
pub proof fn lemma_write_then_read(before: GFXBuffer, after: GFXBuffer, x: int, y: int, v: Seq<u8>)
    requires
        before.wf(),
        before.layout == PixelLayout::ARGB(),
        before.in_bounds(x, y),
        v.len() == 4,
        after.layout == before.layout,
        after.width == before.width,
        after.height == before.height,
        after.data@ == before.data_with(pixel_index(before.width as int, x, y), encode(before.layout, v)),
    ensures
        after.pixel_argb(x, y) == v,
        forall|x2: int, y2: int|
            after.in_bounds(x2, y2) && (x2 != x || y2 != y) ==> #[trigger] after.pixel_argb(x2, y2)
                == before.pixel_argb(x2, y2),
{
    lemma_write_pixel(before, after, x, y, encode(before.layout, v));
    crate::color::lemma_argb_roundtrip(v);
}

/// A cell that a fill writes, at a position that is not negative, lies on
/// a row of the buffer, and its position is inside the buffer.
proof fn lemma_written_cell(w: int, h: int, i: int, j: int)
    requires
        0 <= w,
        i < w,
        j < h,
        0 <= pixel_index(w, i, j),
        w * h <= i32::MAX,
    ensures
        0 < w,
        0 <= j,
        0 <= j * w,
        j * w + i < w * h,
        j * w <= i32::MAX,
{
    assert(0 < w && 0 <= j) by (nonlinear_arith)
        requires
            0 <= w,
            i < w,
            0 <= j * w + i,
    ;
    assert(0 <= j * w && j * w + i < w * h && j * w < w * h) by (nonlinear_arith)
        requires
            0 < w,
            0 <= j < h,
            i < w,
    ;
}

/// The pixel at position `n` of a `w` by `h` grid.
proof fn lemma_pixel_of_index(w: int, h: int, n: int) -> (r: (int, int))
    requires
        0 < w,
        0 <= n < w * h,
    ensures
        0 <= r.0 < w,
        0 <= r.1 < h,
        pixel_index(w, r.0, r.1) == n,
{
    let x0 = n % w;
    let y0 = n / w;
    vstd::arithmetic::div_mod::lemma_fundamental_div_mod(n, w);
    vstd::arithmetic::div_mod::lemma_mod_pos_bound(n, w);
    assert(0 <= y0 < h) by (nonlinear_arith)
        requires
            0 < w,
            n == w * y0 + x0,
            0 <= x0 < w,
            0 <= n < w * h,
    ;
    assert(y0 * w + x0 == n) by (nonlinear_arith)
        requires
            n == w * y0 + x0,
    ;
    (x0, y0)
}

/// Two counts of cells that agree on every cell landing on a pixel of `b`
/// describe `b` alike.
proof fn lemma_tiled_equiv(
    old: GFXBuffer,
    a: GFXBuffer,
    b: GFXBuffer,
    rect: Rect,
    img: GFXBuffer,
    c1: spec_fn(int, int) -> bool,
    c2: spec_fn(int, int) -> bool,
)
    requires
        a.tiled_from(old, rect, img, c1),
        b.width == a.width,
        b.height == a.height,
        forall|px: int, py: int| b.in_bounds(px, py) ==> #[trigger] b.pixel_bytes(px, py) == a.pixel_bytes(px, py),
        forall|px: int, py: int, i: int, j: int|
            b.in_bounds(px, py) && #[trigger] old.lands_on(rect, i, j, px, py) ==> c1(i, j) == c2(i, j),
    ensures
        b.tiled_from(old, rect, img, c2),
{
    assert forall|px: int, py: int| #![trigger b.pixel_bytes(px, py)] b.in_bounds(px, py) implies {
        &&& (forall|i: int, j: int| !(#[trigger] old.lands_on(rect, i, j, px, py) && c2(i, j))) ==> b.pixel_bytes(
            px,
            py,
        ) == old.pixel_bytes(px, py)
        &&& forall|i: int, j: int|
            #[trigger] old.lands_on(rect, i, j, px, py) && c2(i, j) && (forall|i2: int, j2: int|
                #[trigger] old.lands_on(rect, i2, j2, px, py) && c2(i2, j2) ==> j2 <= j) ==> b.pixel_bytes(px, py)
                == old.tile_pixel(rect, img, i, j)
    } by {
        assert(b.pixel_bytes(px, py) == a.pixel_bytes(px, py));
        assert(a.in_bounds(px, py));
        if forall|i: int, j: int| !(#[trigger] old.lands_on(rect, i, j, px, py) && c2(i, j)) {
            assert forall|i: int, j: int| !(#[trigger] old.lands_on(rect, i, j, px, py) && c1(i, j)) by {
                if old.lands_on(rect, i, j, px, py) {
                    assert(c1(i, j) == c2(i, j));
                }
            }
        }
        assert forall|i: int, j: int|
            #[trigger] old.lands_on(rect, i, j, px, py) && c2(i, j) && (forall|i2: int, j2: int|
                #[trigger] old.lands_on(rect, i2, j2, px, py) && c2(i2, j2) ==> j2 <= j) implies b.pixel_bytes(
            px,
            py,
        ) == old.tile_pixel(rect, img, i, j) by {
            assert(c1(i, j));
            assert forall|i2: int, j2: int| #[trigger] old.lands_on(rect, i2, j2, px, py) && c1(i2, j2) implies j2
                <= j by {
                assert(c1(i2, j2) == c2(i2, j2));
            }
        }
    }
}

/// Writing the tile of cell `(i, j)` onto the pixel `(x0, y0)` it lands on
/// adds that cell to the cells written.
proof fn lemma_tile_step(
    old: GFXBuffer,
    before: GFXBuffer,
    after: GFXBuffer,
    rect: Rect,
    img: GFXBuffer,
    i: int,
    j: int,
    x0: int,
    y0: int,
)
    requires
        old.wf(),
        before.width == old.width,
        before.height == old.height,
        after.width == old.width,
        after.height == old.height,
        before.in_bounds(x0, y0),
        old.lands_on(rect, i, j, x0, y0),
        after.pixel_bytes(x0, y0) == old.tile_pixel(rect, img, i, j),
        forall|x: int, y: int|
            after.in_bounds(x, y) && (x != x0 || y != y0) ==> #[trigger] after.pixel_bytes(x, y)
                == before.pixel_bytes(x, y),
        before.tiled_from(old, rect, img, |i2: int, j2: int| j2 < j || (j2 == j && i2 < i)),
    ensures
        after.tiled_from(old, rect, img, |i2: int, j2: int| j2 < j || (j2 == j && i2 < i + 1)),
{
    let w = old.width as int;
    let c_old = |i2: int, j2: int| j2 < j || (j2 == j && i2 < i);
    let c_new = |i2: int, j2: int| j2 < j || (j2 == j && i2 < i + 1);
    assert forall|px: int, py: int| #![trigger after.pixel_bytes(px, py)] after.in_bounds(px, py) implies {
        &&& (forall|i2: int, j2: int| !(#[trigger] old.lands_on(rect, i2, j2, px, py) && c_new(i2, j2)))
            ==> after.pixel_bytes(px, py) == old.pixel_bytes(px, py)
        &&& forall|i2: int, j2: int|
            #[trigger] old.lands_on(rect, i2, j2, px, py) && c_new(i2, j2) && (forall|i3: int, j3: int|
                #[trigger] old.lands_on(rect, i3, j3, px, py) && c_new(i3, j3) ==> j3 <= j2) ==> after.pixel_bytes(
                px,
                py,
            ) == old.tile_pixel(rect, img, i2, j2)
    } by {
        if px == x0 && py == y0 {
            assert(old.lands_on(rect, i, j, px, py) && c_new(i, j));
            assert forall|i2: int, j2: int|
                #[trigger] old.lands_on(rect, i2, j2, px, py) && c_new(i2, j2) && (forall|i3: int, j3: int|
                    #[trigger] old.lands_on(rect, i3, j3, px, py) && c_new(i3, j3) ==> j3 <= j2) implies after.pixel_bytes(
                px,
                py,
            ) == old.tile_pixel(rect, img, i2, j2) by {
                assert(j <= j2);
                assert(j2 == j);
                assert(i2 == i);
            }
        } else {
            assert forall|i2: int, j2: int| #[trigger] old.lands_on(rect, i2, j2, px, py) implies c_new(i2, j2)
                == c_old(i2, j2) by {
                if i2 == i && j2 == j {
                    lemma_pixel_index_injective(w, px, py, x0, y0);
                }
            }
            assert(after.pixel_bytes(px, py) == before.pixel_bytes(px, py));
            if forall|i2: int, j2: int| !(#[trigger] old.lands_on(rect, i2, j2, px, py) && c_new(i2, j2)) {
                assert forall|i2: int, j2: int| !(#[trigger] old.lands_on(rect, i2, j2, px, py) && c_old(i2, j2)) by {
                    if old.lands_on(rect, i2, j2, px, py) {
                        assert(c_new(i2, j2) == c_old(i2, j2));
                    }
                }
            }
            assert forall|i2: int, j2: int|
                #[trigger] old.lands_on(rect, i2, j2, px, py) && c_new(i2, j2) && (forall|i3: int, j3: int|
                    #[trigger] old.lands_on(rect, i3, j3, px, py) && c_new(i3, j3) ==> j3 <= j2) implies after.pixel_bytes(
                px,
                py,
            ) == old.tile_pixel(rect, img, i2, j2) by {
                assert(c_old(i2, j2));
                assert forall|i3: int, j3: int| #[trigger] old.lands_on(rect, i3, j3, px, py) && c_old(i3, j3) implies j3
                    <= j2 by {
                    assert(c_new(i3, j3) == c_old(i3, j3));
                }
            }
        }
    }
}

/// Positions counted row by row grow along a row and from row to row.
proof fn lemma_flat_index_between(w: int, x0: int, y0: int, x1: int, y1: int, x: int, y: int)
    requires
        0 <= w,
        x0 <= x <= x1,
        y0 <= y <= y1,
    ensures
        pixel_index(w, x0, y0) <= pixel_index(w, x, y) <= pixel_index(w, x1, y1),
{
    assert(y0 * w <= y * w <= y1 * w) by (nonlinear_arith)
        requires
            0 <= w,
            y0 <= y <= y1,
    ;
}

/// Two cells of a window narrower than a row that share a position are the
/// same cell.
proof fn lemma_window_injective(w: int, lo: int, width: int, a1: int, b1: int, a2: int, b2: int)
    requires
        0 <= width <= w,
        lo <= a1 < lo + width,
        lo <= a2 < lo + width,
        pixel_index(w, a1, b1) == pixel_index(w, a2, b2),
    ensures
        a1 == a2,
        b1 == b2,
{
    if b1 < b2 {
        assert(b1 * w + w <= b2 * w) by (nonlinear_arith)
            requires
                b1 < b2,
                0 <= w,
        ;
    } else if b2 < b1 {
        assert(b2 * w + w <= b1 * w) by (nonlinear_arith)
            requires
                b2 < b1,
                0 <= w,
        ;
    }
}

/// A rectangle inside the buffer, moved by `(dx, dy)`, is written safely
/// pixel by pixel exactly when its top left corner is: that corner has the
/// lowest position of all.
proof fn lemma_corner_writes(b: GFXBuffer, d: Rect, dx: int, dy: int)
    requires
        b.wf(),
        0 <= d.x,
        d.x + d.w <= b.width,
        0 <= d.y,
        d.y + d.h <= b.height,
        !d.spec_is_empty(),
    ensures
        (forall|i: int, j: int| #[trigger] d.spec_contains(i, j) ==> b.write_ok(i + dx, j + dy))
            == b.write_ok(d.x + dx, d.y + dy),
{
    let w = b.width as int;
    let h = b.height as int;
    let tx0 = d.x + dx;
    let ty0 = d.y + dy;
    assert(d.spec_contains(d.x as int, d.y as int));
    lemma_wf_bounds(b);
    assert(w * h <= i32::MAX) by (nonlinear_arith)
        requires
            b.bpp() * (w * h) <= u32::MAX,
            b.bpp() >= 2,
            w * h >= 0,
    ;
    if b.write_ok(tx0, ty0) {
        assert forall|i: int, j: int| #[trigger] d.spec_contains(i, j) implies b.write_ok(i + dx, j + dy) by {
            if b.writes_at(i + dx, j + dy) {
                assert(b.writes_at(tx0, ty0));
                let ty = j + dy;
                assert(ty0 * w <= ty * w) by (nonlinear_arith)
                    requires
                        ty0 <= ty,
                        0 <= w,
                ;
                if ty >= 0 {
                    assert(ty * w <= w * h) by (nonlinear_arith)
                        requires
                            0 <= ty < h,
                            0 <= w,
                    ;
                } else {
                    assert(ty * w <= 0) by (nonlinear_arith)
                        requires
                            ty < 0,
                            0 <= w,
                    ;
                }
            }
        }
    }
}

/// One pixel drawn between layouts: the pixel of the target at `(i, j)`,
/// written `dst_pos` further on, joins those already drawn.
proof fn lemma_cross_step(
    old_self: GFXBuffer,
    before: GFXBuffer,
    after: GFXBuffer,
    dst_pos: Point,
    d: Rect,
    src: GFXBuffer,
    i: int,
    j: int,
)
    requires
        old_self.wf(),
        before.wf(),
        before.width == old_self.width,
        before.height == old_self.height,
        before.layout == old_self.layout,
        after.width == old_self.width,
        after.height == old_self.height,
        after.layout == old_self.layout,
        0 <= d.x,
        d.x + d.w <= old_self.width,
        0 <= d.y,
        d.y + d.h <= old_self.height,
        d.spec_contains(i, j),
        old_self.write_ok(i + dst_pos.x, j + dst_pos.y),
        !old_self.writes_at(i + dst_pos.x, j + dst_pos.y) ==> after.data@ == before.data@,
        old_self.writes_at(i + dst_pos.x, j + dst_pos.y) ==> after.data@ == before.data_with(
            pixel_index(old_self.width as int, i + dst_pos.x, j + dst_pos.y),
            encode(old_self.layout, src.pixel_argb(i, j)),
        ),
        forall|x: int, y: int|
            old_self.in_bounds(x, y) ==> #[trigger] before.pixel_bytes(x, y) == if old_self.written_before(
                dst_pos,
                d,
                x,
                y,
                i,
                j,
            ) {
                old_self.cross_pixel(dst_pos, d, src, x, y)
            } else {
                old_self.pixel_bytes(x, y)
            },
    ensures
        after.wf(),
        forall|x: int, y: int|
            old_self.in_bounds(x, y) ==> #[trigger] after.pixel_bytes(x, y) == if old_self.written_before(
                dst_pos,
                d,
                x,
                y,
                i + 1,
                j,
            ) {
                old_self.cross_pixel(dst_pos, d, src, x, y)
            } else {
                old_self.pixel_bytes(x, y)
            },
{
    let w = old_self.width as int;
    let h = old_self.height as int;
    let tx = i + dst_pos.x;
    let ty = j + dst_pos.y;
    let n = pixel_index(w, tx, ty);
    let bytes = encode(old_self.layout, src.pixel_argb(i, j));
    lemma_wf_bounds(old_self);
    assert(w * h <= i32::MAX) by (nonlinear_arith)
        requires
            old_self.bpp() * (w * h) <= u32::MAX,
            old_self.bpp() >= 2,
            w * h >= 0,
    ;
    if old_self.writes_at(tx, ty) {
        lemma_written_cell(w, h, tx, ty);
        lemma_data_with(before, after, n, bytes);
    } else {
        assert(after.wf());
    }
    assert forall|x: int, y: int| old_self.in_bounds(x, y) implies #[trigger] after.pixel_bytes(x, y)
        == if old_self.written_before(dst_pos, d, x, y, i + 1, j) {
        old_self.cross_pixel(dst_pos, d, src, x, y)
    } else {
        old_self.pixel_bytes(x, y)
    } by {
        lemma_pixel_position(before, x, y);
        let m = pixel_index(w, x, y);
        assert(after.pixel_bytes(x, y) == after.bytes_at(m));
        assert(before.pixel_bytes(x, y) == before.bytes_at(m));
        if old_self.writes_at(tx, ty) && m == n {
            assert(old_self.lands_from(dst_pos, d, i, j, x, y));
            assert(old_self.written_before(dst_pos, d, x, y, i + 1, j));
            let (i2, j2) = choose|i2: int, j2: int| #[trigger] old_self.lands_from(dst_pos, d, i2, j2, x, y);
            lemma_window_injective(w, d.x + dst_pos.x, d.w as int, i2 + dst_pos.x, j2 + dst_pos.y, tx, ty);
            assert(old_self.cross_pixel(dst_pos, d, src, x, y) == bytes);
        } else {
            if old_self.writes_at(tx, ty) {
                assert(after.bytes_at(m) == before.bytes_at(m));
            } else {
                assert(after.bytes_at(m) =~= before.bytes_at(m));
            }
            if old_self.written_before(dst_pos, d, x, y, i + 1, j) {
                let (i2, j2) = choose|i2: int, j2: int|
                    #[trigger] old_self.lands_from(dst_pos, d, i2, j2, x, y) && (j2 < j || (j2 == j && i2 < i + 1));
                assert(!(i2 == i && j2 == j));
                assert(old_self.written_before(dst_pos, d, x, y, i, j));
            }
            if old_self.written_before(dst_pos, d, x, y, i, j) {
                let (i2, j2) = choose|i2: int, j2: int|
                    #[trigger] old_self.lands_from(dst_pos, d, i2, j2, x, y) && (j2 < j || (j2 == j && i2 < i));
                assert(old_self.lands_from(dst_pos, d, i2, j2, x, y) && (j2 < j || (j2 == j && i2 < i + 1)));
            }
        }
    }
}

/// The bytes of every pixel of a fresh buffer are zero.
pub proof fn lemma_fresh_pixels(b: GFXBuffer)
    requires
        b.wf(),
        b.data@ == Seq::new((b.bpp() * b.num_pixels()) as nat, |i: int| 0u8),
    ensures
        forall|x: int, y: int|
            b.in_bounds(x, y) ==> #[trigger] b.pixel_bytes(x, y) == Seq::new(
                b.bpp() as nat,
                |i: int| 0u8,
            ),
{
    assert forall|x: int, y: int| b.in_bounds(x, y) implies #[trigger] b.pixel_bytes(x, y)
        == Seq::new(b.bpp() as nat, |i: int| 0u8) by {
        lemma_pixel_position(b, x, y);
        let n = pixel_index(b.width as int, x, y);
        assert(b.bpp() * n + b.bpp() <= b.bpp() * b.num_pixels()) by (nonlinear_arith)
            requires
                n + 1 <= b.num_pixels(),
                b.bpp() >= 0,
        ;
        assert(0 <= b.bpp() * n) by (nonlinear_arith)
            requires
                n >= 0,
                b.bpp() >= 0,
        ;
        assert(b.pixel_bytes(x, y) =~= Seq::new(b.bpp() as nat, |i: int| 0u8));
    }
}

/// A row of `size` pixels, each holding the bytes of `color`.
pub fn create_filled_row(size: usize, color: &Vec<u8>) -> (nv: Vec<u8>)
    requires
        color.len() > 0,
        size * color.len() <= usize::MAX,
    ensures
        nv.len() == size * color.len(),
        forall|i: int| 0 <= i < nv.len() ==> #[trigger] nv[i] == color[i % (color.len() as int)],
{
    let clen = color.len();
    let mut nv: Vec<u8> = Vec::new();
    let mut n: usize = 0;
    while n < size
        invariant
            clen == color.len(),
            clen > 0,
            size * clen <= usize::MAX,
            n <= size,
            nv.len() == n * clen,
            forall|i: int| 0 <= i < nv.len() ==> #[trigger] nv[i] == color[i % (clen as int)],
        decreases size - n,
    {
        proof {
            assert((n + 1) * clen <= size * clen) by (nonlinear_arith)
                requires
                    n + 1 <= size,
                    clen >= 0,
            ;
            assert((n + 1) * clen == n * clen + clen) by (nonlinear_arith);
        }
        let mut k: usize = 0;
        while k < clen
            invariant
                clen == color.len(),
                clen > 0,
                k <= clen,
                (n + 1) * clen <= usize::MAX,
                nv.len() == n * clen + k,
                forall|i: int| 0 <= i < nv.len() ==> #[trigger] nv[i] == color[i % (clen as int)],
            decreases clen - k,
        {
            proof {
                vstd::arithmetic::div_mod::lemma_fundamental_div_mod_converse(
                    (n * clen + k) as int,
                    clen as int,
                    n as int,
                    k as int,
                );
                assert((n * clen + k) as int == n as int * clen as int + k as int);
            }
            nv.push(color[k]);
            k = k + 1;
        }
        n = n + 1;
    }
    nv
}

impl GFXBuffer {
    pub open spec fn bpp(&self) -> int {
        bpp(self.layout)
    }

    pub open spec fn num_pixels(&self) -> int {
        self.width * self.height
    }

    /// The byte count matches the extent and layout, and the extent is
    /// small enough for the signed 32 bit arithmetic used on coordinates.
    pub open spec fn wf(&self) -> bool {
        &&& self.data@.len() == self.bpp() * self.num_pixels()
        &&& self.bpp() * self.num_pixels() <= u32::MAX
        &&& self.width <= i32::MAX
        &&& self.height <= i32::MAX
    }

    pub open spec fn in_bounds(&self, x: int, y: int) -> bool {
        0 <= x < self.width && 0 <= y < self.height
    }

    /// The stored bytes of the pixel at position `n` counted row by row.
    pub open spec fn bytes_at(&self, n: int) -> Seq<u8> {
        self.data@.subrange(self.bpp() * n, self.bpp() * n + self.bpp())
    }

    pub open spec fn pixel_bytes(&self, x: int, y: int) -> Seq<u8> {
        self.bytes_at(pixel_index(self.width as int, x, y))
    }

    /// The colour, as `[a, r, g, b]`, of a pixel; outside the buffer it is
    /// four zeros.
    pub open spec fn pixel_argb(&self, x: int, y: int) -> Seq<u8> {
        if self.in_bounds(x, y) {
            decode(self.layout, self.pixel_bytes(x, y))
        } else {
            seq![0u8, 0u8, 0u8, 0u8]
        }
    }

    pub open spec fn spec_bounds(&self) -> Rect {
        Rect { x: 0, y: 0, w: self.width as i32, h: self.height as i32 }
    }

    /// A buffer of the given extent with every byte zero and a fresh id.
    pub fn new(width: u32, height: u32, layout: &PixelLayout) -> (buf: GFXBuffer)
        requires
            bpp(*layout) * (width * height) <= u32::MAX,
            width <= i32::MAX,
            height <= i32::MAX,
        ensures
            buf.wf(),
            buf.width == width,
            buf.height == height,
            buf.layout == *layout,
            buf.data@ == Seq::new((bpp(*layout) * (width * height)) as nat, |i: int| 0u8),
            (buf.id >> 76u128) & 0xfu128 == 4,
            (buf.id >> 62u128) & 0x3u128 == 2,
    {
        assert(width * height <= bpp(*layout) * (width * height)) by (nonlinear_arith)
            requires
                bpp(*layout) >= 2,
                width * height >= 0,
        ;
        let nbytes = layout.bytes_per_pixel() as u32;
        let byte_length: u32 = nbytes * (width * height);
        let data: Vec<u8> = vec![0u8; byte_length as usize];
        let buf = GFXBuffer { data, width, height, id: fresh_id(), layout: *layout };
        assert(buf.data@ =~= Seq::new((bpp(*layout) * (width * height)) as nat, |i: int| 0u8));
        buf
    }

    pub fn bounds(&self) -> (r: Rect)
        requires
            self.wf(),
        ensures
            r == self.spec_bounds(),
            r.w == self.width,
            r.h == self.height,
    {
        Rect { x: 0, y: 0, w: self.width as i32, h: self.height as i32 }
    }

    /// Bytes in one row.
    pub fn stride(&self) -> (n: usize)
        requires
            self.bpp() * self.width <= u32::MAX,
        ensures
            n == self.bpp() * self.width,
    {
        ((self.layout.bytes_per_pixel() as u32) * self.width) as usize
    }

    /// The colour of a pixel as `[a, r, g, b]`; a pixel outside the buffer
    /// reads as four zeros.
    pub fn get_pixel_vec_argb(&self, x: i32, y: i32) -> (v: Vec<u8>)
        requires
            self.wf(),
        ensures
            v@ == self.pixel_argb(x as int, y as int),
    {
        let mut v: Vec<u8> = vec![0, 0, 0, 0];
        if x < 0 || x >= self.width as i32 || y < 0 || y >= self.height as i32 {
            assert(v@ =~= self.pixel_argb(x as int, y as int));
            return v;
        }
        proof {
            lemma_pixel_index_bounds(self.width as int, self.height as int, x as int, y as int);
            lemma_wf_bounds(*self);
        }
        assert((y as u32) as int * self.width as int == y as int * self.width as int);
        let n: usize = (x as u32 + (y as u32) * self.width) as usize;
        assert(n == pixel_index(self.width as int, x as int, y as int));
        let ghost pb = self.pixel_bytes(x as int, y as int);
        match self.layout {
            PixelLayout::RGB565() => {
                assert(n * 2 + 2 <= self.data@.len()) by (nonlinear_arith)
                    requires
                        n + 1 <= self.num_pixels(),
                        self.data@.len() == 2 * self.num_pixels(),
                ;
                assert(self.bpp() == 2);
                assert(pb == self.bytes_at(n as int));
                assert(self.bpp() * n == n * 2);
                assert(pb =~= self.data@.subrange(n * 2, n * 2 + 2));
                assert(pb[0] == self.data@[n * 2 + 0] && pb[1] == self.data@[n * 2 + 1]);
                let first = self.data[n * 2 + 0];
                let second = self.data[n * 2 + 1];
                let r: u8 = (first >> 3u8) << 3u8;
                let g: u8 = ((first & 0b0000_0111u8) << 5u8) | ((second >> 5u8) << 2u8);
                let b: u8 = (second & 0b0001_1111u8) << 3u8;
                v[0] = 255;
                v[1] = r;
                v[2] = g;
                v[3] = b;
            },
            PixelLayout::ARGB() => {
                assert(n * 4 + 4 <= self.data@.len()) by (nonlinear_arith)
                    requires
                        n + 1 <= self.num_pixels(),
                        self.data@.len() == 4 * self.num_pixels(),
                ;
                assert(self.bpp() == 4);
                assert(pb == self.bytes_at(n as int));
                assert(self.bpp() * n == n * 4);
                assert(pb =~= self.data@.subrange(n * 4, n * 4 + 4));
                assert(pb[0] == self.data@[n * 4 + 0] && pb[1] == self.data@[n * 4 + 1]);
                assert(pb[2] == self.data@[n * 4 + 2] && pb[3] == self.data@[n * 4 + 3]);
                v[0] = self.data[n * 4 + 0];
                v[1] = self.data[n * 4 + 1];
                v[2] = self.data[n * 4 + 2];
                v[3] = self.data[n * 4 + 3];
            },
        }
        assert(v@ =~= self.pixel_argb(x as int, y as int));
        v
    }

    /// Whether `set_pixel_vec_argb(x, y, ..)` writes: it writes exactly when
    /// `x < width` and `y < height`, at position `x + y * width`.
    pub open spec fn writes_at(&self, x: int, y: int) -> bool {
        x < self.width && y < self.height
    }

    /// The coordinates for which a write does not overflow or fall before
    /// the start of the buffer.
    pub open spec fn write_ok(&self, x: int, y: int) -> bool {
        self.writes_at(x, y) ==> (fits_i32(y * self.width) && 0 <= pixel_index(
            self.width as int,
            x,
            y,
        ))
    }

    /// The data with the pixel at position `n` replaced by `bytes`.
    pub open spec fn data_with(&self, n: int, bytes: Seq<u8>) -> Seq<u8> {
        self.data@.subrange(0, self.bpp() * n) + bytes + self.data@.subrange(
            self.bpp() * n + self.bpp(),
            self.data@.len() as int,
        )
    }

    /// Stores the colour `[a, r, g, b]` given by `v` at pixel `(x, y)`,
    /// converted to the buffer's layout. A pixel right of or below the buffer
    /// is ignored; the position written is `x + y * width`.
    pub fn set_pixel_vec_argb(&mut self, x: i32, y: i32, v: &Vec<u8>)
        requires
            old(self).wf(),
            v.len() >= 4,
            old(self).write_ok(x as int, y as int),
        ensures
            final(self).wf(),
            final(self).width == old(self).width,
            final(self).height == old(self).height,
            final(self).layout == old(self).layout,
            final(self).id == old(self).id,
            !old(self).writes_at(x as int, y as int) ==> final(self).data@ == old(self).data@,
            old(self).writes_at(x as int, y as int) ==> final(self).data@ == old(self).data_with(
                pixel_index(old(self).width as int, x as int, y as int),
                encode(old(self).layout, v@.subrange(0, 4)),
            ),
    {
        if x >= self.width as i32 || y >= self.height as i32 {
            return;
        }
        let ghost w = self.width as int;
        let ghost h = self.height as int;
        proof {
            if y < 0 {
                assert(y * w <= 0) by (nonlinear_arith)
                    requires
                        y < 0,
                        w >= 0,
                ;
            } else {
                lemma_pixel_index_bounds(w, h, 0, y as int);
            }
            assert(pixel_index(w, x as int, y as int) < w * h) by (nonlinear_arith)
                requires
                    x < w,
                    y < h,
                    fits_i32(y * w),
                    y * w + x >= 0,
                    w >= 0,
            ;
        }
        let n: usize = (x as i64 + (y as i64) * (self.width as i64)) as usize;
        assert(n == pixel_index(w, x as int, y as int));
        assert(n < w * h);
        assert(self.data@.len() == self.bpp() * (w * h));
        match self.layout {
            PixelLayout::RGB565() => {
                let r = v[1];
                let g = v[2];
                let b = v[3];
                let upper: u8 = ((r >> 3u8) << 3u8) | ((g & 0b111_00000u8) >> 5u8);
                let lower: u8 = (((g & 0b00011100u8) >> 2u8) << 5u8) | ((b & 0b1111_1000u8) >> 3u8);
                self.data[n * 2 + 0] = lower;
                self.data[n * 2 + 1] = upper;
            },
            PixelLayout::ARGB() => {
                self.data[n * 4 + 0] = v[0];
                self.data[n * 4 + 1] = v[1];
                self.data[n * 4 + 2] = v[2];
                self.data[n * 4 + 3] = v[3];
            },
        }
        assert(self.data@ =~= old(self).data_with(
            pixel_index(w, x as int, y as int),
            encode(old(self).layout, v@.subrange(0, 4)),
        ));
    }

    pub fn set_pixel_argb(&mut self, x: i32, y: i32, a: u8, r: u8, g: u8, b: u8)
        requires
            old(self).wf(),
            old(self).write_ok(x as int, y as int),
        ensures
            final(self).wf(),
            final(self).width == old(self).width,
            final(self).height == old(self).height,
            final(self).layout == old(self).layout,
            final(self).id == old(self).id,
            !old(self).writes_at(x as int, y as int) ==> final(self).data@ == old(self).data@,
            old(self).writes_at(x as int, y as int) ==> final(self).data@ == old(self).data_with(
                pixel_index(old(self).width as int, x as int, y as int),
                encode(old(self).layout, seq![a, r, g, b]),
            ),
    {
        let v = vec![a, r, g, b];
        assert(v@.subrange(0, 4) =~= seq![a, r, g, b]);
        self.set_pixel_vec_argb(x, y, &v);
    }

    /// Every pixel of the buffer holds `bytes`.
    pub open spec fn all_pixels(&self, bytes: Seq<u8>) -> bool {
        forall|x: int, y: int| self.in_bounds(x, y) ==> #[trigger] self.pixel_bytes(x, y) == bytes
    }

    /// Sets every pixel to `color`.
    pub fn clear(&mut self, color: &ARGBColor)
        requires
            old(self).wf(),
            old(self).width > 0,
        ensures
            final(self).wf(),
            final(self).width == old(self).width,
            final(self).height == old(self).height,
            final(self).layout == old(self).layout,
            final(self).id == old(self).id,
            final(self).all_pixels(encode(old(self).layout, color.argb())),
    {
        let cv = color.as_layout(&self.layout);
        let np: usize = (self.width * self.height) as usize;
        proof {
            assert(np * cv.len() == cv.len() * np) by (nonlinear_arith);
        }
        let cv2 = create_filled_row(np, &cv);
        self.data = cv2;
        proof {
            let nb = self.bpp();
            assert forall|x: int, y: int| self.in_bounds(x, y) implies #[trigger] self.pixel_bytes(
                x,
                y,
            ) == encode(self.layout, color.argb()) by {
                lemma_pixel_position(*self, x, y);
                let n = pixel_index(self.width as int, x, y);
                assert(nb * n + nb <= nb * (self.width * self.height)) by (nonlinear_arith)
                    requires
                        n + 1 <= self.width * self.height,
                        nb >= 0,
                ;
                assert(0 <= nb * n) by (nonlinear_arith)
                    requires
                        n >= 0,
                        nb >= 0,
                ;
                assert(self.pixel_bytes(x, y).len() == nb);
                assert forall|k: int| 0 <= k < nb implies #[trigger] self.pixel_bytes(x, y)[k]
                    == cv@[k] by {
                    assert(nb * n == n * nb) by (nonlinear_arith);
                    vstd::arithmetic::div_mod::lemma_fundamental_div_mod_converse(
                        nb * n + k,
                        nb,
                        n,
                        k,
                    );
                    assert(nb * n + k < nb * (self.width * self.height)) by (nonlinear_arith)
                        requires
                            n + 1 <= self.width * self.height,
                            0 <= k < nb,
                    ;
                }
                assert(self.pixel_bytes(x, y) =~= cv@);
            }
        }
    }

    /// Every in-bounds pixel inside `r` holds `bytes`; every other one keeps
    /// its bytes in `old`.
    pub open spec fn unchanged_outside(&self, old: GFXBuffer, r: Rect, bytes: Seq<u8>) -> bool {
        forall|x: int, y: int|
            self.in_bounds(x, y) ==> #[trigger] self.pixel_bytes(x, y) == if r.spec_contains(x, y) {
                bytes
            } else {
                old.pixel_bytes(x, y)
            }
    }

    /// Overwrites the pixel at position `n` with `bytes`.
    fn put_bytes(&mut self, n: usize, bytes: &Vec<u8>)
        requires
            old(self).wf(),
            bytes.len() == old(self).bpp(),
            n < old(self).num_pixels(),
        ensures
            final(self).wf(),
            final(self).width == old(self).width,
            final(self).height == old(self).height,
            final(self).layout == old(self).layout,
            final(self).id == old(self).id,
            final(self).data@ == old(self).data_with(n as int, bytes@),
            forall|m: int|
                0 <= m < old(self).num_pixels() ==> #[trigger] final(self).bytes_at(m) == if m
                    == n {
                    bytes@
                } else {
                    old(self).bytes_at(m)
                },
    {
        let nb: usize = self.layout.bytes_per_pixel() as usize;
        let ghost old_self = *self;
        proof {
            assert(nb * n + nb <= nb * old_self.num_pixels()) by (nonlinear_arith)
                requires
                    n + 1 <= old_self.num_pixels(),
                    nb >= 0,
            ;
        }
        let mut k: usize = 0;
        while k < nb
            invariant
                nb == old_self.bpp(),
                nb == bytes.len(),
                nb * n + nb <= old_self.data@.len(),
                old_self.wf(),
                self.data@.len() == old_self.data@.len(),
                self.layout == old_self.layout,
                self.width == old_self.width,
                self.height == old_self.height,
                self.id == old_self.id,
                k <= nb,
                forall|i: int|
                    0 <= i < self.data@.len() ==> #[trigger] self.data@[i] == if nb * n <= i < nb * n
                        + k {
                        bytes@[i - nb * n]
                    } else {
                        old_self.data@[i]
                    },
            decreases nb - k,
        {
            self.data[nb * n + k] = bytes[k];
            k = k + 1;
        }
        assert(self.data@ =~= old_self.data_with(n as int, bytes@));
        proof {
            lemma_data_with(old_self, *self, n as int, bytes@);
        }
    }

    /// Fills the part of `bounds` that lies inside the buffer with `color`,
    /// stored as `encode_fill` gives it: in the 5-6-5 layout the high byte
    /// comes first.
    pub fn fill_rect(&mut self, bounds: Rect, color: &ARGBColor)
        requires
            old(self).wf(),
            old(self).width > 0,
            bounds.spec_intersect(old(self).spec_bounds()).h > 0 ==> bounds.spec_intersect(
                old(self).spec_bounds(),
            ).x <= old(self).width,
        ensures
            final(self).wf(),
            final(self).width == old(self).width,
            final(self).height == old(self).height,
            final(self).layout == old(self).layout,
            final(self).id == old(self).id,
            final(self).unchanged_outside(*old(self), bounds, encode_fill(old(self).layout, color.argb())),
    {
        let ghost old_self = *self;
        let b = bounds.intersect(self.bounds());
        proof {
            crate::geom::lemma_intersect_values(bounds, old_self.spec_bounds());
        }
        let cv = pack_fill(&self.layout, color.a, color.r, color.g, color.b);
        let w = self.width;
        let ghost bytes = cv@;
        let mut j: i32 = b.y;
        let y_end: i32 = if b.h > 0 { b.y + b.h } else { b.y };
        let x_end: i32 = if b.w > 0 { b.x + b.w } else { b.x };
        assert(b.y >= 0 && b.x >= 0);
        assert(old_self.spec_bounds().bottom() == self.height);
        assert(old_self.spec_bounds().right() == self.width);
        assert(b.h > 0 ==> b.y + b.h <= self.height);
        assert(b.h > 0 ==> x_end <= w);
        while j < y_end
            invariant
                self.wf(),
                self.width == old_self.width,
                self.height == old_self.height,
                self.layout == old_self.layout,
                self.id == old_self.id,
                old_self.wf(),
                w == self.width,
                b == bounds.spec_intersect(old_self.spec_bounds()),
                cv@ == bytes,
                bytes == encode_fill(old_self.layout, color.argb()),
                0 <= b.y <= j <= y_end,
                b.h > 0 ==> y_end <= self.height,
                0 <= b.x <= x_end,
                b.h > 0 ==> x_end <= w,
                j < y_end ==> b.h > 0,
                y_end == b.y + b.h || b.h == 0,
                x_end == b.x + b.w || b.w == 0,
                forall|x: int, y: int|
                    self.in_bounds(x, y) ==> #[trigger] self.pixel_bytes(x, y) == if b.x <= x
                        < x_end && b.y <= y < j {
                        bytes
                    } else {
                        old_self.pixel_bytes(x, y)
                    },
            decreases y_end - j,
        {
            let mut i: i32 = b.x;
            while i < x_end
                invariant
                    self.wf(),
                    self.width == old_self.width,
                    self.height == old_self.height,
                    self.layout == old_self.layout,
                    self.id == old_self.id,
                    old_self.wf(),
                    w == self.width,
                    cv@ == bytes,
                    bytes == encode_fill(old_self.layout, color.argb()),
                    0 <= b.y <= j < y_end <= self.height,
                    0 <= b.x <= i <= x_end <= w,
                    j < self.height,
                    forall|x: int, y: int|
                        self.in_bounds(x, y) ==> #[trigger] self.pixel_bytes(x, y) == if (b.x <= x
                            < x_end && b.y <= y < j) || (b.x <= x < i && y == j) {
                            bytes
                        } else {
                            old_self.pixel_bytes(x, y)
                        },
                decreases x_end - i,
            {
                proof {
                    lemma_pixel_position(*self, i as int, j as int);
                    lemma_wf_bounds(*self);
                }
                assert((j as u32) as int * (w as int) == j as int * w as int);
                let n: usize = (i as u32 + (j as u32) * w) as usize;
                assert(n == pixel_index(w as int, i as int, j as int));
                let ghost before = *self;
                self.put_bytes(n, &cv);
                proof {
                    assert forall|x: int, y: int| self.in_bounds(x, y) implies #[trigger] self.pixel_bytes(
                        x,
                        y,
                    ) == if (b.x <= x < x_end && b.y <= y < j) || (b.x <= x < i + 1 && y == j) {
                        bytes
                    } else {
                        old_self.pixel_bytes(x, y)
                    } by {
                        lemma_pixel_position(before, x, y);
                        lemma_pixel_position(before, i as int, j as int);
                        let m = pixel_index(w as int, x, y);
                        assert(self.pixel_bytes(x, y) == self.bytes_at(m));
                        assert(before.pixel_bytes(x, y) == before.bytes_at(m));
                        assert(before.in_bounds(x, y));
                        if x == i && y == j {
                            assert(m == n);
                            assert(self.bytes_at(m) == cv@);
                        } else {
                            assert(m != n);
                            assert(self.bytes_at(m) == before.bytes_at(m));
                        }
                    }
                }
                i = i + 1;
            }
            j = j + 1;
        }
        proof {
            assert forall|x: int, y: int| self.in_bounds(x, y) implies #[trigger] self.pixel_bytes(
                x,
                y,
            ) == if bounds.spec_contains(x, y) {
                bytes
            } else {
                old_self.pixel_bytes(x, y)
            } by {
                crate::geom::lemma_intersect_contains(bounds, old_self.spec_bounds(), x, y);
            }
        }
    }

    /// A copy of the buffer converted, pixel by pixel, to another layout.
    pub fn to_layout(&self, layout: &PixelLayout) -> (buf: GFXBuffer)
        requires
            self.wf(),
            bpp(*layout) * (self.width * self.height) <= u32::MAX,
        ensures
            buf.wf(),
            buf.width == self.width,
            buf.height == self.height,
            buf.layout == *layout,
            forall|x: int, y: int|
                buf.in_bounds(x, y) ==> #[trigger] buf.pixel_bytes(x, y) == encode(
                    *layout,
                    self.pixel_argb(x, y),
                ),
    {
        let mut buf = GFXBuffer::new(self.width, self.height, layout);
        let mut j: u32 = 0;
        while j < self.height
            invariant
                self.wf(),
                buf.wf(),
                buf.width == self.width,
                buf.height == self.height,
                buf.layout == *layout,
                j <= self.height,
                forall|x: int, y: int|
                    buf.in_bounds(x, y) && y < j ==> #[trigger] buf.pixel_bytes(x, y) == encode(
                        *layout,
                        self.pixel_argb(x, y),
                    ),
            decreases self.height - j,
        {
            let mut i: u32 = 0;
            while i < self.width
                invariant
                    self.wf(),
                    buf.wf(),
                    buf.width == self.width,
                    buf.height == self.height,
                    buf.layout == *layout,
                    j < self.height,
                    i <= self.width,
                    forall|x: int, y: int|
                        buf.in_bounds(x, y) && (y < j || (y == j && x < i)) ==> #[trigger] buf.pixel_bytes(
                            x,
                            y,
                        ) == encode(*layout, self.pixel_argb(x, y)),
                decreases self.width - i,
            {
                let v = self.get_pixel_vec_argb(i as i32, j as i32);
                let ghost before = buf;
                proof {
                    lemma_pixel_index_bounds(buf.width as int, buf.height as int, i as int, j as int);
                    lemma_wf_bounds(buf);
                }
                buf.set_pixel_vec_argb(i as i32, j as i32, &v);
                proof {
                    assert(v@.subrange(0, 4) =~= v@);
                    lemma_write_pixel(before, buf, i as int, j as int, encode(*layout, v@));
                }
                i = i + 1;
            }
            j = j + 1;
        }
        buf
    }

    /// What `sub_rect(rect)` holds at `(i, j)`: the pixel of this buffer at
    /// `(rect.x + i, rect.y + j)` where that lies left of the right edge and
    /// above the bottom edge (reading zeros left of or above the buffer), and
    /// zero bytes elsewhere.
    pub open spec fn sub_rect_pixel(&self, rect: Rect, i: int, j: int) -> Seq<u8> {
        if rect.x + i < self.width && rect.y + j < self.height {
            encode(self.layout, self.pixel_argb(rect.x + i, rect.y + j))
        } else {
            Seq::new(self.bpp() as nat, |k: int| 0u8)
        }
    }

    /// A new buffer, in the same layout, holding the part of this buffer
    /// under `rect`.
    pub fn sub_rect(&self, rect: Rect) -> (sub: GFXBuffer)
        requires
            self.wf(),
            rect.w >= 0,
            rect.h >= 0,
            self.bpp() * (rect.w * rect.h) <= u32::MAX,
            rect.x + rect.w - 1 <= i32::MAX,
            rect.y + rect.h - 1 <= i32::MAX,
        ensures
            sub.wf(),
            sub.width == rect.w,
            sub.height == rect.h,
            sub.layout == self.layout,
            forall|i: int, j: int|
                sub.in_bounds(i, j) ==> #[trigger] sub.pixel_bytes(i, j) == self.sub_rect_pixel(
                    rect,
                    i,
                    j,
                ),
    {
        let mut sub = GFXBuffer::new(rect.w as u32, rect.h as u32, &self.layout);
        proof {
            lemma_fresh_pixels(sub);
        }
        let mut j: u32 = 0;
        while j < sub.height
            invariant
                self.wf(),
                sub.wf(),
                sub.width == rect.w,
                sub.height == rect.h,
                sub.layout == self.layout,
                rect.x + rect.w - 1 <= i32::MAX,
                rect.y + rect.h - 1 <= i32::MAX,
                j <= sub.height,
                forall|i: int, jj: int|
                    sub.in_bounds(i, jj) ==> #[trigger] sub.pixel_bytes(i, jj) == if jj < j {
                        self.sub_rect_pixel(rect, i, jj)
                    } else {
                        Seq::new(self.bpp() as nat, |k: int| 0u8)
                    },
            decreases sub.height - j,
        {
            let mut i: u32 = 0;
            while i < sub.width
                invariant
                    self.wf(),
                    sub.wf(),
                    sub.width == rect.w,
                    sub.height == rect.h,
                    sub.layout == self.layout,
                    rect.x + rect.w - 1 <= i32::MAX,
                    rect.y + rect.h - 1 <= i32::MAX,
                    j < sub.height,
                    i <= sub.width,
                    forall|ii: int, jj: int|
                        sub.in_bounds(ii, jj) ==> #[trigger] sub.pixel_bytes(ii, jj) == if jj < j
                            || (jj == j && ii < i) {
                            self.sub_rect_pixel(rect, ii, jj)
                        } else {
                            Seq::new(self.bpp() as nat, |k: int| 0u8)
                        },
                decreases sub.width - i,
            {
                let x: i32 = rect.x + i as i32;
                let y: i32 = rect.y + j as i32;
                if x < (self.width as i32) && y < (self.height as i32) {
                    let val = self.get_pixel_vec_argb(x, y);
                    let ghost before = sub;
                    proof {
                        lemma_pixel_index_bounds(sub.width as int, sub.height as int, i as int, j as int);
                        lemma_wf_bounds(sub);
                    }
                    sub.set_pixel_vec_argb(i as i32, j as i32, &val);
                    proof {
                        assert(val@.subrange(0, 4) =~= val@);
                        lemma_write_pixel(before, sub, i as int, j as int, encode(self.layout, val@));
                    }
                } else {
                    proof {
                        let z = Seq::new(self.bpp() as nat, |k: int| 0u8);
                        assert(self.sub_rect_pixel(rect, i as int, j as int) == z);
                    }
                }
                i = i + 1;
            }
            j = j + 1;
        }
        sub
    }

    /// Colour of a pixel, as `[a, r, g, b]`, converted to the bytes of a
    /// layout.
    pub fn get_pixel_vec_as_layout(&self, layout: &PixelLayout, x: i32, y: i32) -> (v: Vec<u8>)
        requires
            self.wf(),
        ensures
            v@ == encode(*layout, self.pixel_argb(x as int, y as int)),
    {
        let pix = self.get_pixel_vec_argb(x, y);
        let color = ARGBColor::from_argb_vec(&pix);
        assert(color.argb() =~= self.pixel_argb(x as int, y as int));
        color.as_layout(&layout)
    }

    /// What `fill_rect_with_image(rect, img)` writes for cell `(x, y)` of
    /// `rect`: `img` tiled over `rect`, starting at its top left corner.
    pub open spec fn tile_pixel(&self, rect: Rect, img: GFXBuffer, x: int, y: int) -> Seq<u8> {
        encode(self.layout, img.pixel_argb((x - rect.x) % (img.width as int), (y - rect.y) % (img.height as int)))
    }

    /// Cell `(i, j)` of `rect` is one that `fill_rect_with_image` writes,
    /// being left of the right edge and above the bottom edge, and its write
    /// lands on pixel `(px, py)`: both have the position `i + j * width`. A
    /// cell left of the buffer lands on the end of an earlier row.
    pub open spec fn lands_on(&self, rect: Rect, i: int, j: int, px: int, py: int) -> bool {
        &&& rect.spec_contains(i, j)
        &&& i < self.width
        &&& j < self.height
        &&& pixel_index(self.width as int, i, j) == pixel_index(self.width as int, px, py)
    }

    /// `self` is `old` with the cells of `rect` for which `counted` holds
    /// written: a pixel on which no such cell lands keeps its bytes, and
    /// otherwise holds the tile of the lowest such cell that lands on it.
    pub open spec fn tiled_from(
        &self,
        old: GFXBuffer,
        rect: Rect,
        img: GFXBuffer,
        counted: spec_fn(int, int) -> bool,
    ) -> bool {
        forall|px: int, py: int|
            #![trigger self.pixel_bytes(px, py)]
            self.in_bounds(px, py) ==> {
                &&& (forall|i: int, j: int| !(#[trigger] old.lands_on(rect, i, j, px, py) && counted(i, j)))
                    ==> self.pixel_bytes(px, py) == old.pixel_bytes(px, py)
                &&& forall|i: int, j: int|
                    #[trigger] old.lands_on(rect, i, j, px, py) && counted(i, j) && (forall|i2: int, j2: int|
                        #[trigger] old.lands_on(rect, i2, j2, px, py) && counted(i2, j2) ==> j2 <= j)
                        ==> self.pixel_bytes(px, py) == old.tile_pixel(rect, img, i, j)
            }
    }

    /// `self` is `old` after `fill_rect_with_image(rect, img)`: the cells of
    /// `rect` are written row by row, so a pixel holds the tile of the last
    /// cell that lands on it, or its old bytes when none does. When `rect`
    /// starts inside the buffer, that is the tile for the pixels of `rect`
    /// and the old bytes elsewhere.
    pub open spec fn image_filled(&self, old: GFXBuffer, rect: Rect, img: GFXBuffer) -> bool {
        &&& self.wf()
        &&& self.width == old.width
        &&& self.height == old.height
        &&& self.layout == old.layout
        &&& self.id == old.id
        &&& self.tiled_from(old, rect, img, |i: int, j: int| true)
    }

    /// Fills `rect` with copies of `img`, repeated across and down, converted
    /// to this buffer's layout. Cells of `rect` right of or below the buffer
    /// are skipped; a cell left of the buffer is written at its position
    /// counted row by row, on an earlier row.
    pub fn fill_rect_with_image(&mut self, rect: &Rect, img: &GFXBuffer)
        requires
            old(self).fill_image_ok(*rect, *img),
        ensures
            final(self).image_filled(*old(self), *rect, *img),
    {
        let ghost old_self = *self;
        if rect.w <= 0 || rect.h <= 0 {
            assert forall|px: int, py: int| #![trigger self.pixel_bytes(px, py)] self.in_bounds(px, py) implies
                forall|i: int, j: int| !(#[trigger] old_self.lands_on(*rect, i, j, px, py) && true) by {}
            return;
        }
        let mut j: i32 = rect.y;
        while j < rect.y + rect.h
            invariant
                old_self.fill_image_ok(*rect, *img),
                self.wf(),
                self.width == old_self.width,
                self.height == old_self.height,
                self.layout == old_self.layout,
                self.id == old_self.id,
                rect.w > 0,
                rect.h > 0,
                rect.y <= j <= rect.y + rect.h,
                self.tiled_from(old_self, *rect, *img, |i2: int, j2: int| j2 < j),
            decreases rect.y + rect.h - j,
        {
            let mut i: i32 = rect.x;
            while i < rect.x + rect.w
                invariant
                    old_self.fill_image_ok(*rect, *img),
                    self.wf(),
                    self.width == old_self.width,
                    self.height == old_self.height,
                    self.layout == old_self.layout,
                    self.id == old_self.id,
                    rect.w > 0,
                    rect.h > 0,
                    rect.y <= j < rect.y + rect.h,
                    rect.x <= i <= rect.x + rect.w,
                    self.tiled_from(old_self, *rect, *img, |i2: int, j2: int| j2 < j || (j2 == j && i2 < i)),
                decreases rect.x + rect.w - i,
            {
                let sx: u32 = (i - rect.x) as u32 % img.width;
                let sy: u32 = (j - rect.y) as u32 % img.height;
                assert(sx as int == (i - rect.x) % (img.width as int));
                assert(sy as int == (j - rect.y) % (img.height as int));
                let v = img.get_pixel_vec_argb(sx as i32, sy as i32);
                assert(encode(self.layout, v@) == old_self.tile_pixel(*rect, *img, i as int, j as int));
                let ghost before = *self;
                let ghost bytes = encode(self.layout, v@);
                if i < self.width as i32 && j < self.height as i32 {
                    let ghost w = self.width as int;
                    proof {
                        assert(rect.spec_contains(i as int, j as int));
                        assert(0 <= pixel_index(w, i as int, j as int));
                        lemma_wf_bounds(*self);
                        lemma_written_cell(w, self.height as int, i as int, j as int);
                    }
                    self.set_pixel_vec_argb(i, j, &v);
                    proof {
                        assert(v@.subrange(0, 4) =~= v@);
                        let (x0, y0) = lemma_pixel_of_index(w, self.height as int, pixel_index(w, i as int, j as int));
                        lemma_write_pixel(before, *self, x0, y0, bytes);
                        lemma_tile_step(old_self, before, *self, *rect, *img, i as int, j as int, x0, y0);
                    }
                } else {
                    self.set_pixel_vec_argb(i, j, &v);
                    proof {
                        assert(self.data@ == before.data@);
                        lemma_tiled_equiv(
                            old_self,
                            before,
                            *self,
                            *rect,
                            *img,
                            |i2: int, j2: int| j2 < j || (j2 == j && i2 < i),
                            |i2: int, j2: int| j2 < j || (j2 == j && i2 < i + 1),
                        );
                    }
                }
                i = i + 1;
            }
            proof {
                lemma_tiled_equiv(
                    old_self,
                    *self,
                    *self,
                    *rect,
                    *img,
                    |i2: int, j2: int| j2 < j || (j2 == j && i2 < i),
                    |i2: int, j2: int| j2 < j + 1,
                );
            }
            j = j + 1;
        }
        proof {
            lemma_tiled_equiv(old_self, *self, *self, *rect, *img, |i2: int, j2: int| j2 < j, |i2: int, j2: int| true);
        }
    }

    /// The stored bytes of the pixel at position `n`.
    fn get_bytes(&self, n: usize) -> (v: Vec<u8>)
        requires
            self.wf(),
            n < self.num_pixels(),
        ensures
            v@ == self.bytes_at(n as int),
            v@.len() == self.bpp(),
    {
        let nb: usize = self.layout.bytes_per_pixel() as usize;
        proof {
            lemma_wf_bounds(*self);
            assert(nb * n + nb <= nb * self.num_pixels()) by (nonlinear_arith)
                requires
                    n + 1 <= self.num_pixels(),
                    nb >= 0,
            ;
        }
        let mut v: Vec<u8> = Vec::new();
        let mut k: usize = 0;
        while k < nb
            invariant
                self.wf(),
                nb == self.bpp(),
                nb * n + nb <= self.data@.len(),
                k <= nb,
                v@ == self.data@.subrange(nb * n, nb * n + k),
            decreases nb - k,
        {
            v.push(self.data[nb * n + k]);
            k = k + 1;
            assert(v@ =~= self.data@.subrange(nb * n, nb * n + k));
        }
        v
    }

    /// Where `draw_image(dst_pos, src_bounds, ..)` draws: `src_bounds` moved
    /// by `dst_pos` and cut to this buffer.
    pub open spec fn draw_target(&self, dst_pos: Point, src_bounds: Rect) -> Rect {
        Rect {
            x: (src_bounds.x + dst_pos.x) as i32,
            y: (src_bounds.y + dst_pos.y) as i32,
            w: src_bounds.w,
            h: src_bounds.h,
        }.spec_intersect(self.spec_bounds())
    }

    /// The inputs on which `draw_image` stays inside the buffers and its
    /// signed 32 bit arithmetic does not overflow. The target is moved back
    /// by `dst_pos` into `src`'s coordinates. In the same layout each row of
    /// the target is copied from `src` at the position, counted row by row,
    /// of the `src` pixel under its start; those rows must lie inside `src`.
    pub open spec fn draw_ok(&self, dst_pos: Point, src_bounds: Rect, src: GFXBuffer) -> bool {
        let d = self.draw_target(dst_pos, src_bounds);
        &&& fits_i32(src_bounds.x + dst_pos.x)
        &&& fits_i32(src_bounds.y + dst_pos.y)
        &&& !d.spec_is_empty() ==> fits_i32(d.x - dst_pos.x) && fits_i32(d.y - dst_pos.y)
        &&& !d.spec_is_empty() && src.layout == self.layout ==> self.rows_copy_ok(d, dst_pos, src)
        &&& !d.spec_is_empty() && src.layout != self.layout ==> {
            &&& fits_i32(d.x + d.w - 1 + dst_pos.x)
            &&& fits_i32(d.y + d.h - 1 + dst_pos.y)
            &&& forall|i: int, j: int|
                #[trigger] d.spec_contains(i, j) ==> self.write_ok(i + dst_pos.x, j + dst_pos.y)
        }
    }

    /// Copying the rows of the target `d` from `src` in the same layout: the
    /// rows read lie inside `src`, and their offsets in bytes, the offsets
    /// of the rows written and a row's length in bytes fit in 32 bits.
    /// Offsets grow from row to row, so the first and the last row bound
    /// them all.
    pub open spec fn rows_copy_ok(&self, d: Rect, dst_pos: Point, src: GFXBuffer) -> bool {
        let sw = src.width as int;
        let sx0 = d.x - dst_pos.x;
        let sy0 = d.y - dst_pos.y;
        let sy1 = sy0 + d.h - 1;
        &&& fits_i32(sy1)
        &&& fits_i32(sy0 * sw)
        &&& fits_i32(sy1 * sw)
        &&& 0 <= pixel_index(sw, sx0, sy0)
        &&& self.bpp() * pixel_index(sw, sx0, sy1) <= i32::MAX
        &&& pixel_index(sw, sx0 + d.w - 1, sy1) < src.num_pixels()
        &&& self.bpp() * d.w <= i32::MAX
        &&& self.bpp() * pixel_index(self.width as int, d.x as int, d.y + d.h - 1) <= i32::MAX
    }

    /// Between layouts the pixel `(i, j)` of the target is written, `dst_pos`
    /// further on, at the position of the pixel `(x, y)`.
    pub open spec fn lands_from(&self, dst_pos: Point, d: Rect, i: int, j: int, x: int, y: int) -> bool {
        &&& d.spec_contains(i, j)
        &&& self.writes_at(i + dst_pos.x, j + dst_pos.y)
        &&& pixel_index(self.width as int, i + dst_pos.x, j + dst_pos.y) == pixel_index(
            self.width as int,
            x,
            y,
        )
    }

    /// Some pixel of the target that comes before `(ci, cj)`, row by row, is
    /// written at the position of `(x, y)`.
    pub open spec fn written_before(&self, dst_pos: Point, d: Rect, x: int, y: int, ci: int, cj: int) -> bool {
        exists|i: int, j: int|
            #[trigger] self.lands_from(dst_pos, d, i, j, x, y) && (j < cj || (j == cj && i < ci))
    }

    /// What drawing between layouts leaves at `(x, y)`: the converted colour
    /// of the pixel of `src` read at the coordinates of the target pixel
    /// written there, if one is.
    pub open spec fn cross_pixel(&self, dst_pos: Point, d: Rect, src: GFXBuffer, x: int, y: int) -> Seq<u8> {
        if exists|i: int, j: int| #[trigger] self.lands_from(dst_pos, d, i, j, x, y) {
            let (i, j) = choose|i: int, j: int| #[trigger] self.lands_from(dst_pos, d, i, j, x, y);
            encode(self.layout, src.pixel_argb(i, j))
        } else {
            self.pixel_bytes(x, y)
        }
    }

    /// Whether, once `draw_image` has reached the target pixel `(ci, cj)`,
    /// the pixel `(x, y)` holds what the drawing leaves there.
    pub open spec fn draw_progress(
        &self,
        dst_pos: Point,
        src_bounds: Rect,
        src: GFXBuffer,
        x: int,
        y: int,
        ci: int,
        cj: int,
    ) -> bool {
        let d = self.draw_target(dst_pos, src_bounds);
        if src.layout == self.layout {
            d.spec_contains(x, y) && (y < cj || (y == cj && x < ci))
        } else {
            self.written_before(dst_pos, d, x, y, ci, cj)
        }
    }

    /// What `draw_image` leaves at `(x, y)`. In the same layout the pixels of
    /// `src` are copied so that the bytes at the position of `src` pixel
    /// `(x - dst_pos.x, y - dst_pos.y)` land on `(x, y)` inside the target.
    /// Between layouts each pixel of the target read from `src` at the
    /// target's own coordinates is converted and stored `dst_pos` further
    /// on, at the position that coordinate has counted row by row.
    pub open spec fn drawn_pixel(&self, dst_pos: Point, src_bounds: Rect, src: GFXBuffer, x: int, y: int) -> Seq<u8> {
        let d = self.draw_target(dst_pos, src_bounds);
        if d.spec_is_empty() {
            self.pixel_bytes(x, y)
        } else if src.layout == self.layout {
            if d.spec_contains(x, y) {
                src.pixel_bytes(x - dst_pos.x, y - dst_pos.y)
            } else {
                self.pixel_bytes(x, y)
            }
        } else {
            self.cross_pixel(dst_pos, d, src, x, y)
        }
    }

    /// Draws the part `src_bounds` of `src` with its top left corner at
    /// `dst_pos`.
    pub fn draw_image(&mut self, dst_pos: &Point, src_bounds: &Rect, src_buf: &GFXBuffer)
        requires
            old(self).wf(),
            src_buf.wf(),
            old(self).draw_ok(*dst_pos, *src_bounds, *src_buf),
        ensures
            final(self).wf(),
            final(self).width == old(self).width,
            final(self).height == old(self).height,
            final(self).layout == old(self).layout,
            final(self).id == old(self).id,
            forall|x: int, y: int|
                final(self).in_bounds(x, y) ==> #[trigger] final(self).pixel_bytes(x, y)
                    == old(self).drawn_pixel(*dst_pos, *src_bounds, *src_buf, x, y),
    {
        let ghost old_self = *self;
        let dst_f_bounds = src_bounds.add(dst_pos).intersect(self.bounds());
        proof {
            crate::geom::lemma_intersect_values(
                src_bounds.add_spec(*dst_pos),
                old_self.spec_bounds(),
            );
        }
        if dst_f_bounds.is_empty() {
            return;
        }
        let d = dst_f_bounds;
        assert(d == old_self.draw_target(*dst_pos, *src_bounds));
        let x_end: i32 = d.x + d.w;
        let y_end: i32 = d.y + d.h;
        let w = self.width;
        let same = match (src_buf.layout, self.layout) {
            (PixelLayout::ARGB(), PixelLayout::ARGB()) => true,
            (PixelLayout::RGB565(), PixelLayout::RGB565()) => true,
            _ => false,
        };
        let mut j: i32 = d.y;
        proof {
            assert forall|x: int, y: int| old_self.draw_progress(*dst_pos, *src_bounds, *src_buf, x, y, d.x as int, d.y as int) implies false by {
                if !same {
                    let (i2, j2) = choose|i2: int, j2: int|
                        #[trigger] old_self.lands_from(*dst_pos, d, i2, j2, x, y) && (j2 < d.y || (j2 == d.y && i2 < d.x));
                }
            }
        }
        while j < y_end
            invariant
                self.wf(),
                old_self.wf(),
                src_buf.wf(),
                self.width == old_self.width,
                self.height == old_self.height,
                self.layout == old_self.layout,
                self.id == old_self.id,
                old_self.draw_ok(*dst_pos, *src_bounds, *src_buf),
                d == old_self.draw_target(*dst_pos, *src_bounds),
                !d.spec_is_empty(),
                same == (src_buf.layout == old_self.layout),
                x_end == d.x + d.w,
                y_end == d.y + d.h,
                w == self.width,
                0 <= d.x,
                0 <= d.y,
                x_end <= w,
                y_end <= self.height,
                d.y <= j <= y_end,
                forall|x: int, y: int|
                    self.in_bounds(x, y) ==> #[trigger] self.pixel_bytes(x, y) == if old_self.draw_progress(
                        *dst_pos,
                        *src_bounds,
                        *src_buf,
                        x,
                        y,
                        d.x as int,
                        j as int,
                    ) {
                        old_self.drawn_pixel(*dst_pos, *src_bounds, *src_buf, x, y)
                    } else {
                        old_self.pixel_bytes(x, y)
                    },
            decreases y_end - j,
        {
            let mut i: i32 = d.x;
            while i < x_end
                invariant
                    self.wf(),
                    old_self.wf(),
                    src_buf.wf(),
                    self.width == old_self.width,
                    self.height == old_self.height,
                    self.layout == old_self.layout,
                    self.id == old_self.id,
                    old_self.draw_ok(*dst_pos, *src_bounds, *src_buf),
                    d == old_self.draw_target(*dst_pos, *src_bounds),
                    !d.spec_is_empty(),
                    same == (src_buf.layout == old_self.layout),
                    x_end == d.x + d.w,
                    y_end == d.y + d.h,
                    w == self.width,
                    0 <= d.x,
                    0 <= d.y,
                    x_end <= w,
                    y_end <= self.height,
                    d.y <= j < y_end,
                    d.x <= i <= x_end,
                    forall|x: int, y: int|
                        self.in_bounds(x, y) ==> #[trigger] self.pixel_bytes(x, y) == if old_self.draw_progress(
                            *dst_pos,
                            *src_bounds,
                            *src_buf,
                            x,
                            y,
                            i as int,
                            j as int,
                        ) {
                            old_self.drawn_pixel(*dst_pos, *src_bounds, *src_buf, x, y)
                        } else {
                            old_self.pixel_bytes(x, y)
                        },
                decreases x_end - i,
            {
                let ghost before = *self;
                if same {
                    let sx: i64 = i as i64 - dst_pos.x as i64;
                    let sy: i64 = j as i64 - dst_pos.y as i64;
                    proof {
                        lemma_flat_index_between(
                            src_buf.width as int,
                            d.x - dst_pos.x,
                            d.y - dst_pos.y,
                            d.x + d.w - 1 - dst_pos.x,
                            d.y + d.h - 1 - dst_pos.y,
                            sx as int,
                            sy as int,
                        );
                        lemma_pixel_position(*self, i as int, j as int);
                        lemma_wf_bounds(*self);
                        lemma_wf_bounds(*src_buf);
                        assert((j as u32) as int * w as int == j as int * w as int);
                    }
                    let flat: i64 = sy * (src_buf.width as i64) + sx;
                    assert(0 <= flat < src_buf.num_pixels());
                    let sn: usize = flat as usize;
                    let dn: usize = (i as u32 + (j as u32) * w) as usize;
                    let bytes = src_buf.get_bytes(sn);
                    self.put_bytes(dn, &bytes);
                    proof {
                        assert(self.data@ == before.data_with(pixel_index(w as int, i as int, j as int), bytes@));
                        lemma_write_pixel(before, *self, i as int, j as int, bytes@);
                        assert forall|x: int, y: int| self.in_bounds(x, y) implies #[trigger] self.pixel_bytes(
                            x,
                            y,
                        ) == if old_self.draw_progress(*dst_pos, *src_bounds, *src_buf, x, y, i + 1, j as int) {
                            old_self.drawn_pixel(*dst_pos, *src_bounds, *src_buf, x, y)
                        } else {
                            old_self.pixel_bytes(x, y)
                        } by {
                            if x == i && y == j {
                            } else {
                                assert(self.pixel_bytes(x, y) == before.pixel_bytes(x, y));
                            }
                        }
                    }
                } else {
                    let v = src_buf.get_pixel_vec_argb(i, j);
                    let tx: i32 = i + dst_pos.x;
                    let ty: i32 = j + dst_pos.y;
                    assert(d.spec_contains(i as int, j as int));
                    self.set_pixel_vec_argb(tx, ty, &v);
                    proof {
                        assert(v@.subrange(0, 4) =~= v@);
                        lemma_cross_step(old_self, before, *self, *dst_pos, d, *src_buf, i as int, j as int);
                    }
                }
                i = i + 1;
            }
            proof {
                assert forall|x: int, y: int|
                    old_self.draw_progress(*dst_pos, *src_bounds, *src_buf, x, y, x_end as int, j as int)
                        == old_self.draw_progress(*dst_pos, *src_bounds, *src_buf, x, y, d.x as int, j + 1) by {
                    if !same {
                        if old_self.draw_progress(*dst_pos, *src_bounds, *src_buf, x, y, x_end as int, j as int) {
                            let (i2, j2) = choose|i2: int, j2: int|
                                #[trigger] old_self.lands_from(*dst_pos, d, i2, j2, x, y) && (j2 < j || (j2 == j && i2
                                    < x_end));
                            assert(old_self.lands_from(*dst_pos, d, i2, j2, x, y) && (j2 < j + 1 || (j2 == j + 1
                                && i2 < d.x)));
                        }
                        if old_self.draw_progress(*dst_pos, *src_bounds, *src_buf, x, y, d.x as int, j + 1) {
                            let (i2, j2) = choose|i2: int, j2: int|
                                #[trigger] old_self.lands_from(*dst_pos, d, i2, j2, x, y) && (j2 < j + 1 || (j2 == j
                                    + 1 && i2 < d.x));
                            assert(old_self.lands_from(*dst_pos, d, i2, j2, x, y) && (j2 < j || (j2 == j && i2
                                < x_end)));
                        }
                    }
                }
            }
            j = j + 1;
        }
        proof {
            assert forall|x: int, y: int| self.in_bounds(x, y) implies #[trigger] self.pixel_bytes(x, y)
                == old_self.drawn_pixel(*dst_pos, *src_bounds, *src_buf, x, y) by {
                if !same && !old_self.draw_progress(*dst_pos, *src_bounds, *src_buf, x, y, d.x as int, y_end as int) {
                    if exists|i2: int, j2: int| #[trigger] old_self.lands_from(*dst_pos, d, i2, j2, x, y) {
                        let (i2, j2) = choose|i2: int, j2: int| #[trigger] old_self.lands_from(*dst_pos, d, i2, j2, x, y);
                        assert(old_self.lands_from(*dst_pos, d, i2, j2, x, y) && (j2 < y_end || (j2 == y_end
                            && i2 < d.x)));
                    }
                }
            }
        }
    }

    /// The pixels as RGBA bytes, row by row (as a PNG encoder takes them).
    pub fn to_rgba_bytes(&self) -> (data: Vec<u8>)
        requires
            self.wf(),
        ensures
            data.len() == 4 * self.num_pixels(),
            forall|x: int, y: int|
                self.in_bounds(x, y) ==> {
                    let n = pixel_index(self.width as int, x, y);
                    let p = #[trigger] self.pixel_argb(x, y);
                    &&& data@[4 * n] == p[1]
                    &&& data@[4 * n + 1] == p[2]
                    &&& data@[4 * n + 2] == p[3]
                    &&& data@[4 * n + 3] == p[0]
                },
    {
        let mut data: Vec<u8> = vec![];
        let mut j: u32 = 0;
        proof {
            lemma_wf_bounds(*self);
        }
        while j < self.height
            invariant
                self.wf(),
                j <= self.height,
                data.len() == 4 * (j * self.width),
                forall|x: int, y: int|
                    self.in_bounds(x, y) && y < j ==> {
                        let n = pixel_index(self.width as int, x, y);
                        let p = #[trigger] self.pixel_argb(x, y);
                        &&& data@[4 * n] == p[1]
                        &&& data@[4 * n + 1] == p[2]
                        &&& data@[4 * n + 2] == p[3]
                        &&& data@[4 * n + 3] == p[0]
                    },
            decreases self.height - j,
        {
            let mut i: u32 = 0;
            while i < self.width
                invariant
                    self.wf(),
                    j < self.height,
                    i <= self.width,
                    data.len() == 4 * (j * self.width + i),
                    forall|x: int, y: int|
                        self.in_bounds(x, y) && (y < j || (y == j && x < i)) ==> {
                            let n = pixel_index(self.width as int, x, y);
                            let p = #[trigger] self.pixel_argb(x, y);
                            &&& data@[4 * n] == p[1]
                            &&& data@[4 * n + 1] == p[2]
                            &&& data@[4 * n + 2] == p[3]
                            &&& data@[4 * n + 3] == p[0]
                        },
                decreases self.width - i,
            {
                let px = self.get_pixel_vec_argb(i as i32, j as i32);
                let ghost before = data@;
                data.push(px[1]);
                data.push(px[2]);
                data.push(px[3]);
                data.push(px[0]);
                proof {
                    assert forall|x: int, y: int|
                        self.in_bounds(x, y) && (y < j || (y == j && x < i + 1)) implies {
                            let n = pixel_index(self.width as int, x, y);
                            let p = #[trigger] self.pixel_argb(x, y);
                            &&& data@[4 * n] == p[1]
                            &&& data@[4 * n + 1] == p[2]
                            &&& data@[4 * n + 2] == p[3]
                            &&& data@[4 * n + 3] == p[0]
                        } by {
                        lemma_pixel_index_bounds(self.width as int, self.height as int, x, y);
                        if x == i && y == j {
                        } else {
                            lemma_pixel_index_injective(self.width as int, x, y, i as int, j as int);
                            assert(pixel_index(self.width as int, x, y) < j * self.width + i) by (nonlinear_arith)
                                requires
                                    y < j || (y == j && x < i),
                                    0 <= x < self.width,
                                    0 <= i,
                            ;
                        }
                    }
                }
                i = i + 1;
            }
            assert(j * self.width + self.width == (j + 1) * self.width) by (nonlinear_arith);
            j = j + 1;
        }
        assert(self.height * self.width == self.num_pixels()) by (nonlinear_arith);
        data
    }

    /// The inputs on which `fill_rect(bounds, ..)` can run.
    pub open spec fn fill_ok(&self, bounds: Rect) -> bool {
        &&& self.wf()
        &&& self.width > 0
        &&& bounds.spec_intersect(self.spec_bounds()).h > 0 ==> bounds.spec_intersect(
            self.spec_bounds(),
        ).x <= self.width
    }

    /// The inputs on which `fill_rect_with_image(rect, img)` can run: the
    /// image has pixels to tile with, and no cell that is written has a
    /// negative position.
    pub open spec fn fill_image_ok(&self, rect: Rect, img: GFXBuffer) -> bool {
        &&& self.wf()
        &&& img.wf()
        &&& fits_i32(rect.x + rect.w)
        &&& fits_i32(rect.y + rect.h)
        &&& rect.w > 0 && rect.h > 0 ==> img.width > 0 && img.height > 0
        &&& forall|i: int, j: int|
            rect.spec_contains(i, j) && i < self.width && j < self.height ==> 0 <= #[trigger] pixel_index(
                self.width as int,
                i,
                j,
            )
    }

    /// Whether `fill_rect(bounds, ..)` can run on this buffer.
    pub fn can_fill_rect(&self, bounds: Rect) -> (r: bool)
        ensures
            r == self.fill_ok(bounds),
    {
        let wf = self.is_wf();
        if !wf || self.width == 0 {
            return false;
        }
        let b = bounds.intersect(self.bounds());
        !(b.h > 0) || (b.x as i64) <= (self.width as i64)
    }

    /// Whether `fill_rect_with_image(rect, img)` can run on this buffer.
    pub fn can_fill_rect_with_image(&self, rect: &Rect, img: &GFXBuffer) -> (r: bool)
        ensures
            r == self.fill_image_ok(*rect, *img),
    {
        if !self.is_wf() || !img.is_wf() {
            return false;
        }
        let xe = rect.x as i64 + rect.w as i64;
        let ye = rect.y as i64 + rect.h as i64;
        if xe < i32::MIN as i64 || xe > i32::MAX as i64 || ye < i32::MIN as i64 || ye > i32::MAX as i64 {
            return false;
        }
        if rect.w <= 0 || rect.h <= 0 {
            return true;
        }
        if img.width == 0 || img.height == 0 {
            return false;
        }
        if (rect.x as i64) >= (self.width as i64) || (rect.y as i64) >= (self.height as i64) {
            assert forall|i: int, j: int|
                rect.spec_contains(i, j) && i < self.width && j < self.height implies 0 <= #[trigger] pixel_index(
                self.width as int,
                i,
                j,
            ) by {}
            return true;
        }
        let w = self.width as i64;
        assert(-0x8000_0000 * 0x8000_0000 <= (rect.y as i64) * w <= 0x8000_0000 * 0x8000_0000) by (nonlinear_arith)
            requires
                i32::MIN <= rect.y <= i32::MAX,
                0 <= w <= 0x8000_0000,
        ;
        let first = (rect.y as i64) * w + (rect.x as i64);
        proof {
            if 0 <= first {
                assert forall|i: int, j: int|
                    rect.spec_contains(i, j) && i < self.width && j < self.height implies 0 <= #[trigger] pixel_index(
                    self.width as int,
                    i,
                    j,
                ) by {
                    assert(j * (self.width as int) >= rect.y * (self.width as int)) by (nonlinear_arith)
                        requires
                            j >= rect.y,
                            self.width >= 0,
                    ;
                }
            } else {
                assert(rect.spec_contains(rect.x as int, rect.y as int));
                assert(pixel_index(self.width as int, rect.x as int, rect.y as int) < 0);
            }
        }
        0 <= first
    }

    /// Whether `draw_image(dst_pos, src_bounds, src)` can run on this buffer.
    pub fn can_draw_image(&self, dst_pos: &Point, src_bounds: &Rect, src: &GFXBuffer) -> (r: bool)
        requires
            self.wf(),
        ensures
            r == self.draw_ok(*dst_pos, *src_bounds, *src),
    {
        let tx = src_bounds.x as i64 + dst_pos.x as i64;
        let ty = src_bounds.y as i64 + dst_pos.y as i64;
        if tx < i32::MIN as i64 || tx > i32::MAX as i64 || ty < i32::MIN as i64 || ty > i32::MAX as i64 {
            return false;
        }
        let d = src_bounds.add(dst_pos).intersect(self.bounds());
        if d.is_empty() {
            return true;
        }
        let sx = d.x as i128 - dst_pos.x as i128;
        let sy = d.y as i128 - dst_pos.y as i128;
        let lo: i128 = i32::MIN as i128;
        let hi: i128 = i32::MAX as i128;
        if sx < lo || sx > hi || sy < lo || sy > hi {
            return false;
        }
        let same = match (src.layout, self.layout) {
            (PixelLayout::ARGB(), PixelLayout::ARGB()) => true,
            (PixelLayout::RGB565(), PixelLayout::RGB565()) => true,
            _ => false,
        };
        if same {
            let sw = src.width as i128;
            let sy1 = sy + d.h as i128 - 1;
            let bpp = self.layout.bytes_per_pixel() as i128;
            assert(-0x4_0000_0000_0000_0000 <= sy * sw <= 0x4_0000_0000_0000_0000) by (nonlinear_arith)
                requires
                    -0x2_0000_0000 <= sy <= 0x2_0000_0000,
                    0 <= sw <= 0x1_0000_0000,
            ;
            assert(-0x4_0000_0000_0000_0000 <= sy1 * sw <= 0x4_0000_0000_0000_0000) by (nonlinear_arith)
                requires
                    -0x2_0000_0000 <= sy1 <= 0x2_0000_0000,
                    0 <= sw <= 0x1_0000_0000,
            ;
            let sh = src.height as i128;
            assert(0 <= sw * sh <= 0x1_0000_0000 * 0x1_0000_0000) by (nonlinear_arith)
                requires
                    0 <= sw <= 0x1_0000_0000,
                    0 <= sh <= 0x1_0000_0000,
            ;
            let w = self.width as i128;
            let dy1 = d.y as i128 + d.h as i128 - 1;
            assert(-0x4_0000_0000_0000_0000 <= dy1 * w <= 0x4_0000_0000_0000_0000) by (nonlinear_arith)
                requires
                    -0x2_0000_0000 <= dy1 <= 0x2_0000_0000,
                    0 <= w <= 0x1_0000_0000,
            ;
            let first = sy * sw + sx;
            let last_row = sy1 * sw + sx;
            let last = sy1 * sw + (sx + d.w as i128 - 1);
            let dst_last_row = dy1 * w + d.x as i128;
            lo <= sy1 && sy1 <= hi && lo <= sy * sw && sy * sw <= hi && lo <= sy1 * sw && sy1 * sw <= hi
                && 0 <= first && bpp * last_row <= hi && last < sw * sh && bpp * (d.w as i128) <= hi
                && bpp * dst_last_row <= hi
        } else {
            let xe = d.x as i64 + d.w as i64 - 1 + dst_pos.x as i64;
            let ye = d.y as i64 + d.h as i64 - 1 + dst_pos.y as i64;
            if xe < i32::MIN as i64 || xe > i32::MAX as i64 || ye < i32::MIN as i64 || ye > i32::MAX as i64 {
                return false;
            }
            proof {
                crate::geom::lemma_intersect_values(src_bounds.add_spec(*dst_pos), self.spec_bounds());
                lemma_corner_writes(*self, d, dst_pos.x as int, dst_pos.y as int);
            }
            let tx0 = d.x as i128 + dst_pos.x as i128;
            let ty0 = d.y as i128 + dst_pos.y as i128;
            let sw = self.width as i128;
            if tx0 < sw && ty0 < self.height as i128 {
                assert(-0x4_0000_0000_0000_0000 <= ty0 * sw <= 0x4_0000_0000_0000_0000) by (nonlinear_arith)
                    requires
                        -0x2_0000_0000 <= ty0 <= 0x2_0000_0000,
                        0 <= sw <= 0x1_0000_0000,
                ;
                let row = ty0 * sw;
                i32::MIN as i128 <= row && row <= i32::MAX as i128 && 0 <= row + tx0
            } else {
                true
            }
        }
    }

    /// Whether the buffer is well formed.
    pub fn is_wf(&self) -> (r: bool)
        ensures
            r == self.wf(),
    {
        if self.width > i32::MAX as u32 || self.height > i32::MAX as u32 {
            return false;
        }
        assert(self.width as u64 * self.height as u64 <= u32::MAX as u64 * u32::MAX as u64) by (nonlinear_arith)
            requires
                self.width <= u32::MAX,
                self.height <= u32::MAX,
        ;
        let np: u64 = self.width as u64 * self.height as u64;
        let nb: u64 = self.layout.bytes_per_pixel() as u64;
        if np > u32::MAX as u64 {
            assert(nb * np > u32::MAX) by (nonlinear_arith)
                requires
                    np > u32::MAX,
                    nb >= 2,
            ;
            return false;
        }
        let total: u64 = nb * np;
        total <= u32::MAX as u64 && self.data.len() as u64 == total
    }
}

/// The colour, as `[a, r, g, b]`, that the test pattern gives pixel
/// `(i, j)` of a `w` by `h` buffer; `None` leaves the pixel as it was.
/// The top and bottom rows are white; the rest is split into four bands of
/// `h / 4` rows: red, green and blue ramps, then a grey with an alpha ramp.
pub open spec fn test_pattern_argb(h: int, i: int, j: int) -> Option<Seq<u8>> {
    let v = (i * 4) as u8;
    if j == 0 || j == h - 1 {
        Some(seq![255u8, 255u8, 255u8, 255u8])
    } else if j < (h / 4) * 1 {
        Some(seq![255u8, v, 0u8, 0u8])
    } else if j < (h / 4) * 2 {
        Some(seq![255u8, 0u8, v, 0u8])
    } else if j < (h / 4) * 3 {
        Some(seq![255u8, 0u8, 0u8, v])
    } else if j < (h / 4) * 4 {
        Some(seq![v, 128u8, 128u8, 128u8])
    } else {
        None
    }
}

/// Paints the test pattern into `buf`.
pub fn draw_test_pattern(buf: &mut GFXBuffer)
    requires
        old(buf).wf(),
        4 * (old(buf).width - 1) <= u32::MAX,
    ensures
        final(buf).wf(),
        final(buf).width == old(buf).width,
        final(buf).height == old(buf).height,
        final(buf).layout == old(buf).layout,
        final(buf).id == old(buf).id,
        forall|x: int, y: int|
            final(buf).in_bounds(x, y) ==> #[trigger] final(buf).pixel_bytes(x, y) == match test_pattern_argb(
                old(buf).height as int,
                x,
                y,
            ) {
                Some(c) => encode(old(buf).layout, c),
                None => old(buf).pixel_bytes(x, y),
            },
{
    let ghost old_buf = *buf;
    let mut j: u32 = 0;
    while j < buf.height
        invariant
            buf.wf(),
            old_buf.wf(),
            buf.width == old_buf.width,
            buf.height == old_buf.height,
            buf.layout == old_buf.layout,
            buf.id == old_buf.id,
            4 * (old_buf.width - 1) <= u32::MAX,
            j <= buf.height,
            forall|x: int, y: int|
                buf.in_bounds(x, y) ==> #[trigger] buf.pixel_bytes(x, y) == if y < j {
                    match test_pattern_argb(old_buf.height as int, x, y) {
                        Some(c) => encode(old_buf.layout, c),
                        None => old_buf.pixel_bytes(x, y),
                    }
                } else {
                    old_buf.pixel_bytes(x, y)
                },
        decreases buf.height - j,
    {
        let mut i: u32 = 0;
        while i < buf.width
            invariant
                buf.wf(),
                old_buf.wf(),
                buf.width == old_buf.width,
                buf.height == old_buf.height,
                buf.layout == old_buf.layout,
                buf.id == old_buf.id,
                4 * (old_buf.width - 1) <= u32::MAX,
                j < buf.height,
                i <= buf.width,
                forall|x: int, y: int|
                    buf.in_bounds(x, y) ==> #[trigger] buf.pixel_bytes(x, y) == if y < j || (y == j
                        && x < i) {
                        match test_pattern_argb(old_buf.height as int, x, y) {
                            Some(c) => encode(old_buf.layout, c),
                            None => old_buf.pixel_bytes(x, y),
                        }
                    } else {
                        old_buf.pixel_bytes(x, y)
                    },
            decreases buf.width - i,
        {
            let v: u8 = (i * 4) as u8;
            let h = buf.height;
            let ghost before = *buf;
            proof {
                lemma_pixel_index_bounds(buf.width as int, buf.height as int, i as int, j as int);
                lemma_wf_bounds(*buf);
            }
            let pat: Option<(u8, u8, u8, u8)> = if j == 0 || j == (h - 1) {
                Some((255, 255, 255, 255))
            } else if j < (h / 4) * 1 {
                Some((255, v, 0, 0))
            } else if j < (h / 4) * 2 {
                Some((255, 0, v, 0))
            } else if j < (h / 4) * 3 {
                Some((255, 0, 0, v))
            } else if j < (h / 4) * 4 {
                Some((v, 128, 128, 128))
            } else {
                None
            };
            match pat {
                Some((a, r, g, b)) => {
                    buf.set_pixel_argb(i as i32, j as i32, a, r, g, b);
                    proof {
                        assert(test_pattern_argb(old_buf.height as int, i as int, j as int) == Some(
                            seq![a, r, g, b],
                        ));
                        lemma_write_pixel(before, *buf, i as int, j as int, encode(buf.layout, seq![a, r, g, b]));
                        assert forall|x: int, y: int| buf.in_bounds(x, y) implies #[trigger] buf.pixel_bytes(
                            x,
                            y,
                        ) == if y < j || (y == j && x < i + 1) {
                            match test_pattern_argb(old_buf.height as int, x, y) {
                                Some(c) => encode(old_buf.layout, c),
                                None => old_buf.pixel_bytes(x, y),
                            }
                        } else {
                            old_buf.pixel_bytes(x, y)
                        } by {
                            if x == i && y == j {
                            } else {
                                assert(buf.pixel_bytes(x, y) == before.pixel_bytes(x, y));
                            }
                        }
                    }
                },
                None => {
                    assert(test_pattern_argb(old_buf.height as int, i as int, j as int) is None);
                },
            }
            i = i + 1;
        }
        j = j + 1;
    }
}

/// The `[a, r, g, b]` colour of pixel `n` of row-by-row RGBA bytes.
pub open spec fn rgba_pixel(bytes: Seq<u8>, n: int) -> Seq<u8> {
    seq![bytes[4 * n + 3], bytes[4 * n], bytes[4 * n + 1], bytes[4 * n + 2]]
}

/// A four byte layout buffer holding an image given as RGBA bytes, row by
/// row, four bytes per pixel (as a PNG decoder hands them out).
pub fn from_rgba_bytes(width: u32, height: u32, bytes: &Vec<u8>) -> (gfx: GFXBuffer)
    requires
        width <= i32::MAX,
        height <= i32::MAX,
        4 * (width * height) <= u32::MAX,
        bytes.len() >= 4 * (width * height),
    ensures
        gfx.wf(),
        gfx.width == width,
        gfx.height == height,
        gfx.layout == PixelLayout::ARGB(),
        forall|x: int, y: int|
            gfx.in_bounds(x, y) ==> #[trigger] gfx.pixel_bytes(x, y) == rgba_pixel(
                bytes@,
                pixel_index(width as int, x, y),
            ),
{
    let mut gfx = GFXBuffer::new(width, height, &PixelLayout::ARGB());
    let mut j: u32 = 0;
    while j < height
        invariant
            gfx.wf(),
            gfx.width == width,
            gfx.height == height,
            gfx.layout == PixelLayout::ARGB(),
            bytes.len() >= 4 * (width * height),
            j <= height,
            forall|x: int, y: int|
                gfx.in_bounds(x, y) && y < j ==> #[trigger] gfx.pixel_bytes(x, y) == rgba_pixel(
                    bytes@,
                    pixel_index(width as int, x, y),
                ),
        decreases height - j,
    {
        let mut i: u32 = 0;
        while i < width
            invariant
                gfx.wf(),
                gfx.width == width,
                gfx.height == height,
                gfx.layout == PixelLayout::ARGB(),
                bytes.len() >= 4 * (width * height),
                j < height,
                i <= width,
                forall|x: int, y: int|
                    gfx.in_bounds(x, y) && (y < j || (y == j && x < i)) ==> #[trigger] gfx.pixel_bytes(
                        x,
                        y,
                    ) == rgba_pixel(bytes@, pixel_index(width as int, x, y)),
            decreases width - i,
        {
            proof {
                lemma_pixel_index_bounds(width as int, height as int, i as int, j as int);
                lemma_wf_bounds(gfx);
            }
            let n: usize = (i + j * width) as usize;
            assert(n == pixel_index(width as int, i as int, j as int));
            let ghost before = gfx;
            gfx.set_pixel_argb(
                i as i32,
                j as i32,
                bytes[n * 4 + 3],
                bytes[n * 4 + 0],
                bytes[n * 4 + 1],
                bytes[n * 4 + 2],
            );
            proof {
                let c = rgba_pixel(bytes@, n as int);
                assert(c =~= seq![bytes@[n * 4 + 3], bytes@[n * 4 + 0], bytes@[n * 4 + 1], bytes@[n * 4 + 2]]);
                lemma_write_pixel(before, gfx, i as int, j as int, encode(PixelLayout::ARGB(), c));
                assert(encode(PixelLayout::ARGB(), c) =~= c);
                assert forall|x: int, y: int| gfx.in_bounds(x, y) && (y < j || (y == j && x < i + 1)) implies #[trigger] gfx.pixel_bytes(
                    x,
                    y,
                ) == rgba_pixel(bytes@, pixel_index(width as int, x, y)) by {
                    if x == i && y == j {
                    } else {
                        assert(gfx.pixel_bytes(x, y) == before.pixel_bytes(x, y));
                    }
                }
            }
            i = i + 1;
        }
        j = j + 1;
    }
    gfx
}


/// What the `png` crate decodes from the bytes of a PNG file: the width,
/// the height and the bytes of its first frame, or nothing when the bytes
/// are not an image it can read.
pub uninterp spec fn png_frame(bytes: Seq<u8>) -> Option<(u32, u32, Seq<u8>)>;

/// Decodes the first frame of a PNG file with `png::Decoder`: `read_info`,
/// then `next_frame` into a buffer of `output_buffer_size` bytes, cut to the
/// frame's `buffer_size`. Its result depends on the bytes alone; which image
/// they hold is not written out here.
#[verifier::external_body]
fn decode_png_frame(bytes: &[u8]) -> (r: Option<(u32, u32, Vec<u8>)>)
    ensures
        match r {
            Some((w, h, px)) => png_frame(bytes@) == Some((w, h, px@)),
            None => png_frame(bytes@) is None,
        },
{
    let mut reader = png::Decoder::new(bytes).read_info().ok()?;
    let mut buf = vec![0u8; reader.output_buffer_size()];
    let info = reader.next_frame(&mut buf).ok()?;
    buf.truncate(info.buffer_size());
    Some((info.width, info.height, buf))
}

/// A decoded frame fits a four byte layout buffer and holds four bytes for
/// each of its pixels.
pub open spec fn rgba_frame_ok(width: u32, height: u32, bytes: Seq<u8>) -> bool {
    &&& width <= i32::MAX
    &&& height <= i32::MAX
    &&& 4 * (width * height) <= u32::MAX
    &&& bytes.len() >= 4 * (width * height)
}

/// `gfx` is the four byte layout buffer of the RGBA image `bytes`, `width`
/// by `height`.
pub open spec fn holds_rgba(gfx: GFXBuffer, width: u32, height: u32, bytes: Seq<u8>) -> bool {
    &&& gfx.wf()
    &&& gfx.width == width
    &&& gfx.height == height
    &&& gfx.layout == PixelLayout::ARGB()
    &&& forall|x: int, y: int|
        gfx.in_bounds(x, y) ==> #[trigger] gfx.pixel_bytes(x, y) == rgba_pixel(bytes, pixel_index(width as int, x, y))
}

/// The image in the bytes of a PNG file, as a four byte layout buffer: the
/// first frame that the decoder reads, taken as RGBA bytes. Nothing when the
/// bytes cannot be decoded, or when the frame is too large for a buffer or
/// has fewer than four bytes per pixel.
pub fn from_png_bytes(bytes: &[u8]) -> (r: Option<GFXBuffer>)
    ensures
        match png_frame(bytes@) {
            None => r is None,
            Some((w, h, px)) => if rgba_frame_ok(w, h, px) {
                r matches Some(g) && holds_rgba(g, w, h, px)
            } else {
                r is None
            },
        },
{
    match decode_png_frame(bytes) {
        None => None,
        Some((w, h, px)) => {
            if w > i32::MAX as u32 || h > i32::MAX as u32 {
                return None;
            }
            assert(w as u64 * h as u64 <= 0x8000_0000u64 * 0x8000_0000u64) by (nonlinear_arith)
                requires
                    w <= 0x8000_0000,
                    h <= 0x8000_0000,
            ;
            let pixels: u64 = w as u64 * h as u64;
            if pixels > (u32::MAX as u64) / 4 || (px.len() as u64) < 4 * pixels {
                return None;
            }
            Some(from_rgba_bytes(w, h, &px))
        },
    }
}

/// What the `png` crate encodes for an eight bit RGBA image `width` by
/// `height` with the given row-by-row bytes, or nothing where it refuses.
pub uninterp spec fn png_encoding(width: u32, height: u32, rgba: Seq<u8>) -> Option<Seq<u8>>;

/// Encodes an eight bit RGBA image with `png::Encoder`: `write_header`
/// (which refuses a zero width or height), `write_image_data`, then
/// `finish`, given four bytes for each pixel: the encoder multiplies the
/// row length by the height in `usize` without a check, and here that
/// product is the length of `rgba`, which fits in `usize`, so it cannot
/// overflow. Its result depends on the arguments alone; the bytes of the
/// file are not written out here.
#[verifier::external_body]
fn encode_png(width: u32, height: u32, rgba: &[u8]) -> (r: Option<Vec<u8>>)
    requires
        rgba@.len() == 4 * (width * height),
    ensures
        match r {
            Some(v) => png_encoding(width, height, rgba@) == Some(v@),
            None => png_encoding(width, height, rgba@) is None,
        },
{
    let mut out: Vec<u8> = Vec::new();
    let mut encoder = png::Encoder::new(&mut out, width, height);
    encoder.set_color(png::ColorType::Rgba);
    encoder.set_depth(png::BitDepth::Eight);
    let mut writer = encoder.write_header().ok()?;
    writer.write_image_data(rgba).ok()?;
    writer.finish().ok()?;
    Some(out)
}

/// `data` holds the pixels of `buf` as RGBA bytes, row by row.
pub open spec fn rgba_of(buf: GFXBuffer, data: Seq<u8>) -> bool {
    &&& data.len() == 4 * buf.num_pixels()
    &&& forall|x: int, y: int|
        buf.in_bounds(x, y) ==> {
            let n = pixel_index(buf.width as int, x, y);
            let p = #[trigger] buf.pixel_argb(x, y);
            &&& data[4 * n] == p[1]
            &&& data[4 * n + 1] == p[2]
            &&& data[4 * n + 2] == p[3]
            &&& data[4 * n + 3] == p[0]
        }
}

impl GFXBuffer {
    /// The bytes of a PNG file holding the buffer as an eight bit RGBA
    /// image, or nothing where the encoder refuses it.
    pub fn to_png_bytes(&self) -> (r: Option<Vec<u8>>)
        requires
            self.wf(),
        ensures
            exists|rgba: Seq<u8>|
                rgba_of(*self, rgba) && match r {
                    Some(v) => png_encoding(self.width, self.height, rgba) == Some(v@),
                    None => png_encoding(self.width, self.height, rgba) is None,
                },
    {
        let rgba = self.to_rgba_bytes();
        assert(rgba_of(*self, rgba@));
        encode_png(self.width, self.height, rgba.as_slice())
    }
}

} // verus!
