use vstd::prelude::*;
use crate::color::ARGBColor;
use crate::geom::fits_i32;
use crate::protocol::APICommand;

verus! {

/// The position, counted in pixels with `line` pixels to a row, of the
/// cell `(i, j)` of a rectangle whose top left corner is at `(x, y)`.
pub open spec fn cell_position(x: int, y: int, i: int, j: int, line: int) -> int {
    (x + i) + (y + j) * line
}

/// The cell `(i, j)` of the rectangle at `(x, y)` is written inside a frame
/// of `len` bytes, with every step of the arithmetic within 32 bits.
pub open spec fn cell_ok(x: int, y: int, i: int, j: int, line: int, len: int) -> bool {
    let p = cell_position(x, y, i, j, line);
    &&& fits_i32(x + i)
    &&& fits_i32(y + j)
    &&& fits_i32((y + j) * line)
    &&& fits_i32(p)
    &&& fits_i32(4 * p)
    &&& 0 <= p
    &&& 4 * p + 4 <= len
}

/// Some cell of the `w` by `h` rectangle at `(x, y)` lies at position `p`.
pub open spec fn covers(x: int, y: int, w: int, h: int, line: int, p: int) -> bool {
    exists|i: int, j: int| 0 <= i < w && 0 <= j < h && #[trigger] cell_position(x, y, i, j, line) == p
}

/// Some cell of the rectangle `w` wide at `(x, y)` that comes before
/// `(ci, cj)`, row by row, lies at position `p`.
pub open spec fn covered_before(x: int, y: int, w: int, line: int, p: int, ci: int, cj: int) -> bool {
    exists|i: int, j: int|
        0 <= i < w && 0 <= j && (j < cj || (j == cj && i < ci)) && #[trigger] cell_position(x, y, i, j, line)
            == p
}

/// The bytes of a colour in the frame: blue, green, red, alpha.
pub open spec fn bgra(c: ARGBColor) -> Seq<u8> {
    seq![c.b, c.g, c.r, c.a]
}

/// What a frame holds for a display device: its resolution, the bytes of
/// one row, and the bytes of the whole frame, four to a pixel.
#[derive(Debug)]
pub struct FrameSurface {
    pub xres: u32,
    pub yres: u32,
    pub line_length: u32,
    pub frame: Vec<u8>,
}

/// What the drawing loop does after one message.
#[derive(Debug, PartialEq, Eq, Structural)]
pub enum DrawingOutcome {
    /// The frame changed: show it.
    Sync,
    /// The escape key was pressed: stop drawing.
    Stop,
    /// Nothing changed.
    Nothing,
}

/// The colour of the mouse marker.
pub open spec fn marker_color() -> ARGBColor {
    ARGBColor { r: 0, g: 255, b: 255, a: 255 }
}

/// `v` held to `0..=500`.
pub open spec fn clamp_500(v: int) -> int {
    if v < 0 {
        0
    } else if v > 500 {
        500
    } else {
        v
    }
}

/// One cell more of a rectangle being painted.
proof fn lemma_paint_step(
    before: Seq<u8>,
    after: Seq<u8>,
    old_frame: Seq<u8>,
    x: int,
    y: int,
    w: int,
    line: int,
    i: int,
    j: int,
    c: ARGBColor,
)
    requires
        0 <= i < w,
        0 <= j,
        0 <= cell_position(x, y, i, j, line),
        4 * cell_position(x, y, i, j, line) + 4 <= before.len(),
        before.len() == old_frame.len(),
        after == before.update(4 * cell_position(x, y, i, j, line), c.b).update(
            4 * cell_position(x, y, i, j, line) + 1,
            c.g,
        ).update(4 * cell_position(x, y, i, j, line) + 2, c.r).update(
            4 * cell_position(x, y, i, j, line) + 3,
            c.a,
        ),
        forall|k: int|
            0 <= k < before.len() ==> #[trigger] before[k] == if covered_before(x, y, w, line, k / 4, i, j) {
                bgra(c)[k % 4]
            } else {
                old_frame[k]
            },
    ensures
        after.len() == before.len(),
        forall|k: int|
            0 <= k < after.len() ==> #[trigger] after[k] == if covered_before(x, y, w, line, k / 4, i + 1, j) {
                bgra(c)[k % 4]
            } else {
                old_frame[k]
            },
{
    let p = cell_position(x, y, i, j, line);
    assert forall|k: int| 0 <= k < after.len() implies #[trigger] after[k] == if covered_before(
        x,
        y,
        w,
        line,
        k / 4,
        i + 1,
        j,
    ) {
        bgra(c)[k % 4]
    } else {
        old_frame[k]
    } by {
        if k / 4 == p {
            assert(covered_before(x, y, w, line, k / 4, i + 1, j));
        } else {
            assert(after[k] == before[k]);
            if covered_before(x, y, w, line, k / 4, i + 1, j) {
                let (i2, j2) = choose|i2: int, j2: int|
                    0 <= i2 < w && 0 <= j2 && (j2 < j || (j2 == j && i2 < i + 1)) && #[trigger] cell_position(
                        x,
                        y,
                        i2,
                        j2,
                        line,
                    ) == k / 4;
                assert(!(i2 == i && j2 == j));
                assert(covered_before(x, y, w, line, k / 4, i, j));
            }
            if covered_before(x, y, w, line, k / 4, i, j) {
                let (i2, j2) = choose|i2: int, j2: int|
                    0 <= i2 < w && 0 <= j2 && (j2 < j || (j2 == j && i2 < i)) && #[trigger] cell_position(
                        x,
                        y,
                        i2,
                        j2,
                        line,
                    ) == k / 4;
                assert(0 <= i2 < w && 0 <= j2 && (j2 < j || (j2 == j && i2 < i + 1)) && cell_position(
                    x,
                    y,
                    i2,
                    j2,
                    line,
                ) == k / 4);
            }
        }
    }
}

impl FrameSurface {
    /// Pixels to a row.
    pub open spec fn line(&self) -> int {
        (self.line_length / 4) as int
    }

    /// Every cell of the `w` by `h` rectangle at `(x, y)` is written inside
    /// the frame.
    pub open spec fn rect_ok(&self, x: int, y: int, w: int, h: int) -> bool {
        forall|i: int, j: int|
            0 <= i < w && 0 <= j < h ==> #[trigger] cell_ok(x, y, i, j, self.line(), self.frame@.len() as int)
    }

    /// The byte at `k` once the `w` by `h` rectangle at `(x, y)` is painted
    /// with `c`.
    pub open spec fn painted(&self, x: int, y: int, w: int, h: int, c: ARGBColor, k: int) -> u8 {
        if covers(x, y, w, h, self.line(), k / 4) {
            bgra(c)[k % 4]
        } else {
            self.frame@[k]
        }
    }

    /// The frame once the `w` by `h` rectangle at `(x, y)` is painted with
    /// `c`.
    pub open spec fn painted_frame(&self, x: int, y: int, w: int, h: int, c: ARGBColor) -> Seq<u8> {
        Seq::new(self.frame@.len(), |k: int| self.painted(x, y, w, h, c, k))
    }

    /// A black frame with the given resolution and row length in bytes.
    pub fn make(xres: u32, yres: u32, line_length: u32) -> (s: FrameSurface)
        requires
            line_length * yres <= u32::MAX,
        ensures
            s.xres == xres,
            s.yres == yres,
            s.line_length == line_length,
            s.frame@ == Seq::new((line_length * yres) as nat, |k: int| 0u8),
    {
        let n: u32 = line_length * yres;
        let mut frame: Vec<u8> = Vec::new();
        let mut k: u32 = 0;
        while k < n
            invariant
                k <= n,
                frame@ == Seq::new(k as nat, |m: int| 0u8),
            decreases n - k,
        {
            frame.push(0u8);
            k = k + 1;
            assert(frame@ =~= Seq::new(k as nat, |m: int| 0u8));
        }
        FrameSurface { xres, yres, line_length, frame }
    }

    /// Paints the `w` by `h` rectangle at `(x, y)` with `color`; a row
    /// wider than the frame runs on into the next.
    pub fn rect(&mut self, x: i32, y: i32, w: i32, h: i32, color: ARGBColor)
        requires
            old(self).rect_ok(x as int, y as int, w as int, h as int),
        ensures
            final(self).xres == old(self).xres,
            final(self).yres == old(self).yres,
            final(self).line_length == old(self).line_length,
            final(self).frame@ == old(self).painted_frame(x as int, y as int, w as int, h as int, color),
    {
        let ghost old_frame = self.frame@;
        let ghost line = old(self).line();
        let ll: i32 = (self.line_length / 4) as i32;
        let mut j: i32 = 0;
        while j < h
            invariant
                self.xres == old(self).xres,
                self.yres == old(self).yres,
                self.line_length == old(self).line_length,
                self.frame@.len() == old_frame.len(),
                old_frame == old(self).frame@,
                ll == line,
                line == old(self).line(),
                old(self).rect_ok(x as int, y as int, w as int, h as int),
                0 <= j,
                j <= h || j == 0,
                forall|k: int|
                    0 <= k < self.frame@.len() ==> #[trigger] self.frame@[k] == if covered_before(
                        x as int,
                        y as int,
                        w as int,
                        line,
                        k / 4,
                        0,
                        j as int,
                    ) {
                        bgra(color)[k % 4]
                    } else {
                        old_frame[k]
                    },
            decreases h - j,
        {
            let mut i: i32 = 0;
            while i < w
                invariant
                    self.xres == old(self).xres,
                    self.yres == old(self).yres,
                    self.line_length == old(self).line_length,
                    self.frame@.len() == old_frame.len(),
                    old_frame == old(self).frame@,
                    ll == line,
                    line == old(self).line(),
                    old(self).rect_ok(x as int, y as int, w as int, h as int),
                    0 <= j < h,
                    0 <= i,
                    i <= w || w <= 0,
                    forall|k: int|
                        0 <= k < self.frame@.len() ==> #[trigger] self.frame@[k] == if covered_before(
                            x as int,
                            y as int,
                            w as int,
                            line,
                            k / 4,
                            i as int,
                            j as int,
                        ) {
                            bgra(color)[k % 4]
                        } else {
                            old_frame[k]
                        },
                decreases w - i,
            {
                assert(cell_ok(x as int, y as int, i as int, j as int, line, old_frame.len() as int));
                let ghost before = self.frame@;
                let n: usize = (((x + i) + (y + j) * ll) * 4) as usize;
                self.frame.set(n, color.b);
                self.frame.set(n + 1, color.g);
                self.frame.set(n + 2, color.r);
                self.frame.set(n + 3, color.a);
                proof {
                    lemma_paint_step(
                        before,
                        self.frame@,
                        old_frame,
                        x as int,
                        y as int,
                        w as int,
                        line,
                        i as int,
                        j as int,
                        color,
                    );
                }
                i = i + 1;
            }
            proof {
                assert forall|k: int| 0 <= k < self.frame@.len() implies #[trigger] self.frame@[k] == if covered_before(
                    x as int,
                    y as int,
                    w as int,
                    line,
                    k / 4,
                    0,
                    j + 1,
                ) {
                    bgra(color)[k % 4]
                } else {
                    old_frame[k]
                } by {
                    let p = k / 4;
                    if covered_before(x as int, y as int, w as int, line, p, i as int, j as int) {
                        let (i2, j2) = choose|i2: int, j2: int|
                            0 <= i2 < w && 0 <= j2 && (j2 < j || (j2 == j && i2 < i)) && #[trigger] cell_position(
                                x as int,
                                y as int,
                                i2,
                                j2,
                                line,
                            ) == p;
                        assert(0 <= i2 < w && 0 <= j2 && (j2 < j + 1 || (j2 == j + 1 && i2 < 0))
                            && cell_position(x as int, y as int, i2, j2, line) == p);
                    }
                    if covered_before(x as int, y as int, w as int, line, p, 0, j + 1) {
                        let (i2, j2) = choose|i2: int, j2: int|
                            0 <= i2 < w && 0 <= j2 && (j2 < j + 1 || (j2 == j + 1 && i2 < 0)) && #[trigger] cell_position(
                                x as int,
                                y as int,
                                i2,
                                j2,
                                line,
                            ) == p;
                        assert(0 <= i2 < w && 0 <= j2 && (j2 < j || (j2 == j && i2 < i)) && cell_position(
                            x as int,
                            y as int,
                            i2,
                            j2,
                            line,
                        ) == p);
                    }
                }
            }
            j = j + 1;
        }
        proof {
            assert forall|k: int| 0 <= k < self.frame@.len() implies #[trigger] self.frame@[k] == old(
                self,
            ).painted(x as int, y as int, w as int, h as int, color, k) by {
                let p = k / 4;
                if covered_before(x as int, y as int, w as int, line, p, 0, j as int) {
                    let (i2, j2) = choose|i2: int, j2: int|
                        0 <= i2 < w && 0 <= j2 && (j2 < j || (j2 == j && i2 < 0)) && #[trigger] cell_position(
                            x as int,
                            y as int,
                            i2,
                            j2,
                            line,
                        ) == p;
                    assert(covers(x as int, y as int, w as int, h as int, line, p));
                }
                if covers(x as int, y as int, w as int, h as int, line, p) {
                    let (i2, j2) = choose|i2: int, j2: int|
                        0 <= i2 < w && 0 <= j2 < h && #[trigger] cell_position(x as int, y as int, i2, j2, line)
                            == p;
                    assert(0 <= i2 < w && 0 <= j2 && (j2 < j || (j2 == j && i2 < 0)) && cell_position(
                        x as int,
                        y as int,
                        i2,
                        j2,
                        line,
                    ) == p);
                }
            }
            assert(self.frame@ =~= old(self).painted_frame(x as int, y as int, w as int, h as int, color));
        }
    }

    /// Whether `rect(x, y, w, h, ..)` stays inside the frame.
    pub fn can_rect(&self, x: i32, y: i32, w: i32, h: i32) -> (r: bool)
        ensures
            r == self.rect_ok(x as int, y as int, w as int, h as int),
    {
        if w <= 0 || h <= 0 {
            return true;
        }
        let line: i128 = (self.line_length / 4) as i128;
        let len: i128 = self.frame.len() as i128;
        proof {
            assert(line == self.line());
            assert(len == self.frame@.len());
            lemma_rect_corners(x as int, y as int, w as int, h as int, line as int, len as int);
        }
        cell_ok_at(x, y, 0, 0, line, len) && cell_ok_at(x, y, w - 1, h - 1, line, len)
    }

    /// Paints the whole screen black.
    pub fn clear(&mut self)
        requires
            old(self).xres <= i32::MAX,
            old(self).yres <= i32::MAX,
            old(self).rect_ok(0, 0, old(self).xres as int, old(self).yres as int),
        ensures
            final(self).xres == old(self).xres,
            final(self).yres == old(self).yres,
            final(self).line_length == old(self).line_length,
            final(self).frame@ == old(self).painted_frame(
                0,
                0,
                old(self).xres as int,
                old(self).yres as int,
                ARGBColor { r: 0, g: 0, b: 0, a: 255 },
            ),
    {
        let black = ARGBColor { r: 0, g: 0, b: 0, a: 255 };
        let w = self.xres as i32;
        let h = self.yres as i32;
        self.rect(0, 0, w, h, black);
    }

    /// Handles one message of the drawing loop: a rectangle is painted, a
    /// mouse move paints a ten pixel marker at the pointer held to
    /// `0..=500` on both axes, the key with code 1 stops the loop, and
    /// everything else is ignored.
    pub fn drawing_step(&mut self, cmd: &APICommand) -> (r: DrawingOutcome)
        requires
            cmd matches APICommand::DrawRectCommand(cm) ==> old(self).rect_ok(
                cm.rect.x as int,
                cm.rect.y as int,
                cm.rect.w as int,
                cm.rect.h as int,
            ),
            cmd matches APICommand::MouseMove(m) ==> old(self).rect_ok(
                clamp_500(m.x as int),
                clamp_500(m.y as int),
                10,
                10,
            ),
        ensures
            final(self).xres == old(self).xres,
            final(self).yres == old(self).yres,
            final(self).line_length == old(self).line_length,
            match *cmd {
                APICommand::DrawRectCommand(cm) => r == DrawingOutcome::Sync && final(self).frame@ == old(
                    self,
                ).painted_frame(cm.rect.x as int, cm.rect.y as int, cm.rect.w as int, cm.rect.h as int, cm.color),
                APICommand::MouseMove(m) => r == DrawingOutcome::Sync && final(self).frame@ == old(
                    self,
                ).painted_frame(clamp_500(m.x as int), clamp_500(m.y as int), 10, 10, marker_color()),
                APICommand::KeyDown(kd) => final(self).frame@ == old(self).frame@ && r == if kd.code == 1 {
                    DrawingOutcome::Stop
                } else {
                    DrawingOutcome::Nothing
                },
                _ => final(self).frame@ == old(self).frame@ && r == DrawingOutcome::Nothing,
            },
    {
        match cmd {
            APICommand::DrawRectCommand(cm) => {
                self.rect(cm.rect.x, cm.rect.y, cm.rect.w, cm.rect.h, cm.color);
                DrawingOutcome::Sync
            },
            APICommand::KeyDown(kd) => {
                if kd.code == 1 {
                    DrawingOutcome::Stop
                } else {
                    DrawingOutcome::Nothing
                }
            },
            APICommand::MouseMove(m) => {
                let color = ARGBColor { r: 0, g: 255, b: 255, a: 255 };
                let mut x = m.x;
                if x < 0 {
                    x = 0;
                }
                if x > 500 {
                    x = 500;
                }
                let mut y = m.y;
                if y < 0 {
                    y = 0;
                }
                if y > 500 {
                    y = 500;
                }
                self.rect(x, y, 10, 10, color);
                DrawingOutcome::Sync
            },
            _ => DrawingOutcome::Nothing,
        }
    }

    /// Whether `drawing_step` can take the message.
    pub fn can_draw_step(&self, cmd: &APICommand) -> (r: bool)
        ensures
            r == ((cmd matches APICommand::DrawRectCommand(cm) ==> self.rect_ok(
                cm.rect.x as int,
                cm.rect.y as int,
                cm.rect.w as int,
                cm.rect.h as int,
            )) && (cmd matches APICommand::MouseMove(m) ==> self.rect_ok(
                clamp_500(m.x as int),
                clamp_500(m.y as int),
                10,
                10,
            ))),
    {
        match cmd {
            APICommand::DrawRectCommand(cm) => self.can_rect(cm.rect.x, cm.rect.y, cm.rect.w, cm.rect.h),
            APICommand::MouseMove(m) => {
                let x: i32 = if m.x < 0 {
                    0
                } else if m.x > 500 {
                    500
                } else {
                    m.x
                };
                let y: i32 = if m.y < 0 {
                    0
                } else if m.y > 500 {
                    500
                } else {
                    m.y
                };
                self.can_rect(x, y, 10, 10)
            },
            _ => true,
        }
    }
}

/// Whether `cell_ok` holds, computed.
fn cell_ok_at(x: i32, y: i32, i: i32, j: i32, line: i128, len: i128) -> (r: bool)
    requires
        0 <= line <= 0x4000_0000,
        0 <= len,
    ensures
        r == cell_ok(x as int, y as int, i as int, j as int, line as int, len as int),
{
    let xi: i128 = x as i128 + i as i128;
    let yj: i128 = y as i128 + j as i128;
    assert(-0x8_0000_0000_0000_0000 <= yj * line <= 0x8_0000_0000_0000_0000) by (nonlinear_arith)
        requires
            -0x1_0000_0000 <= yj <= 0x1_0000_0000,
            0 <= line <= 0x4000_0000,
    ;
    let row: i128 = yj * line;
    let p: i128 = xi + row;
    let lo: i128 = i32::MIN as i128;
    let hi: i128 = i32::MAX as i128;
    lo <= xi && xi <= hi && lo <= yj && yj <= hi && lo <= row && row <= hi && lo <= p && p <= hi && lo <= 4 * p
        && 4 * p <= hi && 0 <= p && 4 * p + 4 <= len
}

/// Every cell of a rectangle lies between its first and its last cell, so
/// checking those two checks them all.
proof fn lemma_rect_corners(x: int, y: int, w: int, h: int, line: int, len: int)
    requires
        0 < w,
        0 < h,
        0 <= line,
    ensures
        (forall|i: int, j: int| 0 <= i < w && 0 <= j < h ==> #[trigger] cell_ok(x, y, i, j, line, len)) == (
        cell_ok(x, y, 0, 0, line, len) && cell_ok(x, y, w - 1, h - 1, line, len)),
{
    if cell_ok(x, y, 0, 0, line, len) && cell_ok(x, y, w - 1, h - 1, line, len) {
        assert forall|i: int, j: int| 0 <= i < w && 0 <= j < h implies #[trigger] cell_ok(x, y, i, j, line, len) by {
            assert(y * line <= (y + j) * line <= (y + h - 1) * line) by (nonlinear_arith)
                requires
                    0 <= j < h,
                    0 <= line,
            ;
        }
    }
}

} // verus!
