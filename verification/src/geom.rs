use vstd::prelude::*;

verus! {

/// A point on the integer plane.
#[derive(Clone, Copy, Debug, PartialEq, Eq, Structural)]
pub struct Point {
    pub x: i32,
    pub y: i32,
}

/// A width and a height.
#[derive(Clone, Copy, Debug, PartialEq, Eq, Structural)]
pub struct Size {
    pub w: i32,
    pub h: i32,
}

/// An axis aligned rectangle: its top left corner and its extent.
/// It covers the points with `x <= px < x + w` and `y <= py < y + h`.
#[derive(Clone, Copy, Debug, PartialEq, Eq, Structural)]
pub struct Rect {
    pub x: i32,
    pub y: i32,
    pub w: i32,
    pub h: i32,
}

/// Space around the four sides of a box.
#[derive(Clone, Copy, Debug, PartialEq, Eq, Structural)]
pub struct Padding {
    pub left: i32,
    pub right: i32,
    pub top: i32,
    pub bottom: i32,
}

pub open spec fn fits_i32(v: int) -> bool {
    i32::MIN <= v <= i32::MAX
}

pub open spec fn spec_max(a: int, b: int) -> int {
    if a >= b { a } else { b }
}

pub open spec fn spec_min(a: int, b: int) -> int {
    if a <= b { a } else { b }
}

impl Point {
    pub fn init(x: i32, y: i32) -> (p: Point)
        ensures
            p.x == x,
            p.y == y,
    {
        Point { x, y }
    }

    pub fn add(&self, other: &Point) -> (p: Point)
        requires
            fits_i32(self.x + other.x),
            fits_i32(self.y + other.y),
        ensures
            p.x == self.x + other.x,
            p.y == self.y + other.y,
    {
        Point { x: self.x + other.x, y: self.y + other.y }
    }

    pub fn subtract(&self, other: &Point) -> (p: Point)
        requires
            fits_i32(self.x - other.x),
            fits_i32(self.y - other.y),
        ensures
            p.x == self.x - other.x,
            p.y == self.y - other.y,
    {
        Point { x: self.x - other.x, y: self.y - other.y }
    }

    pub fn copy_from(&mut self, other: &Point)
        ensures
            *final(self) == *other,
    {
        self.x = other.x;
        self.y = other.y;
    }
}

impl Size {
    pub fn init(w: i32, h: i32) -> (s: Size)
        ensures
            s.w == w,
            s.h == h,
    {
        Size { w, h }
    }

    /// The size enlarged by `pad` on every side.
    pub fn grow(&self, pad: i32) -> (s: Size)
        requires
            fits_i32(self.w + 2 * pad),
            fits_i32(self.h + 2 * pad),
        ensures
            s.w == self.w + 2 * pad,
            s.h == self.h + 2 * pad,
    {
        Size { w: self.w + pad + pad, h: self.h + pad + pad }
    }
}

impl Rect {
    pub open spec fn right(self) -> int {
        self.x + self.w
    }

    pub open spec fn bottom(self) -> int {
        self.y + self.h
    }

    pub open spec fn spec_contains(self, px: int, py: int) -> bool {
        self.x <= px < self.right() && self.y <= py < self.bottom()
    }

    pub open spec fn spec_is_empty(self) -> bool {
        self.w <= 0 || self.h <= 0
    }

    /// The overlap of two rectangles; where they do not overlap its width or
    /// height is zero.
    pub open spec fn spec_intersect(self, o: Rect) -> Rect {
        let x = spec_max(self.x as int, o.x as int);
        let y = spec_max(self.y as int, o.y as int);
        let w = spec_min(self.right(), o.right()) - x;
        let h = spec_min(self.bottom(), o.bottom()) - y;
        Rect {
            x: x as i32,
            y: y as i32,
            w: if w < 0 { 0i32 } else { w as i32 },
            h: if h < 0 { 0i32 } else { h as i32 },
        }
    }

    pub fn from_ints(x: i32, y: i32, w: i32, h: i32) -> (r: Rect)
        ensures
            r == (Rect { x, y, w, h }),
    {
        Rect { x, y, w, h }
    }

    pub fn position(&self) -> (p: Point)
        ensures
            p.x == self.x,
            p.y == self.y,
    {
        Point { x: self.x, y: self.y }
    }

    pub fn size(&self) -> (s: Size)
        ensures
            s.w == self.w,
            s.h == self.h,
    {
        Size { w: self.w, h: self.h }
    }

    pub fn is_empty(&self) -> (b: bool)
        ensures
            b == self.spec_is_empty(),
    {
        self.w <= 0 || self.h <= 0
    }

    pub fn contains(&self, pt: &Point) -> (b: bool)
        ensures
            b == self.spec_contains(pt.x as int, pt.y as int),
    {
        let px = pt.x as i64;
        let py = pt.y as i64;
        (self.x as i64) <= px && px < (self.x as i64) + (self.w as i64) && (self.y as i64) <= py
            && py < (self.y as i64) + (self.h as i64)
    }

    pub fn intersect(&self, other: Rect) -> (r: Rect)
        ensures
            r == self.spec_intersect(other),
    {
        let x: i64 = if self.x >= other.x { self.x as i64 } else { other.x as i64 };
        let y: i64 = if self.y >= other.y { self.y as i64 } else { other.y as i64 };
        let r1: i64 = self.x as i64 + self.w as i64;
        let r2: i64 = other.x as i64 + other.w as i64;
        let b1: i64 = self.y as i64 + self.h as i64;
        let b2: i64 = other.y as i64 + other.h as i64;
        let rr: i64 = if r1 <= r2 { r1 } else { r2 };
        let bb: i64 = if b1 <= b2 { b1 } else { b2 };
        let w: i64 = rr - x;
        let h: i64 = bb - y;
        Rect {
            x: x as i32,
            y: y as i32,
            w: if w < 0 { 0i32 } else { w as i32 },
            h: if h < 0 { 0i32 } else { h as i32 },
        }
    }

    pub open spec fn add_spec(self, pt: Point) -> Rect {
        Rect { x: (self.x + pt.x) as i32, y: (self.y + pt.y) as i32, w: self.w, h: self.h }
    }

    /// The rectangle moved by `pt`.
    pub fn add(&self, pt: &Point) -> (r: Rect)
        requires
            fits_i32(self.x + pt.x),
            fits_i32(self.y + pt.y),
        ensures
            r == self.add_spec(*pt),
    {
        Rect { x: self.x + pt.x, y: self.y + pt.y, w: self.w, h: self.h }
    }

    /// The rectangle moved by minus `pt`.
    pub fn subtract(&self, pt: &Point) -> (r: Rect)
        requires
            fits_i32(self.x - pt.x),
            fits_i32(self.y - pt.y),
        ensures
            r == (Rect { x: (self.x - pt.x) as i32, y: (self.y - pt.y) as i32, w: self.w, h: self.h }),
    {
        Rect { x: self.x - pt.x, y: self.y - pt.y, w: self.w, h: self.h }
    }
}

/// Intersection does not depend on the order of its operands.
pub proof fn lemma_intersect_commutes(a: Rect, b: Rect)
    ensures
        a.spec_intersect(b) == b.spec_intersect(a),
{
}

/// A point lies in the intersection of two rectangles exactly when it lies
/// in both.
pub proof fn lemma_intersect_contains(a: Rect, b: Rect, px: int, py: int)
    ensures
        a.spec_intersect(b).spec_contains(px, py) <==> (a.spec_contains(px, py) && b.spec_contains(
            px,
            py,
        )),
{
}

/// The intersection lies inside each operand.
pub proof fn lemma_intersect_within(a: Rect, b: Rect)
    ensures
        a.spec_intersect(b).x >= a.x,
        a.spec_intersect(b).y >= a.y,
        a.spec_intersect(b).w >= 0,
        a.spec_intersect(b).h >= 0,
        a.spec_intersect(b).w > 0 ==> a.spec_intersect(b).right() <= a.right(),
        a.spec_intersect(b).h > 0 ==> a.spec_intersect(b).bottom() <= a.bottom(),
{
}

/// A rectangle with no negative extent intersected with itself is itself.
pub proof fn lemma_intersect_idempotent(a: Rect)
    requires
        a.w >= 0,
        a.h >= 0,
    ensures
        a.spec_intersect(a) == a,
{
}


/// The fields of an intersection as plain integers.
pub proof fn lemma_intersect_values(a: Rect, b: Rect)
    ensures
        a.spec_intersect(b).x == spec_max(a.x as int, b.x as int),
        a.spec_intersect(b).y == spec_max(a.y as int, b.y as int),
        a.spec_intersect(b).w == spec_max(
            0,
            spec_min(a.right(), b.right()) - spec_max(a.x as int, b.x as int),
        ),
        a.spec_intersect(b).h == spec_max(
            0,
            spec_min(a.bottom(), b.bottom()) - spec_max(a.y as int, b.y as int),
        ),
{
}

} // verus!
