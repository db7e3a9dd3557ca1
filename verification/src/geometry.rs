//! Integer rectangles and line segments in level pixel coordinates.

use vstd::prelude::*;

verus! {

/// An integer rectangle: top-left corner and size.
#[derive(Clone, Copy, Debug, PartialEq, Eq, Structural)]
pub struct Rect {
    pub x: i32,
    pub y: i32,
    pub w: i32,
    pub h: i32,
}

/// A line segment between two integer points.
#[derive(Clone, Copy, Debug, PartialEq, Eq, Structural)]
pub struct Line {
    pub x1: i32,
    pub y1: i32,
    pub x2: i32,
    pub y2: i32,
}

/// Does the half-open span [start, start + len) contain p?
pub open spec fn span_contains(start: int, len: int, p: int) -> bool {
    start <= p < start + len
}

impl Rect {
    pub open spec fn spec_x(&self) -> int {
        self.x as int
    }

    pub open spec fn spec_y(&self) -> int {
        self.y as int
    }

    pub open spec fn spec_w(&self) -> int {
        self.w as int
    }

    pub open spec fn spec_h(&self) -> int {
        self.h as int
    }

    /// Is the pixel (px, py) inside this rectangle?
    pub open spec fn contains_point(&self, px: int, py: int) -> bool {
        span_contains(self.x as int, self.w as int, px) && span_contains(
            self.y as int,
            self.h as int,
            py,
        )
    }

    /// Both far edges are representable as i32 values.
    pub open spec fn edges_fit(&self) -> bool {
        self.x + self.w <= i32::MAX && self.y + self.h <= i32::MAX && self.x + self.w >= i32::MIN
            && self.y + self.h >= i32::MIN
    }

    pub fn new(x: i32, y: i32, w: i32, h: i32) -> (r: Self)
        ensures
            r.spec_x() == x,
            r.spec_y() == y,
            r.spec_w() == w,
            r.spec_h() == h,
    {
        Rect { x, y, w, h }
    }

    pub fn x(&self) -> (r: i32)
        ensures
            r == self.spec_x(),
    {
        self.x
    }

    pub fn y(&self) -> (r: i32)
        ensures
            r == self.spec_y(),
    {
        self.y
    }

    pub fn w(&self) -> (r: i32)
        ensures
            r == self.spec_w(),
    {
        self.w
    }

    pub fn h(&self) -> (r: i32)
        ensures
            r == self.spec_h(),
    {
        self.h
    }

    /// The rightmost column inside the rectangle
    pub fn right(&self) -> (r: i32)
        requires
            i32::MIN + 1 <= self.spec_x() + self.spec_w() <= i32::MAX,
        ensures
            r == self.spec_x() + self.spec_w() - 1,
    {
        self.x + self.w - 1
    }

    /// The bottommost row inside the rectangle
    pub fn bottom(&self) -> (r: i32)
        requires
            i32::MIN + 1 <= self.spec_y() + self.spec_h() <= i32::MAX,
        ensures
            r == self.spec_y() + self.spec_h() - 1,
    {
        self.y + self.h - 1
    }

    pub fn size(&self) -> (r: (i32, i32))
        ensures
            r.0 == self.spec_w(),
            r.1 == self.spec_h(),
    {
        (self.w, self.h)
    }

    /// The intersection of two rectangles, or None if they do not overlap.
    pub fn intersected(&self, other: Rect) -> (r: Option<Rect>)
        requires
            self.edges_fit(),
            other.edges_fit(),
        ensures
            r == spec_intersection(*self, other),
    {
        let leftx = if self.x > other.x {
            self.x
        } else {
            other.x
        };
        let rightx = if self.x + self.w < other.x + other.w {
            self.x + self.w
        } else {
            other.x + other.w
        };
        let topy = if self.y > other.y {
            self.y
        } else {
            other.y
        };
        let btmy = if self.y + self.h < other.y + other.h {
            self.y + self.h
        } else {
            other.y + other.h
        };

        if leftx < rightx && topy < btmy {
            Some(Rect::new(leftx, topy, rightx - leftx, btmy - topy))
        } else {
            None
        }
    }

    /// This rectangle moved by (x, y)
    pub fn offset(&self, x: i32, y: i32) -> (r: Self)
        requires
            i32::MIN <= self.spec_x() + x <= i32::MAX,
            i32::MIN <= self.spec_y() + y <= i32::MAX,
        ensures
            r.spec_x() == self.spec_x() + x,
            r.spec_y() == self.spec_y() + y,
            r.spec_w() == self.spec_w(),
            r.spec_h() == self.spec_h(),
    {
        Self::new(self.x + x, self.y + y, self.w, self.h)
    }
}

impl Default for Rect {
    fn default() -> (r: Self)
        ensures
            r.spec_x() == 0 && r.spec_y() == 0 && r.spec_w() == 0 && r.spec_h() == 0,
    {
        Rect { x: 0, y: 0, w: 0, h: 0 }
    }
}

pub open spec fn max_int(a: int, b: int) -> int {
    if a > b {
        a
    } else {
        b
    }
}

pub open spec fn min_int(a: int, b: int) -> int {
    if a < b {
        a
    } else {
        b
    }
}

/// The overlap of two rectangles: the largest rectangle inside both, if it is not empty.
pub open spec fn spec_intersection(a: Rect, b: Rect) -> Option<Rect> {
    let l = max_int(a.x as int, b.x as int);
    let r = min_int(a.x + a.w, b.x + b.w);
    let t = max_int(a.y as int, b.y as int);
    let bt = min_int(a.y + a.h, b.y + b.h);
    if l < r && t < bt {
        Some(Rect { x: l as i32, y: t as i32, w: (r - l) as i32, h: (bt - t) as i32 })
    } else {
        None
    }
}

/// Intersection is symmetric.
pub proof fn law_intersection_commutes(a: Rect, b: Rect)
    requires
        a.edges_fit(),
        b.edges_fit(),
    ensures
        spec_intersection(a, b) == spec_intersection(b, a),
{
}

/// A pixel lies in the intersection exactly when it lies in both rectangles,
/// and the intersection is absent exactly when no pixel lies in both.
pub proof fn law_intersection_is_common_area(a: Rect, b: Rect, px: int, py: int)
    requires
        a.edges_fit(),
        b.edges_fit(),
    ensures
        spec_intersection(a, b) matches Some(r) ==> (r.contains_point(px, py) <==> (
        a.contains_point(px, py) && b.contains_point(px, py))),
        spec_intersection(a, b) is None ==> !(a.contains_point(px, py) && b.contains_point(
            px,
            py,
        )),
        spec_intersection(a, b) matches Some(r) ==> r.w > 0 && r.h > 0,
{
}

impl Line {
    pub fn new(x1: i32, y1: i32, x2: i32, y2: i32) -> (r: Self)
        ensures
            r == (Line { x1, y1, x2, y2 }),
    {
        Self { x1, y1, x2, y2 }
    }

    /// This line moved by (x, y)
    pub fn offset(&self, x: i32, y: i32) -> (r: Self)
        requires
            i32::MIN <= self.x1 + x <= i32::MAX,
            i32::MIN <= self.x2 + x <= i32::MAX,
            i32::MIN <= self.y1 + y <= i32::MAX,
            i32::MIN <= self.y2 + y <= i32::MAX,
        ensures
            r.x1 == self.x1 + x,
            r.y1 == self.y1 + y,
            r.x2 == self.x2 + x,
            r.y2 == self.y2 + y,
    {
        Self { x1: self.x1 + x, y1: self.y1 + y, x2: self.x2 + x, y2: self.y2 + y }
    }
}

} // verus!
