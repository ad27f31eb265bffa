//! Grid points and axis-aligned rectangles.
use vstd::prelude::*;

verus! {

/// A position on the grid.
#[derive(Clone, Copy, Debug, PartialEq, Eq, Hash, Structural)]
pub struct Point {
    pub x: i32,
    pub y: i32,
}

impl Point {
    pub fn new(x: i32, y: i32) -> (p: Point)
        ensures
            p.x == x,
            p.y == y,
    {
        Point { x, y }
    }

    pub fn zero() -> (p: Point)
        ensures
            p.x == 0,
            p.y == 0,
    {
        Point { x: 0, y: 0 }
    }
}

/// Squared straight-line distance between two points.
pub open spec fn dist_sq(a: Point, b: Point) -> int {
    (a.x - b.x) * (a.x - b.x) + (a.y - b.y) * (a.y - b.y)
}

/// Squared straight-line distance between two points.
pub fn distance_squared(a: Point, b: Point) -> (r: i128)
    ensures
        r == dist_sq(a, b),
{
    let dx: i128 = a.x as i128 - b.x as i128;
    let dy: i128 = a.y as i128 - b.y as i128;
    assert(0 <= dx * dx <= 0x1_0000_0000_0000_0000) by (nonlinear_arith)
        requires
            -0x1_0000_0000 <= dx <= 0x1_0000_0000,
    ;
    assert(0 <= dy * dy <= 0x1_0000_0000_0000_0000) by (nonlinear_arith)
        requires
            -0x1_0000_0000 <= dy <= 0x1_0000_0000,
    ;
    dx * dx + dy * dy
}

/// A rectangle given by two corners; it covers `x1 <= x < x2`, `y1 <= y < y2`.
#[derive(Clone, Copy, Debug, PartialEq, Eq, Structural)]
pub struct Rect {
    pub x1: i32,
    pub y1: i32,
    pub x2: i32,
    pub y2: i32,
}

impl Rect {
    /// Corners ordered.
    pub open spec fn wf(self) -> bool {
        self.x1 < self.x2 && self.y1 < self.y2
    }

    /// The corner sums fit in `i32` and are not negative, so halving them rounds down.
    pub open spec fn center_fits(self) -> bool {
        0 <= self.x1 + self.x2 <= i32::MAX && 0 <= self.y1 + self.y2 <= i32::MAX
    }

    pub fn with_size(x: i32, y: i32, w: i32, h: i32) -> (r: Rect)
        requires
            0 < w,
            0 < h,
            x + w <= i32::MAX,
            y + h <= i32::MAX,
        ensures
            r.x1 == x && r.y1 == y && r.x2 == x + w && r.y2 == y + h,
            r.wf(),
    {
        Rect { x1: x, y1: y, x2: x + w, y2: y + h }
    }

    pub open spec fn spec_center(self) -> Point {
        Point { x: ((self.x1 + self.x2) / 2) as i32, y: ((self.y1 + self.y2) / 2) as i32 }
    }

    /// The midpoint, rounded down.
    pub fn center(&self) -> (p: Point)
        requires
            self.wf(),
            self.center_fits(),
        ensures
            p == self.spec_center(),
            self.x1 <= p.x < self.x2,
            self.y1 <= p.y < self.y2,
    {
        Point { x: (self.x1 + self.x2) / 2, y: (self.y1 + self.y2) / 2 }
    }

    /// The half-open extents overlap on both axes.
    pub open spec fn spec_intersect(self, o: Rect) -> bool {
        self.x1 < o.x2 && o.x1 < self.x2 && self.y1 < o.y2 && o.y1 < self.y2
    }

    pub fn intersect(&self, other: &Rect) -> (r: bool)
        ensures
            r == self.spec_intersect(*other),
    {
        self.x1 < other.x2 && other.x1 < self.x2 && self.y1 < other.y2 && other.y1 < self.y2
    }

    pub open spec fn contains(self, x: int, y: int) -> bool {
        self.x1 <= x < self.x2 && self.y1 <= y < self.y2
    }
}

} // verus!
