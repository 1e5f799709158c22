//! Axis-aligned rectangles on the tile grid.

use vstd::prelude::*;

verus! {

/// A rectangle with top-left corner `(x1, y1)` and bottom-right corner `(x2, y2)`.
/// Its interior is the set of tiles strictly between the corners.
#[derive(Clone, Copy, Debug, PartialEq, Eq, Structural)]
pub struct Rect {
    pub x1: i32,
    pub y1: i32,
    pub x2: i32,
    pub y2: i32,
}

/// The two corner rectangles overlap or touch (shared edges count).
pub open spec fn rects_intersect(a: Rect, b: Rect) -> bool {
    a.x1 <= b.x2 && a.x2 >= b.x1 && a.y1 <= b.y2 && a.y2 >= b.y1
}

/// The center of a rectangle, rounded down for non-negative corners.
pub open spec fn center_of(r: Rect) -> (int, int) {
    ((r.x1 + r.x2) / 2, (r.y1 + r.y2) / 2)
}

/// `(x, y)` lies strictly inside `r`.
pub open spec fn in_interior(r: Rect, x: int, y: int) -> bool {
    r.x1 < x < r.x2 && r.y1 < y < r.y2
}

impl Rect {
    /// The rectangle with corner `(x, y)`, width `w` and height `h`.
    pub fn new(x: i32, y: i32, w: i32, h: i32) -> (r: Self)
        requires
            i32::MIN <= x + w <= i32::MAX,
            i32::MIN <= y + h <= i32::MAX,
        ensures
            r == (Rect { x1: x, y1: y, x2: (x + w) as i32, y2: (y + h) as i32 }),
    {
        Rect { x1: x, y1: y, x2: x + w, y2: y + h }
    }

    /// The center of the rectangle, rounded down.
    pub fn center(&self) -> (r: (i32, i32))
        requires
            0 <= self.x1,
            0 <= self.y1,
            0 <= self.x2,
            0 <= self.y2,
        ensures
            r.0 as int == center_of(*self).0,
            r.1 as int == center_of(*self).1,
    {
        let x = ((self.x1 as i64 + self.x2 as i64) / 2) as i32;
        let y = ((self.y1 as i64 + self.y2 as i64) / 2) as i32;
        (x, y)
    }

    /// Whether the two rectangles overlap or share an edge.
    pub fn intersects_with(&self, other: &Rect) -> (r: bool)
        ensures
            r == rects_intersect(*self, *other),
    {
        (self.x1 <= other.x2) && (self.x2 >= other.x1) && (self.y1 <= other.y2) && (self.y2
            >= other.y1)
    }
}

/// The pair ordered from smaller to larger.
pub fn in_order(x: i32, y: i32) -> (r: (i32, i32))
    ensures
        r.0 <= r.1,
        (r == (x, y) || r == (y, x)),
{
    if x > y {
        return (y, x);
    }
    (x, y)
}

} // verus!
