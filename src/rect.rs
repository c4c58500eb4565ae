use vstd::prelude::*;

verus! {

/// An axis-aligned rectangle given by two corners; `x2` and `y2` are the far edges.
#[derive(Clone, Copy, Debug, PartialEq, Eq, Structural)]
pub struct Rect {
    pub x1: i32,
    pub y1: i32,
    pub x2: i32,
    pub y2: i32,
}

impl Rect {
    /// A rectangle with non-empty extent on both axes.
    pub open spec fn wf(self) -> bool {
        self.x1 < self.x2 && self.y1 < self.y2
    }

    /// Closed ranges overlapping on both axes.
    pub open spec fn overlaps(self, other: Rect) -> bool {
        self.x1 <= other.x2 && self.x2 >= other.x1 && self.y1 <= other.y2 && self.y2 >= other.y1
    }

    pub open spec fn center_x(self) -> int {
        (self.x1 + self.x2) / 2
    }

    pub open spec fn center_y(self) -> int {
        (self.y1 + self.y2) / 2
    }

    /// Whether `(x, y)` lies in the part of the rectangle that is carved out as floor.
    pub open spec fn interior_contains(self, x: int, y: int) -> bool {
        self.x1 + 1 <= x <= self.x2 && self.y1 + 1 <= y <= self.y2
    }

    /// The rectangle with top-left corner `(x, y)`, width `w` and height `h`.
    pub fn new(x: i32, y: i32, w: i32, h: i32) -> (r: Rect)
        requires
            w > 0,
            h > 0,
            x + w <= i32::MAX,
            y + h <= i32::MAX,
        ensures
            r.wf(),
            r == (Rect { x1: x, y1: y, x2: (x + w) as i32, y2: (y + h) as i32 }),
    {
        Rect { x1: x, y1: y, x2: x + w, y2: y + h }
    }

    /// Whether the two rectangles touch or overlap.
    pub fn intersect(&self, other: &Rect) -> (r: bool)
        ensures
            r == self.overlaps(*other),
    {
        self.x1 <= other.x2 && self.x2 >= other.x1 && self.y1 <= other.y2 && self.y2 >= other.y1
    }

    /// The integer midpoint of the rectangle.
    pub fn center(&self) -> (r: (i32, i32))
        requires
            0 <= self.x1 <= self.x2,
            0 <= self.y1 <= self.y2,
        ensures
            r.0 == self.center_x(),
            r.1 == self.center_y(),
    {
        (self.x1 + (self.x2 - self.x1) / 2, self.y1 + (self.y2 - self.y1) / 2)
    }
}

/// Overlap is symmetric, and every well-formed rectangle overlaps itself.
pub proof fn lemma_overlaps_symmetric(a: Rect, b: Rect)
    ensures
        a.overlaps(b) == b.overlaps(a),
        a.wf() ==> a.overlaps(a),
{
}

} // verus!
