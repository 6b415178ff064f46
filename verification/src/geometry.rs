//! Geometry primitives: points, sizes, rectangles, and the ratio scale
//! used by split branches.
//!
//! All coordinates are integers in container space. A split ratio is a
//! fixed-point fraction measured in units of `RATIO_UNIT` (so `500` stands
//! for one half); every stored ratio is clamped to
//! `[RATIO_MIN, RATIO_MAX]`.

use vstd::prelude::*;

verus! {

/// A point in container coordinates.
#[derive(Clone, Copy, PartialEq, Eq, Structural, Debug)]
pub struct Point {
    pub x: u32,
    pub y: u32,
}

/// A width and a height.
#[derive(Clone, Copy, PartialEq, Eq, Structural, Debug)]
pub struct Size {
    pub width: u32,
    pub height: u32,
}

/// An axis-aligned rectangle in container coordinates.
#[derive(Clone, Copy, PartialEq, Eq, Structural, Debug)]
pub struct Rectangle {
    pub x: u32,
    pub y: u32,
    pub width: u32,
    pub height: u32,
}

/// Denominator of the fixed-point ratio scale: a ratio of `RATIO_UNIT`
/// means the whole extent.
pub const RATIO_UNIT: u32 = 1000;

/// Smallest ratio a branch may store.
pub const RATIO_MIN: u32 = 100;

/// Largest ratio a branch may store.
pub const RATIO_MAX: u32 = 900;

/// The ratio actually stored when `r` is requested: `r` itself inside
/// `[RATIO_MIN, RATIO_MAX]`, the nearest bound outside.
pub open spec fn spec_clamp_ratio(r: u32) -> u32 {
    if r < RATIO_MIN {
        RATIO_MIN
    } else if r > RATIO_MAX {
        RATIO_MAX
    } else {
        r
    }
}

/// Clamps a requested ratio to the stored range.
pub fn clamp_ratio(r: u32) -> (c: u32)
    ensures
        c == spec_clamp_ratio(r),
        RATIO_MIN <= c <= RATIO_MAX,
        RATIO_MIN <= r <= RATIO_MAX ==> c == r,
{
    if r < RATIO_MIN {
        RATIO_MIN
    } else if r > RATIO_MAX {
        RATIO_MAX
    } else {
        r
    }
}

impl Point {
    pub fn new(x: u32, y: u32) -> (p: Point)
        ensures
            p == (Point { x, y }),
    {
        Point { x, y }
    }
}

impl Size {
    pub fn new(width: u32, height: u32) -> (s: Size)
        ensures
            s == (Size { width, height }),
    {
        Size { width, height }
    }
}

impl Rectangle {
    /// The rectangle's extents stay within the coordinate space.
    pub open spec fn spec_wf(self) -> bool {
        self.x + self.width <= u32::MAX && self.y + self.height <= u32::MAX
    }

    /// The area, as a mathematical integer.
    pub open spec fn spec_area(self) -> int {
        self.width * self.height
    }

    /// Whether `p` lies inside the rectangle. The right and bottom edges
    /// are exclusive, so adjacent rectangles share no point.
    pub open spec fn spec_contains(self, p: Point) -> bool {
        self.x <= p.x < self.x + self.width && self.y <= p.y < self.y + self.height
    }

    /// Whether `inner` lies entirely within `self`.
    pub open spec fn spec_contains_rect(self, inner: Rectangle) -> bool {
        self.x <= inner.x && inner.x + inner.width <= self.x + self.width && self.y <= inner.y
            && inner.y + inner.height <= self.y + self.height
    }

    /// Whether the two rectangles share no point: they are separated
    /// along the horizontal or the vertical axis.
    pub open spec fn spec_disjoint(self, other: Rectangle) -> bool {
        self.x + self.width <= other.x || other.x + other.width <= self.x || self.y + self.height
            <= other.y || other.y + other.height <= self.y
    }

    pub fn new(x: u32, y: u32, width: u32, height: u32) -> (r: Rectangle)
        ensures
            r == (Rectangle { x, y, width, height }),
    {
        Rectangle { x, y, width, height }
    }

    /// Point-in-rectangle test used for pane hit-testing.
    pub fn contains(&self, p: Point) -> (r: bool)
        ensures
            r == self.spec_contains(p),
    {
        self.x <= p.x && (p.x as u64) < (self.x as u64) + (self.width as u64) && self.y <= p.y
            && (p.y as u64) < (self.y as u64) + (self.height as u64)
    }
}

/// Rectangles inside disjoint rectangles are themselves disjoint.
pub proof fn lemma_contained_disjoint(outer_a: Rectangle, outer_b: Rectangle, a: Rectangle, b: Rectangle)
    requires
        outer_a.spec_disjoint(outer_b),
        outer_a.spec_contains_rect(a),
        outer_b.spec_contains_rect(b),
    ensures
        a.spec_disjoint(b),
{
}

} // verus!
