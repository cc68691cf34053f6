//! Points and axis-aligned rectangles with fixed-point coordinates.

use vstd::prelude::*;
use crate::fixed::{add_sat, sub_sat, fx_add, fx_sub};

verus! {

/// A position in world or screen space.
#[derive(Clone, Copy, Debug, PartialEq, Eq, Structural)]
pub struct Point {
    pub x: i64,
    pub y: i64,
}

/// A displacement between two points.
#[derive(Clone, Copy, Debug, PartialEq, Eq, Structural)]
pub struct Offset {
    pub x: i64,
    pub y: i64,
}

/// An axis-aligned rectangle given by its two corners.
#[derive(Clone, Copy, Debug, PartialEq, Eq, Structural)]
pub struct Rect {
    pub min: Point,
    pub max: Point,
}

/// The grid value halfway between `a` and `b`, rounded down.
pub open spec fn midpoint(a: i64, b: i64) -> i64 {
    ((a + b) / 2) as i64
}

/// The grid value halfway between `a` and `b`, rounded down.
pub fn fx_mid(a: i64, b: i64) -> (m: i64)
    ensures
        m == midpoint(a, b),
{
    let sum: i128 = a as i128 + b as i128;
    if sum >= 0 {
        (sum / 2) as i64
    } else {
        // Round towards negative infinity.
        let back: i128 = -sum;
        (-((back + 1) / 2)) as i64
    }
}

impl Rect {
    /// The rectangle with the given corners.
    pub fn from_min_max(min: Point, max: Point) -> (r: Rect)
        ensures
            r == (Rect { min, max }),
    {
        Rect { min, max }
    }

    /// The rectangle at `min` with the given size.
    pub open spec fn spec_from_min_size(min: Point, size: Offset) -> Rect {
        Rect { min, max: Point { x: add_sat(min.x, size.x), y: add_sat(min.y, size.y) } }
    }

    /// The rectangle at `min` with the given size.
    #[verifier::when_used_as_spec(spec_from_min_size)]
    pub fn from_min_size(min: Point, size: Offset) -> (r: Rect)
        ensures
            r == Self::spec_from_min_size(min, size),
    {
        Rect { min, max: Point { x: fx_add(min.x, size.x), y: fx_add(min.y, size.y) } }
    }

    /// Extent along the x axis.
    pub open spec fn spec_width(&self) -> i64 {
        sub_sat(self.max.x, self.min.x)
    }

    /// Extent along the x axis.
    #[verifier::when_used_as_spec(spec_width)]
    pub fn width(&self) -> (w: i64)
        ensures
            w == self.spec_width(),
    {
        fx_sub(self.max.x, self.min.x)
    }

    /// Extent along the y axis.
    pub open spec fn spec_height(&self) -> i64 {
        sub_sat(self.max.y, self.min.y)
    }

    /// Extent along the y axis.
    #[verifier::when_used_as_spec(spec_height)]
    pub fn height(&self) -> (h: i64)
        ensures
            h == self.spec_height(),
    {
        fx_sub(self.max.y, self.min.y)
    }

    /// The point in the middle of the rectangle.
    pub open spec fn spec_center(&self) -> Point {
        Point { x: midpoint(self.min.x, self.max.x), y: midpoint(self.min.y, self.max.y) }
    }

    /// The point in the middle of the rectangle.
    #[verifier::when_used_as_spec(spec_center)]
    pub fn center(&self) -> (c: Point)
        ensures
            c == self.spec_center(),
    {
        Point { x: fx_mid(self.min.x, self.max.x), y: fx_mid(self.min.y, self.max.y) }
    }

    /// Whether the two rectangles share a point, their edges included.
    pub open spec fn spec_intersects(&self, other: Rect) -> bool {
        &&& self.min.x <= other.max.x
        &&& other.min.x <= self.max.x
        &&& self.min.y <= other.max.y
        &&& other.min.y <= self.max.y
    }

    /// Whether the two rectangles share a point, their edges included.
    #[verifier::when_used_as_spec(spec_intersects)]
    pub fn intersects(&self, other: Rect) -> (b: bool)
        ensures
            b == self.spec_intersects(other),
    {
        self.min.x <= other.max.x && other.min.x <= self.max.x && self.min.y <= other.max.y && other.min.y <= self.max.y
    }

    /// Whether the point lies in the rectangle, its edges included.
    pub open spec fn spec_contains(&self, p: Point) -> bool {
        &&& self.min.x <= p.x <= self.max.x
        &&& self.min.y <= p.y <= self.max.y
    }

    /// Whether the point lies in the rectangle, its edges included.
    #[verifier::when_used_as_spec(spec_contains)]
    pub fn contains(&self, p: Point) -> (b: bool)
        ensures
            b == self.spec_contains(p),
    {
        self.min.x <= p.x && p.x <= self.max.x && self.min.y <= p.y && p.y <= self.max.y
    }

    /// The rectangle with every edge moved inwards by `amount`.
    pub open spec fn spec_shrink(&self, amount: i64) -> Rect {
        Rect {
            min: Point { x: add_sat(self.min.x, amount), y: add_sat(self.min.y, amount) },
            max: Point { x: sub_sat(self.max.x, amount), y: sub_sat(self.max.y, amount) },
        }
    }

    /// The rectangle with every edge moved inwards by `amount`.
    #[verifier::when_used_as_spec(spec_shrink)]
    pub fn shrink(&self, amount: i64) -> (r: Rect)
        ensures
            r == self.spec_shrink(amount),
    {
        Rect {
            min: Point { x: fx_add(self.min.x, amount), y: fx_add(self.min.y, amount) },
            max: Point { x: fx_sub(self.max.x, amount), y: fx_sub(self.max.y, amount) },
        }
    }

    /// The smaller of width and height.
    pub open spec fn spec_short_side(&self) -> i64 {
        if self.spec_width() <= self.spec_height() {
            self.spec_width()
        } else {
            self.spec_height()
        }
    }

    /// The smaller of width and height.
    #[verifier::when_used_as_spec(spec_short_side)]
    pub fn short_side(&self) -> (s: i64)
        ensures
            s == self.spec_short_side(),
    {
        let w: i64 = self.width();
        let h: i64 = self.height();
        if w <= h {
            w
        } else {
            h
        }
    }
}

} // verus!
