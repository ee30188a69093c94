//! Small geometric helper types: window margins and points.

use vstd::prelude::*;

verus! {

/// An axis-aligned rectangle, given by its top-left and bottom-right corners.
/// The bottom-right corner is exclusive.
#[derive(Debug, Clone, Copy, PartialEq, PartialOrd, Eq, Ord)]
pub struct Margin {
    /// Top-left corner (x, y), inclusive.
    pub top_left: (i32, i32),
    /// Bottom-right corner (x, y), exclusive.
    pub bottom_right: (i32, i32),
}

impl Margin {
    /// Construct a margin from its two corners.
    pub fn new(top_left: (i32, i32), bottom_right: (i32, i32)) -> (r: Self)
        ensures
            r.top_left == top_left,
            r.bottom_right == bottom_right,
    {
        Self { top_left, bottom_right }
    }

    /// Replace both corners.
    pub fn set(&mut self, top_left: (i32, i32), bottom_right: (i32, i32))
        ensures
            final(self).top_left == top_left,
            final(self).bottom_right == bottom_right,
    {
        self.top_left = top_left;
        self.bottom_right = bottom_right;
    }

    /// Return both corners.
    pub fn get(&self) -> (r: ((i32, i32), (i32, i32)))
        ensures
            r == (self.top_left, self.bottom_right),
    {
        (self.top_left, self.bottom_right)
    }

    /// Spec view of the left edge.
    pub open spec fn left(self) -> int {
        self.top_left.0 as int
    }

    /// Spec view of the top edge.
    pub open spec fn top(self) -> int {
        self.top_left.1 as int
    }

    /// Spec view of the (exclusive) right edge.
    pub open spec fn right(self) -> int {
        self.bottom_right.0 as int
    }

    /// Spec view of the (exclusive) bottom edge.
    pub open spec fn bottom(self) -> int {
        self.bottom_right.1 as int
    }
}

/// A pixel coordinate.
#[derive(Debug, Clone, Copy, PartialEq, PartialOrd, Eq, Ord)]
pub struct Point {
    /// Horizontal coordinate.
    pub x: i32,
    /// Vertical coordinate.
    pub y: i32,
}

} // verus!
