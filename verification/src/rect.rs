//! Axis-aligned rectangles in pixel coordinates.

use vstd::prelude::*;

verus! {

/// A rectangle given by its top-left corner and its extent.
///
/// A rectangle whose width or height is zero is degenerate: it holds no pixel.
#[derive(Clone, Copy, Debug, PartialEq, Eq, Structural)]
pub struct Rect {
    pub x: i32,
    pub y: i32,
    pub w: i32,
    pub h: i32,
}

impl Rect {
    pub fn new(x: i32, y: i32, w: i32, h: i32) -> (r: Rect)
        ensures
            r == (Rect { x, y, w, h }),
    {
        Rect { x, y, w, h }
    }

    /// Column of the leftmost pixel.
    pub fn left(&self) -> (v: i32)
        ensures
            v == self.x,
    {
        self.x
    }

    /// Row of the topmost pixel.
    pub fn top(&self) -> (v: i32)
        ensures
            v == self.y,
    {
        self.y
    }

    pub fn width(&self) -> (v: i32)
        ensures
            v == self.w,
    {
        self.w
    }

    pub fn height(&self) -> (v: i32)
        ensures
            v == self.h,
    {
        self.h
    }

    /// The rectangle has no negative coordinate or extent and lies inside a
    /// buffer of `width` columns and `height` rows.
    pub open spec fn inside(self, width: int, height: int) -> bool {
        &&& 0 <= self.x
        &&& 0 <= self.y
        &&& 0 <= self.w
        &&& 0 <= self.h
        &&& self.x + self.w <= width
        &&& self.y + self.h <= height
    }

    /// Decides `inside` for a buffer of the given dimensions.
    pub fn fits(&self, width: i32, height: i32) -> (b: bool)
        ensures
            b == self.inside(width as int, height as int),
    {
        self.x >= 0 && self.y >= 0 && self.w >= 0 && self.h >= 0 && self.w <= width
            && self.x <= width - self.w && self.h <= height && self.y <= height - self.h
    }
}

} // verus!
