//! Integer geometry: the pixel-aligned rectangle.

use vstd::prelude::*;

verus! {

/// A rectangle on integer coordinates, spanning `x0 <= x < x1` and
/// `y0 <= y < y1`.
#[derive(Debug, Clone, Copy, PartialEq, Eq, Default, Structural)]
pub struct IRect {
    pub x0: i32,
    pub y0: i32,
    pub x1: i32,
    pub y1: i32,
}

impl IRect {
    pub fn new(x0: i32, y0: i32, x1: i32, y1: i32) -> (r: IRect)
        ensures
            r == (IRect { x0, y0, x1, y1 }),
    {
        IRect { x0, y0, x1, y1 }
    }

    pub fn width(&self) -> (w: i32)
        requires
            i32::MIN <= self.x1 - self.x0 <= i32::MAX,
        ensures
            w == self.x1 - self.x0,
    {
        self.x1 - self.x0
    }

    pub fn height(&self) -> (h: i32)
        requires
            i32::MIN <= self.y1 - self.y0 <= i32::MAX,
        ensures
            h == self.y1 - self.y0,
    {
        self.y1 - self.y0
    }

    /// True when the rectangle spans no pixels at all.
    pub fn is_empty(&self) -> (r: bool)
        ensures
            r == (self.x0 >= self.x1 || self.y0 >= self.y1),
    {
        self.x0 >= self.x1 || self.y0 >= self.y1
    }
}

} // verus!
