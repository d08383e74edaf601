//! The bounds of a glyph.

use vstd::prelude::*;

verus! {

/// The bounds of a glyph: the size of its ink rectangle in pixels, and the
/// offset of that rectangle from the origin.
#[derive(Clone, Copy, Debug, PartialEq, Eq, Structural)]
pub struct BoundingBox {
    /// Width in pixels.
    pub width: u32,
    /// Height in pixels.
    pub height: u32,
    /// Horizontal offset from the origin; negative to the left of it.
    pub x: i32,
    /// Vertical offset from the origin; negative below it.
    pub y: i32,
}

impl BoundingBox {
    /// Creates an empty bounding box.
    pub fn empty() -> (bounds: Self)
        ensures
            bounds == (BoundingBox { width: 0, height: 0, x: 0, y: 0 }),
    {
        BoundingBox::new(0, 0, 0, 0)
    }

    /// Creates a new bounding box with the given bounds.
    pub fn new(width: u32, height: u32, x: i32, y: i32) -> (bounds: Self)
        ensures
            bounds == (BoundingBox { width, height, x, y }),
    {
        BoundingBox { width, height, x, y }
    }

    /// Gets the width.
    pub fn width(&self) -> (width: u32)
        ensures
            width == self.width,
    {
        self.width
    }

    /// Gets the height.
    pub fn height(&self) -> (height: u32)
        ensures
            height == self.height,
    {
        self.height
    }

    /// Gets the x.
    pub fn x(&self) -> (x: i32)
        ensures
            x == self.x,
    {
        self.x
    }

    /// Gets the y.
    pub fn y(&self) -> (y: i32)
        ensures
            y == self.y,
    {
        self.y
    }
}

} // verus!
