//! The value types that the engine computes with.

use vstd::prelude::*;

verus! {

/// An axis-aligned rectangle: a signed integer origin and an unsigned extent.
///
/// A rectangle covers the closed spans `[left, right]` and `[top, bottom]`.
/// Zero-area rectangles are degenerate but valid.
#[derive(PartialEq, Eq, Structural, Clone, Copy, Hash, Debug)]
pub struct Rect {
    pub x: i32,
    pub y: i32,
    pub w: u16,
    pub h: u16,
}

impl Rect {
    /// The rectangle with its top-left corner at `(x, y)`, `w` wide and `h`
    /// high.
    pub fn new(x: i32, y: i32, w: u16, h: u16) -> (r: Self)
        ensures
            r == (Rect { x, y, w, h }),
    {
        Self { x, y, w, h }
    }

    /// The smallest x coordinate the rectangle covers.
    pub open spec fn left(self) -> int {
        self.x as int
    }

    /// The largest x coordinate the rectangle covers.
    pub open spec fn right(self) -> int {
        self.x + self.w
    }

    /// The smallest y coordinate the rectangle covers.
    pub open spec fn top(self) -> int {
        self.y as int
    }

    /// The largest y coordinate the rectangle covers.
    pub open spec fn bottom(self) -> int {
        self.y + self.h
    }
}

/// A signed integer 2D vector, used for positions and velocities.
#[derive(PartialEq, Eq, Structural, Clone, Copy, Hash, Debug)]
pub struct Vec2i(pub i32, pub i32);

/// A colour with red, green, blue and alpha channels.
#[derive(PartialEq, Eq, Structural, Clone, Copy, Hash, Debug)]
pub struct Rgba(pub u8, pub u8, pub u8, pub u8);

} // verus!
