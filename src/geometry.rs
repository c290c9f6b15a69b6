use vstd::prelude::*;

verus! {

/// An opaque window handle issued by the display boundary.
pub type Window = u64;

/// An axis-aligned rectangle: origin, then extent.
#[derive(Clone, Copy, Debug, PartialEq, Eq, Structural)]
pub struct Rectangle {
    pub x: u32,
    pub y: u32,
    pub width: u32,
    pub height: u32,
}

impl Rectangle {
    /// The far edges of the rectangle are representable coordinates.
    pub open spec fn fits(self) -> bool {
        self.x + self.width <= u32::MAX && self.y + self.height <= u32::MAX
    }

    /// `inner` lies within `self`.
    pub open spec fn encloses(self, inner: Rectangle) -> bool {
        &&& self.x <= inner.x
        &&& self.y <= inner.y
        &&& inner.x + inner.width <= self.x + self.width
        &&& inner.y + inner.height <= self.y + self.height
    }

    pub fn new(x: u32, y: u32, width: u32, height: u32) -> (r: Rectangle)
        ensures
            r == (Rectangle { x, y, width, height }),
    {
        Rectangle { x, y, width, height }
    }
}

} // verus!
