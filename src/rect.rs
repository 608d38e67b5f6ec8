//! Pixel rectangles occupied by grid cells.

use vstd::prelude::*;

verus! {

/// An axis-aligned rectangle in pixel space: its top-left corner and its size.
#[derive(Clone, Copy, Debug, PartialEq, Eq, Structural)]
pub struct CellRect {
    pub x: u32,
    pub y: u32,
    pub width: u32,
    pub height: u32,
}

/// The point `(px, py)` lies in `rect`; the left and top sides are inside,
/// the right and bottom sides are not.
pub open spec fn rect_contains(rect: CellRect, px: int, py: int) -> bool {
    &&& rect.x <= px < rect.x + rect.width
    &&& rect.y <= py < rect.y + rect.height
}

impl CellRect {
    /// Whether the point `(px, py)` lies inside this rectangle (half-open on
    /// the right and bottom sides).
    pub fn contains_point(&self, px: i32, py: i32) -> (r: bool)
        ensures
            r == rect_contains(*self, px as int, py as int),
    {
        if px < 0 || py < 0 {
            return false;
        }
        let (qx, qy) = (px as u64, py as u64);
        let inside_x = self.x as u64 <= qx && qx < self.x as u64 + self.width as u64;
        let inside_y = self.y as u64 <= qy && qy < self.y as u64 + self.height as u64;
        inside_x && inside_y
    }
}

} // verus!
