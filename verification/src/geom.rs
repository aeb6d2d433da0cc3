//! Rectangles on the terminal grid.
//!
//! A rectangle is the half-open cell region `[x, x + width) x [y, y + height)`.
//! Coordinates are signed (a sprite may hang off the left or top edge of the
//! screen); widths and heights are unsigned. A rectangle with zero width or
//! zero height covers no cells at all.

use vstd::prelude::*;

verus! {

/// The bounding rectangle a sprite occupies at a given position.
#[derive(Clone, Copy, Debug)]
pub struct Rect {
    pub x: i32,
    pub y: i32,
    pub width: usize,
    pub height: usize,
}

impl Rect {
    /// Whether the cell at `(px, py)` lies inside this rectangle.
    pub open spec fn covers(self, px: int, py: int) -> bool {
        &&& self.x <= px < self.x + self.width
        &&& self.y <= py < self.y + self.height
    }

    /// Whether this rectangle covers at least one cell.
    pub open spec fn nonempty(self) -> bool {
        self.width > 0 && self.height > 0
    }

    /// Whether the two rectangles share at least one cell.
    pub open spec fn overlaps(self, other: Rect) -> bool {
        &&& self.x < other.x + other.width
        &&& other.x < self.x + self.width
        &&& self.y < other.y + other.height
        &&& other.y < self.y + self.height
        &&& self.nonempty()
        &&& other.nonempty()
    }

    /// Decides whether `self` and `other` share a cell.
    pub fn intersects(&self, other: &Rect) -> (r: bool)
        ensures
            r == self.overlaps(*other),
    {
        let sx: i128 = self.x as i128;
        let sy: i128 = self.y as i128;
        let ox: i128 = other.x as i128;
        let oy: i128 = other.y as i128;
        self.width > 0 && self.height > 0 && other.width > 0 && other.height > 0
            && sx < ox + other.width as i128 && ox < sx + self.width as i128
            && sy < oy + other.height as i128 && oy < sy + self.height as i128
    }

    /// Decides whether the cell at `(px, py)` lies inside this rectangle.
    pub fn contains_cell(&self, px: i64, py: i64) -> (r: bool)
        ensures
            r == self.covers(px as int, py as int),
    {
        let sx: i128 = self.x as i128;
        let sy: i128 = self.y as i128;
        sx <= px as i128 && (px as i128) < sx + self.width as i128
            && sy <= py as i128 && (py as i128) < sy + self.height as i128
    }
}

/// Two rectangles overlap exactly when some cell lies in both.
pub proof fn lemma_overlaps_iff_common_cell(a: Rect, b: Rect)
    ensures
        a.overlaps(b) <==> exists|px: int, py: int| a.covers(px, py) && b.covers(px, py),
{
    if a.overlaps(b) {
        let px: int = if a.x >= b.x {
            a.x as int
        } else {
            b.x as int
        };
        let py: int = if a.y >= b.y {
            a.y as int
        } else {
            b.y as int
        };
        assert(a.covers(px, py) && b.covers(px, py));
    }
}

} // verus!
