//! Terminal cell geometry: rectangles in columns and rows.

use vstd::prelude::*;

verus! {

/// A rectangle of terminal cells: origin column and row, width and height.
#[derive(Debug, Clone, Copy, PartialEq, Eq, Structural, Default)]
pub struct Rect {
    pub x: u16,
    pub y: u16,
    pub width: u16,
    pub height: u16,
}

/// `a + b`, clamped at `u16::MAX`.
pub open spec fn sat_add(a: u16, b: u16) -> u16 {
    if a as int + b as int > u16::MAX {
        u16::MAX
    } else {
        (a + b) as u16
    }
}

impl Rect {
    /// The column just past the right edge (saturating).
    pub open spec fn right_spec(self) -> u16 {
        sat_add(self.x, self.width)
    }

    /// The row just past the bottom edge (saturating).
    pub open spec fn bottom_spec(self) -> u16 {
        sat_add(self.y, self.height)
    }

    /// True when the cell lies inside.
    pub open spec fn contains_spec(self, column: u16, row: u16) -> bool {
        self.x <= column < self.right_spec() && self.y <= row < self.bottom_spec()
    }

    /// A rectangle from its origin and size.
    pub fn new(x: u16, y: u16, width: u16, height: u16) -> (r: Rect)
        ensures
            r == (Rect { x, y, width, height }),
    {
        Rect { x, y, width, height }
    }

    /// The column just past the right edge (saturating).
    pub fn right(&self) -> (r: u16)
        ensures
            r == self.right_spec(),
    {
        self.x.saturating_add(self.width)
    }

    /// The row just past the bottom edge (saturating).
    pub fn bottom(&self) -> (r: u16)
        ensures
            r == self.bottom_spec(),
    {
        self.y.saturating_add(self.height)
    }

    /// True when the cell lies inside.
    pub fn contains(&self, column: u16, row: u16) -> (r: bool)
        ensures
            r == self.contains_spec(column, row),
    {
        self.x <= column && column < self.right() && self.y <= row && row < self.bottom()
    }
}

} // verus!
