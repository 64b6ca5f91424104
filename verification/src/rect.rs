//! Rectangles of terminal cells.

use vstd::prelude::*;


verus! {

/// An axis-aligned area of terminal cells; `x` and `y` name its upper left cell.
#[derive(Debug, Clone, Copy, PartialEq, Eq, Structural, Hash)]
pub struct Rect {
    pub x: u16,
    pub y: u16,
    pub width: u16,
    pub height: u16,
}

impl Rect {
    /// The first column to the right of the area, without leaving the `u16` range.
    pub open spec fn spec_right(&self) -> int {
        if self.x + self.width > u16::MAX { u16::MAX as int } else { self.x + self.width }
    }

    /// The first row below the area, without leaving the `u16` range.
    pub open spec fn spec_bottom(&self) -> int {
        if self.y + self.height > u16::MAX { u16::MAX as int } else { self.y + self.height }
    }

    /// Whether the cell at column `x`, row `y` lies in the area.
    pub open spec fn covers(&self, x: int, y: int) -> bool {
        self.x <= x < self.spec_right() && self.y <= y < self.spec_bottom()
    }

    /// An area whose far edges stay inside the `u16` range.
    pub open spec fn fits(&self) -> bool {
        self.x + self.width <= u16::MAX && self.y + self.height <= u16::MAX
    }

    pub fn new(x: u16, y: u16, width: u16, height: u16) -> (r: Rect)
        ensures
            r == (Rect { x, y, width, height }),
    {
        Rect { x, y, width, height }
    }

    /// The area without any cell, at the origin.
    pub fn empty() -> (r: Rect)
        ensures
            r == (Rect { x: 0, y: 0, width: 0, height: 0 }),
    {
        Rect { x: 0, y: 0, width: 0, height: 0 }
    }

    pub fn right(&self) -> (r: u16)
        ensures
            r == self.spec_right(),
    {
        self.x.saturating_add(self.width)
    }

    pub fn bottom(&self) -> (r: u16)
        ensures
            r == self.spec_bottom(),
    {
        self.y.saturating_add(self.height)
    }

    pub fn is_empty(&self) -> (r: bool)
        ensures
            r == (self.width == 0 || self.height == 0),
    {
        self.width == 0 || self.height == 0
    }

    pub fn contains(&self, x: u16, y: u16) -> (r: bool)
        ensures
            r == self.covers(x as int, y as int),
    {
        self.x <= x && x < self.right() && self.y <= y && y < self.bottom()
    }
}

} // verus!
