//! Independently scrollable regions of a frame.

use vstd::prelude::*;
use crate::num::{clamp_int, min_int, min_usize};
use crate::rect::Rect;

verus! {

/// Stable identity of a scrollable region.
#[derive(Debug, Clone, Copy, PartialEq, Eq, Structural)]
pub enum ScrollRegionId {
    Files,
    Diff,
    Callers,
    Downstream,
    GeneratedImpact,
}

/// One region of the frame the user saw, with its displayed origin.
#[derive(Debug, Clone, Copy, PartialEq, Eq, Structural)]
pub struct ScrollRegion {
    pub id: ScrollRegionId,
    pub rect: Rect,
    /// The first displayed row.
    pub offset: usize,
    /// The largest first row that still shows content.
    pub max_offset: usize,
}

impl ScrollRegion {
    pub fn new(id: ScrollRegionId, rect: Rect, offset: usize, max_offset: usize) -> (r: ScrollRegion)
        ensures
            r == (ScrollRegion { id, rect, offset, max_offset }),
    {
        ScrollRegion { id, rect, offset, max_offset }
    }

    /// The origin that is displayed.
    pub open spec fn shown_offset(self) -> int {
        min_int(self.offset as int, self.max_offset as int)
    }

    /// The origin after `delta` rows, kept inside the content.
    pub open spec fn moved_offset(self, delta: int) -> int {
        clamp_int(self.shown_offset() + delta, 0, self.max_offset as int)
    }

    /// New absolute offset for a wheel delta; `None` where the origin would not move.
    pub fn scrolled_offset(self, delta: i32) -> (r: Option<usize>)
        ensures
            match r {
                Some(offset) => offset == self.moved_offset(delta as int) && offset != self.shown_offset(),
                None => self.moved_offset(delta as int) == self.shown_offset(),
            },
    {
        let shown: usize = min_usize(self.offset, self.max_offset);
        let next: usize = moved_by(shown, delta, self.max_offset);
        if next == shown {
            None
        } else {
            Some(next)
        }
    }
}

/// `value + delta` moved into `0..=max`.
pub fn moved_by(value: usize, delta: i32, max: usize) -> (r: usize)
    ensures
        r == clamp_int(value + delta, 0, max as int),
{
    if delta < 0 {
        let back: u32 = (-(delta as i64)) as u32;
        min_usize(value.saturating_sub(back as usize), max)
    } else {
        min_usize(value.saturating_add(delta as usize), max)
    }
}

} // verus!
