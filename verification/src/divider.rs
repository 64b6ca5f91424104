//! Generic resizable-divider identities, preferences, and live drag handles.
//!
//! Layout code registers the dividers visible in the current frame. Mouse routing treats
//! every registered divider identically; axis and extent direction live on the identity,
//! so new splits do not require another drag-state branch.

use vstd::prelude::*;
use crate::num::{clamp_int, max_int, max_u16};
use crate::rect::Rect;

verus! {

/// Every user-resizable structural divider.
#[derive(Debug, Clone, Copy, PartialEq, Eq, Structural, Hash)]
pub enum DividerId {
    /// Changed files before the focused diff.
    FilesDiff,
    /// Work area before the bottom review area (whose trailing height is stored).
    WorkReview,
    /// Deterministic relationships before the generated explanation.
    RelationshipsGenerated,
    /// Selected-change section before callers.
    SelectedCallers,
    /// Callers section before downstream relationships.
    CallersDownstream,
}

/// Along which line a divider runs.
#[derive(Debug, Clone, Copy, PartialEq, Eq, Structural)]
pub enum DividerAxis {
    Vertical,
    Horizontal,
}

/// Which side of a divider its stored extent measures.
#[derive(Debug, Clone, Copy, PartialEq, Eq, Structural)]
pub enum ExtentSide {
    Before,
    After,
}

impl DividerId {
    /// All divider identities in stable persistence and render precedence order.
    pub const ALL: [DividerId; 5] = [
        DividerId::FilesDiff,
        DividerId::WorkReview,
        DividerId::RelationshipsGenerated,
        DividerId::SelectedCallers,
        DividerId::CallersDownstream,
    ];

    /// The key that [`DividerId::config_key`] returns.
    pub open spec fn key_text(self) -> Seq<char> {
        match self {
            DividerId::FilesDiff => "files_diff"@,
            DividerId::WorkReview => "work_review"@,
            DividerId::RelationshipsGenerated => "relationships_generated"@,
            DividerId::SelectedCallers => "selected_callers"@,
            DividerId::CallersDownstream => "callers_downstream"@,
        }
    }

    /// Stable key used in `[ui.dividers]` global configuration.
    pub fn config_key(self) -> (key: &'static str)
        ensures
            key@ == self.key_text(),
    {
        match self {
            DividerId::FilesDiff => "files_diff",
            DividerId::WorkReview => "work_review",
            DividerId::RelationshipsGenerated => "relationships_generated",
            DividerId::SelectedCallers => "selected_callers",
            DividerId::CallersDownstream => "callers_downstream",
        }
    }

    pub open spec fn default_spec(self) -> u16 {
        match self {
            DividerId::FilesDiff => crate::layout::DEFAULT_FILES_WIDTH,
            DividerId::WorkReview => crate::layout::DEFAULT_IMPACT_HEIGHT,
            DividerId::RelationshipsGenerated => crate::layout::DEFAULT_IMPACT_LEFT_WIDTH,
            DividerId::SelectedCallers => crate::layout::DEFAULT_SELECTED_CHANGE_HEIGHT,
            DividerId::CallersDownstream => crate::layout::DEFAULT_CALLERS_HEIGHT,
        }
    }

    /// Default requested leading or trailing extent in terminal cells.
    pub fn default_extent(self) -> (extent: u16)
        ensures
            extent == self.default_spec(),
    {
        match self {
            DividerId::FilesDiff => crate::layout::DEFAULT_FILES_WIDTH,
            DividerId::WorkReview => crate::layout::DEFAULT_IMPACT_HEIGHT,
            DividerId::RelationshipsGenerated => crate::layout::DEFAULT_IMPACT_LEFT_WIDTH,
            DividerId::SelectedCallers => crate::layout::DEFAULT_SELECTED_CHANGE_HEIGHT,
            DividerId::CallersDownstream => crate::layout::DEFAULT_CALLERS_HEIGHT,
        }
    }

    pub open spec fn minimum_spec(self) -> u16 {
        match self {
            DividerId::FilesDiff => crate::layout::MIN_FILES_WIDTH,
            DividerId::WorkReview => crate::layout::MIN_IMPACT_HEIGHT,
            DividerId::RelationshipsGenerated => crate::layout::MIN_IMPACT_LEFT_WIDTH,
            DividerId::SelectedCallers => crate::layout::MIN_SELECTED_CHANGE_HEIGHT,
            DividerId::CallersDownstream => crate::layout::MIN_RELATION_SECTION_HEIGHT,
        }
    }

    /// Safe preference floor; live layout may yield further in a constrained viewport.
    pub fn minimum_extent(self) -> (extent: u16)
        ensures
            extent == self.minimum_spec(),
    {
        match self {
            DividerId::FilesDiff => crate::layout::MIN_FILES_WIDTH,
            DividerId::WorkReview => crate::layout::MIN_IMPACT_HEIGHT,
            DividerId::RelationshipsGenerated => crate::layout::MIN_IMPACT_LEFT_WIDTH,
            DividerId::SelectedCallers => crate::layout::MIN_SELECTED_CHANGE_HEIGHT,
            DividerId::CallersDownstream => crate::layout::MIN_RELATION_SECTION_HEIGHT,
        }
    }

    pub open spec fn axis_spec(self) -> DividerAxis {
        if self is FilesDiff || self is RelationshipsGenerated {
            DividerAxis::Vertical
        } else {
            DividerAxis::Horizontal
        }
    }

    pub fn axis(self) -> (axis: DividerAxis)
        ensures
            axis == self.axis_spec(),
    {
        match self {
            DividerId::FilesDiff | DividerId::RelationshipsGenerated => DividerAxis::Vertical,
            DividerId::WorkReview | DividerId::SelectedCallers | DividerId::CallersDownstream => {
                DividerAxis::Horizontal
            }
        }
    }

    pub open spec fn side_spec(self) -> ExtentSide {
        if self is WorkReview {
            ExtentSide::After
        } else {
            ExtentSide::Before
        }
    }

    pub fn extent_side(self) -> (side: ExtentSide)
        ensures
            side == self.side_spec(),
    {
        match self {
            DividerId::WorkReview => ExtentSide::After,
            _ => ExtentSide::Before,
        }
    }
}

/// Requested extents for every divider.
#[derive(Debug, Clone, Copy, PartialEq, Eq, Structural)]
pub struct DividerSizes {
    files_diff: u16,
    work_review: u16,
    relationships_generated: u16,
    selected_callers: u16,
    callers_downstream: u16,
}

impl DividerSizes {
    /// The stored request of one divider.
    pub closed spec fn extent_of(self, id: DividerId) -> u16 {
        match id {
            DividerId::FilesDiff => self.files_diff,
            DividerId::WorkReview => self.work_review,
            DividerId::RelationshipsGenerated => self.relationships_generated,
            DividerId::SelectedCallers => self.selected_callers,
            DividerId::CallersDownstream => self.callers_downstream,
        }
    }

    /// Read one requested extent.
    pub fn get(self, id: DividerId) -> (extent: u16)
        ensures
            extent == self.extent_of(id),
    {
        match id {
            DividerId::FilesDiff => self.files_diff,
            DividerId::WorkReview => self.work_review,
            DividerId::RelationshipsGenerated => self.relationships_generated,
            DividerId::SelectedCallers => self.selected_callers,
            DividerId::CallersDownstream => self.callers_downstream,
        }
    }

    /// Store one requested extent, clamped only to its stable safety floor.
    pub fn set(&mut self, id: DividerId, extent: u16)
        ensures
            final(self).extent_of(id) == max_int(extent as int, id.minimum_spec() as int),
            forall|other: DividerId|
                other != id ==> #[trigger] final(self).extent_of(other) == old(self).extent_of(other),
    {
        let value: u16 = max_u16(extent, id.minimum_extent());
        match id {
            DividerId::FilesDiff => { self.files_diff = value; },
            DividerId::WorkReview => { self.work_review = value; },
            DividerId::RelationshipsGenerated => { self.relationships_generated = value; },
            DividerId::SelectedCallers => { self.selected_callers = value; },
            DividerId::CallersDownstream => { self.callers_downstream = value; },
        }
    }
}

impl Default for DividerSizes {
    fn default() -> (r: Self)
        ensures
            forall|id: DividerId| #[trigger] r.extent_of(id) == id.default_spec(),
    {
        DividerSizes {
            files_diff: DividerId::FilesDiff.default_extent(),
            work_review: DividerId::WorkReview.default_extent(),
            relationships_generated: DividerId::RelationshipsGenerated.default_extent(),
            selected_callers: DividerId::SelectedCallers.default_extent(),
            callers_downstream: DividerId::CallersDownstream.default_extent(),
        }
    }
}

/// One divider actually visible in the last rendered frame.
#[derive(Debug, Clone, Copy, PartialEq, Eq, Structural)]
pub struct DividerHandle {
    pub id: DividerId,
    pub rect: Rect,
    pub effective_extent: u16,
}

/// How far the pointer has moved across a divider, counted towards a larger extent.
pub open spec fn directed_move(
    id: DividerId,
    start_x: int,
    start_y: int,
    current_x: int,
    current_y: int,
) -> int {
    let delta = if id.axis_spec() == DividerAxis::Vertical {
        current_x - start_x
    } else {
        current_y - start_y
    };
    if id.side_spec() == ExtentSide::Before {
        delta
    } else {
        -delta
    }
}

impl DividerHandle {
    pub fn new(id: DividerId, rect: Rect, effective_extent: u16) -> (r: DividerHandle)
        ensures
            r == (DividerHandle { id, rect, effective_extent }),
    {
        DividerHandle { id, rect, effective_extent }
    }

    /// Convert pointer movement into the absolute requested extent. Most dividers size
    /// the region before them; WorkReview sizes the region after it, so its delta flips.
    pub fn resized_extent_from(
        self,
        start_extent: u16,
        start_x: u16,
        start_y: u16,
        current_x: u16,
        current_y: u16,
    ) -> (extent: u16)
        ensures
            extent == clamp_int(
                start_extent + directed_move(
                    self.id,
                    start_x as int,
                    start_y as int,
                    current_x as int,
                    current_y as int,
                ),
                0,
                u16::MAX as int,
            ),
    {
        let delta: i64 = match self.id.axis() {
            DividerAxis::Vertical => current_x as i64 - start_x as i64,
            DividerAxis::Horizontal => current_y as i64 - start_y as i64,
        };
        let directed: i64 = match self.id.extent_side() {
            ExtentSide::Before => delta,
            ExtentSide::After => -delta,
        };
        let moved: i64 = start_extent as i64 + directed;
        if moved < 0 {
            0
        } else if moved > 65535 {
            65535
        } else {
            moved as u16
        }
    }
}

/// No two dividers share a configuration key.
pub proof fn law_config_keys_are_unique(a: DividerId, b: DividerId)
    requires
        a.key_text() == b.key_text(),
    ensures
        a == b,
{
    reveal_strlit("files_diff");
    reveal_strlit("work_review");
    reveal_strlit("relationships_generated");
    reveal_strlit("selected_callers");
    reveal_strlit("callers_downstream");
    assert("files_diff"@.len() == 10);
    assert("work_review"@.len() == 11);
    assert("relationships_generated"@.len() == 23);
    assert("selected_callers"@.len() == 16);
    assert("callers_downstream"@.len() == 18);
}

/// Every default extent respects the divider's own floor.
pub proof fn law_defaults_respect_the_floor(id: DividerId)
    ensures
        id.default_spec() >= id.minimum_spec(),
{
}

/// A drag that returns to where it began asks for the extent it began with.
pub proof fn law_drag_back_restores(id: DividerId, extent: u16, x: int, y: int)
    ensures
        clamp_int(extent + directed_move(id, x, y, x, y), 0, u16::MAX as int) == extent,
{
}

} // verus!
