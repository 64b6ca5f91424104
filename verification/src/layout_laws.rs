//! How the frame is shared out: when the panes stand beside each other, what each of them asks
//! for, and which of them yields.

use vstd::prelude::*;
use crate::divider::{DividerAxis, DividerId, ExtentSide};
use crate::layout::{
    callers_height_spec, impact_height_spec, impact_left_width_spec, relationship_callers_spec, selected_height_spec,
    tier_of, yielding, MIN_DIFF_WIDTH, MIN_FILES_WIDTH, Tier,
};
use crate::rect::Rect;

verus! {

/// A frame below 30 columns or 8 rows is too small; one of at least 80 columns and 20 rows
/// shows all panes unless one is zoomed; every other shows the focused pane alone.
pub proof fn law_frames_choose_their_tier(width: int, height: int, zoomed: bool)
    ensures
        tier_of(width, height, zoomed) == Tier::TooSmall <==> (width <= 29 || height <= 7),
        tier_of(width, height, zoomed) == Tier::Normal <==> (width > 79 && height > 19 && !zoomed),
        30 <= width < 80 && height >= 8 ==> tier_of(width, height, zoomed) == Tier::FocusOnly,
        width >= 30 && 8 <= height < 20 ==> tier_of(width, height, zoomed) == Tier::FocusOnly,
        width >= 30 && height >= 8 && zoomed ==> tier_of(width, height, zoomed) == Tier::FocusOnly,
{
}

/// The files pane takes what is asked for, at least 28 columns, and leaves 48 to the diff while
/// there is room.
pub proof fn law_files_width(request: int, width: int)
    requires
        0 <= request,
        width >= 76,
    ensures
        ({
            let files = yielding(request, MIN_FILES_WIDTH as int, width, MIN_DIFF_WIDTH as int);
            &&& 28 <= files <= width - 48
            &&& 28 <= request <= width - 48 ==> files == request
            &&& request < 28 ==> files == 28
            &&& request > width - 48 ==> files == width - 48
        }),
{
}

/// The Impact pane takes what is asked for between 5 and 18 rows, and leaves 7 rows to the work
/// row beside the two bars.
pub proof fn law_impact_height(request: int, height: int)
    requires
        0 <= request,
        height >= 14,
    ensures
        ({
            let impact = impact_height_spec(request, height);
            &&& 5 <= impact <= 18
            &&& impact + 9 <= height
            &&& 5 <= request <= 18 && request + 9 <= height ==> impact == request
            &&& request < 5 ==> impact == 5
            &&& request > 18 && height >= 27 ==> impact == 18
            &&& request + 9 > height && height < 27 ==> impact == height - 9
        }),
{
}

/// The relationships take what is asked for, at least 24 columns, and leave 36 to the generated
/// view; where both do not fit each gets half.
pub proof fn law_impact_left_width(request: int, width: int)
    requires
        0 <= request,
        0 <= width,
    ensures
        ({
            let left = impact_left_width_spec(request, width);
            &&& width < 60 ==> left <= width - left <= left + 1
            &&& width >= 60 ==> 24 <= left <= width - 36
            &&& width >= 60 && 24 <= request <= width - 36 ==> left == request
            &&& width >= 60 && request < 24 ==> left == 24
            &&& width >= 60 && request > width - 36 ==> left == width - 36
        }),
{
}

/// The three sections take what is asked for: the selected change at least 3 rows, the callers
/// and what lies downstream at least 2 each, once there are 7.
pub proof fn law_section_heights(selected: int, callers: int, total: int)
    requires
        0 <= selected,
        0 <= callers,
        0 <= total,
    ensures
        ({
            let top = selected_height_spec(selected, total);
            let middle = callers_height_spec(selected, callers, total);
            &&& total >= 7 ==> 3 <= top <= total - 4 && 2 <= middle <= total - top - 2
            &&& total >= 7 && 3 <= selected <= total - 4 ==> top == selected
            &&& total >= 7 && selected < 3 ==> top == 3
            &&& total >= 7 && selected > total - 4 ==> top == total - 4
            &&& total >= 7 && 2 <= callers <= total - top - 2 ==> middle == callers
            &&& total >= 7 && callers < 2 ==> middle == 2
            &&& total >= 7 && callers > total - top - 2 ==> middle == total - top - 2
            &&& 3 <= total < 7 ==> top == 3
            &&& total < 3 ==> top == total
            &&& total < 7 ==> middle <= total - top - middle <= middle + 1
        }),
{
}

/// Without the selected change the callers take what is asked for, and two rows are kept for
/// each of the two sections.
pub proof fn law_relationship_heights(callers: int, total: int)
    requires
        0 <= callers,
        0 <= total,
    ensures
        ({
            let top = relationship_callers_spec(callers, total);
            &&& total >= 4 ==> 2 <= top <= total - 2
            &&& total >= 4 && 2 <= callers <= total - 2 ==> top == callers
            &&& total >= 4 && callers < 2 ==> top == 2
            &&& total >= 4 && callers > total - 2 ==> top == total - 2
            &&& total < 4 ==> top <= total - top <= top + 1
        }),
{
}

/// The extents the dividers begin with, and the least that can be asked for.
pub proof fn law_divider_extents(id: DividerId)
    ensures
        id is FilesDiff ==> id.default_spec() == 42 && id.minimum_spec() == 28,
        id is WorkReview ==> id.default_spec() == 16 && id.minimum_spec() == 5,
        id is RelationshipsGenerated ==> id.default_spec() == 52 && id.minimum_spec() == 24,
        id is SelectedCallers ==> id.default_spec() == 4 && id.minimum_spec() == 3,
        id is CallersDownstream ==> id.default_spec() == 5 && id.minimum_spec() == 2,
{
}

/// The dividers beside the files pane and inside the Impact pane are dragged sideways, the
/// others up and down; only the Impact pane lies after the divider that sizes it.
pub proof fn law_divider_directions(id: DividerId)
    ensures
        id.axis_spec() == DividerAxis::Vertical <==> (id == DividerId::FilesDiff || id
            == DividerId::RelationshipsGenerated),
        id.side_spec() == ExtentSide::After <==> id == DividerId::WorkReview,
{
}

/// The names under which the extents are configured.
pub proof fn law_divider_names(id: DividerId)
    ensures
        id is FilesDiff ==> id.key_text() == "files_diff"@,
        id is WorkReview ==> id.key_text() == "work_review"@,
        id is RelationshipsGenerated ==> id.key_text() == "relationships_generated"@,
        id is SelectedCallers ==> id.key_text() == "selected_callers"@,
        id is CallersDownstream ==> id.key_text() == "callers_downstream"@,
{
}

/// An area covers its corners and its inside, and no cell beside, above or below it.
pub proof fn law_areas_cover_their_cells(r: Rect, x: int, y: int)
    requires
        r.fits(),
    ensures
        r.covers(x, y) <==> 0 <= x - r.x && x - r.x < r.width && 0 <= y - r.y && y - r.y < r.height,
{
}

} // verus!
