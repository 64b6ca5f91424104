//! Which pane arrangement a viewport gets, and how large each pane is.
//!
//! Everything here is a function of sizes in terminal cells: there is one master-detail
//! arrangement at normal sizes, and smaller terminals (or an explicit zoom) get the
//! focused pane alone between the chrome rows.

use vstd::prelude::*;
use crate::num::{clamp_int, max_int, max_u16, min_int, min_u16, monus};
use crate::rect::Rect;

verus! {

/// Which pane arrangement to render for the current viewport.
#[derive(Debug, Clone, Copy, PartialEq, Eq, Structural)]
pub enum Tier {
    /// Terminal too small to be usable: show only the size message.
    TooSmall,
    /// The focused pane gets the whole body between the chrome rows.
    FocusOnly,
    /// Top context bar, files and diff side by side, full-width Impact pane, footer.
    Normal,
}

impl Default for Tier {
    fn default() -> (r: Self)
        ensures
            r == Tier::TooSmall,
    {
        Tier::TooSmall
    }
}

/// Default width of the files pane in the normal layout.
pub const DEFAULT_FILES_WIDTH: u16 = 42;
/// Narrowest the files pane can be resized to by dragging its divider.
pub const MIN_FILES_WIDTH: u16 = 28;
/// Preferred maximum width of the files pane before live layout constraints apply.
pub const MAX_FILES_WIDTH: u16 = 56;
/// The diff pane never gets narrower than this; the files width yields first.
pub const MIN_DIFF_WIDTH: u16 = 48;
/// Height of the full-width Impact pane, including its border.
pub const IMPACT_HEIGHT: u16 = 16;
/// Default requested Impact-pane height.
pub const DEFAULT_IMPACT_HEIGHT: u16 = 16;
/// Minimum Impact-pane height.
pub const MIN_IMPACT_HEIGHT: u16 = 5;
/// Maximum Impact-pane height.
pub const MAX_IMPACT_HEIGHT: u16 = 18;
/// Minimum height of the work (files+diff) row the Impact pane may not consume.
pub const MIN_WORK_HEIGHT: u16 = 7;
/// Default width of the deterministic relationship stack inside Impact.
pub const DEFAULT_IMPACT_LEFT_WIDTH: u16 = 52;
/// Preferred minimum width of the deterministic relationship stack.
pub const MIN_IMPACT_LEFT_WIDTH: u16 = 24;
/// Preferred minimum width of the generated Impact breakdown.
pub const MIN_GENERATED_IMPACT_WIDTH: u16 = 36;
/// Preferred selected-change section height inside the deterministic relationship stack.
pub const DEFAULT_SELECTED_CHANGE_HEIGHT: u16 = 4;
/// Preferred callers section height inside the deterministic relationship stack.
pub const DEFAULT_CALLERS_HEIGHT: u16 = 5;
/// Minimum useful selected-change section height.
pub const MIN_SELECTED_CHANGE_HEIGHT: u16 = 3;
/// Minimum useful height of callers and downstream sections.
pub const MIN_RELATION_SECTION_HEIGHT: u16 = 2;

/// The tier of a viewport of `width` by `height` cells.
pub open spec fn tier_of(width: int, height: int, zoomed: bool) -> Tier {
    if width < 30 || height < 8 {
        Tier::TooSmall
    } else if !zoomed && width >= 80 && height >= 20 {
        Tier::Normal
    } else {
        Tier::FocusOnly
    }
}

/// Choose the layout tier for a viewport of `area` cells.
///
/// Hard stop below 30x8. Zoom always wins at every usable size. The normal layout needs at
/// least 80x20: two chrome rows, the minimum seven-row work area, and room for the Impact
/// pane; the files+diff split needs 80 columns to keep the diff at or above
/// [`MIN_DIFF_WIDTH`].
pub fn choose_tier(area: Rect, zoomed: bool) -> (tier: Tier)
    ensures
        tier == tier_of(area.width as int, area.height as int, zoomed),
{
    let w: u16 = area.width;
    let h: u16 = area.height;
    if w < 30 || h < 8 {
        return Tier::TooSmall;
    }
    if zoomed {
        return Tier::FocusOnly;
    }
    if w >= 80 && h >= 20 {
        return Tier::Normal;
    }
    Tier::FocusOnly
}

/// A request held between `low` and whatever is left of `total` once `reserve` cells are
/// set aside; `low` wins where the two cross.
pub open spec fn yielding(request: int, low: int, total: int, reserve: int) -> int {
    min_int(max_int(request, low), max_int(monus(total, reserve), low))
}

/// What [`impact_height`] returns: the request held to its range, then to what is left by
/// the top bar, the work area and the bottom bar.
pub open spec fn impact_height_spec(request: int, frame_height: int) -> int {
    yielding(
        clamp_int(request, MIN_IMPACT_HEIGHT as int, MAX_IMPACT_HEIGHT as int),
        MIN_IMPACT_HEIGHT as int,
        frame_height,
        MIN_WORK_HEIGHT + 2,
    )
}

/// The Impact-pane height for a frame of `frame_height` rows, given the requested height:
/// clamped to [`MIN_IMPACT_HEIGHT`]`..=`[`MAX_IMPACT_HEIGHT`], then yields to the
/// [`MIN_WORK_HEIGHT`] work area after reserving the top bar and combined bottom bar.
pub fn impact_height(request: u16, frame_height: u16) -> (height: u16)
    ensures
        height == impact_height_spec(request as int, frame_height as int),
{
    let available: u16 = frame_height.saturating_sub(1 + MIN_WORK_HEIGHT + 1);
    let held: u16 = min_u16(max_u16(request, MIN_IMPACT_HEIGHT), MAX_IMPACT_HEIGHT);
    min_u16(held, max_u16(available, MIN_IMPACT_HEIGHT))
}

/// The files-pane width for a work row of `work_width` cells, given the requested width:
/// at least [`MIN_FILES_WIDTH`], and it yields to the diff's minimum.
pub fn files_width(request: u16, work_width: u16) -> (width: u16)
    ensures
        width == yielding(
            request as int,
            MIN_FILES_WIDTH as int,
            work_width as int,
            MIN_DIFF_WIDTH as int,
        ),
{
    min_u16(
        max_u16(request, MIN_FILES_WIDTH),
        max_u16(work_width.saturating_sub(MIN_DIFF_WIDTH), MIN_FILES_WIDTH),
    )
}

/// What [`impact_left_width`] returns.
pub open spec fn impact_left_width_spec(request: int, content_width: int) -> int {
    if content_width < MIN_IMPACT_LEFT_WIDTH + MIN_GENERATED_IMPACT_WIDTH {
        content_width / 2
    } else {
        yielding(
            request,
            MIN_IMPACT_LEFT_WIDTH as int,
            content_width,
            MIN_GENERATED_IMPACT_WIDTH as int,
        )
    }
}

/// Width of the deterministic left half inside the Impact pane. At ordinary terminal
/// sizes both halves retain their useful minimum; constrained layouts split the available
/// cells evenly so generated content never disappears completely.
pub fn impact_left_width(request: u16, content_width: u16) -> (width: u16)
    ensures
        width == impact_left_width_spec(request as int, content_width as int),
{
    if content_width < MIN_IMPACT_LEFT_WIDTH + MIN_GENERATED_IMPACT_WIDTH {
        return content_width / 2;
    }
    min_u16(
        max_u16(request, MIN_IMPACT_LEFT_WIDTH),
        max_u16(content_width.saturating_sub(MIN_GENERATED_IMPACT_WIDTH), MIN_IMPACT_LEFT_WIDTH),
    )
}

/// The selected-change height that [`impact_section_heights`] settles on.
pub open spec fn selected_height_spec(selected_request: int, total: int) -> int {
    if total < MIN_SELECTED_CHANGE_HEIGHT + 2 * MIN_RELATION_SECTION_HEIGHT {
        min_int(total, MIN_SELECTED_CHANGE_HEIGHT as int)
    } else {
        clamp_int(
            selected_request,
            MIN_SELECTED_CHANGE_HEIGHT as int,
            total - 2 * MIN_RELATION_SECTION_HEIGHT,
        )
    }
}

/// The callers height that [`impact_section_heights`] settles on.
pub open spec fn callers_height_spec(selected_request: int, callers_request: int, total: int) -> int {
    let remaining = total - selected_height_spec(selected_request, total);
    if total < MIN_SELECTED_CHANGE_HEIGHT + 2 * MIN_RELATION_SECTION_HEIGHT {
        remaining / 2
    } else {
        clamp_int(
            callers_request,
            MIN_RELATION_SECTION_HEIGHT as int,
            remaining - MIN_RELATION_SECTION_HEIGHT,
        )
    }
}

/// Heights of selected-change, callers, and downstream sections. At useful heights the
/// first two honor their independent requests while reserving a minimum for everything
/// after them. Very short layouts give the selected change up to three rows and split the
/// rest evenly.
pub fn impact_section_heights(
    selected_request: u16,
    callers_request: u16,
    total_height: u16,
) -> (heights: [u16; 3])
    ensures
        heights[0] == selected_height_spec(selected_request as int, total_height as int),
        heights[1] == callers_height_spec(
            selected_request as int,
            callers_request as int,
            total_height as int,
        ),
        heights[0] + heights[1] + heights[2] == total_height,
{
    let required: u16 = MIN_SELECTED_CHANGE_HEIGHT + 2 * MIN_RELATION_SECTION_HEIGHT;
    if total_height < required {
        let selected: u16 = min_u16(total_height, MIN_SELECTED_CHANGE_HEIGHT);
        let remaining: u16 = total_height.saturating_sub(selected);
        let callers: u16 = remaining / 2;
        return [selected, callers, remaining.saturating_sub(callers)];
    }
    let selected: u16 = min_u16(
        max_u16(selected_request, MIN_SELECTED_CHANGE_HEIGHT),
        total_height.saturating_sub(2 * MIN_RELATION_SECTION_HEIGHT),
    );
    let remaining: u16 = total_height.saturating_sub(selected);
    let callers: u16 = min_u16(
        max_u16(callers_request, MIN_RELATION_SECTION_HEIGHT),
        remaining.saturating_sub(MIN_RELATION_SECTION_HEIGHT),
    );
    [selected, callers, remaining.saturating_sub(callers)]
}

/// What [`relationship_section_heights`] gives the callers.
pub open spec fn relationship_callers_spec(callers_request: int, total: int) -> int {
    if total < 2 * MIN_RELATION_SECTION_HEIGHT {
        total / 2
    } else {
        clamp_int(
            callers_request,
            MIN_RELATION_SECTION_HEIGHT as int,
            total - MIN_RELATION_SECTION_HEIGHT,
        )
    }
}

/// Heights of the callers and downstream sections of a relationship stack that shows no
/// selected change: the callers' request is honored while downstream keeps its minimum,
/// and a very short stack is split evenly.
pub fn relationship_section_heights(callers_request: u16, total_height: u16) -> (heights: [u16; 2])
    ensures
        heights[0] == relationship_callers_spec(callers_request as int, total_height as int),
        heights[0] + heights[1] == total_height,
{
    if total_height < 2 * MIN_RELATION_SECTION_HEIGHT {
        let callers: u16 = total_height / 2;
        return [callers, total_height - callers];
    }
    let callers: u16 = min_u16(
        max_u16(callers_request, MIN_RELATION_SECTION_HEIGHT),
        total_height - MIN_RELATION_SECTION_HEIGHT,
    );
    [callers, total_height - callers]
}

/// At every width the normal layout is chosen for, both the files pane and the diff beside
/// it keep their minimum, whatever was requested.
pub proof fn law_work_row_minimums(request: int, width: int, height: int)
    requires
        tier_of(width, height, false) == Tier::Normal,
    ensures
        ({
            let files = yielding(request, MIN_FILES_WIDTH as int, width, MIN_DIFF_WIDTH as int);
            files >= MIN_FILES_WIDTH && width - files >= MIN_DIFF_WIDTH
        }),
{
}

/// At every height the normal layout is chosen for, the Impact pane stays in its range and
/// leaves the work row its minimum beside the two chrome rows, whatever was requested.
pub proof fn law_frame_minimums(request: int, width: int, height: int)
    requires
        tier_of(width, height, false) == Tier::Normal,
    ensures
        ({
            let impact = impact_height_spec(request, height);
            MIN_IMPACT_HEIGHT <= impact <= MAX_IMPACT_HEIGHT && height - 2 - impact >= MIN_WORK_HEIGHT
        }),
{
}

/// A request that leaves room for both neighbours is honored as it is.
pub proof fn law_request_in_range_is_kept(request: int, low: int, total: int, reserve: int)
    requires
        0 <= low <= request <= total - reserve,
        0 <= reserve,
    ensures
        yielding(request, low, total, reserve) == request,
{
}

/// Both halves of the Impact pane keep their minimum once there is room for both, and
/// neither half disappears as soon as there are two cells.
pub proof fn law_impact_halves(request: int, content_width: int)
    requires
        content_width >= 2,
    ensures
        ({
            let left = impact_left_width_spec(request, content_width);
            &&& 0 < left < content_width
            &&& content_width >= MIN_IMPACT_LEFT_WIDTH + MIN_GENERATED_IMPACT_WIDTH ==> left
                >= MIN_IMPACT_LEFT_WIDTH && content_width - left >= MIN_GENERATED_IMPACT_WIDTH
        }),
{
}

/// As soon as the stack has room for all three minimums, every section keeps its own.
pub proof fn law_sections_keep_minimums(selected_request: int, callers_request: int, total: int)
    requires
        total >= MIN_SELECTED_CHANGE_HEIGHT + 2 * MIN_RELATION_SECTION_HEIGHT,
    ensures
        ({
            let selected = selected_height_spec(selected_request, total);
            let callers = callers_height_spec(selected_request, callers_request, total);
            &&& selected >= MIN_SELECTED_CHANGE_HEIGHT
            &&& callers >= MIN_RELATION_SECTION_HEIGHT
            &&& total - selected - callers >= MIN_RELATION_SECTION_HEIGHT
        }),
{
}

} // verus!
