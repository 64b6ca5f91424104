//! What the mouse does: the wheel scrolls what is under it, a press takes hold of what is drawn
//! there, and a drag follows the pointer.

use vstd::prelude::*;
use crate::action::{ActionView, DiffTextPoint, DiffTextSelection, RelationshipView, TargetView};
use crate::app::{AppView, Pane};
use crate::divider::{DividerAxis, DividerHandle, DividerId};
use crate::event::{MouseButton, MouseEvent, MouseEventKind};
use crate::file_rows::{projection, RowView, SummaryView};
use crate::geometry::{
    divider_under, grab_under, handle_of, handle_under, held_position, node_under, overlay_under, pane_under,
    region_under, route_under, selected_text, text_point, FrameView,
};
use crate::mouse::{
    control_under, filtered, fresh_filter, mouse_outcome, row_under, DragView, HorizontalDirection, OutcomeView,
    PendingSample, WheelAxis, WheelAxisFilter,
};
use crate::rect::Rect;
use crate::scroll::ScrollRegion;
use crate::snapshot::UiSnapshot;

verus! {

/// Whether nothing stands between the pointer and the panes.
pub open spec fn is_open(v: AppView) -> bool {
    v.status_detail is None && !v.show_help && !v.show_model_picker && !v.show_base_picker
}

/// Whether a cell lies in an area, by its corners.
pub open spec fn lies_in(r: Rect, x: int, y: int) -> bool {
    r.x <= x && x < r.x + r.width && r.y <= y && y < r.y + r.height && x < 65535 && y < 65535
}

proof fn lemma_region_under(regions: Seq<ScrollRegion>, x: int, y: int, i: int, k: int)
    requires
        0 <= i <= k < regions.len(),
        lies_in(regions[k].rect, x, y),
        forall|j: int| i <= j < k ==> !lies_in((#[trigger] regions[j]).rect, x, y),
    ensures
        region_under(regions, x, y, i) == Some(regions[k]),
    decreases k - i,
{
    if i < k {
        assert(!lies_in(regions[i].rect, x, y));
        lemma_region_under(regions, x, y, i + 1, k);
    }
}

/// The wheel scrolls the region under the pointer by three rows: down towards the end, up
/// towards the beginning, and never past either.
pub proof fn law_wheel_moves_the_region_under_it(event: MouseEvent, v: AppView, s: UiSnapshot, g: FrameView, k: int)
    requires
        is_open(v),
        overlay_under(g, event.column as int, event.row as int) is None,
        0 <= k < g.regions.len(),
        lies_in(g.regions[k].rect, event.column as int, event.row as int),
        forall|j: int|
            0 <= j < k ==> !lies_in((#[trigger] g.regions[j]).rect, event.column as int, event.row as int),
        g.regions[k].offset <= g.regions[k].max_offset,
    ensures
        ({
            let region = g.regions[k];
            let r = mouse_outcome(event, v, s, g, DragView::Idle);
            let below = region.max_offset - region.offset;
            let down = region.offset + if below < 3 { below } else { 3int };
            let up = region.offset - if region.offset < 3 { region.offset as int } else { 3int };
            &&& event.kind == MouseEventKind::ScrollDown ==> r.action == (if below == 0 { None } else {
                Some(ActionView::ScrollRegion { region: region.id, offset: down })
            })
            &&& event.kind == MouseEventKind::ScrollUp ==> r.action == (if region.offset == 0 { None } else {
                Some(ActionView::ScrollRegion { region: region.id, offset: up })
            })
        }),
{
    lemma_region_under(g.regions, event.column as int, event.row as int, 0, k);
}

/// Over the list of a relationship the wheel turns one page, and scrolls nothing below it.
pub proof fn law_wheel_pages_the_overlay(event: MouseEvent, v: AppView, s: UiSnapshot, g: FrameView)
    requires
        is_open(v),
        g.overlay is Some,
        lies_in((g.overlay->0).rect, event.column as int, event.row as int),
        0 <= (g.overlay->0).offset <= (g.overlay->0).max_offset <= usize::MAX,
    ensures
        ({
            let o = g.overlay->0;
            let r = mouse_outcome(event, v, s, g, DragView::Idle);
            &&& event.kind == MouseEventKind::ScrollDown ==> r.action == (if o.offset == o.max_offset { None } else {
                Some(ActionView::ScrollPlanRelationshipOverlay { offset: o.offset + 1 })
            })
            &&& event.kind == MouseEventKind::ScrollUp ==> r.action == (if o.offset == 0 { None } else {
                Some(ActionView::ScrollPlanRelationshipOverlay { offset: o.offset - 1 })
            })
        }),
{
}

/// The sideways wheel shifts the diff by four columns while it is over the diff and lines are
/// not wrapped, and nothing else.
pub proof fn law_wheel_shifts_the_diff(event: MouseEvent, v: AppView, s: UiSnapshot, g: FrameView)
    requires
        is_open(v),
    ensures
        ({
            let over_diff = pane_under(g, event.column as int, event.row as int) == Some(Pane::Diff);
            let r = mouse_outcome(event, v, s, g, DragView::Idle);
            &&& event.kind == MouseEventKind::ScrollRight ==> r.action == (if over_diff && !v.diff_wrap {
                Some(ActionView::ScrollDiffHorizontal { delta: 4 })
            } else {
                None
            })
            &&& event.kind == MouseEventKind::ScrollLeft ==> r.action == (if over_diff && !v.diff_wrap && v.diff_hscroll
                != 0 {
                Some(ActionView::ScrollDiffHorizontal { delta: (-4int) as i16 })
            } else {
                None
            })
        }),
{
}

/// In an open picker the wheel moves the choice; a click closes an open status message; help
/// takes no mouse.
pub proof fn law_wheel_moves_the_choice(event: MouseEvent, v: AppView, s: UiSnapshot, g: FrameView, drag: DragView)
    ensures
        ({
            let action = mouse_outcome(event, v, s, g, drag).action;
            let picker = v.show_model_picker || v.show_base_picker;
            &&& v.status_detail is None && picker && event.kind == MouseEventKind::ScrollUp ==> action == Some(
                ActionView::Up,
            )
            &&& v.status_detail is None && picker && event.kind == MouseEventKind::ScrollDown ==> action == Some(
                ActionView::Down,
            )
            &&& v.status_detail is None && v.show_help && !picker ==> action is None
            &&& v.status_detail is Some ==> (action == Some(ActionView::ToggleStatusDetail) <==> event.kind
                == MouseEventKind::Down(MouseButton::Left))
        }),
{
}

/// The pane under the pointer is the one whose area holds it.
pub proof fn law_panes_are_found_by_their_area(g: FrameView, x: int, y: int)
    ensures
        g.files is Some && lies_in(g.files->0, x, y) ==> pane_under(g, x, y) == Some(Pane::Files),
        g.diff is Some && lies_in(g.diff->0, x, y) && !(g.files is Some && lies_in(g.files->0, x, y)) ==> pane_under(
            g,
            x,
            y,
        ) == Some(Pane::Diff),
        g.impact is Some && lies_in(g.impact->0, x, y) && !(g.files is Some && lies_in(g.files->0, x, y)) && !(
        g.diff is Some && lies_in(g.diff->0, x, y)) ==> pane_under(g, x, y) == Some(Pane::Impact),
{
}

/// What is drawn last lies on top: of the boxes at a cell the last one is found.
pub proof fn law_topmost_box_is_found(nodes: Seq<(Rect, TargetView)>, x: int, y: int, n: int, k: int)
    requires
        0 <= k < n <= nodes.len(),
        lies_in(nodes[k].0, x, y),
        forall|j: int| k < j < n ==> !lies_in((#[trigger] nodes[j]).0, x, y),
    ensures
        node_under(nodes, x, y, n) == Some(nodes[k].1),
    decreases n,
{
    if k < n - 1 {
        assert(!lies_in(nodes[n - 1].0, x, y));
        law_topmost_box_is_found(nodes, x, y, n - 1, k);
    }
}

/// Where no box is drawn none is found.
pub proof fn law_no_box_is_found_beside_them(nodes: Seq<(Rect, TargetView)>, x: int, y: int, n: int)
    requires
        0 <= n <= nodes.len(),
        forall|j: int| 0 <= j < n ==> !lies_in((#[trigger] nodes[j]).0, x, y),
    ensures
        node_under(nodes, x, y, n) is None,
    decreases n,
{
    if n > 0 {
        assert(!lies_in(nodes[n - 1].0, x, y));
        law_no_box_is_found_beside_them(nodes, x, y, n - 1);
    }
}

/// The same of the connectors.
pub proof fn law_topmost_route_is_found(routes: Seq<(Rect, RelationshipView)>, x: int, y: int, n: int, k: int)
    requires
        0 <= k < n <= routes.len(),
        lies_in(routes[k].0, x, y),
        forall|j: int| k < j < n ==> !lies_in((#[trigger] routes[j]).0, x, y),
    ensures
        route_under(routes, x, y, n) == Some(routes[k].1),
    decreases n,
{
    if k < n - 1 {
        assert(!lies_in(routes[n - 1].0, x, y));
        law_topmost_route_is_found(routes, x, y, n - 1, k);
    }
}

/// Moving the pointer onto a box, or off one, points at what is under it now; over the same
/// box, or under the list of a relationship, nothing changes but to none.
pub proof fn law_pointer_tells_the_box(event: MouseEvent, v: AppView, s: UiSnapshot, g: FrameView)
    requires
        is_open(v),
        event.kind == MouseEventKind::Moved,
    ensures
        ({
            let (x, y) = (event.column as int, event.row as int);
            let r = mouse_outcome(event, v, s, g, DragView::Idle);
            let there = if overlay_under(g, x, y) is Some { None } else {
                node_under(g.nodes, x, y, g.nodes.len() as int)
            };
            &&& r.action is Some <==> there != v.hovered
            &&& r.action is Some ==> r.action == Some(ActionView::HoverPlanNode(there))
            &&& r.drag == DragView::Idle
        }),
{
}

proof fn lemma_control_under(controls: Seq<(Rect, SummaryView)>, x: int, y: int, i: int, k: int)
    requires
        0 <= i <= k < controls.len(),
        lies_in(controls[k].0, x, y),
        forall|j: int| i <= j < k ==> !lies_in((#[trigger] controls[j]).0, x, y),
    ensures
        control_under(controls, x, y, i) == Some(controls[k].1),
    decreases k - i,
{
    if i < k {
        assert(!lies_in(controls[i].0, x, y));
        lemma_control_under(controls, x, y, i + 1, k);
    }
}

proof fn lemma_no_control_under(controls: Seq<(Rect, SummaryView)>, x: int, y: int, i: int)
    requires
        0 <= i <= controls.len(),
        forall|j: int| i <= j < controls.len() ==> !lies_in((#[trigger] controls[j]).0, x, y),
    ensures
        control_under(controls, x, y, i) is None,
    decreases controls.len() - i,
{
    if i < controls.len() {
        assert(!lies_in(controls[i].0, x, y));
        lemma_no_control_under(controls, x, y, i + 1);
    }
}

proof fn lemma_row_under(rects: Seq<(Rect, int)>, rows: Seq<RowView>, x: int, y: int, i: int, k: int)
    requires
        0 <= i <= k < rects.len(),
        lies_in(rects[k].0, x, y),
        0 <= rects[k].1 < rows.len(),
        forall|j: int| i <= j < k ==> !lies_in((#[trigger] rects[j]).0, x, y),
    ensures
        row_under(rects, rows, x, y, i) == Some(rows[rects[k].1]),
    decreases k - i,
{
    if i < k {
        assert(!lies_in(rects[i].0, x, y));
        lemma_row_under(rects, rows, x, y, i + 1, k);
    }
}

/// Whether a press at a cell reaches the panes: no bar, divider, box, connector or text of the
/// diff is there.
pub open spec fn reaches_panes(s: UiSnapshot, g: FrameView, x: int, y: int) -> bool {
    &&& !(g.status is Some && (g.status->0).covers(x, y))
    &&& !(g.failure is Some && (g.failure->0).covers(x, y))
    &&& divider_under(g.dividers, x, y) is None
    &&& overlay_under(g, x, y) is None
    &&& grab_under(g, x, y) is None
    &&& route_under(g.routes, x, y, g.routes.len() as int) is None
    &&& text_point(g, x, y) is None
}

/// A press on a review marker turns the mark of what it stands for.
pub proof fn law_markers_turn_their_mark(event: MouseEvent, v: AppView, s: UiSnapshot, g: FrameView, k: int)
    requires
        is_open(v),
        event.kind == MouseEventKind::Down(MouseButton::Left),
        reaches_panes(s, g, event.column as int, event.row as int),
        0 <= k < g.reviews.len(),
        lies_in(g.reviews[k].0, event.column as int, event.row as int),
        forall|j: int|
            0 <= j < k ==> !lies_in((#[trigger] g.reviews[j]).0, event.column as int, event.row as int),
    ensures
        mouse_outcome(event, v, s, g, DragView::Idle).action == Some(ActionView::ToggleReviewedTarget(g.reviews[k].1)),
{
    lemma_control_under(g.reviews, event.column as int, event.row as int, 0, k);
}

/// A press on a row of the files pane beside its marker selects that row and keeps the list
/// where it is.
pub proof fn law_pressing_a_row_selects_it(event: MouseEvent, v: AppView, s: UiSnapshot, g: FrameView, k: int)
    requires
        is_open(v),
        event.kind == MouseEventKind::Down(MouseButton::Left),
        reaches_panes(s, g, event.column as int, event.row as int),
        forall|j: int|
            0 <= j < g.reviews.len() ==> !lies_in(
                (#[trigger] g.reviews[j]).0,
                event.column as int,
                event.row as int,
            ),
        0 <= k < g.rows.len(),
        lies_in(g.rows[k].0, event.column as int, event.row as int),
        forall|j: int| 0 <= j < k ==> !lies_in((#[trigger] g.rows[j]).0, event.column as int, event.row as int),
        0 <= g.rows[k].1 < projection(v.files, v.collapsed).len(),
    ensures
        ({
            let row = projection(v.files, v.collapsed)[g.rows[k].1];
            let action = mouse_outcome(event, v, s, g, DragView::Idle).action;
            &&& row.logical() is Some ==> action == Some(
                ActionView::SelectFileRow { logical_index: row.logical()->0, viewport_offset: g.first_row },
            )
            &&& row.logical() is None ==> action == Some(ActionView::Focus(Pane::Files))
        }),
{
    lemma_no_control_under(g.reviews, event.column as int, event.row as int, 0);
    lemma_row_under(g.rows, projection(v.files, v.collapsed), event.column as int, event.row as int, 0, k);
}

/// A press anywhere else in a pane focuses it; one in the diff first drops a selection.
pub proof fn law_pressing_a_pane_focuses_it(event: MouseEvent, v: AppView, s: UiSnapshot, g: FrameView)
    requires
        is_open(v),
        event.kind == MouseEventKind::Down(MouseButton::Left),
        reaches_panes(s, g, event.column as int, event.row as int),
        control_under(g.reviews, event.column as int, event.row as int, 0) is None,
        row_under(g.rows, projection(v.files, v.collapsed), event.column as int, event.row as int, 0) is None,
    ensures
        ({
            let action = mouse_outcome(event, v, s, g, DragView::Idle).action;
            let pane = pane_under(g, event.column as int, event.row as int);
            &&& pane == Some(Pane::Files) ==> action == Some(ActionView::Focus(Pane::Files))
            &&& pane == Some(Pane::Impact) ==> action == Some(ActionView::Focus(Pane::Impact))
            &&& pane == Some(Pane::Diff) && v.diff_selection is None ==> action == Some(ActionView::Focus(Pane::Diff))
            &&& pane == Some(Pane::Diff) && v.diff_selection is Some ==> action == Some(ActionView::ClearDiffSelection)
            &&& pane is None ==> action is None
        }),
{
}

/// A press on a status message opens it in full; one on the notice of a failed generation opens
/// the reason.
pub proof fn law_messages_open_in_full(event: MouseEvent, v: AppView, s: UiSnapshot, g: FrameView)
    requires
        is_open(v),
        event.kind == MouseEventKind::Down(MouseButton::Left),
    ensures
        ({
            let (x, y) = (event.column as int, event.row as int);
            let action = mouse_outcome(event, v, s, g, DragView::Idle).action;
            let on_status = g.status is Some && lies_in(g.status->0, x, y) && s.status.text@.len() > 0;
            let on_failure = g.failure is Some && lies_in(g.failure->0, x, y) && s.ai is Failed;
            &&& on_status ==> action == Some(ActionView::ToggleStatusDetail)
            &&& !on_status && on_failure ==> action is Some && action->0 is OpenStatusDetail && (
            action->0->OpenStatusDetail_0).detail == Some(s.ai->reason@)
        }),
{
}

/// A press on a relationship's list closes it; one on a connector opens or closes the
/// relationship; one on a box takes hold of the box, and one on text begins a selection there.
pub proof fn law_presses_take_hold(event: MouseEvent, v: AppView, s: UiSnapshot, g: FrameView)
    requires
        is_open(v),
        event.kind == MouseEventKind::Down(MouseButton::Left),
        !(g.status is Some && (g.status->0).covers(event.column as int, event.row as int)),
        !(g.failure is Some && (g.failure->0).covers(event.column as int, event.row as int)),
        divider_under(g.dividers, event.column as int, event.row as int) is None,
    ensures
        ({
            let (x, y) = (event.column as int, event.row as int);
            let r = mouse_outcome(event, v, s, g, DragView::Idle);
            let list = overlay_under(g, x, y);
            let held = grab_under(g, x, y);
            let route = route_under(g.routes, x, y, g.routes.len() as int);
            let text = text_point(g, x, y);
            &&& list is Some ==> r.action == Some(ActionView::TogglePlanRelationship(list->0))
            &&& list is None && held is Some ==> r.action is None && r.drag is PlanNode && r.drag->PlanNode_source
                == (held->0).0 && !r.drag->PlanNode_moved
            &&& list is None && held is None && route is Some ==> r.action == Some(
                ActionView::TogglePlanRelationship(route->0),
            )
            &&& list is None && held is None && route is None && text is Some ==> r.action is None
                && r.drag is DiffText && r.drag->DiffText_start == r.drag->DiffText_end && r.drag->DiffText_start.row
                == (text->0).0 as usize && r.drag->DiffText_start.column == (text->0).1 as usize
                && !r.drag->DiffText_moved
        }),
{
}

proof fn lemma_handle_under(handles: Seq<DividerHandle>, axis: DividerAxis, x: int, y: int, i: int, k: int)
    requires
        0 <= i <= k < handles.len(),
        lies_in(handles[k].rect, x, y),
        handles[k].id.axis_spec() == axis,
        forall|j: int| i <= j < k ==> !lies_in((#[trigger] handles[j]).rect, x, y),
    ensures
        handle_under(handles, axis, x, y, i) == Some(handles[k]),
    decreases k - i,
{
    if i < k {
        assert(!lies_in(handles[i].rect, x, y));
        lemma_handle_under(handles, axis, x, y, i + 1, k);
    }
}

proof fn lemma_no_handle_under(handles: Seq<DividerHandle>, axis: DividerAxis, x: int, y: int, i: int)
    requires
        0 <= i <= handles.len(),
        forall|j: int|
            i <= j < handles.len() ==> !(lies_in((#[trigger] handles[j]).rect, x, y) && handles[j].id.axis_spec()
                == axis),
    ensures
        handle_under(handles, axis, x, y, i) is None,
    decreases handles.len() - i,
{
    if i < handles.len() {
        assert(!(lies_in(handles[i].rect, x, y) && handles[i].id.axis_spec() == axis));
        lemma_no_handle_under(handles, axis, x, y, i + 1);
    }
}

proof fn lemma_handle_of(handles: Seq<DividerHandle>, id: DividerId, i: int, k: int)
    requires
        0 <= i <= k < handles.len(),
        handles[k].id == id,
        forall|j: int| i <= j < k ==> (#[trigger] handles[j]).id != id,
    ensures
        handle_of(handles, id, i) == Some(handles[k]),
    decreases k - i,
{
    if i < k {
        lemma_handle_of(handles, id, i + 1, k);
    }
}

/// A press on a divider takes hold of it at the extent it has, and changes nothing yet.
pub proof fn law_dividers_are_taken_hold_of(event: MouseEvent, v: AppView, s: UiSnapshot, g: FrameView, k: int)
    requires
        is_open(v),
        event.kind == MouseEventKind::Down(MouseButton::Left),
        !(g.status is Some && (g.status->0).covers(event.column as int, event.row as int)),
        !(g.failure is Some && (g.failure->0).covers(event.column as int, event.row as int)),
        0 <= k < g.dividers.len(),
        lies_in(g.dividers[k].rect, event.column as int, event.row as int),
        forall|j: int|
            0 <= j < g.dividers.len() && j != k ==> !lies_in(
                (#[trigger] g.dividers[j]).rect,
                event.column as int,
                event.row as int,
            ),
    ensures
        mouse_outcome(event, v, s, g, DragView::Idle) == (OutcomeView {
            action: None,
            drag: DragView::Dragging {
                divider: g.dividers[k].id,
                start_x: event.column as int,
                start_y: event.row as int,
                start_extent: g.dividers[k].effective_extent as int,
                moved: false,
            },
            dirty: false,
        }),
{
    let (x, y) = (event.column as int, event.row as int);
    lemma_handle_under(g.dividers, g.dividers[k].id.axis_spec(), x, y, 0, k);
    if g.dividers[k].id.axis_spec() == DividerAxis::Vertical {
        lemma_no_handle_under(g.dividers, DividerAxis::Horizontal, x, y, 0);
    }
}

/// Where two dividers cross, the horizontal one is taken.
pub proof fn law_horizontal_dividers_win(handles: Seq<DividerHandle>, x: int, y: int, k: int)
    requires
        0 <= k < handles.len(),
        lies_in(handles[k].rect, x, y),
        handles[k].id is WorkReview || handles[k].id is SelectedCallers || handles[k].id is CallersDownstream,
    ensures
        ({
            let h = divider_under(handles, x, y);
            h is Some && (h->0.id is WorkReview || h->0.id is SelectedCallers || h->0.id is CallersDownstream)
        }),
{
    lemma_some_handle(handles, x, y, 0, k);
}

proof fn lemma_some_handle(handles: Seq<DividerHandle>, x: int, y: int, i: int, k: int)
    requires
        0 <= i <= k < handles.len(),
        lies_in(handles[k].rect, x, y),
        handles[k].id.axis_spec() == DividerAxis::Horizontal,
    ensures
        ({
            let h = handle_under(handles, DividerAxis::Horizontal, x, y, i);
            h is Some && h->0.id.axis_spec() == DividerAxis::Horizontal
        }),
    decreases k - i,
{
    if i < k {
        lemma_some_handle(handles, x, y, i + 1, k);
    }
}

/// Dragging a divider moves it with the pointer: the files pane, the left half of the Impact
/// pane, the selected change and the callers grow as the pointer goes right or down; the
/// Impact pane, which lies below its divider, grows as the pointer goes up.
pub proof fn law_dividers_follow_the_pointer(
    event: MouseEvent,
    v: AppView,
    s: UiSnapshot,
    g: FrameView,
    id: DividerId,
    start_x: int,
    start_y: int,
    extent: int,
    moved: bool,
    k: int,
)
    requires
        is_open(v),
        event.kind == MouseEventKind::Drag(MouseButton::Left) || event.kind == MouseEventKind::Up(MouseButton::Left),
        0 <= k < g.dividers.len(),
        g.dividers[k].id == id,
        forall|j: int| 0 <= j < k ==> (#[trigger] g.dividers[j]).id != id,
    ensures
        ({
            let drag = DragView::Dragging { divider: id, start_x, start_y, start_extent: extent, moved };
            let r = mouse_outcome(event, v, s, g, drag);
            let sideways = id is FilesDiff || id is RelationshipsGenerated;
            let way = if sideways { event.column - start_x } else { event.row - start_y };
            let asked = if id is WorkReview { extent - way } else { extent + way };
            let stays = event.column == start_x && event.row == start_y;
            let drags = event.kind == MouseEventKind::Drag(MouseButton::Left);
            &&& !stays && 0 <= asked <= 65535 ==> r.action == Some(
                ActionView::ResizeDivider { divider: id, extent: asked as u16 },
            )
            &&& !stays && asked < 0 ==> r.action == Some(ActionView::ResizeDivider { divider: id, extent: 0 })
            &&& !stays && asked > 65535 ==> r.action == Some(ActionView::ResizeDivider { divider: id, extent: 65535 })
            &&& stays && (drags || !moved) ==> r.action is None
            &&& drags ==> r.drag == DragView::Dragging {
                divider: id,
                start_x,
                start_y,
                start_extent: extent,
                moved: moved || !stays,
            }
            &&& !drags ==> r.drag == DragView::Idle
        }),
{
    lemma_handle_of(g.dividers, id, 0, k);
}

/// A box that is dragged more than a cell goes where it is held; one that is let go where it
/// was pressed opens or closes.
pub proof fn law_boxes_follow_the_pointer(
    event: MouseEvent,
    v: AppView,
    s: UiSnapshot,
    g: FrameView,
    source: TargetView,
    start_x: int,
    start_y: int,
    offset_x: int,
    offset_y: int,
    moved: bool,
)
    requires
        is_open(v),
        event.kind == MouseEventKind::Drag(MouseButton::Left) || event.kind == MouseEventKind::Up(MouseButton::Left),
        g.content is Some,
    ensures
        ({
            let drag = DragView::PlanNode { source, start_x, start_y, offset_x, offset_y, moved };
            let r = mouse_outcome(event, v, s, g, drag);
            let near = start_x - 1 <= event.column <= start_x + 1 && start_y - 1 <= event.row <= start_y + 1;
            let p = held_position(g, event.column as int, event.row as int, offset_x, offset_y);
            let drags = event.kind == MouseEventKind::Drag(MouseButton::Left);
            &&& moved || !near ==> p is Some && r.action == Some(
                ActionView::MovePlanNode { target: source, x: p->0.x, y: p->0.y },
            )
            &&& !moved && near && drags ==> r.action is None
            &&& !moved && near && !drags ==> r.action == Some(ActionView::TogglePlanNode(source))
            &&& drags ==> r.drag == DragView::PlanNode {
                source,
                start_x,
                start_y,
                offset_x,
                offset_y,
                moved: moved || !near,
            }
            &&& !drags ==> r.drag == DragView::Idle
        }),
{
}

/// A selection runs from where it began to the text under the pointer, or to the last text that
/// was; letting go copies it, and a click without a drag drops it.
pub proof fn law_selections_follow_the_pointer(
    event: MouseEvent,
    v: AppView,
    s: UiSnapshot,
    g: FrameView,
    start: DiffTextPoint,
    end: DiffTextPoint,
    moved: bool,
)
    requires
        is_open(v),
        event.kind == MouseEventKind::Drag(MouseButton::Left) || event.kind == MouseEventKind::Up(MouseButton::Left),
        g.copy is Some,
    ensures
        ({
            let r = mouse_outcome(event, v, s, g, DragView::DiffText { start, end, moved });
            let p = text_point(g, event.column as int, event.row as int);
            let next = if p is Some {
                DiffTextPoint { row: (p->0).0 as usize, column: (p->0).1 as usize }
            } else {
                end
            };
            let selection = DiffTextSelection { start, end: next };
            let drags = event.kind == MouseEventKind::Drag(MouseButton::Left);
            &&& drags && (moved || next != start) ==> r.action == Some(ActionView::SetDiffSelection(selection))
            &&& drags && !moved && next == start ==> r.action is None
            &&& drags ==> r.drag == DragView::DiffText { start, end: next, moved: moved || next != start }
            &&& !drags && (moved || next != start) ==> r.action == Some(
                ActionView::CommitDiffSelection { selection, text: selected_text(g.copy->0, selection) },
            )
            &&& !drags && !moved && next == start ==> r.action == Some(ActionView::ClearDiffSelection)
        }),
{
}

/// A box is set where the pointer is, less the place in the box at which it is held, on the
/// canvas as it is scrolled.
pub proof fn law_boxes_are_set_under_the_pointer(g: FrameView, x: int, y: int, offset_x: int, offset_y: int)
    requires
        g.content is Some,
        0 <= offset_x <= x - (g.content->0).x,
        (g.content->0).y <= y,
        0 <= g.plan_scroll,
        0 <= offset_y <= y - (g.content->0).y + g.plan_scroll <= 65535,
        x <= 65535,
    ensures
        ({
            let p = held_position(g, x, y, offset_x, offset_y);
            &&& p is Some
            &&& p->0.x == x - (g.content->0).x - offset_x
            &&& p->0.y == y - (g.content->0).y + g.plan_scroll - offset_y
        }),
{
}

/// The first vertical turn of the wheel counts at once and holds the wheel to that direction
/// for 180 milliseconds after the last turn.
pub proof fn law_vertical_turns_count_at_once(f: WheelAxisFilter, kind: MouseEventKind, now: u64)
    requires
        kind == MouseEventKind::ScrollUp || kind == MouseEventKind::ScrollDown,
        f.last_dominant is Some <==> f.locked is Some,
    ensures
        ({
            let (next, counts) = filtered(f, kind, now);
            let held = f.locked == Some(WheelAxis::Horizontal) && now <= f.last_dominant->0 + 180;
            &&& counts <==> !held
            &&& counts ==> next.locked == Some(WheelAxis::Vertical) && next.last_dominant == Some(now)
            &&& !counts ==> next == f
        }),
{
}

/// A sideways turn counts only after another in the same direction within 180 milliseconds,
/// or while the wheel is held sideways.
pub proof fn law_sideways_turns_need_a_second(f: WheelAxisFilter, kind: MouseEventKind, now: u64)
    requires
        kind == MouseEventKind::ScrollLeft || kind == MouseEventKind::ScrollRight,
        f.last_dominant is Some <==> f.locked is Some,
    ensures
        ({
            let (next, counts) = filtered(f, kind, now);
            let way = if kind == MouseEventKind::ScrollLeft {
                HorizontalDirection::Left
            } else {
                HorizontalDirection::Right
            };
            let held = f.locked is Some && now <= f.last_dominant->0 + 180;
            let again = f.pending_horizontal is Some && (f.pending_horizontal->0).direction == way && now <= (
            f.pending_horizontal->0).at + 180;
            &&& held && f.locked == Some(WheelAxis::Horizontal) ==> counts
            &&& held && f.locked == Some(WheelAxis::Vertical) ==> !counts && next == f
            &&& !held ==> (counts <==> again)
            &&& counts ==> next.locked == Some(WheelAxis::Horizontal) && next.last_dominant == Some(now)
            &&& !held && !counts ==> next.pending_horizontal == Some(PendingSample { direction: way, at: now })
                && next.locked is None
        }),
{
}

/// A wheel that was reset is held to no direction: a vertical turn counts, and a sideways one
/// waits for a second.
pub proof fn law_reset_wheels_are_free(kind: MouseEventKind, now: u64)
    ensures
        kind == MouseEventKind::ScrollUp || kind == MouseEventKind::ScrollDown ==> filtered(fresh_filter(), kind, now).1,
        kind == MouseEventKind::ScrollLeft || kind == MouseEventKind::ScrollRight ==> !filtered(fresh_filter(), kind, now).1
            && filtered(filtered(fresh_filter(), kind, now).0, kind, now).1,
{
}

} // verus!
