//! Mouse routing: pure hit-testing + drag state machine. All geometry comes from the
//! retained `UiGeometry` of the frame the user saw; no layout is recomputed here.
//!
//! Precedence (highest first): an open modal swallows everything and cancels any drag;
//! an active drag consumes Drag/Up anywhere; wheel routes to the independently scrollable
//! region under the pointer without changing focus/selection; divider drag handles
//! (horizontal wins at their intersection); a selectable file/symbol row; a pane for
//! focus; anything else is inert. Right/middle buttons are no-ops.

use vstd::prelude::*;
use crate::action::{Action, ActionView, DiffTextPoint, DiffTextSelection, PlanNodeTarget, StatusView, TargetView};
use crate::app::{app_view, App, AppView, Pane};
use crate::diagram::DiagramPosition;
use crate::divider::{directed_move, DividerId};
use crate::event::{MouseButton, MouseEvent, MouseEventKind};
use crate::file_rows::{projection, row_views, RowView, SummaryView};
use crate::geometry::{
    divider_under, grab_under, handle_of, held_position, node_under, over, overlay_step, overlay_under, pane_under,
    region_under, route_under, selected_text, text_point, FrameView, UiGeometry,
};
use crate::num::{clamp_int, monus};
use crate::rect::Rect;
use crate::review::ReviewTarget;
use crate::snapshot::{AiStatus, StatusLevel, UiSnapshot};
use crate::table::Key;

verus! {

/// The axis of a wheel gesture.
#[derive(Debug, Clone, Copy, PartialEq, Eq, Structural)]
pub enum WheelAxis {
    Vertical,
    Horizontal,
}

/// The direction of a horizontal sample.
#[derive(Debug, Clone, Copy, PartialEq, Eq, Structural)]
pub enum HorizontalDirection {
    Left,
    Right,
}

/// A horizontal sample that waits for a second of its direction.
#[derive(Debug, Clone, Copy, PartialEq, Eq, Structural)]
pub struct PendingSample {
    pub direction: HorizontalDirection,
    /// When it came, in milliseconds.
    pub at: u64,
}

/// How long a gesture keeps its axis after its last sample, in milliseconds.
pub const WHEEL_AXIS_LOCK_WINDOW: u64 = 180;

/// Keep one trackpad gesture on its dominant axis. Terminals report diagonal trackpad motion as
/// separate vertical and horizontal wheel events, so a vertical read can otherwise nudge a long
/// unwrapped diff sideways on every gesture.
#[derive(Debug, Clone, Copy, PartialEq, Eq, Structural)]
pub struct WheelAxisFilter {
    /// The axis that owns the gesture.
    pub locked: Option<WheelAxis>,
    /// When its last sample came.
    pub last_dominant: Option<u64>,
    /// A first horizontal sample that waits for a second.
    pub pending_horizontal: Option<PendingSample>,
}

impl Default for WheelAxisFilter {
    fn default() -> (r: Self)
        ensures
            r == fresh_filter(),
    {
        WheelAxisFilter { locked: None, last_dominant: None, pending_horizontal: None }
    }
}

/// A filter before any gesture.
pub open spec fn fresh_filter() -> WheelAxisFilter {
    WheelAxisFilter { locked: None, last_dominant: None, pending_horizontal: None }
}

/// A filter whose gesture has ended if its last sample is too old.
pub open spec fn settled(f: WheelAxisFilter, now: u64) -> WheelAxisFilter {
    match f.last_dominant {
        Some(last) => if monus(now as int, last as int) > WHEEL_AXIS_LOCK_WINDOW {
            WheelAxisFilter { locked: None, last_dominant: None, ..f }
        } else {
            f
        },
        None => f,
    }
}

/// A vertical sample: it claims a fresh gesture at once, and passes in a vertical one.
pub open spec fn vertical_sample(f: WheelAxisFilter, now: u64) -> (WheelAxisFilter, bool) {
    let s = settled(f, now);
    match s.locked {
        Some(WheelAxis::Vertical) => (WheelAxisFilter { last_dominant: Some(now), ..s }, true),
        Some(WheelAxis::Horizontal) => (s, false),
        None => (
            WheelAxisFilter {
                locked: Some(WheelAxis::Vertical),
                last_dominant: Some(now),
                pending_horizontal: None,
            },
            true,
        ),
    }
}

/// A horizontal sample: it claims a fresh gesture only as the second of its direction within
/// the window, and passes in a horizontal one.
pub open spec fn horizontal_sample(f: WheelAxisFilter, direction: HorizontalDirection, now: u64) -> (
    WheelAxisFilter,
    bool,
) {
    let s = settled(f, now);
    match s.locked {
        Some(WheelAxis::Horizontal) => (WheelAxisFilter { last_dominant: Some(now), ..s }, true),
        Some(WheelAxis::Vertical) => (s, false),
        None => {
            let confirmed = match s.pending_horizontal {
                Some(pending) => pending.direction == direction && monus(now as int, pending.at as int) <= WHEEL_AXIS_LOCK_WINDOW,
                None => false,
            };
            if confirmed {
                (
                    WheelAxisFilter {
                        locked: Some(WheelAxis::Horizontal),
                        last_dominant: Some(now),
                        pending_horizontal: None,
                    },
                    true,
                )
            } else {
                (WheelAxisFilter { pending_horizontal: Some(PendingSample { direction, at: now }), ..s }, false)
            }
        },
    }
}

/// What a filter makes of an event: its next state, and whether the event passes.
pub open spec fn filtered(f: WheelAxisFilter, kind: MouseEventKind, now: u64) -> (WheelAxisFilter, bool) {
    match kind {
        MouseEventKind::ScrollUp => vertical_sample(f, now),
        MouseEventKind::ScrollDown => vertical_sample(f, now),
        MouseEventKind::ScrollLeft => horizontal_sample(f, HorizontalDirection::Left, now),
        MouseEventKind::ScrollRight => horizontal_sample(f, HorizontalDirection::Right, now),
        _ => (f, true),
    }
}

impl WheelAxisFilter {
    /// Whether this event should reach ordinary mouse routing; `now` is in milliseconds.
    ///
    /// Vertical input claims a fresh gesture immediately. Horizontal input must provide two
    /// consecutive samples before claiming it, which removes incidental sideways trackpad noise;
    /// once claimed, either axis remains locked while its dominant samples keep arriving.
    pub fn allows(&mut self, kind: MouseEventKind, now: u64) -> (r: bool)
        ensures
            (*final(self), r) == filtered(*old(self), kind, now),
    {
        let direction: Option<HorizontalDirection> = match kind {
            MouseEventKind::ScrollUp => None,
            MouseEventKind::ScrollDown => None,
            MouseEventKind::ScrollLeft => Some(HorizontalDirection::Left),
            MouseEventKind::ScrollRight => Some(HorizontalDirection::Right),
            _ => {
                return true;
            },
        };
        match self.last_dominant {
            Some(last) => {
                if now.saturating_sub(last) > WHEEL_AXIS_LOCK_WINDOW {
                    self.locked = None;
                    self.last_dominant = None;
                }
            },
            None => {},
        }
        match self.locked {
            Some(locked) => {
                let same: bool = match locked {
                    WheelAxis::Vertical => direction.is_none(),
                    WheelAxis::Horizontal => direction.is_some(),
                };
                if same {
                    self.last_dominant = Some(now);
                }
                same
            },
            None => match direction {
                None => {
                    self.locked = Some(WheelAxis::Vertical);
                    self.last_dominant = Some(now);
                    self.pending_horizontal = None;
                    true
                },
                Some(side) => {
                    let confirmed: bool = match self.pending_horizontal {
                        Some(pending) => pending.direction == side && now.saturating_sub(pending.at) <= WHEEL_AXIS_LOCK_WINDOW,
                        None => false,
                    };
                    if confirmed {
                        self.locked = Some(WheelAxis::Horizontal);
                        self.last_dominant = Some(now);
                        self.pending_horizontal = None;
                        true
                    } else {
                        self.pending_horizontal = Some(PendingSample { direction: side, at: now });
                        false
                    }
                },
            },
        }
    }

    /// Forget the gesture.
    pub fn reset(&mut self)
        ensures
            *final(self) == fresh_filter(),
    {
        *self = WheelAxisFilter { locked: None, last_dominant: None, pending_horizontal: None };
    }
}

/// A gesture stays on its axis: while its own samples keep arriving within the window, no
/// sample of the other axis passes or changes it.
pub proof fn law_gesture_keeps_its_axis(f: WheelAxisFilter, kind: MouseEventKind, now: u64)
    requires
        f.last_dominant matches Some(last) && now - last <= WHEEL_AXIS_LOCK_WINDOW,
        f.locked is Some,
    ensures
        f.locked == Some(WheelAxis::Vertical) && (kind == MouseEventKind::ScrollLeft || kind
            == MouseEventKind::ScrollRight) ==> filtered(f, kind, now) == (f, false),
        f.locked == Some(WheelAxis::Horizontal) && (kind == MouseEventKind::ScrollUp || kind
            == MouseEventKind::ScrollDown) ==> filtered(f, kind, now) == (f, false),
{
}

/// Only wheel events are ever held back.
pub proof fn law_only_the_wheel_is_filtered(f: WheelAxisFilter, kind: MouseEventKind, now: u64)
    requires
        !filtered(f, kind, now).1,
    ensures
        kind == MouseEventKind::ScrollUp || kind == MouseEventKind::ScrollDown || kind == MouseEventKind::ScrollLeft
            || kind == MouseEventKind::ScrollRight,
{
}

/// The drag state machine.
#[derive(Debug, Clone, PartialEq, Eq)]
pub enum DragState {
    /// No drag in progress.
    Idle,
    /// A drag is active.
    Dragging {
        /// Which registered divider.
        divider: DividerId,
        /// The pointer coordinate when the drag started.
        start_x: u16,
        /// The pointer row when the drag started.
        start_y: u16,
        /// The effective extent (width/height) at drag start.
        start_extent: u16,
        /// Whether the pointer has moved since mouse-down.
        moved: bool,
    },
    /// A generated-plan box is armed for a click or a free X/Y drag.
    PlanNode {
        /// Box that was under the original press. Release always applies to this target.
        source: PlanNodeTarget,
        /// Pointer coordinate where the gesture began.
        start_x: u16,
        /// Pointer row where the gesture began.
        start_y: u16,
        /// Pointer offset from the box's top-left, retained through the whole drag.
        offset_x: u16,
        /// Pointer offset from the box's top-left, retained through the whole drag.
        offset_y: u16,
        /// Whether the pointer crossed the drag threshold.
        moved: bool,
    },
    /// A linear text selection is being dragged across the rendered diff.
    DiffText {
        /// Selection anchor in physical display coordinates.
        start: DiffTextPoint,
        /// Most recent endpoint still inside the diff text viewport.
        end: DiffTextPoint,
        /// Whether the endpoint differs from the anchor.
        moved: bool,
    },
}

impl Default for DragState {
    fn default() -> (r: Self)
        ensures
            r == DragState::Idle,
    {
        DragState::Idle
    }
}

/// A drag, by contents.
#[verifier::ext_equal]
pub enum DragView {
    Idle,
    Dragging { divider: DividerId, start_x: int, start_y: int, start_extent: int, moved: bool },
    PlanNode { source: TargetView, start_x: int, start_y: int, offset_x: int, offset_y: int, moved: bool },
    DiffText { start: DiffTextPoint, end: DiffTextPoint, moved: bool },
}

impl View for DragState {
    type V = DragView;

    open spec fn view(&self) -> DragView {
        match *self {
            DragState::Idle => DragView::Idle,
            DragState::Dragging { divider, start_x, start_y, start_extent, moved } => DragView::Dragging {
                divider,
                start_x: start_x as int,
                start_y: start_y as int,
                start_extent: start_extent as int,
                moved,
            },
            DragState::PlanNode { source, start_x, start_y, offset_x, offset_y, moved } => DragView::PlanNode {
                source: source@,
                start_x: start_x as int,
                start_y: start_y as int,
                offset_x: offset_x as int,
                offset_y: offset_y as int,
                moved,
            },
            DragState::DiffText { start, end, moved } => DragView::DiffText { start, end, moved },
        }
    }
}

/// The result of routing one mouse event: the action to dispatch, the next drag state,
/// and whether the screen needs a redraw.
#[derive(Debug, Clone, PartialEq)]
pub struct MouseOutcome {
    /// The action to apply (None = inert).
    pub action: Option<Action>,
    /// The next drag state.
    pub drag: DragState,
    /// Whether the frame must be redrawn.
    pub dirty: bool,
}

/// An outcome, by contents.
#[verifier::ext_equal]
pub struct OutcomeView {
    pub action: Option<ActionView>,
    pub drag: DragView,
    pub dirty: bool,
}

/// An optional action, by contents.
pub open spec fn optional_action(action: Option<Action>) -> Option<ActionView> {
    match action {
        Some(a) => Some(a@),
        None => None,
    }
}

impl View for MouseOutcome {
    type V = OutcomeView;

    open spec fn view(&self) -> OutcomeView {
        OutcomeView { action: optional_action(self.action), drag: self.drag@, dirty: self.dirty }
    }
}

/// Nothing happens.
pub open spec fn nothing(drag: DragView) -> OutcomeView {
    OutcomeView { action: None, drag, dirty: false }
}

/// An action happens, and no drag goes on.
pub open spec fn acts(action: ActionView) -> OutcomeView {
    OutcomeView { action: Some(action), drag: DragView::Idle, dirty: true }
}

impl MouseOutcome {
    fn inert(drag: DragState) -> (r: Self)
        ensures
            r@ == nothing(drag@),
    {
        MouseOutcome { action: None, drag, dirty: false }
    }

    fn acting(action: Action) -> (r: Self)
        ensures
            r@ == acts(action@),
    {
        MouseOutcome { action: Some(action), drag: DragState::Idle, dirty: true }
    }
}

/// The wheel over a region: the overlay first, then the region under the pointer.
pub open spec fn wheel_outcome(x: int, y: int, delta: int, g: FrameView) -> OutcomeView {
    if overlay_under(g, x, y) is Some {
        match overlay_step(g, x, y, delta) {
            Some(offset) => acts(ActionView::ScrollPlanRelationshipOverlay { offset }),
            None => nothing(DragView::Idle),
        }
    } else {
        match region_under(g.regions, x, y, 0) {
            Some(region) => if region.moved_offset(delta) != region.shown_offset() {
                acts(ActionView::ScrollRegion { region: region.id, offset: region.moved_offset(delta) })
            } else {
                nothing(DragView::Idle)
            },
            None => nothing(DragView::Idle),
        }
    }
}

/// The horizontal wheel: only over an unwrapped diff, and not left of its first column.
pub open spec fn sideways_outcome(x: int, y: int, delta: int, v: AppView, g: FrameView) -> OutcomeView {
    if v.diff_wrap || pane_under(g, x, y) != Some(Pane::Diff) || (delta < 0 && v.diff_hscroll == 0) {
        nothing(DragView::Idle)
    } else {
        acts(ActionView::ScrollDiffHorizontal { delta: delta as i16 })
    }
}

/// Motion: only a change of the box under the pointer matters, and the overlay masks boxes.
pub open spec fn hover_outcome(x: int, y: int, v: AppView, g: FrameView) -> OutcomeView {
    let target = if overlay_under(g, x, y) is Some {
        None
    } else {
        node_under(g.nodes, x, y, g.nodes.len() as int)
    };
    if target == v.hovered { nothing(DragView::Idle) } else { acts(ActionView::HoverPlanNode(target)) }
}

/// The first review control from `i` on under a point.
pub open spec fn control_under(controls: Seq<(Rect, SummaryView)>, x: int, y: int, i: int) -> Option<SummaryView>
    decreases controls.len() - i,
{
    if 0 <= i < controls.len() {
        if controls[i].0.covers(x, y) { Some(controls[i].1) } else { control_under(controls, x, y, i + 1) }
    } else {
        None
    }
}

/// The first row from `i` on under a point that the tree still has.
pub open spec fn row_under(rects: Seq<(Rect, int)>, rows: Seq<RowView>, x: int, y: int, i: int) -> Option<RowView>
    decreases rects.len() - i,
{
    if 0 <= i < rects.len() {
        if rects[i].0.covers(x, y) && rects[i].1 < rows.len() {
            Some(rows[rects[i].1])
        } else {
            row_under(rects, rows, x, y, i + 1)
        }
    } else {
        None
    }
}

/// The failure behind the banner of the generated pane.
pub open spec fn failure_status(ai: AiStatus) -> StatusView {
    StatusView {
        text: "AI generation failed"@,
        detail: Some(ai->reason@),
        level: StatusLevel::Warning,
    }
}

/// A press on a row of the files pane, or on a pane.
pub open spec fn pane_press(x: int, y: int, v: AppView, g: FrameView) -> OutcomeView {
    match control_under(g.reviews, x, y, 0) {
        Some(target) => acts(ActionView::ToggleReviewedTarget(target)),
        None => match row_under(g.rows, projection(v.files, v.collapsed), x, y, 0) {
            Some(row) => match row.logical() {
                Some(logical) => acts(
                    ActionView::SelectFileRow { logical_index: logical, viewport_offset: g.first_row },
                ),
                None => acts(ActionView::Focus(Pane::Files)),
            },
            None => match pane_under(g, x, y) {
                Some(pane) => if pane == Pane::Diff && v.diff_selection is Some {
                    acts(ActionView::ClearDiffSelection)
                } else {
                    acts(ActionView::Focus(pane))
                },
                None => nothing(DragView::Idle),
            },
        },
    }
}

/// A point of the diff text.
pub open spec fn point_of(p: (int, int)) -> DiffTextPoint {
    DiffTextPoint { row: p.0 as usize, column: p.1 as usize }
}

/// A press on the diagram or on the diff text, else on what lies below.
pub open spec fn content_press(x: int, y: int, v: AppView, g: FrameView) -> OutcomeView {
    match overlay_under(g, x, y) {
        Some(r) => acts(ActionView::TogglePlanRelationship(r)),
        None => match grab_under(g, x, y) {
            Some((t, ox, oy)) => nothing(
                DragView::PlanNode { source: t, start_x: x, start_y: y, offset_x: ox, offset_y: oy, moved: false },
            ),
            None => match route_under(g.routes, x, y, g.routes.len() as int) {
                Some(r) => acts(ActionView::TogglePlanRelationship(r)),
                None => match text_point(g, x, y) {
                    Some(p) => nothing(
                        DragView::DiffText { start: point_of(p), end: point_of(p), moved: false },
                    ),
                    None => pane_press(x, y, v, g),
                },
            },
        },
    }
}

/// A press: status message, failure banner and dividers win over everything inside the panes.
pub open spec fn press_outcome(x: int, y: int, v: AppView, s: UiSnapshot, g: FrameView) -> OutcomeView {
    if over(g.status, x, y) && s.status.text@.len() > 0 {
        acts(ActionView::ToggleStatusDetail)
    } else if over(g.failure, x, y) && s.ai is Failed {
        acts(ActionView::OpenStatusDetail(failure_status(s.ai)))
    } else {
        match divider_under(g.dividers, x, y) {
            Some(handle) => nothing(
                DragView::Dragging {
                    divider: handle.id,
                    start_x: x,
                    start_y: y,
                    start_extent: handle.effective_extent as int,
                    moved: false,
                },
            ),
            None => content_press(x, y, v, g),
        }
    }
}

/// The extent that a divider drag asks for.
pub open spec fn dragged_extent(id: DividerId, start_extent: int, start_x: int, start_y: int, x: int, y: int) -> u16 {
    clamp_int(start_extent + directed_move(id, start_x, start_y, x, y), 0, 65535) as u16
}

/// One step of a divider drag.
pub open spec fn divider_step(
    event: MouseEvent,
    g: FrameView,
    divider: DividerId,
    start_x: int,
    start_y: int,
    start_extent: int,
    moved: bool,
) -> OutcomeView {
    let away = event.column != start_x || event.row != start_y;
    match handle_of(g.dividers, divider, 0) {
        Some(handle) => {
            let resize = ActionView::ResizeDivider {
                divider,
                extent: dragged_extent(
                    handle.id,
                    start_extent,
                    start_x,
                    start_y,
                    event.column as int,
                    event.row as int,
                ),
            };
            match event.kind {
                MouseEventKind::Drag(MouseButton::Left) => OutcomeView {
                    action: if away { Some(resize) } else { None },
                    drag: DragView::Dragging { divider, start_x, start_y, start_extent, moved: moved || away },
                    dirty: away,
                },
                MouseEventKind::Up(MouseButton::Left) => OutcomeView {
                    action: if moved || away { Some(resize) } else { None },
                    drag: DragView::Idle,
                    dirty: moved || away,
                },
                _ => nothing(DragView::Idle),
            }
        },
        None => nothing(DragView::Idle),
    }
}

/// The distance of two coordinates.
pub open spec fn distance(a: int, b: int) -> int {
    if a < b { b - a } else { a - b }
}

/// One step of a box drag: a jitter of one cell is still a click, and a click toggles the box.
pub open spec fn box_step(
    event: MouseEvent,
    g: FrameView,
    source: TargetView,
    start_x: int,
    start_y: int,
    offset_x: int,
    offset_y: int,
    moved: bool,
) -> OutcomeView {
    let now = moved || distance(event.column as int, start_x) > 1 || distance(event.row as int, start_y) > 1;
    let placed = match held_position(g, event.column as int, event.row as int, offset_x, offset_y) {
        Some(p) => Some(ActionView::MovePlanNode { target: source, x: p.x, y: p.y }),
        None => None,
    };
    match event.kind {
        MouseEventKind::Drag(MouseButton::Left) => OutcomeView {
            action: if now { placed } else { None },
            drag: DragView::PlanNode { source, start_x, start_y, offset_x, offset_y, moved: now },
            dirty: now,
        },
        MouseEventKind::Up(MouseButton::Left) => {
            let action = if now { placed } else { Some(ActionView::TogglePlanNode(source)) };
            OutcomeView { action, drag: DragView::Idle, dirty: action is Some }
        },
        _ => nothing(DragView::Idle),
    }
}

/// One step of a text selection: a click without movement clears the last selection.
pub open spec fn text_step(
    event: MouseEvent,
    g: FrameView,
    start: DiffTextPoint,
    end: DiffTextPoint,
    moved: bool,
) -> OutcomeView {
    let next = match text_point(g, event.column as int, event.row as int) {
        Some(p) => point_of(p),
        None => end,
    };
    let selection = DiffTextSelection { start, end: next };
    let now = moved || next != start;
    match event.kind {
        MouseEventKind::Drag(MouseButton::Left) => OutcomeView {
            action: if now { Some(ActionView::SetDiffSelection(selection)) } else { None },
            drag: DragView::DiffText { start, end: next, moved: now },
            dirty: now,
        },
        MouseEventKind::Up(MouseButton::Left) => OutcomeView {
            action: Some(
                if now {
                    ActionView::CommitDiffSelection {
                        selection,
                        text: match g.copy {
                            Some(f) => selected_text(f, selection),
                            None => Seq::empty(),
                        },
                    }
                } else {
                    ActionView::ClearDiffSelection
                },
            ),
            drag: DragView::Idle,
            dirty: true,
        },
        _ => nothing(DragView::Idle),
    }
}

/// One step of the active drag.
pub open spec fn drag_step(event: MouseEvent, g: FrameView, drag: DragView) -> OutcomeView {
    match drag {
        DragView::Idle => nothing(DragView::Idle),
        DragView::Dragging { divider, start_x, start_y, start_extent, moved } => divider_step(
            event,
            g,
            divider,
            start_x,
            start_y,
            start_extent,
            moved,
        ),
        DragView::PlanNode { source, start_x, start_y, offset_x, offset_y, moved } => box_step(
            event,
            g,
            source,
            start_x,
            start_y,
            offset_x,
            offset_y,
            moved,
        ),
        DragView::DiffText { start, end, moved } => text_step(event, g, start, end, moved),
    }
}

/// What a mouse event does.
pub open spec fn mouse_outcome(
    event: MouseEvent,
    v: AppView,
    s: UiSnapshot,
    g: FrameView,
    drag: DragView,
) -> OutcomeView {
    let (x, y) = (event.column as int, event.row as int);
    let picker = v.show_model_picker || v.show_base_picker;
    if v.status_detail is Some {
        if event.kind == MouseEventKind::Down(MouseButton::Left) {
            acts(ActionView::ToggleStatusDetail)
        } else {
            nothing(DragView::Idle)
        }
    } else if v.show_help || picker {
        if event.kind == MouseEventKind::ScrollUp && picker {
            acts(ActionView::Up)
        } else if event.kind == MouseEventKind::ScrollDown && picker {
            acts(ActionView::Down)
        } else {
            nothing(DragView::Idle)
        }
    } else if drag != DragView::Idle {
        drag_step(event, g, drag)
    } else {
        match event.kind {
            MouseEventKind::Moved => hover_outcome(x, y, v, g),
            MouseEventKind::ScrollUp => wheel_outcome(x, y, -3, g),
            MouseEventKind::ScrollDown => wheel_outcome(x, y, 3, g),
            MouseEventKind::ScrollLeft => sideways_outcome(x, y, -4, v, g),
            MouseEventKind::ScrollRight => sideways_outcome(x, y, 4, v, g),
            MouseEventKind::Down(MouseButton::Left) => press_outcome(x, y, v, s, g),
            _ => nothing(DragView::Idle),
        }
    }
}

/// Route one mouse event. Pure: reads state, returns the intent; the caller dispatches.
pub fn map_mouse(event: MouseEvent, app: &App, snap: &UiSnapshot, geometry: &UiGeometry, drag: DragState) -> (r:
    MouseOutcome)
    ensures
        r@ == mouse_outcome(event, app@, *snap, geometry@, drag@),
{
    proof {
        reveal(app_view);
    }
    let x: u16 = event.column;
    let y: u16 = event.row;
    // 1. The status detail is click-to-dismiss anywhere in the overlay. It precedes the
    // other modal gate because it is opened by clicking the bottom status itself.
    if app.status_detail.is_some() {
        return match event.kind {
            MouseEventKind::Down(MouseButton::Left) => MouseOutcome::acting(Action::ToggleStatusDetail),
            _ => MouseOutcome::inert(DragState::Idle),
        };
    }
    // 2. A modal swallows clicks and routes its wheel to its own selected list.
    let picker: bool = app.show_model_picker || app.show_base_picker;
    if app.show_help || picker {
        if picker && event.kind == MouseEventKind::ScrollUp {
            return MouseOutcome::acting(Action::Up);
        }
        if picker && event.kind == MouseEventKind::ScrollDown {
            return MouseOutcome::acting(Action::Down);
        }
        return MouseOutcome::inert(DragState::Idle);
    }
    // 3. An active drag consumes Drag/Up regardless of the pointer's rectangle.
    let idle: bool = match &drag {
        DragState::Idle => true,
        _ => false,
    };
    if !idle {
        return route_drag(event, geometry, drag);
    }
    match event.kind {
        MouseEventKind::Moved => route_hover(x, y, app, geometry),
        MouseEventKind::ScrollUp => route_wheel(x, y, -3, geometry),
        MouseEventKind::ScrollDown => route_wheel(x, y, 3, geometry),
        MouseEventKind::ScrollLeft => route_horizontal_wheel(x, y, -4, app, geometry),
        MouseEventKind::ScrollRight => route_horizontal_wheel(x, y, 4, app, geometry),
        MouseEventKind::Down(MouseButton::Left) => route_down(x, y, app, snap, geometry),
        _ => MouseOutcome::inert(DragState::Idle),
    }
}

/// Horizontal trackpad/wheel input is hover-routed directly to an unwrapped diff. It does not
/// focus the pane, so a gesture can inspect a long line without disturbing keyboard navigation.
fn route_horizontal_wheel(x: u16, y: u16, delta: i16, app: &App, geo: &UiGeometry) -> (r: MouseOutcome)
    ensures
        r@ == sideways_outcome(x as int, y as int, delta as int, app@, geo@),
{
    proof {
        reveal(app_view);
    }
    let over_diff: bool = match geo.pane_at(x, y) {
        Some(pane) => pane == Pane::Diff,
        None => false,
    };
    if app.diff_wrap || !over_diff || (delta < 0 && app.diff_hscroll == 0) {
        return MouseOutcome::inert(DragState::Idle);
    }
    MouseOutcome::acting(Action::ScrollDiffHorizontal { delta })
}

/// Motion only redraws when the node target changes. A steady stream inside one box is inert,
/// so any-motion terminal tracking cannot starve snapshot delivery.
fn route_hover(x: u16, y: u16, app: &App, geo: &UiGeometry) -> (r: MouseOutcome)
    ensures
        r@ == hover_outcome(x as int, y as int, app@, geo@),
{
    proof {
        reveal(app_view);
    }
    // The relationship overlay is the topmost diagram layer. It masks a card below it
    // for hover as well as click, so linked diff emphasis cannot leak through it.
    let target: Option<PlanNodeTarget> = if geo.plan_relationship_overlay_at(x, y).is_some() {
        None
    } else {
        geo.plan_node_at(x, y)
    };
    let same: bool = match (&target, &app.hovered_plan_node) {
        (Some(a), Some(b)) => a.same(b),
        (None, None) => true,
        _ => false,
    };
    if same {
        MouseOutcome::inert(DragState::Idle)
    } else {
        MouseOutcome::acting(Action::HoverPlanNode(target))
    }
}

/// Wheel routing is hover-only: it neither focuses a pane nor changes a row selection.
fn route_wheel(x: u16, y: u16, delta: i32, geo: &UiGeometry) -> (r: MouseOutcome)
    ensures
        r@ == wheel_outcome(x as int, y as int, delta as int, geo@),
{
    // The overlay is visually above the canvas and owns wheel paging before the diagram.
    if geo.plan_relationship_overlay_at(x, y).is_some() {
        return match geo.overlay_scrolled_offset(x, y, delta) {
            Some(offset) => MouseOutcome::acting(Action::ScrollPlanRelationshipOverlay { offset }),
            None => MouseOutcome::inert(DragState::Idle),
        };
    }
    match geo.scroll_region_at(x, y) {
        Some(region) => match region.scrolled_offset(delta) {
            Some(offset) => MouseOutcome::acting(Action::ScrollRegion { region: region.id, offset }),
            None => MouseOutcome::inert(DragState::Idle),
        },
        None => MouseOutcome::inert(DragState::Idle),
    }
}

fn copy_review(target: &ReviewTarget) -> (r: ReviewTarget)
    ensures
        r@ == target@,
{
    match target {
        ReviewTarget::Directory(path) => ReviewTarget::Directory(path.clone()),
        ReviewTarget::File(path) => ReviewTarget::File(path.clone()),
        ReviewTarget::Symbol { file, name, position } => ReviewTarget::Symbol {
            file: file.clone(),
            name: name.clone(),
            position: *position,
        },
    }
}

fn review_at(geo: &UiGeometry, x: u16, y: u16) -> (r: Option<ReviewTarget>)
    ensures
        match r {
            Some(target) => control_under(geo@.reviews, x as int, y as int, 0) == Some(target@),
            None => control_under(geo@.reviews, x as int, y as int, 0) is None,
        },
{
    let ghost all = crate::geometry::control_rects(geo.review_rects@);
    let mut i: usize = 0;
    while i < geo.review_rects.len()
        invariant
            i <= geo.review_rects.len() == all.len(),
            all == crate::geometry::control_rects(geo.review_rects@),
            control_under(all, x as int, y as int, 0) == control_under(all, x as int, y as int, i as int),
        decreases geo.review_rects.len() - i,
    {
        proof {
            let pair = geo.review_rects@[i as int];
            assert(all[i as int] == (pair.0, pair.1@));
        }
        if geo.review_rects[i].0.contains(x, y) {
            return Some(copy_review(&geo.review_rects[i].1));
        }
        i = i + 1;
    }
    None
}

/// A press on a review marker, a row or a pane.
fn route_pane_press(x: u16, y: u16, app: &App, geo: &UiGeometry) -> (r: MouseOutcome)
    ensures
        r@ == pane_press(x as int, y as int, app@, geo@),
{
    proof {
        reveal(app_view);
    }
    // A dedicated review marker wins over the containing row so review can be toggled
    // without disrupting the current selection or retargeting the diff.
    match review_at(geo, x, y) {
        Some(target) => {
            return MouseOutcome::acting(Action::ToggleReviewedTarget(target));
        },
        None => {},
    }
    let rows = app.projected_file_rows();
    let ghost tree = row_views(rows@);
    let ghost all = crate::geometry::row_rects(geo.file_row_rects@);
    let mut i: usize = 0;
    while i < geo.file_row_rects.len()
        invariant
            i <= geo.file_row_rects.len() == all.len(),
            all == crate::geometry::row_rects(geo.file_row_rects@),
            tree == row_views(rows@),
            tree == projection(app@.files, app@.collapsed),
            control_under(geo@.reviews, x as int, y as int, 0) is None,
            row_under(all, tree, x as int, y as int, 0) == row_under(all, tree, x as int, y as int, i as int),
        decreases geo.file_row_rects.len() - i,
    {
        proof {
            let pair = geo.file_row_rects@[i as int];
            assert(all[i as int] == (pair.0, pair.1 as int));
            assert(tree.len() == rows.len());
        }
        let physical: usize = geo.file_row_rects[i].1;
        if geo.file_row_rects[i].0.contains(x, y) && physical < rows.len() {
            proof {
                assert(tree[physical as int] == rows@[physical as int]@);
            }
            // A note row focuses Files but does not select.
            return match rows[physical].logical_index() {
                Some(logical_index) => MouseOutcome::acting(
                    Action::SelectFileRow { logical_index, viewport_offset: geo.files_first_visible },
                ),
                None => MouseOutcome::acting(Action::Focus(Pane::Files)),
            };
        }
        i = i + 1;
    }
    // Clicking blank diff space also clears any retained text selection, matching a plain
    // click on a rendered code row.
    proof {
        reveal(app_view);
    }
    match geo.pane_at(x, y) {
        Some(pane) => if pane == Pane::Diff && app.diff_selection.is_some() {
            MouseOutcome::acting(Action::ClearDiffSelection)
        } else {
            MouseOutcome::acting(Action::Focus(pane))
        },
        None => MouseOutcome::inert(DragState::Idle),
    }
}

/// Mouse-down routing: chrome > handles > diagram > diff text > rows > pane focus > inert.
fn route_down(x: u16, y: u16, app: &App, snap: &UiSnapshot, geo: &UiGeometry) -> (r: MouseOutcome)
    ensures
        r@ == press_outcome(x as int, y as int, app@, *snap, geo@),
{
    // The nonempty status-message segment is a chrome action, not a pane. Its exact
    // rectangle excludes the right-justified token/path fields.
    if geo.status_at(x, y) && !snap.status.text.as_str().is_empty() {
        return MouseOutcome::acting(Action::ToggleStatusDetail);
    }
    // The generated fallback owns its failure diagnostic instead of depending on the
    // footer, which may already have advanced to an automatic retry or another message.
    if geo.ai_failure_status_at(x, y) {
        match snap.ai_failure_status() {
            Some(status) => {
                proof {
                    assert(status@ =~= failure_status(snap.ai));
                }
                return MouseOutcome::acting(Action::OpenStatusDetail(status));
            },
            None => {},
        }
    }
    // Any registered drag handle. Geometry resolves intersection precedence.
    match geo.divider_at(x, y) {
        Some(handle) => {
            return MouseOutcome::inert(
                DragState::Dragging {
                    divider: handle.id,
                    start_x: x,
                    start_y: y,
                    start_extent: handle.effective_extent,
                    moved: false,
                },
            );
        },
        None => {},
    }
    // The full relationship overlay is visibly above the canvas and receives its own
    // second click before a covered node or route can see it.
    match geo.plan_relationship_overlay_at(x, y) {
        Some(target) => {
            return MouseOutcome::acting(Action::TogglePlanRelationship(target));
        },
        None => {},
    }
    // Visible boxes take priority over an arrow routed beneath them.
    match geo.plan_node_drag_at(x, y) {
        Some((source, offset_x, offset_y)) => {
            return MouseOutcome::inert(
                DragState::PlanNode { source, start_x: x, start_y: y, offset_x, offset_y, moved: false },
            );
        },
        None => {},
    }
    // Relationship arrows and clipped labels expand independently from boxes.
    match geo.plan_relationship_at(x, y) {
        Some(target) => {
            return MouseOutcome::acting(Action::TogglePlanRelationship(target));
        },
        None => {},
    }
    // Diff text uses native-style drag selection. Release copies the exact retained
    // code text, while a click without movement clears the previous selection.
    match geo.diff_text_point_at(x, y) {
        Some(start) => {
            return MouseOutcome::inert(DragState::DiffText { start, end: start, moved: false });
        },
        None => {},
    }
    route_pane_press(x, y, app, geo)
}

fn far(a: u16, b: u16) -> (r: bool)
    ensures
        r == (distance(a as int, b as int) > 1),
{
    if a < b {
        b - a > 1
    } else {
        a - b > 1
    }
}

fn drag_divider(
    event: MouseEvent,
    geo: &UiGeometry,
    divider: DividerId,
    start_x: u16,
    start_y: u16,
    start_extent: u16,
    moved: bool,
) -> (r: MouseOutcome)
    ensures
        r@ == divider_step(event, geo@, divider, start_x as int, start_y as int, start_extent as int, moved),
{
    let away: bool = event.column != start_x || event.row != start_y;
    match geo.divider(divider) {
        Some(handle) => {
            let extent: u16 = handle.resized_extent_from(start_extent, start_x, start_y, event.column, event.row);
            match event.kind {
                MouseEventKind::Drag(MouseButton::Left) => MouseOutcome {
                    action: if away { Some(Action::ResizeDivider { divider, extent }) } else { None },
                    drag: DragState::Dragging { divider, start_x, start_y, start_extent, moved: moved || away },
                    dirty: away,
                },
                MouseEventKind::Up(MouseButton::Left) => MouseOutcome {
                    action: if moved || away { Some(Action::ResizeDivider { divider, extent }) } else { None },
                    drag: DragState::Idle,
                    dirty: moved || away,
                },
                _ => MouseOutcome::inert(DragState::Idle),
            }
        },
        None => MouseOutcome::inert(DragState::Idle),
    }
}

fn drag_box(
    event: MouseEvent,
    geo: &UiGeometry,
    source: PlanNodeTarget,
    start_x: u16,
    start_y: u16,
    offset_x: u16,
    offset_y: u16,
    moved: bool,
) -> (r: MouseOutcome)
    ensures
        r@ == box_step(
            event,
            geo@,
            source@,
            start_x as int,
            start_y as int,
            offset_x as int,
            offset_y as int,
            moved,
        ),
{
    // A one-cell jitter is still a click. Once the threshold is crossed, retain the original
    // pointer-to-box offset so the card does not jump under the mouse.
    let now: bool = moved || far(event.column, start_x) || far(event.row, start_y);
    let place: Option<DiagramPosition> = geo.plan_position_from_screen(
        event.column,
        event.row,
        offset_x,
        offset_y,
    );
    match event.kind {
        MouseEventKind::Drag(MouseButton::Left) => {
            let action: Option<Action> = match place {
                Some(p) => if now {
                    Some(Action::MovePlanNode { target: source.copied(), x: p.x, y: p.y })
                } else {
                    None
                },
                None => None,
            };
            MouseOutcome {
                action,
                drag: DragState::PlanNode { source, start_x, start_y, offset_x, offset_y, moved: now },
                dirty: now,
            }
        },
        MouseEventKind::Up(MouseButton::Left) => {
            let action: Option<Action> = if now {
                match place {
                    Some(p) => Some(Action::MovePlanNode { target: source, x: p.x, y: p.y }),
                    None => None,
                }
            } else {
                Some(Action::TogglePlanNode(source))
            };
            let dirty: bool = action.is_some();
            MouseOutcome { action, drag: DragState::Idle, dirty }
        },
        _ => MouseOutcome::inert(DragState::Idle),
    }
}

fn drag_text(event: MouseEvent, geo: &UiGeometry, start: DiffTextPoint, end: DiffTextPoint, moved: bool) -> (r:
    MouseOutcome)
    ensures
        r@ == text_step(event, geo@, start, end, moved),
{
    let next: DiffTextPoint = match geo.diff_text_point_at(event.column, event.row) {
        Some(p) => p,
        None => end,
    };
    let selection = DiffTextSelection { start, end: next };
    let now: bool = moved || next != start;
    match event.kind {
        MouseEventKind::Drag(MouseButton::Left) => MouseOutcome {
            action: if now { Some(Action::SetDiffSelection(selection)) } else { None },
            drag: DragState::DiffText { start, end: next, moved: now },
            dirty: now,
        },
        MouseEventKind::Up(MouseButton::Left) => {
            let action: Action = if now {
                Action::CommitDiffSelection { selection, text: geo.selected_diff_text(selection) }
            } else {
                Action::ClearDiffSelection
            };
            MouseOutcome { action: Some(action), drag: DragState::Idle, dirty: true }
        },
        _ => MouseOutcome::inert(DragState::Idle),
    }
}

/// Drag/Up routing while a drag is active.
fn route_drag(event: MouseEvent, geo: &UiGeometry, drag: DragState) -> (r: MouseOutcome)
    ensures
        r@ == drag_step(event, geo@, drag@),
{
    match drag {
        DragState::Idle => MouseOutcome::inert(DragState::Idle),
        DragState::Dragging { divider, start_x, start_y, start_extent, moved } => drag_divider(
            event,
            geo,
            divider,
            start_x,
            start_y,
            start_extent,
            moved,
        ),
        DragState::PlanNode { source, start_x, start_y, offset_x, offset_y, moved } => drag_box(
            event,
            geo,
            source,
            start_x,
            start_y,
            offset_x,
            offset_y,
            moved,
        ),
        DragState::DiffText { start, end, moved } => drag_text(event, geo, start, end, moved),
    }
}

/// An open modal swallows every mouse event but its own, and no drag survives it.
pub proof fn law_modals_swallow_the_mouse(
    event: MouseEvent,
    v: AppView,
    s: UiSnapshot,
    g: FrameView,
    drag: DragView,
)
    requires
        v.status_detail is Some || v.show_help || v.show_model_picker || v.show_base_picker,
    ensures
        ({
            let r = mouse_outcome(event, v, s, g, drag);
            &&& r.drag == DragView::Idle
            &&& r.action is None || r.action == Some(ActionView::ToggleStatusDetail) || r.action == Some(
                ActionView::Up,
            ) || r.action == Some(ActionView::Down)
        }),
{
}

/// Releasing the left button ends any drag.
pub proof fn law_release_ends_the_drag(
    event: MouseEvent,
    v: AppView,
    s: UiSnapshot,
    g: FrameView,
    drag: DragView,
)
    requires
        event.kind == MouseEventKind::Up(MouseButton::Left),
    ensures
        mouse_outcome(event, v, s, g, drag).drag == DragView::Idle,
{
}

/// A press and a release in one cell of a divider resize nothing.
pub proof fn law_click_resizes_nothing(
    press: MouseEvent,
    release: MouseEvent,
    v: AppView,
    s: UiSnapshot,
    g: FrameView,
)
    requires
        press.kind == MouseEventKind::Down(MouseButton::Left),
        release.kind == MouseEventKind::Up(MouseButton::Left),
        press.column == release.column,
        press.row == release.row,
        mouse_outcome(press, v, s, g, DragView::Idle).drag is Dragging,
    ensures
        ({
            let armed = mouse_outcome(press, v, s, g, DragView::Idle);
            armed.action is None && mouse_outcome(release, v, s, g, armed.drag).action is None
        }),
{
}

/// The wheel never asks for a change of focus or selection.
pub proof fn law_wheel_only_scrolls(event: MouseEvent, v: AppView, s: UiSnapshot, g: FrameView)
    requires
        v.status_detail is None,
        !v.show_help,
        !v.show_model_picker,
        !v.show_base_picker,
        event.kind == MouseEventKind::ScrollUp || event.kind == MouseEventKind::ScrollDown || event.kind
            == MouseEventKind::ScrollLeft || event.kind == MouseEventKind::ScrollRight,
    ensures
        ({
            let a = mouse_outcome(event, v, s, g, DragView::Idle).action;
            a is None || a->0 is ScrollRegion || a->0 is ScrollPlanRelationshipOverlay
                || a->0 is ScrollDiffHorizontal
        }),
{
}

} // verus!
