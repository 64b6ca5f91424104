//! Shared layout geometry: the one computed frame plan, consumed by both rendering and mouse
//! hit-testing so a click can never target a rectangle the user did not see.
//!
//! Built once per frame and retained by the run loop; it is never recomputed while input is
//! handled.

use vstd::prelude::*;
use crate::action::{
    optional_target, DiffTextPoint, DiffTextSelection, PlanNodeTarget, PlanRelationshipTarget, RelationshipView,
    TargetView,
};
use crate::app::{app_view, App, AppView, Pane};
use crate::chrome::{bar_sides, bottom_bar_chunks};
use crate::diagram::{
    is_sanitized, leading_annotations, line_text, optional_relationship, sanitized_warning, DiagramPosition,
    DiagramRect, DiagramViewport,
};
use crate::diagram_canvas::{
    box_index, canvas_of, node_views, overlay_of, route_views, CanvasView, DiagramCanvas, NodeView, RouteView,
};
use crate::diff_pane::{copy_of, diff_copy_frame, inner, inset, CopyView, DiffCopyFrame};
use crate::diff_view::capped;
use crate::divider::{DividerAxis, DividerHandle, DividerId};
use crate::file_rows::{projection, row_views, summary_of, ProjectedRow, RowView, SummaryView};
use crate::impact_view::{diagram_lines, generated_impact_content, known_lines, leading_lines};
use crate::layout::{
    choose_tier, files_width, impact_height, impact_height_spec, impact_left_width, impact_left_width_spec,
    law_frame_minimums, law_impact_halves, law_work_row_minimums, relationship_callers_spec,
    relationship_section_heights, tier_of, yielding, Tier, MIN_DIFF_WIDTH, MIN_FILES_WIDTH,
};
use crate::num::{max_int, max_u16, max_usize, min_int, min_u16, min_usize, monus, sat16, sat_u16};
use crate::plan::VisualizationPlan;
use crate::rect::Rect;
use crate::review::ReviewTarget;
use crate::scroll::{ScrollRegion, ScrollRegionId};
use crate::snapshot::{AiStatus, FileRow, UiSnapshot};
use crate::split::{
    body_row, focus_rows, last_row, lemma_length_then_rest, lemma_two_lengths, normal_rows, split_two, Axis, Share,
};
use crate::table::Key;
use crate::text::{cells_of_char, char_cells_or_none, chars_of, display_width, join_texts, join_with, str_width, texts};

verus! {

/// Retained page geometry for the visible relationship text overlay.
#[derive(Debug, Clone, PartialEq, Eq)]
pub struct PlanRelationshipOverlay {
    pub rect: Rect,
    pub target: PlanRelationshipTarget,
    pub offset: usize,
    pub max_offset: usize,
}

/// The overlay on screen, by contents.
#[verifier::ext_equal]
pub struct PageOnScreen {
    pub rect: Rect,
    pub target: RelationshipView,
    pub offset: int,
    pub max_offset: int,
}

/// The computed frame plan. `None` fields mean that region is not present/clickable in the
/// current tier.
#[derive(Debug, Clone)]
pub struct UiGeometry {
    /// The full frame area.
    pub area: Rect,
    /// The active layout tier.
    pub tier: Tier,
    /// Files pane outer rect (with its border).
    pub files: Option<Rect>,
    /// Files pane inner content rect (rows live here).
    pub files_inner: Option<Rect>,
    /// Diff pane outer rect.
    pub diff: Option<Rect>,
    /// Bottom combined Impact pane outer rect.
    pub impact: Option<Rect>,
    /// Clickable left portion of the bottom bar when it contains a status message.
    pub status: Option<Rect>,
    /// Clickable fallback banner retaining the complete reason for the focused failure. This
    /// is separate from the transient bottom-bar status.
    pub ai_failure_status: Option<Rect>,
    /// Every structural divider actually visible and draggable in this frame.
    pub dividers: Vec<DividerHandle>,
    /// The visible files rows: (screen rect, physical row index). Physical indices index
    /// into the shared projection.
    pub file_row_rects: Vec<(Rect, usize)>,
    /// Dedicated right-edge review controls for visible directory/file/symbol rows. These sit
    /// above the general row targets so clicking a marker never changes selection.
    pub review_rects: Vec<(Rect, ReviewTarget)>,
    /// Physical index of the first visible file row (the scroll offset).
    pub files_first_visible: usize,
    /// Independently scrollable rectangles in the frame the user actually saw.
    pub scroll_regions: Vec<ScrollRegion>,
    /// Generated diagram content in screen coordinates. Its local `(0, 0)` origin is
    /// the coordinate system persisted by free box dragging.
    pub generated_content: Option<Rect>,
    /// Current vertical origin of the generated canvas in content-local rows.
    pub ai_plan_scroll: usize,
    /// Base diagram geometry built once from the persistent diagram state for this frame.
    pub diagram_canvas: Option<DiagramCanvas>,
    /// Expanded relationship overlay in screen geometry. It is registered separately so
    /// its visible z-order wins hit-testing without changing the base canvas.
    pub plan_relationship_overlay: Option<PlanRelationshipOverlay>,
    /// Visible generated-plan box rects derived from the retained canvas geometry.
    pub plan_node_rects: Vec<(Rect, PlanNodeTarget)>,
    /// Visible arrow routes and compact-label rects derived from the retained canvas.
    pub plan_relationship_rects: Vec<(Rect, PlanRelationshipTarget)>,
    /// Exact laid-out diff text behind mouse selection and clipboard extraction.
    pub diff_copy: Option<DiffCopyFrame>,
}

/// A frame plan, by contents.
#[verifier::ext_equal]
pub struct FrameView {
    pub area: Rect,
    pub tier: Tier,
    pub files: Option<Rect>,
    pub files_inner: Option<Rect>,
    pub diff: Option<Rect>,
    pub impact: Option<Rect>,
    pub status: Option<Rect>,
    pub failure: Option<Rect>,
    pub dividers: Seq<DividerHandle>,
    pub rows: Seq<(Rect, int)>,
    pub reviews: Seq<(Rect, SummaryView)>,
    pub first_row: int,
    pub regions: Seq<ScrollRegion>,
    pub content: Option<Rect>,
    pub plan_scroll: int,
    pub canvas: Option<CanvasView>,
    pub overlay: Option<PageOnScreen>,
    pub nodes: Seq<(Rect, TargetView)>,
    pub routes: Seq<(Rect, RelationshipView)>,
    pub copy: Option<CopyView>,
}

/// Row areas, by contents.
pub open spec fn row_rects(rows: Seq<(Rect, usize)>) -> Seq<(Rect, int)> {
    Seq::new(rows.len(), |i: int| (rows[i].0, rows[i].1 as int))
}

/// Review controls, by contents.
pub open spec fn control_rects(rows: Seq<(Rect, ReviewTarget)>) -> Seq<(Rect, SummaryView)> {
    Seq::new(rows.len(), |i: int| (rows[i].0, rows[i].1@))
}

/// Box areas, by contents.
pub open spec fn target_rects(rects: Seq<(Rect, PlanNodeTarget)>) -> Seq<(Rect, TargetView)> {
    Seq::new(rects.len(), |i: int| (rects[i].0, rects[i].1@))
}

/// Route areas, by contents.
pub open spec fn relation_rects(rects: Seq<(Rect, PlanRelationshipTarget)>) -> Seq<(Rect, RelationshipView)> {
    Seq::new(rects.len(), |i: int| (rects[i].0, rects[i].1@))
}

/// An optional overlay, by contents.
pub open spec fn optional_page(overlay: Option<PlanRelationshipOverlay>) -> Option<PageOnScreen> {
    match overlay {
        Some(o) => Some(
            PageOnScreen { rect: o.rect, target: o.target@, offset: o.offset as int, max_offset: o.max_offset as int },
        ),
        None => None,
    }
}

/// An optional canvas, by contents.
pub open spec fn optional_canvas(canvas: Option<DiagramCanvas>) -> Option<CanvasView> {
    match canvas {
        Some(c) => Some(c@),
        None => None,
    }
}

/// An optional copy frame, by contents.
pub open spec fn optional_copy(frame: Option<DiffCopyFrame>) -> Option<CopyView> {
    match frame {
        Some(f) => Some(f@),
        None => None,
    }
}

impl View for UiGeometry {
    type V = FrameView;

    open spec fn view(&self) -> FrameView {
        FrameView {
            area: self.area,
            tier: self.tier,
            files: self.files,
            files_inner: self.files_inner,
            diff: self.diff,
            impact: self.impact,
            status: self.status,
            failure: self.ai_failure_status,
            dividers: self.dividers@,
            rows: row_rects(self.file_row_rects@),
            reviews: control_rects(self.review_rects@),
            first_row: self.files_first_visible as int,
            regions: self.scroll_regions@,
            content: self.generated_content,
            plan_scroll: self.ai_plan_scroll as int,
            canvas: optional_canvas(self.diagram_canvas),
            overlay: optional_page(self.plan_relationship_overlay),
            nodes: target_rects(self.plan_node_rects@),
            routes: relation_rects(self.plan_relationship_rects@),
            copy: optional_copy(self.diff_copy),
        }
    }
}

/// A frame plan without any region.
pub open spec fn bare_frame(area: Rect, tier: Tier) -> FrameView {
    FrameView {
        area,
        tier,
        files: None,
        files_inner: None,
        diff: None,
        impact: None,
        status: None,
        failure: None,
        dividers: Seq::empty(),
        rows: Seq::empty(),
        reviews: Seq::empty(),
        first_row: 0,
        regions: Seq::empty(),
        content: None,
        plan_scroll: 0,
        canvas: None,
        overlay: None,
        nodes: Seq::empty(),
        routes: Seq::empty(),
        copy: None,
    }
}

fn bare(area: Rect, tier: Tier) -> (g: UiGeometry)
    ensures
        g@ == bare_frame(area, tier),
{
    let g = UiGeometry {
        area,
        tier,
        files: None,
        files_inner: None,
        diff: None,
        impact: None,
        status: None,
        ai_failure_status: None,
        dividers: Vec::new(),
        file_row_rects: Vec::new(),
        review_rects: Vec::new(),
        files_first_visible: 0,
        scroll_regions: Vec::new(),
        generated_content: None,
        ai_plan_scroll: 0,
        diagram_canvas: None,
        plan_relationship_overlay: None,
        plan_node_rects: Vec::new(),
        plan_relationship_rects: Vec::new(),
        diff_copy: None,
    };
    proof {
        assert(g@ =~= bare_frame(area, tier));
    }
    g
}

/// How many rows of a list are on screen.
pub open spec fn shown_rows(rows: int, first: int, capacity: int) -> int {
    min_int(monus(rows, first), capacity)
}

/// The area of the row in slot `slot`.
pub open spec fn slot_rect(inside: Rect, slot: int) -> Rect {
    Rect { x: inside.x, y: (inside.y + slot) as u16, width: inside.width, height: 1 }
}

/// The review control at the right edge of slot `slot`.
pub open spec fn control_rect(inside: Rect, slot: int) -> Rect {
    Rect { x: (inside.x + inside.width - 1) as u16, y: (inside.y + slot) as u16, width: 1, height: 1 }
}

/// The areas of the rows on screen.
pub open spec fn visible_rows(inside: Rect, rows: int, first: int) -> Seq<(Rect, int)> {
    Seq::new(
        shown_rows(rows, first, inside.height as int) as nat,
        |slot: int| (slot_rect(inside, slot), first + slot),
    )
}

/// The review controls of the first `n` rows on screen; notes have none.
pub open spec fn visible_controls(
    inside: Rect,
    rows: Seq<RowView>,
    files: Seq<FileRow>,
    first: int,
    n: int,
) -> Seq<(Rect, SummaryView)>
    decreases n,
{
    if n <= 0 {
        Seq::empty()
    } else {
        let before = visible_controls(inside, rows, files, first, n - 1);
        match summary_of(rows[first + n - 1], files) {
            Some(key) => if inside.width > 0 { before.push((control_rect(inside, n - 1), key)) } else { before },
            None => before,
        }
    }
}

/// A frame with a scrollable region, where it has an area.
pub open spec fn with_region(
    g: FrameView,
    id: ScrollRegionId,
    rect: Rect,
    offset: int,
    max_offset: int,
) -> FrameView {
    if rect.width > 0 && rect.height > 0 {
        FrameView {
            regions: g.regions.push(
                ScrollRegion { id, rect, offset: offset as usize, max_offset: max_offset as usize },
            ),
            ..g
        }
    } else {
        g
    }
}

/// A frame with the files pane.
pub open spec fn with_files(g: FrameView, pane: Rect, v: AppView, s: UiSnapshot) -> FrameView {
    let inside = inset(pane);
    let rows = projection(v.files, v.collapsed);
    let n = rows.len() as int;
    let capacity = inside.height as int;
    let first = App::first_visible_row(v, capacity);
    with_region(
        FrameView {
            files: Some(pane),
            files_inner: Some(inside),
            first_row: first,
            rows: visible_rows(inside, n, first),
            reviews: visible_controls(inside, rows, s.files@, first, shown_rows(n, first, capacity)),
            ..g
        },
        ScrollRegionId::Files,
        pane,
        first,
        monus(n, capacity),
    )
}

/// A frame with the diff pane.
pub open spec fn with_diff(g: FrameView, pane: Rect, v: AppView, s: UiSnapshot) -> FrameView {
    let copy = copy_of(v, s.diff.rows@, pane);
    with_region(
        FrameView { diff: Some(pane), copy: Some(copy), ..g },
        ScrollRegionId::Diff,
        pane,
        copy.first_logical,
        monus(s.diff.rows.len() as int, 1),
    )
}

/// A frame with the status message of the bottom bar.
pub open spec fn with_status(g: FrameView, bar: Rect, v: AppView, s: UiSnapshot) -> FrameView {
    if s.status.text@.len() == 0 {
        g
    } else {
        FrameView { status: Some(bar_sides(v, s.ai_tokens, bar).0), ..g }
    }
}

/// The largest offset at which a viewport is still full.
pub open spec fn max_scroll(content: int, viewport: int) -> int {
    if viewport == 0 { 0 } else { monus(content, viewport) }
}

/// The rows of a relationship section below its heading and above its divider.
pub open spec fn section_capacity(height: int, divider: bool) -> int {
    monus(monus(height, if divider { 1 } else { 0 }), 1)
}

/// The relationship stack and the generated half of a pane's content.
pub open spec fn left_width(v: AppView, content: Rect) -> int {
    impact_left_width_spec(v.extents[DividerId::RelationshipsGenerated], content.width as int)
}

/// A frame with the relationship stack: its two lists, and the dividers around them.
pub open spec fn with_relationships(g: FrameView, content: Rect, v: AppView, s: UiSnapshot) -> FrameView {
    let left = left_width(v, content);
    let divider_x = content.x + left;
    let upper = relationship_callers_spec(v.extents[DividerId::CallersDownstream], content.height as int);
    let callers = Rect { width: left as u16, height: upper as u16, ..content };
    let downstream = Rect {
        y: (content.y + upper) as u16,
        width: left as u16,
        height: (content.height - upper) as u16,
        ..content
    };
    let g1 = FrameView {
        dividers: g.dividers.push(
            DividerHandle {
                id: DividerId::RelationshipsGenerated,
                rect: Rect {
                    x: monus(divider_x, 1) as u16,
                    y: content.y,
                    width: min_int(2, content.width as int) as u16,
                    height: content.height,
                },
                effective_extent: left as u16,
            },
        ),
        ..g
    };
    let g2 = with_region(
        g1,
        ScrollRegionId::Callers,
        callers,
        v.callers_scroll,
        max_scroll(s.impact.callers.rows.len() as int, section_capacity(callers.height as int, true)),
    );
    let g3 = with_region(
        g2,
        ScrollRegionId::Downstream,
        downstream,
        v.downstream_scroll,
        max_scroll(s.impact.downstream.rows.len() as int, section_capacity(downstream.height as int, false)),
    );
    if callers.height == 0 || downstream.height == 0 || callers.width == 0 {
        g3
    } else {
        FrameView {
            dividers: g3.dividers.push(
                DividerHandle {
                    id: DividerId::CallersDownstream,
                    rect: Rect {
                        x: callers.x,
                        y: monus(downstream.y as int, 1) as u16,
                        width: callers.width,
                        height: 2,
                    },
                    effective_extent: callers.height,
                },
            ),
            ..g3
        }
    }
}

/// The generated half of a pane's content: with its border, and what is inside it.
pub open spec fn generated_half(content: Rect, v: AppView, s: UiSnapshot) -> (Rect, Rect) {
    if !s.impact.relationships_spec() {
        (content, content)
    } else {
        let left = left_width(v, content);
        let outer = Rect { x: (content.x + left) as u16, width: (content.width - left) as u16, ..content };
        (
            outer,
            Rect { x: sat16(outer.x + 2) as u16, width: monus(outer.width as int, 2) as u16, ..outer },
        )
    }
}

/// A canvas rectangle moved to the screen and cut to the viewport.
pub open spec fn on_screen(r: DiagramRect, viewport: Rect, scroll: int) -> Option<Rect> {
    let top = max_int(r.y as int, scroll);
    let bottom = min_int(r.y + r.height, scroll + viewport.height);
    if r.width == 0 || top >= bottom || r.x >= viewport.width {
        None
    } else {
        Some(
            Rect {
                x: sat16(viewport.x + r.x) as u16,
                y: sat16(viewport.y + sat16(top - scroll)) as u16,
                width: min_int(r.width as int, monus(viewport.width as int, r.x as int)) as u16,
                height: (bottom - top) as u16,
            },
        )
    }
}

/// Translate and clip a content-local canvas rectangle into the current generated viewport.
pub fn canvas_rect_on_screen(rect: DiagramRect, viewport: Rect, scroll: usize) -> (r: Option<Rect>)
    ensures
        r == on_screen(rect, viewport, scroll as int),
{
    let top: usize = rect.y as usize;
    let bottom: usize = top + rect.height as usize;
    let visible_top: usize = max_usize(top, scroll);
    let visible_bottom: usize = min_usize(bottom, scroll.saturating_add(viewport.height as usize));
    if rect.width == 0 || visible_top >= visible_bottom || rect.x >= viewport.width {
        return None;
    }
    Some(
        Rect {
            x: viewport.x.saturating_add(rect.x),
            y: viewport.y.saturating_add(sat_u16(visible_top - scroll)),
            width: min_u16(rect.width, viewport.width.saturating_sub(rect.x)),
            height: sat_u16(visible_bottom - visible_top),
        },
    )
}

/// What is on screen lies inside the viewport.
pub proof fn law_screen_rects_stay_inside(r: DiagramRect, viewport: Rect, scroll: int)
    requires
        viewport.fits(),
        0 <= scroll,
    ensures
        on_screen(r, viewport, scroll) matches Some(out) ==> {
            &&& viewport.x <= out.x && out.x + out.width <= viewport.x + viewport.width
            &&& viewport.y <= out.y && out.y + out.height <= viewport.y + viewport.height
            &&& out.width > 0 && out.height > 0
        },
{
}

/// The rectangle that covers piece `i` of a path, both end cells included.
pub open spec fn piece_rect(path: Seq<DiagramPosition>, i: int) -> DiagramRect {
    let (a, b) = (path[i], path[i + 1]);
    DiagramRect {
        x: min_int(a.x as int, b.x as int) as u16,
        y: min_int(a.y as int, b.y as int) as u16,
        width: sat16(max_int(a.x as int, b.x as int) - min_int(a.x as int, b.x as int) + 1) as u16,
        height: sat16(max_int(a.y as int, b.y as int) - min_int(a.y as int, b.y as int) + 1) as u16,
    }
}

/// The rectangles that cover the pieces of a path.
pub open spec fn path_rects(path: Seq<DiagramPosition>) -> Seq<DiagramRect> {
    Seq::new(monus(path.len() as int, 1) as nat, |i: int| piece_rect(path, i))
}

/// Rectangles covering every orthogonal route segment, inclusive of its endpoint cell.
pub fn relationship_path_rects(path: &Vec<DiagramPosition>) -> (out: Vec<DiagramRect>)
    ensures
        out@ == path_rects(path@),
{
    let mut out: Vec<DiagramRect> = Vec::new();
    let mut i: usize = 1;
    while i < path.len()
        invariant
            1 <= i,
            path.len() > 0 ==> i <= path.len(),
            path.len() == 0 ==> i == 1,
            out.len() == i - 1,
            forall|k: int| 0 <= k < out.len() ==> #[trigger] out@[k] == piece_rect(path@, k),
        decreases path.len() - i,
    {
        let a: DiagramPosition = path[i - 1];
        let b: DiagramPosition = path[i];
        let x: u16 = min_u16(a.x, b.x);
        let y: u16 = min_u16(a.y, b.y);
        out.push(
            DiagramRect {
                x,
                y,
                width: (max_u16(a.x, b.x) - x).saturating_add(1),
                height: (max_u16(a.y, b.y) - y).saturating_add(1),
            },
        );
        i = i + 1;
    }
    proof {
        assert(out@ =~= path_rects(path@));
    }
    out
}

/// Every cell of a piece of a route is covered by its rectangle.
pub proof fn law_piece_rects_cover_the_route(path: Seq<DiagramPosition>, i: int, p: DiagramPosition)
    requires
        0 <= i,
        i + 1 < path.len(),
        crate::diagram_canvas::on_segment(p, path[i], path[i + 1]),
        p.x < 65535,
        p.y < 65535,
    ensures
        piece_rect(path, i).covers(p),
{
}

/// The first `n` boxes on screen.
pub open spec fn screen_nodes(nodes: Seq<NodeView>, viewport: Rect, scroll: int, n: int) -> Seq<(Rect, TargetView)>
    decreases n,
{
    if n <= 0 {
        Seq::empty()
    } else {
        let before = screen_nodes(nodes, viewport, scroll, n - 1);
        match on_screen(nodes[n - 1].rect, viewport, scroll) {
            Some(rect) => before.push((rect, nodes[n - 1].target)),
            None => before,
        }
    }
}

/// The first `n` rectangles of a route on screen.
pub open spec fn screen_pieces(
    rects: Seq<DiagramRect>,
    target: RelationshipView,
    viewport: Rect,
    scroll: int,
    n: int,
) -> Seq<(Rect, RelationshipView)>
    decreases n,
{
    if n <= 0 {
        Seq::empty()
    } else {
        let before = screen_pieces(rects, target, viewport, scroll, n - 1);
        match on_screen(rects[n - 1], viewport, scroll) {
            Some(rect) => before.push((rect, target)),
            None => before,
        }
    }
}

/// The rectangles of one route: its label, then its pieces.
pub open spec fn route_rects(route: RouteView) -> Seq<DiagramRect> {
    seq![route.label_rect] + path_rects(route.path)
}

/// The first `n` routes on screen; one whose label is whole is no target.
pub open spec fn screen_routes(routes: Seq<RouteView>, viewport: Rect, scroll: int, n: int) -> Seq<
    (Rect, RelationshipView),
>
    decreases n,
{
    if n <= 0 {
        Seq::empty()
    } else {
        let before = screen_routes(routes, viewport, scroll, n - 1);
        let route = routes[n - 1];
        if route.has_hidden_label {
            before + screen_pieces(
                route_rects(route),
                route.target,
                viewport,
                scroll,
                route_rects(route).len() as int,
            )
        } else {
            before
        }
    }
}

/// The generated plan that is drawn as a diagram.
pub open spec fn drawn_plan(s: UiSnapshot) -> Option<VisualizationPlan> {
    if s.semantic.ai_generated { s.semantic.plan } else { None }
}

/// The finished plan whose boxes and relationships can be hit.
pub open spec fn shown_plan(s: UiSnapshot) -> Option<VisualizationPlan> {
    if s.semantic.ai_generated && s.ai is Ready { s.semantic.plan } else { None }
}

/// The warning above a diagram.
pub open spec fn plan_warnings(s: UiSnapshot) -> Seq<Seq<char>> {
    if is_sanitized(s.semantic.report) {
        seq![sanitized_warning(s.semantic.report->0.dropped.len() as int)]
    } else {
        Seq::empty()
    }
}

/// The canvas of a plan in a viewport.
pub open spec fn shown_canvas(plan: VisualizationPlan, inside: Rect, v: AppView, s: UiSnapshot) -> CanvasView {
    canvas_of(
        plan,
        DiagramViewport { width: inside.width, height: inside.height },
        v.diagram.positions,
        v.diagram.expanded,
        v.diagram.z_order,
        plan_warnings(s),
    )
}

/// The overlay of the open relationship on screen.
pub open spec fn shown_overlay(
    plan: VisualizationPlan,
    canvas: CanvasView,
    inside: Rect,
    scroll: int,
    v: AppView,
) -> Option<PageOnScreen> {
    match v.diagram.relationship {
        Some(r) => match overlay_of(
            canvas,
            plan,
            r,
            sat16(scroll),
            inside.height as int,
            v.diagram.overlay_scroll,
        ) {
            Some(overlay) => match on_screen(overlay.rect, inside, scroll) {
                Some(rect) => Some(
                    PageOnScreen { rect, target: r, offset: overlay.scroll, max_offset: overlay.max_scroll },
                ),
                None => None,
            },
            None => None,
        },
        None => None,
    }
}

/// A frame with the diagram of a finished plan.
pub open spec fn with_canvas(
    g: FrameView,
    plan: VisualizationPlan,
    outer: Rect,
    inside: Rect,
    v: AppView,
    s: UiSnapshot,
) -> FrameView {
    let canvas = shown_canvas(plan, inside, v, s);
    let last = max_scroll(canvas.size.height as int, inside.height as int);
    let first = min_int(v.plan_scroll, last);
    with_region(
        FrameView {
            plan_scroll: first,
            nodes: g.nodes + screen_nodes(canvas.nodes, inside, first, canvas.nodes.len() as int),
            routes: g.routes + screen_routes(canvas.relationships, inside, first, canvas.relationships.len() as int),
            overlay: shown_overlay(plan, canvas, inside, first, v),
            canvas: Some(canvas),
            ..g
        },
        ScrollRegionId::GeneratedImpact,
        outer,
        first,
        last,
    )
}

/// The banner of a failure: the cells of the first generated line.
pub open spec fn failure_banner(line: Seq<char>, inside: Rect) -> Option<Rect> {
    let width = min_int(sat16(display_width(line) as int), inside.width as int);
    if width > 0 { Some(Rect { width: width as u16, height: 1, ..inside }) } else { None }
}

/// A frame with the generated lines that stand for a diagram.
pub open spec fn with_lines(g: FrameView, outer: Rect, inside: Rect, v: AppView, s: UiSnapshot) -> FrameView {
    let lines = leading_lines(s, inside.width as int) + known_lines(s.impact, inside.width as int);
    let last = max_scroll(lines.len() as int, inside.height as int);
    let first = min_int(v.plan_scroll, last);
    with_region(
        FrameView {
            plan_scroll: first,
            failure: if first == 0 && s.ai is Failed {
                failure_banner(line_text(lines[0]), inside)
            } else {
                g.failure
            },
            ..g
        },
        ScrollRegionId::GeneratedImpact,
        outer,
        first,
        last,
    )
}

/// A frame with the diagram of a plan that is drawn while its generator is not ready: it
/// scrolls, and only the failure banner in its first row is a target.
pub open spec fn with_drawing(
    g: FrameView,
    plan: VisualizationPlan,
    outer: Rect,
    inside: Rect,
    v: AppView,
    s: UiSnapshot,
) -> FrameView {
    let canvas = shown_canvas(plan, inside, v, s);
    let last = max_scroll(canvas.size.height as int, inside.height as int);
    let first = min_int(v.plan_scroll, last);
    with_region(
        FrameView {
            plan_scroll: first,
            failure: if first == 0 && s.ai is Failed && canvas.annotations.len() > 0 {
                failure_banner(canvas.annotations[0], inside)
            } else {
                g.failure
            },
            ..g
        },
        ScrollRegionId::GeneratedImpact,
        outer,
        first,
        last,
    )
}

/// A frame with the Impact pane.
pub open spec fn with_impact(g: FrameView, pane: Rect, v: AppView, s: UiSnapshot) -> FrameView {
    let content = inset(pane);
    let g1 = FrameView { impact: Some(pane), ..g };
    if content.width < 2 || content.height == 0 {
        g1
    } else {
        let g2 = if s.impact.relationships_spec() { with_relationships(g1, content, v, s) } else { g1 };
        let (outer, inside) = generated_half(content, v, s);
        let g3 = FrameView { content: Some(inside), ..g2 };
        match shown_plan(s) {
            Some(plan) => with_canvas(g3, plan, outer, inside, v, s),
            None => match drawn_plan(s) {
                Some(plan) => with_drawing(g3, plan, outer, inside, v, s),
                None => with_lines(g3, outer, inside, v, s),
            },
        }
    }
}

/// The height of the Impact pane.
pub open spec fn pane_height(v: AppView, area: Rect) -> int {
    impact_height_spec(v.extents[DividerId::WorkReview], area.height as int)
}

/// The width of the files pane.
pub open spec fn pane_width(v: AppView, area: Rect) -> int {
    yielding(v.extents[DividerId::FilesDiff], MIN_FILES_WIDTH as int, area.width as int, MIN_DIFF_WIDTH as int)
}

/// The frame plan of the focused pane alone.
pub open spec fn focus_frame(area: Rect, v: AppView, s: UiSnapshot) -> FrameView {
    let g = with_status(bare_frame(area, Tier::FocusOnly), last_row(area), v, s);
    let body = body_row(area);
    match v.focused {
        Pane::Files => with_files(g, body, v, s),
        Pane::Diff => with_diff(g, body, v, s),
        Pane::Impact => with_impact(g, body, v, s),
    }
}

/// The work row of the normal layout.
pub open spec fn work_row(area: Rect, v: AppView) -> Rect {
    Rect { y: (area.y + 1) as u16, height: (area.height - 2 - pane_height(v, area)) as u16, ..area }
}

/// The Impact pane of the normal layout.
pub open spec fn impact_row(area: Rect, v: AppView) -> Rect {
    Rect {
        y: (area.y + area.height - 1 - pane_height(v, area)) as u16,
        height: pane_height(v, area) as u16,
        ..area
    }
}

/// The files pane of the normal layout.
pub open spec fn files_pane(area: Rect, v: AppView) -> Rect {
    Rect { width: pane_width(v, area) as u16, ..work_row(area, v) }
}

/// The diff pane of the normal layout.
pub open spec fn diff_pane(area: Rect, v: AppView) -> Rect {
    let w = pane_width(v, area);
    Rect { x: (area.x + w) as u16, width: (area.width - w) as u16, ..work_row(area, v) }
}

/// The handles between the panes: each covers both adjacent border cells, and the vertical
/// one stops before the work row's bottom border.
pub open spec fn pane_handles(area: Rect, v: AppView) -> Seq<DividerHandle> {
    let work = work_row(area, v);
    let impact = impact_row(area, v);
    seq![
        DividerHandle {
            id: DividerId::FilesDiff,
            rect: Rect {
                x: monus(diff_pane(area, v).x as int, 1) as u16,
                y: work.y,
                width: 2,
                height: monus(work.height as int, 1) as u16,
            },
            effective_extent: files_pane(area, v).width,
        },
        DividerHandle {
            id: DividerId::WorkReview,
            rect: Rect { x: area.x, y: monus(impact.y as int, 1) as u16, width: area.width, height: 2 },
            effective_extent: impact.height,
        },
    ]
}

/// The frame plan of the normal layout before the files pane and the pane handles.
#[verifier::opaque]
pub open spec fn partial_frame(area: Rect, v: AppView, s: UiSnapshot) -> FrameView {
    let g0 = with_status(bare_frame(area, Tier::Normal), last_row(area), v, s);
    let g1 = with_impact(g0, impact_row(area, v), v, s);
    with_diff(g1, diff_pane(area, v), v, s)
}

/// The frame plan of the normal layout.
pub open spec fn normal_frame(area: Rect, v: AppView, s: UiSnapshot) -> FrameView {
    let g = partial_frame(area, v, s);
    with_files(FrameView { dividers: g.dividers + pane_handles(area, v), ..g }, files_pane(area, v), v, s)
}

/// The frame plan of an area.
pub open spec fn frame_of(area: Rect, v: AppView, s: UiSnapshot) -> FrameView {
    match tier_of(area.width as int, area.height as int, v.zoomed) {
        Tier::TooSmall => bare_frame(area, Tier::TooSmall),
        Tier::FocusOnly => focus_frame(area, v, s),
        Tier::Normal => normal_frame(area, v, s),
    }
}

/// The rows beyond a heading and a divider.
pub fn impact_list_capacity(section_height: u16, bottom_divider: bool) -> (r: usize)
    ensures
        r == section_capacity(section_height as int, bottom_divider),
{
    (section_height as usize).saturating_sub(if bottom_divider { 1 } else { 0 }).saturating_sub(1)
}

/// The largest offset at which a viewport is still full.
pub fn scroll_max(content_len: usize, viewport_len: usize) -> (r: usize)
    ensures
        r == max_scroll(content_len as int, viewport_len as int),
{
    if viewport_len == 0 {
        0
    } else {
        content_len.saturating_sub(viewport_len)
    }
}

/// The review controls and the areas of the rows on screen.
fn visible_tree(rows: &Vec<ProjectedRow>, files: &[FileRow], inside: Rect, first: usize) -> (r: (
    Vec<(Rect, usize)>,
    Vec<(Rect, ReviewTarget)>,
))
    requires
        inside.fits(),
        first <= rows.len(),
    ensures
        row_rects(r.0@) == visible_rows(inside, rows.len() as int, first as int),
        control_rects(r.1@) == visible_controls(
            inside,
            row_views(rows@),
            files@,
            first as int,
            shown_rows(rows.len() as int, first as int, inside.height as int),
        ),
{
    let ghost all = row_views(rows@);
    let count: usize = min_usize(rows.len() - first, inside.height as usize);
    let ghost wanted = visible_rows(inside, rows.len() as int, first as int);
    let mut rects: Vec<(Rect, usize)> = Vec::new();
    let mut controls: Vec<(Rect, ReviewTarget)> = Vec::new();
    let mut slot: usize = 0;
    proof {
        assert(row_rects(rects@) =~= wanted.take(0));
        assert(control_rects(controls@) =~= visible_controls(inside, all, files@, first as int, 0));
    }
    while slot < count
        invariant
            slot <= count,
            count <= inside.height,
            first + count <= rows.len(),
            inside.fits(),
            all == row_views(rows@),
            wanted == visible_rows(inside, rows.len() as int, first as int),
            wanted.len() == count,
            row_rects(rects@) == wanted.take(slot as int),
            control_rects(controls@) == visible_controls(inside, all, files@, first as int, slot as int),
        decreases count - slot,
    {
        let physical: usize = first + slot;
        let y: u16 = inside.y + slot as u16;
        let ghost before = row_rects(rects@);
        let ghost kept = control_rects(controls@);
        rects.push((Rect { x: inside.x, y, width: inside.width, height: 1 }, physical));
        proof {
            assert(all[physical as int] == rows@[physical as int]@);
            assert(row_rects(rects@) =~= before.push(wanted[slot as int]));
            assert(wanted.take(slot + 1) =~= wanted.take(slot as int).push(wanted[slot as int]));
        }
        if inside.width > 0 {
            match rows[physical].review_target(files) {
                Some(target) => {
                    let ghost key = target@;
                    controls.push((Rect { x: inside.x + (inside.width - 1), y, width: 1, height: 1 }, target));
                    proof {
                        assert(control_rects(controls@) =~= kept.push((control_rect(inside, slot as int), key)));
                    }
                },
                None => {},
            }
        }
        slot = slot + 1;
    }
    proof {
        assert(wanted.take(count as int) =~= wanted);
    }
    (rects, controls)
}

/// The areas of the boxes on screen.
fn boxes_on_screen(canvas: &DiagramCanvas, inside: Rect, first: usize) -> (out: Vec<(Rect, PlanNodeTarget)>)
    ensures
        target_rects(out@) == screen_nodes(canvas@.nodes, inside, first as int, canvas@.nodes.len() as int),
{
    let ghost all = node_views(canvas.nodes@);
    let mut out: Vec<(Rect, PlanNodeTarget)> = Vec::new();
    let mut i: usize = 0;
    proof {
        assert(target_rects(out@) =~= screen_nodes(all, inside, first as int, 0));
    }
    while i < canvas.nodes.len()
        invariant
            i <= canvas.nodes.len() == all.len(),
            all == node_views(canvas.nodes@),
            target_rects(out@) == screen_nodes(all, inside, first as int, i as int),
        decreases canvas.nodes.len() - i,
    {
        let ghost before = target_rects(out@);
        let node = &canvas.nodes[i];
        proof {
            assert(all[i as int] == node@);
        }
        match canvas_rect_on_screen(node.rect, inside, first) {
            Some(rect) => {
                let target = node.target.copied();
                let ghost t = target@;
                out.push((rect, target));
                proof {
                    assert(target_rects(out@) =~= before.push((rect, t)));
                }
            },
            None => {},
        }
        i = i + 1;
    }
    out
}

/// Add the pieces of one route that are on screen.
fn push_pieces(
    out: &mut Vec<(Rect, PlanRelationshipTarget)>,
    rects: &Vec<DiagramRect>,
    target: &PlanRelationshipTarget,
    inside: Rect,
    first: usize,
)
    ensures
        relation_rects(final(out)@) == relation_rects(old(out)@) + screen_pieces(
            rects@,
            target@,
            inside,
            first as int,
            rects.len() as int,
        ),
{
    let ghost start = relation_rects(out@);
    let mut i: usize = 0;
    proof {
        assert(relation_rects(out@) =~= start + screen_pieces(rects@, target@, inside, first as int, 0));
    }
    while i < rects.len()
        invariant
            i <= rects.len(),
            relation_rects(out@) == start + screen_pieces(rects@, target@, inside, first as int, i as int),
        decreases rects.len() - i,
    {
        let ghost before = relation_rects(out@);
        match canvas_rect_on_screen(rects[i], inside, first) {
            Some(rect) => {
                out.push((rect, target.copied()));
                proof {
                    assert(relation_rects(out@) =~= before.push((rect, target@)));
                }
            },
            None => {},
        }
        proof {
            assert(relation_rects(out@) =~= start + screen_pieces(rects@, target@, inside, first as int, i + 1));
        }
        i = i + 1;
    }
}

/// The areas of the routes on screen that have text to show.
fn routes_on_screen(canvas: &DiagramCanvas, inside: Rect, first: usize) -> (out: Vec<(Rect, PlanRelationshipTarget)>)
    ensures
        relation_rects(out@) == screen_routes(
            canvas@.relationships,
            inside,
            first as int,
            canvas@.relationships.len() as int,
        ),
{
    let ghost all = route_views(canvas.relationships@);
    let mut out: Vec<(Rect, PlanRelationshipTarget)> = Vec::new();
    let mut i: usize = 0;
    proof {
        assert(relation_rects(out@) =~= screen_routes(all, inside, first as int, 0));
    }
    while i < canvas.relationships.len()
        invariant
            i <= canvas.relationships.len() == all.len(),
            all == route_views(canvas.relationships@),
            relation_rects(out@) == screen_routes(all, inside, first as int, i as int),
        decreases canvas.relationships.len() - i,
    {
        let route = &canvas.relationships[i];
        proof {
            assert(all[i as int] == route@);
        }
        if route.has_hidden_label {
            let mut rects: Vec<DiagramRect> = Vec::new();
            rects.push(route.label_rect);
            let mut pieces = relationship_path_rects(&route.path);
            let ghost wanted = route_rects(route@);
            let ghost rest = pieces@;
            rects.append(&mut pieces);
            proof {
                assert(rects@ =~= wanted);
            }
            push_pieces(&mut out, &rects, &route.target, inside, first);
        }
        i = i + 1;
    }
    out
}

fn banner_rect(line: &str, inside: Rect) -> (r: Option<Rect>)
    ensures
        r == failure_banner(line@, inside),
{
    let width: u16 = min_u16(sat_u16(str_width(line)), inside.width);
    if width > 0 {
        Some(Rect { x: inside.x, y: inside.y, width, height: 1 })
    } else {
        None
    }
}

/// The bottom bar, the work row, the Impact pane, the files pane and the diff pane of the
/// normal layout.
pub(crate) fn normal_panes(area: Rect, app: &App) -> (r: (Rect, Rect, Rect, Rect, Rect))
    requires
        area.fits(),
        tier_of(area.width as int, area.height as int, false) == Tier::Normal,
    ensures
        r.0 == last_row(area),
        r.1 == work_row(area, app@),
        r.2 == impact_row(area, app@),
        r.3 == files_pane(area, app@),
        r.4 == diff_pane(area, app@),
{
    proof {
        reveal(app_view);
        law_frame_minimums(app@.extents[DividerId::WorkReview], area.width as int, area.height as int);
        law_work_row_minimums(app@.extents[DividerId::FilesDiff], area.width as int, area.height as int);
    }
    let height: u16 = impact_height(app.dividers.get(DividerId::WorkReview), area.height);
    let (_, work, impact, bar) = normal_rows(area, height);
    let width: u16 = files_width(app.dividers.get(DividerId::FilesDiff), work.width);
    proof {
        lemma_length_then_rest(Axis::Horizontal, width, MIN_DIFF_WIDTH, work);
    }
    let (files, diff) = split_two(
        Axis::Horizontal,
        Share::Length(width),
        Share::Min(MIN_DIFF_WIDTH),
        work,
    );
    (bar, work, impact, files, diff)
}

impl UiGeometry {
    fn register_scroll_region(&mut self, id: ScrollRegionId, rect: Rect, offset: usize, max_offset: usize)
        ensures
            final(self)@ == with_region(old(self)@, id, rect, offset as int, max_offset as int),
    {
        if rect.width > 0 && rect.height > 0 {
            self.scroll_regions.push(ScrollRegion::new(id, rect, offset, max_offset));
        }
    }

    fn add_status(&mut self, bar: Rect, app: &App, snap: &UiSnapshot)
        requires
            bar.fits(),
        ensures
            final(self)@ == with_status(old(self)@, bar, app@, *snap),
    {
        if !snap.status.text.as_str().is_empty() {
            self.status = Some(bottom_bar_chunks(bar, app, snap).0);
        }
    }

    fn add_files(&mut self, pane: Rect, app: &App, snap: &UiSnapshot)
        requires
            pane.fits(),
            pane.width >= 2,
            pane.height >= 2,
        ensures
            final(self)@ == with_files(old(self)@, pane, app@, *snap),
    {
        let inside: Rect = inner(pane);
        let rows = app.projected_file_rows();
        proof {
            assert(row_views(rows@).len() == rows.len());
        }
        let capacity: usize = inside.height as usize;
        let first: usize = app.files_first_visible(capacity);
        let (rects, controls) = visible_tree(&rows, snap.files.as_slice(), inside, first);
        self.files = Some(pane);
        self.files_inner = Some(inside);
        self.files_first_visible = first;
        self.file_row_rects = rects;
        self.review_rects = controls;
        self.register_scroll_region(ScrollRegionId::Files, pane, first, rows.len().saturating_sub(capacity));
    }

    fn add_diff(&mut self, pane: Rect, app: &App, snap: &UiSnapshot)
        ensures
            final(self)@ == with_diff(old(self)@, pane, app@, *snap),
    {
        let copy = diff_copy_frame(app, snap, pane);
        let first: usize = copy.first_visible_logical;
        self.diff = Some(pane);
        self.diff_copy = Some(copy);
        self.register_scroll_region(
            ScrollRegionId::Diff,
            pane,
            first,
            snap.diff.rows.len().saturating_sub(1),
        );
    }

    /// The deterministic relationship stack: two lists and the dividers around them.
    fn add_relationships(&mut self, content: Rect, app: &App, snap: &UiSnapshot)
        requires
            content.fits(),
            content.width >= 2,
            content.height > 0,
        ensures
            final(self)@ == with_relationships(old(self)@, content, app@, *snap),
    {
        proof {
            reveal(app_view);
            law_impact_halves(app@.extents[DividerId::RelationshipsGenerated], content.width as int);
        }
        let left: u16 = impact_left_width(app.dividers.get(DividerId::RelationshipsGenerated), content.width);
        let divider_x: u16 = content.x + left;
        self.dividers.push(
            DividerHandle::new(
                DividerId::RelationshipsGenerated,
                Rect {
                    x: divider_x.saturating_sub(1),
                    y: content.y,
                    width: min_u16(2, content.width),
                    height: content.height,
                },
                left,
            ),
        );
        let heights = relationship_section_heights(
            app.dividers.get(DividerId::CallersDownstream),
            content.height,
        );
        let stack = Rect { x: content.x, y: content.y, width: left, height: content.height };
        proof {
            lemma_two_lengths(Axis::Vertical, heights[0], heights[1], stack);
        }
        let (callers, downstream) = split_two(
            Axis::Vertical,
            Share::Length(heights[0]),
            Share::Length(heights[1]),
            stack,
        );
        self.register_scroll_region(
            ScrollRegionId::Callers,
            callers,
            app.callers_scroll,
            scroll_max(snap.impact.callers.rows.len(), impact_list_capacity(callers.height, true)),
        );
        self.register_scroll_region(
            ScrollRegionId::Downstream,
            downstream,
            app.downstream_scroll,
            scroll_max(snap.impact.downstream.rows.len(), impact_list_capacity(downstream.height, false)),
        );
        if callers.height != 0 && downstream.height != 0 && callers.width != 0 {
            self.dividers.push(
                DividerHandle::new(
                    DividerId::CallersDownstream,
                    Rect {
                        x: callers.x,
                        y: downstream.y.saturating_sub(1),
                        width: callers.width,
                        height: 2,
                    },
                    callers.height,
                ),
            );
        }
    }

    fn add_canvas(
        &mut self,
        plan: &VisualizationPlan,
        outer: Rect,
        inside: Rect,
        app: &App,
        snap: &UiSnapshot,
    )
        requires
            old(self)@.nodes.len() == 0,
            old(self)@.routes.len() == 0,
            old(self)@.overlay is None,
        ensures
            final(self)@ == with_canvas(old(self)@, *plan, outer, inside, app@, *snap),
    {
        proof {
            reveal(app_view);
        }
        let warnings = leading_annotations(&snap.semantic.report);
        let canvas = DiagramCanvas::build_with_annotations(
            plan,
            DiagramViewport { width: inside.width, height: inside.height },
            app.diagram.positions(),
            app.diagram.expanded_nodes(),
            app.diagram.z_order(),
            &warnings,
        );
        let last: usize = scroll_max(canvas.size.height as usize, inside.height as usize);
        let first: usize = min_usize(app.ai_plan_scroll, last);
        let nodes = boxes_on_screen(&canvas, inside, first);
        let routes = routes_on_screen(&canvas, inside, first);
        let overlay = page_on_screen(&canvas, plan, inside, first, app);
        self.ai_plan_scroll = first;
        self.plan_node_rects = nodes;
        self.plan_relationship_rects = routes;
        self.plan_relationship_overlay = overlay;
        self.diagram_canvas = Some(canvas);
        proof {
            assert(old(self)@.nodes + self@.nodes =~= self@.nodes);
            assert(old(self)@.routes + self@.routes =~= self@.routes);
        }
        self.register_scroll_region(ScrollRegionId::GeneratedImpact, outer, first, last);
    }

    /// The diagram of a plan whose generator is not ready.
    fn add_drawing(&mut self, plan: &VisualizationPlan, outer: Rect, inside: Rect, app: &App, snap: &UiSnapshot)
        ensures
            final(self)@ == with_drawing(old(self)@, *plan, outer, inside, app@, *snap),
    {
        proof {
            reveal(app_view);
        }
        let warnings = leading_annotations(&snap.semantic.report);
        let canvas = DiagramCanvas::build_with_annotations(
            plan,
            DiagramViewport { width: inside.width, height: inside.height },
            app.diagram.positions(),
            app.diagram.expanded_nodes(),
            app.diagram.z_order(),
            &warnings,
        );
        let last: usize = scroll_max(canvas.size.height as usize, inside.height as usize);
        let first: usize = min_usize(app.ai_plan_scroll, last);
        self.ai_plan_scroll = first;
        let failed: bool = snap.ai_failure_status().is_some();
        proof {
            assert(canvas@.annotations.len() == canvas.annotations.len());
        }
        if first == 0 && failed && canvas.annotations.len() > 0 {
            proof {
                assert(canvas@.annotations[0] == canvas.annotations@[0]@);
            }
            self.ai_failure_status = banner_rect(canvas.annotations[0].as_str(), inside);
        }
        self.register_scroll_region(ScrollRegionId::GeneratedImpact, outer, first, last);
    }

    /// The generated lines while no generated diagram is shown; only the failure banner of
    /// their first line is a target.
    fn add_lines(&mut self, outer: Rect, inside: Rect, app: &App, snap: &UiSnapshot)
        ensures
            final(self)@ == with_lines(old(self)@, outer, inside, app@, *snap),
    {
        proof {
            reveal(app_view);
        }
        let lines = generated_impact_content(snap, inside.width);
        let ghost all = diagram_lines(lines@);
        proof {
            assert(all.len() == lines.len());
            assert(known_lines(snap.impact, inside.width as int).len() > 0);
            assert(all[0] == lines@[0]@);
        }
        let last: usize = scroll_max(lines.len(), inside.height as usize);
        let first: usize = min_usize(app.ai_plan_scroll, last);
        self.ai_plan_scroll = first;
        let failed: bool = snap.ai_failure_status().is_some();
        if first == 0 && failed {
            self.ai_failure_status = banner_rect(lines[0].text().as_str(), inside);
        }
        self.register_scroll_region(ScrollRegionId::GeneratedImpact, outer, first, last);
    }

    /// Register the generated half and the two sectionals within the deterministic
    /// relationship stack. The same helper serves normal and focus-only layouts.
    fn add_impact_regions(&mut self, pane: Rect, app: &App, snap: &UiSnapshot)
        requires
            pane.fits(),
            pane.x < 65535,
            pane.y < 65535,
            old(self)@.nodes.len() == 0,
            old(self)@.routes.len() == 0,
            old(self)@.overlay is None,
        ensures
            final(self)@ == with_impact(old(self)@, pane, app@, *snap),
    {
        let content: Rect = inner(pane);
        self.impact = Some(pane);
        if content.width < 2 || content.height == 0 {
            return;
        }
        // Without relationships there is no divider, padding, or stale hit region: the
        // generated viewport is the only visible content.
        let (outer, inside): (Rect, Rect) = if !snap.impact.has_relationships() {
            (content, content)
        } else {
            self.add_relationships(content, app, snap);
            proof {
                reveal(app_view);
                law_impact_halves(app@.extents[DividerId::RelationshipsGenerated], content.width as int);
            }
            let left: u16 = impact_left_width(app.dividers.get(DividerId::RelationshipsGenerated), content.width);
            let outer = Rect {
                x: content.x + left,
                y: content.y,
                width: content.width - left,
                height: content.height,
            };
            // The generated half owns a left border and one cell of left padding.
            let inside = Rect {
                x: outer.x.saturating_add(2),
                y: outer.y,
                width: outer.width.saturating_sub(2),
                height: outer.height,
            };
            (outer, inside)
        };
        self.generated_content = Some(inside);
        let ready: bool = match &snap.ai {
            AiStatus::Ready { .. } => true,
            _ => false,
        };
        match &snap.semantic.plan {
            Some(plan) => {
                if snap.semantic.ai_generated && ready {
                    self.add_canvas(plan, outer, inside, app, snap);
                } else if snap.semantic.ai_generated {
                    self.add_drawing(plan, outer, inside, app, snap);
                } else {
                    self.add_lines(outer, inside, app, snap);
                }
            },
            None => self.add_lines(outer, inside, app, snap),
        }
    }

    /// Build the frame plan for `area` given the current app + snapshot.
    pub fn build(area: Rect, app: &App, snap: &UiSnapshot) -> (g: UiGeometry)
        requires
            area.fits(),
        ensures
            g@ == frame_of(area, app@, *snap),
    {
        let zoomed: bool = app.zoomed;
        proof {
            reveal(app_view);
        }
        let tier: Tier = choose_tier(area, zoomed);
        let mut g = bare(area, tier);
        match tier {
            Tier::TooSmall => g,
            Tier::FocusOnly => {
                let (_, body, bar) = focus_rows(area);
                g.add_status(bar, app, snap);
                match app.focused {
                    Pane::Files => g.add_files(body, app, snap),
                    Pane::Diff => g.add_diff(body, app, snap),
                    Pane::Impact => g.add_impact_regions(body, app, snap),
                }
                g
            },
            Tier::Normal => {
                g.add_normal(app, snap);
                g
            },
        }
    }

    /// The bottom bar, the Impact pane and the diff pane of the normal layout.
    fn add_panes(&mut self, area: Rect, bar: Rect, impact: Rect, diff: Rect, app: &App, snap: &UiSnapshot)
        requires
            area.fits(),
            tier_of(area.width as int, area.height as int, false) == Tier::Normal,
            old(self)@ == bare_frame(area, Tier::Normal),
            bar == last_row(area),
            impact == impact_row(area, app@),
            diff == diff_pane(area, app@),
        ensures
            final(self)@ == partial_frame(area, app@, *snap),
    {
        proof {
            reveal(partial_frame);
            law_frame_minimums(app@.extents[DividerId::WorkReview], area.width as int, area.height as int);
        }
        self.add_status(bar, app, snap);
        self.add_impact_regions(impact, app, snap);
        self.add_diff(diff, app, snap);
    }

    /// The panes of the normal layout.
    fn add_normal(&mut self, app: &App, snap: &UiSnapshot)
        requires
            old(self).area.fits(),
            tier_of(old(self).area.width as int, old(self).area.height as int, false) == Tier::Normal,
            old(self)@ == bare_frame(old(self).area, Tier::Normal),
        ensures
            final(self)@ == normal_frame(old(self).area, app@, *snap),
    {
        let area: Rect = self.area;
        let (bar, work, impact, files, diff) = normal_panes(area, app);
        self.add_panes(area, bar, impact, diff, app, snap);
        let ghost before = self@;
        self.add_pane_handles(area, work, impact, files, diff);
        proof {
            assert(self@.dividers =~= before.dividers + pane_handles(area, app@));
        }
        self.add_files(files, app, snap);
    }

    /// Drag handles cover both adjacent border cells, so a press on either pane's border arms
    /// the drag.
    fn add_pane_handles(&mut self, area: Rect, work: Rect, impact: Rect, files: Rect, diff: Rect)
        ensures
            final(self)@ == (FrameView {
                dividers: old(self)@.dividers + seq![
                    DividerHandle {
                        id: DividerId::FilesDiff,
                        rect: Rect {
                            x: monus(diff.x as int, 1) as u16,
                            y: work.y,
                            width: 2,
                            height: monus(work.height as int, 1) as u16,
                        },
                        effective_extent: files.width,
                    },
                    DividerHandle {
                        id: DividerId::WorkReview,
                        rect: Rect {
                            x: area.x,
                            y: monus(impact.y as int, 1) as u16,
                            width: area.width,
                            height: 2,
                        },
                        effective_extent: impact.height,
                    },
                ],
                ..old(self)@
            }),
    {
        self.dividers.push(
            DividerHandle::new(
                DividerId::FilesDiff,
                Rect {
                    x: diff.x.saturating_sub(1),
                    y: work.y,
                    width: 2,
                    height: work.height.saturating_sub(1),
                },
                files.width,
            ),
        );
        self.dividers.push(
            DividerHandle::new(
                DividerId::WorkReview,
                Rect { x: area.x, y: impact.y.saturating_sub(1), width: area.width, height: 2 },
                impact.height,
            ),
        );
    }
}

/// The page of the open relationship overlay on screen.
fn page_on_screen(
    canvas: &DiagramCanvas,
    plan: &VisualizationPlan,
    inside: Rect,
    first: usize,
    app: &App,
) -> (r: Option<PlanRelationshipOverlay>)
    ensures
        optional_page(r) == shown_overlay(*plan, canvas@, inside, first as int, app@),
{
    proof {
        reveal(app_view);
    }
    match app.diagram.expanded_relationship() {
        Some(target) => {
            match canvas.relationship_overlay_in_viewport(
                plan,
                target,
                sat_u16(first),
                inside.height,
                app.diagram.overlay_scroll(),
            ) {
                Some(overlay) => {
                    match canvas_rect_on_screen(overlay.rect, inside, first) {
                        Some(rect) => Some(
                            PlanRelationshipOverlay {
                                rect,
                                target: target.copied(),
                                offset: overlay.scroll,
                                max_offset: overlay.max_scroll,
                            },
                        ),
                        None => None,
                    }
                },
                None => None,
            }
        },
        None => None,
    }
}

/// Whether a point is over an optional area.
pub open spec fn over(area: Option<Rect>, x: int, y: int) -> bool {
    match area {
        Some(r) => r.covers(x, y),
        None => false,
    }
}

fn is_over(area: Option<Rect>, x: u16, y: u16) -> (r: bool)
    ensures
        r == over(area, x as int, y as int),
{
    match area {
        Some(rect) => rect.contains(x, y),
        None => false,
    }
}

/// The pane under a point.
pub open spec fn pane_under(g: FrameView, x: int, y: int) -> Option<Pane> {
    if over(g.files, x, y) {
        Some(Pane::Files)
    } else if over(g.diff, x, y) {
        Some(Pane::Diff)
    } else if over(g.impact, x, y) {
        Some(Pane::Impact)
    } else {
        None
    }
}

/// The first handle from `i` on with an identity.
pub open spec fn handle_of(handles: Seq<DividerHandle>, id: DividerId, i: int) -> Option<DividerHandle>
    decreases handles.len() - i,
{
    if 0 <= i < handles.len() {
        if handles[i].id == id { Some(handles[i]) } else { handle_of(handles, id, i + 1) }
    } else {
        None
    }
}

/// The first handle from `i` on under a point that lies along an axis.
pub open spec fn handle_under(handles: Seq<DividerHandle>, axis: DividerAxis, x: int, y: int, i: int) -> Option<
    DividerHandle,
>
    decreases handles.len() - i,
{
    if 0 <= i < handles.len() {
        if handles[i].rect.covers(x, y) && handles[i].id.axis_spec() == axis {
            Some(handles[i])
        } else {
            handle_under(handles, axis, x, y, i + 1)
        }
    } else {
        None
    }
}

/// The handle under a point: a horizontal boundary wins where it crosses a vertical one.
pub open spec fn divider_under(handles: Seq<DividerHandle>, x: int, y: int) -> Option<DividerHandle> {
    match handle_under(handles, DividerAxis::Horizontal, x, y, 0) {
        Some(h) => Some(h),
        None => handle_under(handles, DividerAxis::Vertical, x, y, 0),
    }
}

/// The first region from `i` on under a point.
pub open spec fn region_under(regions: Seq<ScrollRegion>, x: int, y: int, i: int) -> Option<ScrollRegion>
    decreases regions.len() - i,
{
    if 0 <= i < regions.len() {
        if regions[i].rect.covers(x, y) { Some(regions[i]) } else { region_under(regions, x, y, i + 1) }
    } else {
        None
    }
}

/// The relationship whose overlay is under a point.
pub open spec fn overlay_under(g: FrameView, x: int, y: int) -> Option<RelationshipView> {
    match g.overlay {
        Some(o) => if o.rect.covers(x, y) { Some(o.target) } else { None },
        None => None,
    }
}

/// The page offset after one step of the wheel over the overlay; none where it stays.
pub open spec fn overlay_step(g: FrameView, x: int, y: int, delta: int) -> Option<int> {
    match g.overlay {
        Some(o) => {
            let next = if delta < 0 { monus(o.offset, 1) } else { min_int(capped(o.offset + 1), o.max_offset) };
            if o.rect.covers(x, y) && next != o.offset { Some(next) } else { None }
        },
        None => None,
    }
}

/// The last of the first `n` boxes under a point.
pub open spec fn node_under(nodes: Seq<(Rect, TargetView)>, x: int, y: int, n: int) -> Option<TargetView>
    decreases n,
{
    if n <= 0 {
        None
    } else if nodes[n - 1].0.covers(x, y) {
        Some(nodes[n - 1].1)
    } else {
        node_under(nodes, x, y, n - 1)
    }
}

/// The smallest area that holds two areas.
pub open spec fn joint(a: Rect, b: Rect) -> Rect {
    let x = min_int(a.x as int, b.x as int);
    let y = min_int(a.y as int, b.y as int);
    Rect {
        x: x as u16,
        y: y as u16,
        width: (max_int(a.spec_right(), b.spec_right()) - x) as u16,
        height: (max_int(a.spec_bottom(), b.spec_bottom()) - y) as u16,
    }
}

/// The area of all of the first `n` rectangles of a box.
pub open spec fn node_area(nodes: Seq<(Rect, TargetView)>, t: TargetView, n: int) -> Option<Rect>
    decreases n,
{
    if n <= 0 {
        None
    } else if nodes[n - 1].1 == t {
        match node_area(nodes, t, n - 1) {
            Some(r) => Some(joint(r, nodes[n - 1].0)),
            None => Some(nodes[n - 1].0),
        }
    } else {
        node_area(nodes, t, n - 1)
    }
}

fn union(a: Rect, b: Rect) -> (r: Rect)
    ensures
        r == joint(a, b),
{
    let x: u16 = min_u16(a.x, b.x);
    let y: u16 = min_u16(a.y, b.y);
    let right: u16 = max_u16(a.right(), b.right());
    let bottom: u16 = max_u16(a.bottom(), b.bottom());
    Rect { x, y, width: right - x, height: bottom - y }
}

/// The box under a point with its whole area on screen.
pub open spec fn node_rect_under(g: FrameView, x: int, y: int) -> Option<(TargetView, Rect)> {
    match node_under(g.nodes, x, y, g.nodes.len() as int) {
        Some(t) => Some((t, node_area(g.nodes, t, g.nodes.len() as int)->0)),
        None => None,
    }
}

proof fn lemma_node_area(nodes: Seq<(Rect, TargetView)>, x: int, y: int, n: int, m: int)
    requires
        n <= m <= nodes.len(),
        node_under(nodes, x, y, n) is Some,
    ensures
        node_area(nodes, node_under(nodes, x, y, n)->0, m) is Some,
    decreases m,
{
    if n < m {
        lemma_node_area(nodes, x, y, n, m - 1);
    } else if n > 0 && !nodes[n - 1].0.covers(x, y) {
        lemma_node_area(nodes, x, y, n - 1, m - 1);
    }
}

/// A point of the screen as a row of the canvas.
pub open spec fn canvas_row(g: FrameView, content: Rect, y: int) -> int {
    sat16(monus(y, content.y as int) + sat16(g.plan_scroll))
}

/// The box under a point, and how far the point is from the box's own corner on the canvas,
/// which may be above the viewport.
pub open spec fn grab_under(g: FrameView, x: int, y: int) -> Option<(TargetView, int, int)> {
    match node_rect_under(g, x, y) {
        Some((t, rect)) => match g.canvas {
            Some(canvas) => match (box_index(canvas.nodes, t, 0), g.content) {
                (Some(k), Some(content)) => {
                    let corner = canvas.nodes[k].rect;
                    Some(
                        (
                            t,
                            monus(monus(x, content.x as int), corner.x as int),
                            monus(canvas_row(g, content, y), corner.y as int),
                        ),
                    )
                },
                _ => None,
            },
            None => Some((t, monus(x, rect.x as int), monus(y, rect.y as int))),
        },
        None => None,
    }
}

/// Where a box stands on the canvas while it is held at an offset under a point.
pub open spec fn held_position(g: FrameView, x: int, y: int, offset_x: int, offset_y: int) -> Option<DiagramPosition> {
    match g.content {
        Some(content) => Some(
            DiagramPosition {
                x: monus(monus(x, content.x as int), offset_x) as u16,
                y: monus(canvas_row(g, content, y), offset_y) as u16,
            },
        ),
        None => None,
    }
}

/// A box that is grabbed and not moved stays where it is, and follows the pointer cell by cell
/// as far as the canvas reaches.
pub proof fn law_drag_keeps_the_grab(g: FrameView, x: int, y: int, dx: int, dy: int)
    requires
        0 <= x,
        0 <= y,
        0 <= g.plan_scroll,
        g.canvas is Some,
        g.content is Some,
        grab_under(g, x, y) is Some,
        ({
            let content = g.content->0;
            let (t, ox, oy) = grab_under(g, x, y)->0;
            let corner = g.canvas->0.nodes[box_index(g.canvas->0.nodes, t, 0)->0].rect;
            &&& content.x <= x && content.y <= y && content.x <= x + dx && content.y <= y + dy
            &&& corner.x <= x - content.x && corner.y <= y - content.y + g.plan_scroll
            &&& 0 <= corner.x + dx && 0 <= corner.y + dy
            &&& x + dx <= 65535 && y + dy + g.plan_scroll <= 65535 && y + g.plan_scroll <= 65535
        }),
    ensures
        ({
            let (t, ox, oy) = grab_under(g, x, y)->0;
            let corner = g.canvas->0.nodes[box_index(g.canvas->0.nodes, t, 0)->0].rect;
            held_position(g, x + dx, y + dy, ox, oy) == Some(
                DiagramPosition { x: (corner.x + dx) as u16, y: (corner.y + dy) as u16 },
            )
        }),
{
}

/// The last of the first `n` routes under a point.
pub open spec fn route_under(routes: Seq<(Rect, RelationshipView)>, x: int, y: int, n: int) -> Option<RelationshipView>
    decreases n,
{
    if n <= 0 {
        None
    } else if routes[n - 1].0.covers(x, y) {
        Some(routes[n - 1].1)
    } else {
        route_under(routes, x, y, n - 1)
    }
}

/// The diff line and column under a point; a gutter cell stands for the first body column.
pub open spec fn text_point(g: FrameView, x: int, y: int) -> Option<(int, int)> {
    match g.copy {
        Some(f) => {
            let row = capped(f.first_visible + monus(y, f.rect.y as int));
            if f.rect.covers(x, y) && row < f.lines.len() && row < f.code_starts.len() && f.code_starts[row] is Some {
                let width = display_width(f.lines[row]) as int;
                Some(
                    (
                        row,
                        min_int(
                            max_int(monus(x, f.rect.x as int), min_int(f.code_starts[row]->0, width)),
                            width,
                        ),
                    ),
                )
            } else {
                None
            }
        },
        None => None,
    }
}

/// An optional point, by contents.
pub open spec fn point_view(p: Option<DiffTextPoint>) -> Option<(int, int)> {
    match p {
        Some(q) => Some((q.row as int, q.column as int)),
        None => None,
    }
}

/// The characters of the first `n` that show in the columns `from..to`, and the next column.
pub open spec fn cells_between(s: Seq<char>, from: int, to: int, n: int) -> (Seq<char>, int)
    decreases n,
{
    if n <= 0 {
        (Seq::empty(), 0)
    } else {
        let (out, column) = cells_between(s, from, to, n - 1);
        let end = capped(column + cells_of_char(s[n - 1]));
        (if column < to && end > from { out.push(s[n - 1]) } else { out }, end)
    }
}

/// The part of a line in the columns `from..to`.
pub open spec fn cell_slice(s: Seq<char>, from: int, to: int) -> Seq<char> {
    if from >= to { Seq::empty() } else { cells_between(s, from, to, s.len() as int).0 }
}

/// The part of a line in the columns `from..to`.
pub fn slice_display_cells(text: &str, from: usize, to: usize) -> (out: String)
    ensures
        out@ == cell_slice(text@, from as int, to as int),
{
    if from >= to {
        return String::new();
    }
    let chars = chars_of(text);
    let mut out = String::new();
    let mut column: usize = 0;
    let mut i: usize = 0;
    while i < chars.len()
        invariant
            i <= chars.len(),
            chars@ == text@,
            (out@, column as int) == cells_between(text@, from as int, to as int, i as int),
        decreases chars.len() - i,
    {
        let end: usize = column.saturating_add(char_cells_or_none(chars[i]));
        if column < to && end > from {
            out.push(chars[i]);
        }
        column = end;
        i = i + 1;
    }
    out
}

/// Whether point `a` does not come after point `b`.
pub open spec fn not_after(a: DiffTextPoint, b: DiffTextPoint) -> bool {
    a.row < b.row || (a.row == b.row && a.column <= b.column)
}

/// The selected part of one line.
pub open spec fn selected_part(f: CopyView, start: DiffTextPoint, end: DiffTextPoint, row: int) -> Seq<char> {
    let width = display_width(f.lines[row]) as int;
    let body = f.code_starts[row]->0;
    cell_slice(
        f.lines[row],
        if row == start.row {
            min_int(max_int(start.column as int, body), width)
        } else {
            min_int(body, width)
        },
        if row == end.row { min_int(capped(end.column + 1), width) } else { width },
    )
}

/// The selected parts of the first `n` lines; hunk headers have none.
pub open spec fn selected_parts(f: CopyView, start: DiffTextPoint, end: DiffTextPoint, n: int) -> Seq<Seq<char>>
    decreases n,
{
    if n <= 0 {
        Seq::empty()
    } else {
        let before = selected_parts(f, start, end, n - 1);
        if start.row <= n - 1 <= end.row && n - 1 < f.code_starts.len() && f.code_starts[n - 1] is Some {
            before.push(selected_part(f, start, end, n - 1))
        } else {
            before
        }
    }
}

/// The text of a selection, whichever way it was dragged.
pub open spec fn selected_text(f: CopyView, selection: DiffTextSelection) -> Seq<char> {
    let (start, end) = if not_after(selection.start, selection.end) {
        (selection.start, selection.end)
    } else {
        (selection.end, selection.start)
    };
    join_with(selected_parts(f, start, end, f.lines.len() as int), seq!['\n'])
}

/// A selection says the same whichever way it was dragged.
pub proof fn law_selection_has_no_direction(f: CopyView, a: DiffTextPoint, b: DiffTextPoint)
    ensures
        selected_text(f, DiffTextSelection { start: a, end: b }) == selected_text(
            f,
            DiffTextSelection { start: b, end: a },
        ),
{
}

impl UiGeometry {
    /// The pane under a point, if any (outer rect hit).
    pub fn pane_at(&self, x: u16, y: u16) -> (r: Option<Pane>)
        ensures
            r == pane_under(self@, x as int, y as int),
    {
        if is_over(self.files, x, y) {
            return Some(Pane::Files);
        }
        if is_over(self.diff, x, y) {
            return Some(Pane::Diff);
        }
        if is_over(self.impact, x, y) {
            return Some(Pane::Impact);
        }
        None
    }

    /// Whether a point is over the visible status-message portion of the bottom bar.
    pub fn status_at(&self, x: u16, y: u16) -> (r: bool)
        ensures
            r == over(self@.status, x as int, y as int),
    {
        is_over(self.status, x, y)
    }

    /// Whether a point is over the visible failure banner.
    pub fn ai_failure_status_at(&self, x: u16, y: u16) -> (r: bool)
        ensures
            r == over(self@.failure, x as int, y as int),
    {
        is_over(self.ai_failure_status, x, y)
    }

    /// The visible handle for one stable divider identity.
    pub fn divider(&self, id: DividerId) -> (r: Option<DividerHandle>)
        ensures
            r == handle_of(self@.dividers, id, 0),
    {
        let mut i: usize = 0;
        while i < self.dividers.len()
            invariant
                i <= self.dividers.len(),
                handle_of(self.dividers@, id, 0) == handle_of(self.dividers@, id, i as int),
            decreases self.dividers.len() - i,
        {
            if self.dividers[i].id == id {
                return Some(self.dividers[i]);
            }
            i = i + 1;
        }
        None
    }

    fn divider_along(&self, axis: DividerAxis, x: u16, y: u16) -> (r: Option<DividerHandle>)
        ensures
            r == handle_under(self@.dividers, axis, x as int, y as int, 0),
    {
        let mut i: usize = 0;
        while i < self.dividers.len()
            invariant
                i <= self.dividers.len(),
                handle_under(self.dividers@, axis, x as int, y as int, 0) == handle_under(
                    self.dividers@,
                    axis,
                    x as int,
                    y as int,
                    i as int,
                ),
            decreases self.dividers.len() - i,
        {
            if self.dividers[i].rect.contains(x, y) && self.dividers[i].id.axis() == axis {
                return Some(self.dividers[i]);
            }
            i = i + 1;
        }
        None
    }

    /// Highest-precedence divider under a point. Horizontal boundaries win at their
    /// intersections with vertical ones, matching the visible row-wide sectional.
    pub fn divider_at(&self, x: u16, y: u16) -> (r: Option<DividerHandle>)
        ensures
            r == divider_under(self@.dividers, x as int, y as int),
    {
        match self.divider_along(DividerAxis::Horizontal, x, y) {
            Some(h) => Some(h),
            None => self.divider_along(DividerAxis::Vertical, x, y),
        }
    }

    /// Scrollable region under a point, resolved from retained frame geometry.
    pub fn scroll_region_at(&self, x: u16, y: u16) -> (r: Option<ScrollRegion>)
        ensures
            r == region_under(self@.regions, x as int, y as int, 0),
    {
        let mut i: usize = 0;
        while i < self.scroll_regions.len()
            invariant
                i <= self.scroll_regions.len(),
                region_under(self.scroll_regions@, x as int, y as int, 0) == region_under(
                    self.scroll_regions@,
                    x as int,
                    y as int,
                    i as int,
                ),
            decreases self.scroll_regions.len() - i,
        {
            if self.scroll_regions[i].rect.contains(x, y) {
                return Some(self.scroll_regions[i]);
            }
            i = i + 1;
        }
        None
    }

    /// Expanded relationship overlay under a point. This is the topmost diagram layer.
    pub fn plan_relationship_overlay_at(&self, x: u16, y: u16) -> (r: Option<PlanRelationshipTarget>)
        ensures
            optional_relationship(r) == overlay_under(self@, x as int, y as int),
    {
        match &self.plan_relationship_overlay {
            Some(overlay) => if overlay.rect.contains(x, y) { Some(overlay.target.copied()) } else { None },
            None => None,
        }
    }

    /// New absolute overlay offset for a wheel delta over its visible page: one wrapped
    /// content row per wheel event, so no row is skipped however small the page is.
    pub fn overlay_scrolled_offset(&self, x: u16, y: u16, delta: i32) -> (r: Option<usize>)
        ensures
            match r {
                Some(n) => overlay_step(self@, x as int, y as int, delta as int) == Some(n as int),
                None => overlay_step(self@, x as int, y as int, delta as int) is None,
            },
    {
        match &self.plan_relationship_overlay {
            Some(overlay) => {
                if !overlay.rect.contains(x, y) {
                    return None;
                }
                let next: usize = if delta < 0 {
                    overlay.offset.saturating_sub(1)
                } else {
                    min_usize(overlay.offset.saturating_add(1), overlay.max_offset)
                };
                if next != overlay.offset {
                    Some(next)
                } else {
                    None
                }
            },
            None => None,
        }
    }

    /// Generated-plan box under a point, resolved from the exact rendered layout.
    pub fn plan_node_at(&self, x: u16, y: u16) -> (r: Option<PlanNodeTarget>)
        ensures
            optional_target(r) == node_under(self@.nodes, x as int, y as int, self@.nodes.len() as int),
    {
        let ghost all = target_rects(self.plan_node_rects@);
        let mut n: usize = self.plan_node_rects.len();
        while n > 0
            invariant
                n <= self.plan_node_rects.len() == all.len(),
                all == target_rects(self.plan_node_rects@),
                node_under(all, x as int, y as int, all.len() as int) == node_under(all, x as int, y as int, n as int),
            decreases n,
        {
            proof {
                assert(all[n - 1] == (self.plan_node_rects@[n - 1].0, self.plan_node_rects@[n - 1].1@));
            }
            if self.plan_node_rects[n - 1].0.contains(x, y) {
                return Some(self.plan_node_rects[n - 1].1.copied());
            }
            n = n - 1;
        }
        None
    }

    fn box_area(&self, target: &PlanNodeTarget) -> (r: Option<Rect>)
        ensures
            r == node_area(self@.nodes, target@, self@.nodes.len() as int),
    {
        let ghost all = target_rects(self.plan_node_rects@);
        let mut area: Option<Rect> = None;
        let mut i: usize = 0;
        while i < self.plan_node_rects.len()
            invariant
                i <= self.plan_node_rects.len() == all.len(),
                all == target_rects(self.plan_node_rects@),
                area == node_area(all, target@, i as int),
            decreases self.plan_node_rects.len() - i,
        {
            proof {
                assert(all[i as int] == (self.plan_node_rects@[i as int].0, self.plan_node_rects@[i as int].1@));
            }
            if self.plan_node_rects[i].1.same(target) {
                area = match area {
                    Some(r) => Some(union(r, self.plan_node_rects[i].0)),
                    None => Some(self.plan_node_rects[i].0),
                };
            }
            i = i + 1;
        }
        area
    }

    /// Generated-plan box under a point with its full screen rect. Rect union keeps a
    /// click on any line of a multi-line card tied to the same persisted top-left.
    pub fn plan_node_rect_at(&self, x: u16, y: u16) -> (r: Option<(PlanNodeTarget, Rect)>)
        ensures
            match r {
                Some((target, rect)) => node_rect_under(self@, x as int, y as int) == Some((target@, rect)),
                None => node_rect_under(self@, x as int, y as int) is None,
            },
    {
        match self.plan_node_at(x, y) {
            Some(target) => {
                proof {
                    let n = self@.nodes.len() as int;
                    lemma_node_area(self@.nodes, x as int, y as int, n, n);
                }
                match self.box_area(&target) {
                    Some(rect) => Some((target, rect)),
                    None => None,
                }
            },
            None => None,
        }
    }

    /// The node pressed plus the pointer offset from its actual canvas top-left. Unlike
    /// the visible clipped screen rect, this preserves a grab on a box that begins above
    /// the scrolled viewport, so the first drag cannot make it jump.
    pub fn plan_node_drag_at(&self, x: u16, y: u16) -> (r: Option<(PlanNodeTarget, u16, u16)>)
        ensures
            match r {
                Some((target, ox, oy)) => grab_under(self@, x as int, y as int) == Some(
                    (target@, ox as int, oy as int),
                ),
                None => grab_under(self@, x as int, y as int) is None,
            },
    {
        match self.plan_node_rect_at(x, y) {
            Some((target, rect)) => {
                match &self.diagram_canvas {
                    Some(canvas) => {
                        let k: usize = match find_canvas_box(canvas, &target) {
                            Some(k) => k,
                            None => {
                                return None;
                            },
                        };
                        match self.generated_content {
                            Some(content) => {
                                let corner: DiagramRect = canvas.nodes[k].rect;
                                let local_x: u16 = x.saturating_sub(content.x);
                                let local_y: u16 = y.saturating_sub(content.y).saturating_add(
                                    sat_u16(self.ai_plan_scroll),
                                );
                                proof {
                                    assert(canvas@.nodes[k as int] == canvas.nodes@[k as int]@);
                                }
                                Some((target, local_x.saturating_sub(corner.x), local_y.saturating_sub(corner.y)))
                            },
                            None => None,
                        }
                    },
                    None => Some((target, x.saturating_sub(rect.x), y.saturating_sub(rect.y))),
                }
            },
            None => None,
        }
    }

    /// Convert one screen pointer position into a content-local box top-left while
    /// retaining the offset recorded on mouse-down. Saturation permits dragging against
    /// the viewport's top/left edge without underflow.
    pub fn plan_position_from_screen(&self, x: u16, y: u16, offset_x: u16, offset_y: u16) -> (r: Option<
        DiagramPosition,
    >)
        ensures
            r == held_position(self@, x as int, y as int, offset_x as int, offset_y as int),
    {
        match self.generated_content {
            Some(content) => Some(
                DiagramPosition {
                    x: x.saturating_sub(content.x).saturating_sub(offset_x),
                    y: y.saturating_sub(content.y).saturating_add(sat_u16(self.ai_plan_scroll)).saturating_sub(
                        offset_y,
                    ),
                },
            ),
            None => None,
        }
    }

    /// Generated-plan relationship under a point.
    pub fn plan_relationship_at(&self, x: u16, y: u16) -> (r: Option<PlanRelationshipTarget>)
        ensures
            optional_relationship(r) == route_under(self@.routes, x as int, y as int, self@.routes.len() as int),
    {
        let ghost all = relation_rects(self.plan_relationship_rects@);
        let mut n: usize = self.plan_relationship_rects.len();
        while n > 0
            invariant
                n <= self.plan_relationship_rects.len() == all.len(),
                all == relation_rects(self.plan_relationship_rects@),
                route_under(all, x as int, y as int, all.len() as int) == route_under(
                    all,
                    x as int,
                    y as int,
                    n as int,
                ),
            decreases n,
        {
            proof {
                let pair = self.plan_relationship_rects@[n - 1];
                assert(all[n - 1] == (pair.0, pair.1@));
            }
            if self.plan_relationship_rects[n - 1].0.contains(x, y) {
                return Some(self.plan_relationship_rects[n - 1].1.copied());
            }
            n = n - 1;
        }
        None
    }

    /// Resolve a screen cell to the exact physical diff line/column displayed there.
    pub fn diff_text_point_at(&self, x: u16, y: u16) -> (r: Option<DiffTextPoint>)
        ensures
            point_view(r) == text_point(self@, x as int, y as int),
    {
        match &self.diff_copy {
            Some(frame) => {
                if !frame.rect.contains(x, y) {
                    return None;
                }
                let row: usize = frame.first_visible.saturating_add(y.saturating_sub(frame.rect.y) as usize);
                proof {
                    assert(texts(frame.lines@).len() == frame.lines.len());
                }
                if row >= frame.lines.len() || row >= frame.code_starts.len() {
                    return None;
                }
                proof {
                    assert(texts(frame.lines@)[row as int] == frame.lines@[row as int]@);
                }
                match frame.code_starts[row] {
                    Some(body) => {
                        let width: usize = str_width(frame.lines[row].as_str());
                        let column: usize = x.saturating_sub(frame.rect.x) as usize;
                        Some(
                            DiffTextPoint {
                                row,
                                column: min_usize(max_usize(column, min_usize(body, width)), width),
                            },
                        )
                    },
                    None => None,
                }
            },
            None => None,
        }
    }

    /// Extract a linear display-cell selection from the same retained diff frame.
    pub fn selected_diff_text(&self, selection: DiffTextSelection) -> (out: String)
        ensures
            out@ == (match self@.copy {
                Some(f) => selected_text(f, selection),
                None => Seq::empty(),
            }),
    {
        match &self.diff_copy {
            Some(frame) => {
                let forward: bool = selection.start.row < selection.end.row || (selection.start.row
                    == selection.end.row && selection.start.column <= selection.end.column);
                let (start, end): (DiffTextPoint, DiffTextPoint) = if forward {
                    (selection.start, selection.end)
                } else {
                    (selection.end, selection.start)
                };
                {
                    proof {
                        reveal_strlit("\n");
                        assert("\n"@ =~= seq!['\n']);
                    }
                    join_texts(&selected_lines(frame, start, end), "\n")
                }
            },
            None => String::new(),
        }
    }
}

/// The selected part of every line of a selection.
fn selected_lines(frame: &DiffCopyFrame, start: DiffTextPoint, end: DiffTextPoint) -> (parts: Vec<String>)
    ensures
        texts(parts@) == selected_parts(frame@, start, end, frame@.lines.len() as int),
{
    let ghost f = frame@;
    let mut parts: Vec<String> = Vec::new();
    let mut row: usize = 0;
    proof {
        assert(texts(parts@) =~= selected_parts(f, start, end, 0));
    }
    while row < frame.lines.len()
        invariant
            row <= frame.lines.len() == f.lines.len(),
            f == frame@,
            texts(parts@) == selected_parts(f, start, end, row as int),
        decreases frame.lines.len() - row,
    {
        proof {
            assert(f.lines[row as int] == frame.lines@[row as int]@);
        }
        let ghost before = texts(parts@);
        if start.row <= row && row <= end.row && row < frame.code_starts.len() {
            match frame.code_starts[row] {
                Some(body) => {
                    let line: &str = frame.lines[row].as_str();
                    let width: usize = str_width(line);
                    let from: usize = if row == start.row {
                        min_usize(max_usize(start.column, body), width)
                    } else {
                        min_usize(body, width)
                    };
                    let to: usize = if row == end.row {
                        min_usize(end.column.saturating_add(1), width)
                    } else {
                        width
                    };
                    let part = slice_display_cells(line, from, to);
                    let ghost shown = part@;
                    parts.push(part);
                    proof {
                        assert(texts(parts@) =~= before.push(shown));
                    }
                },
                None => {},
            }
        }
        row = row + 1;
    }
    parts
}

/// The canvas box of a target.
fn find_canvas_box(canvas: &DiagramCanvas, target: &PlanNodeTarget) -> (r: Option<usize>)
    ensures
        match r {
            Some(k) => box_index(canvas@.nodes, target@, 0) == Some(k as int) && k < canvas.nodes.len(),
            None => box_index(canvas@.nodes, target@, 0) is None,
        },
{
    let ghost all = node_views(canvas.nodes@);
    let mut i: usize = 0;
    while i < canvas.nodes.len()
        invariant
            i <= canvas.nodes.len() == all.len(),
            all == node_views(canvas.nodes@),
            box_index(all, target@, 0) == box_index(all, target@, i as int),
        decreases canvas.nodes.len() - i,
    {
        proof {
            assert(all[i as int] == canvas.nodes@[i as int]@);
        }
        if canvas.nodes[i].target.same(target) {
            return Some(i);
        }
        i = i + 1;
    }
    None
}

} // verus!
