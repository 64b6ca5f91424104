//! The canvas of a diagram: cards at their places, routes between them, and what lies under
//! a cell.

use vstd::prelude::*;
use crate::action::{optional_target, PlanNodeTarget, PlanRelationshipTarget, RelationshipView, TargetView};
use crate::diagram::{
    drawn_edges, edge_views, moved_state, node_toggled, normalized_edges, optional_relationship, relationship_in,
    relationship_toggled, target_views, DiagramPosition, DiagramRect, DiagramViewport, StateView,
};
use crate::diagram_layout::{
    automatic, automatic_positions, canvas_card_width, canvas_node_lines, card_width_of, law_open_card_is_taller,
    node_card,
};
use crate::num::{clamp_int, cut_u16, low16, max_int, max_u16, max_usize, min_int, min_u16, min_usize, monus, sat16};
use crate::plan::{PlanNode, VisualizationPlan, VizForm};
use crate::table::{Key, KeySet, Table};
use crate::text::{display_width, joined, same_text, str_width, texts};
use crate::wrap::{
    append_texts, decimal, decimal_of, trim, trimmed, truncate, truncated, wrap_all, wrap_text, wrapped, wrapped_start,
};

verus! {

/// A box ready for drawing in an arbitrary-position diagram canvas.
#[derive(Debug, Clone, PartialEq, Eq)]
pub struct DiagramNode {
    /// Stable plan-local identity.
    pub target: PlanNodeTarget,
    /// Box bounds in content-local cells.
    pub rect: DiagramRect,
    /// Complete boxed rows.
    pub lines: Vec<String>,
}

/// A box, by contents.
#[verifier::ext_equal]
pub struct NodeView {
    pub target: TargetView,
    pub rect: DiagramRect,
    pub lines: Seq<Seq<char>>,
}

impl View for DiagramNode {
    type V = NodeView;

    open spec fn view(&self) -> NodeView {
        NodeView { target: self.target@, rect: self.rect, lines: texts(self.lines@) }
    }
}

/// One directed relationship ready for drawing.
#[derive(Debug, Clone, PartialEq, Eq)]
pub struct DiagramRelationship {
    /// Stable relationship identity. `edge` distinguishes parallel edges.
    pub target: PlanRelationshipTarget,
    /// Orthogonal route from source boundary to destination boundary, inclusive.
    pub path: Vec<DiagramPosition>,
    /// Compact label's hit and drawing bounds.
    pub label_rect: DiagramRect,
    /// Compact, display-width-bounded label.
    pub label: String,
    /// Whether the compact rendering omits relationship text that can be expanded.
    pub has_hidden_label: bool,
    /// `true` when the relationship is validator-verifiable; inferred routes are dashed.
    pub verified: bool,
}

/// A relationship, by contents.
#[verifier::ext_equal]
pub struct RouteView {
    pub target: RelationshipView,
    pub path: Seq<DiagramPosition>,
    pub label_rect: DiagramRect,
    pub label: Seq<char>,
    pub has_hidden_label: bool,
    pub verified: bool,
}

impl View for DiagramRelationship {
    type V = RouteView;

    open spec fn view(&self) -> RouteView {
        RouteView {
            target: self.target@,
            path: self.path@,
            label_rect: self.label_rect,
            label: self.label@,
            has_hidden_label: self.has_hidden_label,
            verified: self.verified,
        }
    }
}

/// The full relationship text overlay. It is not part of [`DiagramCanvas`] bounds, paths, or
/// hit regions.
#[derive(Debug, Clone, PartialEq, Eq)]
pub struct DiagramOverlay {
    /// Relationship toggled open.
    pub target: PlanRelationshipTarget,
    /// Floating overlay bounds, allowed to cover boxes.
    pub rect: DiagramRect,
    /// Current lossless page of wrapped text rows.
    pub lines: Vec<String>,
    /// Number of content rows before paging.
    pub total_lines: usize,
    /// First content row on this page.
    pub scroll: usize,
    /// Largest valid page offset for this viewport.
    pub max_scroll: usize,
}

/// Derived base geometry for one render frame.
#[derive(Debug, Clone, PartialEq, Eq)]
pub struct DiagramCanvas {
    /// Scrollable base-canvas dimensions. Relationship overlays never affect these values.
    pub size: DiagramViewport,
    /// Plan intent rows above the box canvas. These are base geometry, not an overlay.
    pub annotations: Vec<String>,
    /// Boxes in drawing order; later boxes draw on top during an overlap.
    pub nodes: Vec<DiagramNode>,
    /// Directed routes and compact label hit regions.
    pub relationships: Vec<DiagramRelationship>,
    pub viewport: DiagramViewport,
}

/// A canvas, by contents.
#[verifier::ext_equal]
pub struct CanvasView {
    pub size: DiagramViewport,
    pub annotations: Seq<Seq<char>>,
    pub nodes: Seq<NodeView>,
    pub relationships: Seq<RouteView>,
    pub viewport: DiagramViewport,
}

/// Boxes, by contents.
pub open spec fn node_views(nodes: Seq<DiagramNode>) -> Seq<NodeView> {
    Seq::new(nodes.len(), |i: int| nodes[i]@)
}

/// Relationships, by contents.
pub open spec fn route_views(routes: Seq<DiagramRelationship>) -> Seq<RouteView> {
    Seq::new(routes.len(), |i: int| routes[i]@)
}

impl View for DiagramCanvas {
    type V = CanvasView;

    open spec fn view(&self) -> CanvasView {
        CanvasView {
            size: self.size,
            annotations: texts(self.annotations@),
            nodes: node_views(self.nodes@),
            relationships: route_views(self.relationships@),
            viewport: self.viewport,
        }
    }
}

/// The column in the middle of a box.
pub open spec fn center_x(r: DiagramRect) -> int {
    sat16(r.x + r.width / 2)
}

/// The row in the middle of a box.
pub open spec fn center_y(r: DiagramRect) -> int {
    sat16(r.y + r.height / 2)
}

/// Whether box `a` ends above the first row of box `b`.
pub open spec fn is_above(a: DiagramRect, b: DiagramRect) -> bool {
    a.bottom_spec() < b.y
}

/// Whether box `a` ends left of the first column of box `b`.
pub open spec fn is_left_of(a: DiagramRect, b: DiagramRect) -> bool {
    a.right_spec() < b.x
}

/// Whether two boxes stand above each other: they share a column and no row.
pub open spec fn is_stacked(a: DiagramRect, b: DiagramRect) -> bool {
    max_int(a.x as int, b.x as int) <= min_int(a.right_spec(), b.right_spec()) && (is_above(a, b) || is_above(b, a))
}

/// The column of a route between stacked boxes: between their centers, within the columns
/// that they share.
pub open spec fn stacked_x(a: DiagramRect, b: DiagramRect) -> int {
    let low = min_int(center_x(a), center_x(b));
    let high = max_int(center_x(a), center_x(b));
    clamp_int(
        low + (high - low) / 2,
        max_int(a.x as int, b.x as int),
        min_int(a.right_spec(), b.right_spec()),
    )
}

/// The row just below a box.
pub open spec fn below_row(r: DiagramRect) -> int {
    sat16(r.bottom_spec() + 1)
}

/// The column just right of a box.
pub open spec fn right_column(r: DiagramRect) -> int {
    sat16(r.right_spec() + 1)
}

/// The route between stacked boxes: straight up or down through the rows between them.
pub open spec fn stacked_path(a: DiagramRect, b: DiagramRect) -> Seq<DiagramPosition> {
    let x = stacked_x(a, b) as u16;
    if is_above(a, b) {
        seq![
            DiagramPosition { x, y: below_row(a) as u16 },
            DiagramPosition { x, y: monus(b.y as int, 1) as u16 },
        ]
    } else {
        seq![
            DiagramPosition { x, y: monus(a.y as int, 1) as u16 },
            DiagramPosition { x, y: below_row(b) as u16 },
        ]
    }
}

/// The row in the middle of a stacked route.
pub open spec fn stacked_label_y(path: Seq<DiagramPosition>) -> int {
    let low = min_int(path[0].y as int, path[1].y as int);
    let high = max_int(path[0].y as int, path[1].y as int);
    low + (high - low) / 2
}

/// The cells that a label takes in a viewport.
pub open spec fn label_cells(shown: Seq<char>, viewport_width: int) -> int {
    let w = display_width(shown) as int;
    max_int(min_int(if w > 65535 { viewport_width } else { w }, viewport_width), 1)
}

/// A label beside a vertical route: to its right or left with a gap where there is room, else
/// across it in the middle of the viewport. Text, column and width.
pub open spec fn vertical_label(label: Seq<char>, route_x: int, viewport_width: int) -> (Seq<char>, int, int) {
    let shown = truncated(label, viewport_width);
    let width = label_cells(shown, viewport_width);
    if label.len() == 0 || viewport_width == 0 {
        (Seq::empty(), route_x, 1)
    } else if width <= monus(viewport_width, sat16(route_x + 2)) {
        (shown, sat16(route_x + 2), width)
    } else if width <= monus(route_x, 1) {
        (shown, monus(route_x, 1) - width, width)
    } else {
        (shown, monus(viewport_width, width) / 2, width)
    }
}

/// Whether two boxes stand beside each other with a common row.
pub open spec fn is_beside(a: DiagramRect, b: DiagramRect) -> bool {
    max_int(a.y as int, b.y as int) <= min_int(a.bottom_spec(), b.bottom_spec()) && (is_left_of(a, b) || is_left_of(
        b,
        a,
    ))
}

/// Whether a sideways route leaves box `a` to the right.
pub open spec fn goes_right(a: DiagramRect, b: DiagramRect) -> bool {
    is_left_of(a, b) || (!is_left_of(b, a) && center_x(a) <= center_x(b))
}

/// The row at which a sideways route leaves box `a`.
pub open spec fn leave_row(a: DiagramRect, b: DiagramRect) -> int {
    if is_beside(a, b) {
        let top = max_int(a.y as int, b.y as int);
        top + (min_int(a.bottom_spec(), b.bottom_spec()) - top) / 2
    } else {
        center_y(a)
    }
}

/// The row at which a sideways route reaches box `b`.
pub open spec fn reach_row(a: DiagramRect, b: DiagramRect) -> int {
    if is_beside(a, b) {
        leave_row(a, b)
    } else {
        center_y(b)
    }
}

/// The cell beside box `a` where a sideways route begins.
pub open spec fn leave_at(a: DiagramRect, b: DiagramRect) -> DiagramPosition {
    DiagramPosition {
        x: (if goes_right(a, b) { right_column(a) } else { monus(a.x as int, 1) }) as u16,
        y: leave_row(a, b) as u16,
    }
}

/// The cell beside box `b` where a sideways route ends.
pub open spec fn reach_at(a: DiagramRect, b: DiagramRect) -> DiagramPosition {
    DiagramPosition {
        x: (if goes_right(a, b) { monus(b.x as int, 1) } else { right_column(b) }) as u16,
        y: reach_row(a, b) as u16,
    }
}

/// A path between two cells: straight where both are in one row, else with a turn half way.
pub open spec fn turned_path(start: DiagramPosition, end: DiagramPosition, right: bool) -> Seq<DiagramPosition> {
    let x = (if right {
        sat16(start.x + monus(end.x as int, start.x as int) / 2)
    } else {
        sat16(end.x + monus(start.x as int, end.x as int) / 2)
    }) as u16;
    if start.y == end.y {
        seq![start, end]
    } else {
        seq![start, DiagramPosition { x, y: start.y }, DiagramPosition { x, y: end.y }, end]
    }
}

/// A sideways route.
pub open spec fn sideways_path(a: DiagramRect, b: DiagramRect) -> Seq<DiagramPosition> {
    turned_path(leave_at(a, b), reach_at(a, b), goes_right(a, b))
}

/// The first free column of the lane of a sideways route.
pub open spec fn lane_left(a: DiagramRect, b: DiagramRect) -> int {
    sat16(min_int(leave_at(a, b).x as int, reach_at(a, b).x as int) + 1)
}

/// The last free column of the lane of a sideways route.
pub open spec fn lane_right(a: DiagramRect, b: DiagramRect) -> int {
    monus(max_int(leave_at(a, b).x as int, reach_at(a, b).x as int), 1)
}

/// The cells for the label of a sideways route: its lane, without two cells of route at each
/// end.
pub open spec fn lane_budget(a: DiagramRect, b: DiagramRect, viewport_width: int) -> int {
    let lane = sat16(monus(lane_right(a, b), lane_left(a, b)) + 1);
    min_int(max_int(monus(lane, 4), 1), max_int(viewport_width, 1))
}

/// The route between two boxes and its label.
pub open spec fn route_of(
    target: RelationshipView,
    a: DiagramRect,
    b: DiagramRect,
    label: Seq<char>,
    verified: bool,
    viewport_width: int,
) -> RouteView {
    let text = trimmed(label);
    if is_stacked(a, b) {
        let path = stacked_path(a, b);
        let (shown, x, width) = vertical_label(text, stacked_x(a, b), viewport_width);
        RouteView {
            target,
            path,
            label_rect: DiagramRect { x: x as u16, y: stacked_label_y(path) as u16, width: width as u16, height: 1 },
            label: shown,
            has_hidden_label: text.len() == 0 || shown != text,
            verified,
        }
    } else {
        let shown = truncated(text, lane_budget(a, b, viewport_width));
        let width = low16(display_width(shown) as int);
        let x = sat16(
            lane_left(a, b) + monus(monus(lane_right(a, b), lane_left(a, b)), monus(width, 1)) / 2,
        );
        RouteView {
            target,
            path: sideways_path(a, b),
            label_rect: DiagramRect {
                x: x as u16,
                y: leave_row(a, b) as u16,
                width: max_int(width, 1) as u16,
                height: 1,
            },
            label: shown,
            has_hidden_label: text.len() == 0 || shown != text,
            verified,
        }
    }
}

/// Whether each point of a path shares its row or column with the next.
pub open spec fn is_orthogonal(path: Seq<DiagramPosition>) -> bool {
    forall|i: int, j: int| #![trigger path[i], path[j]]
        0 <= i && j == i + 1 && j < path.len() ==> path[i].x == path[j].x || path[i].y == path[j].y
}

/// Every route is made of horizontal and vertical pieces.
pub proof fn law_routes_are_orthogonal(
    target: RelationshipView,
    a: DiagramRect,
    b: DiagramRect,
    label: Seq<char>,
    verified: bool,
    viewport_width: int,
)
    ensures
        is_orthogonal(route_of(target, a, b, label, verified, viewport_width).path),
{
    lemma_stacked_is_orthogonal(a, b);
    lemma_turned_is_orthogonal(leave_at(a, b), reach_at(a, b), goes_right(a, b));
}

proof fn lemma_stacked_is_orthogonal(a: DiagramRect, b: DiagramRect)
    ensures
        is_orthogonal(stacked_path(a, b)),
{
}

proof fn lemma_turned_is_orthogonal(start: DiagramPosition, end: DiagramPosition, right: bool)
    ensures
        is_orthogonal(turned_path(start, end, right)),
{
}

/// The route of stacked boxes with a free row between them stays in the rows between them.
pub proof fn law_stacked_route_stays_between(a: DiagramRect, b: DiagramRect, i: int)
    requires
        is_stacked(a, b),
        is_above(a, b) ==> a.bottom_spec() + 1 < b.y,
        is_above(b, a) ==> b.bottom_spec() + 1 < a.y,
        0 <= i < stacked_path(a, b).len(),
    ensures
        is_above(a, b) ==> a.bottom_spec() < stacked_path(a, b)[i].y < b.y,
        is_above(b, a) ==> b.bottom_spec() < stacked_path(a, b)[i].y < a.y,
        max_int(a.x as int, b.x as int) <= stacked_path(a, b)[i].x <= min_int(a.right_spec(), b.right_spec()),
{
}

/// Place a vertical relationship label in the surrounding row, not inside the route's single
/// column.
pub fn vertical_relationship_label(label: &str, route_x: u16, viewport_width: u16) -> (r: (String, u16, u16))
    ensures
        ({
            let (shown, x, width) = vertical_label(label@, route_x as int, viewport_width as int);
            r.0@ == shown && r.1 == x && r.2 == width
        }),
{
    if label.is_empty() || viewport_width == 0 {
        return (String::new(), route_x, 1);
    }
    let compact = truncate(label, viewport_width as usize);
    let w: usize = str_width(compact.as_str());
    let narrow: u16 = if w > 65535 { viewport_width } else { w as u16 };
    let width: u16 = max_u16(min_u16(narrow, viewport_width), 1);
    let right_x: u16 = route_x.saturating_add(2);
    let right_room: u16 = viewport_width.saturating_sub(right_x);
    if width <= right_room {
        return (compact, right_x, width);
    }
    let left_room: u16 = route_x.saturating_sub(1);
    if width <= left_room {
        return (compact, left_room - width, width);
    }
    (compact, viewport_width.saturating_sub(width) / 2, width)
}

/// The route between stacked boxes.
fn stacked_route(source: DiagramRect, destination: DiagramRect) -> (r: (Vec<DiagramPosition>, u16, u16))
    requires
        is_stacked(source, destination),
    ensures
        r.0@ == stacked_path(source, destination),
        r.1 == stacked_x(source, destination),
        r.2 == stacked_label_y(stacked_path(source, destination)),
{
    let source_center: u16 = source.x.saturating_add(source.width / 2);
    let destination_center: u16 = destination.x.saturating_add(destination.width / 2);
    let source_above: bool = source.bottom() < destination.y;
    let overlap_left: u16 = max_u16(source.x, destination.x);
    let overlap_right: u16 = min_u16(source.right(), destination.right());
    let low: u16 = min_u16(source_center, destination_center);
    let high: u16 = max_u16(source_center, destination_center);
    let middle: u16 = low + (high - low) / 2;
    let route_x: u16 = if middle < overlap_left {
        overlap_left
    } else if middle > overlap_right {
        overlap_right
    } else {
        middle
    };
    let start = DiagramPosition {
        x: route_x,
        y: if source_above { source.bottom().saturating_add(1) } else { source.y.saturating_sub(1) },
    };
    let end = DiagramPosition {
        x: route_x,
        y: if source_above { destination.y.saturating_sub(1) } else { destination.bottom().saturating_add(1) },
    };
    let top: u16 = min_u16(start.y, end.y);
    let label_y: u16 = top + (max_u16(start.y, end.y) - top) / 2;
    let mut path: Vec<DiagramPosition> = Vec::new();
    path.push(start);
    path.push(end);
    proof {
        assert(path@ =~= stacked_path(source, destination));
    }
    (path, route_x, label_y)
}

/// The ends of a sideways route. They are one cell outside each border: nodes draw after
/// paths, so an end in the border would hide the directed head.
fn sideways_ends(source: DiagramRect, destination: DiagramRect) -> (r: (DiagramPosition, DiagramPosition, bool))
    ensures
        r.0 == leave_at(source, destination),
        r.1 == reach_at(source, destination),
        r.2 == goes_right(source, destination),
{
    let source_center = DiagramPosition {
        x: source.x.saturating_add(source.width / 2),
        y: source.y.saturating_add(source.height / 2),
    };
    let destination_center = DiagramPosition {
        x: destination.x.saturating_add(destination.width / 2),
        y: destination.y.saturating_add(destination.height / 2),
    };
    let source_left: bool = source.right() < destination.x;
    let destination_left: bool = destination.right() < source.x;
    let overlap_top: u16 = max_u16(source.y, destination.y);
    let overlap_bottom: u16 = min_u16(source.bottom(), destination.bottom());
    let beside: bool = overlap_top <= overlap_bottom && (source_left || destination_left);
    let right: bool = source_left || (!destination_left && source_center.x <= destination_center.x);
    let route_y: u16 = if beside {
        overlap_top + (overlap_bottom - overlap_top) / 2
    } else {
        source_center.y
    };
    let start = DiagramPosition {
        x: if right { source.right().saturating_add(1) } else { source.x.saturating_sub(1) },
        y: route_y,
    };
    let end = DiagramPosition {
        x: if right { destination.x.saturating_sub(1) } else { destination.right().saturating_add(1) },
        y: if beside { route_y } else { destination_center.y },
    };
    (start, end, right)
}

/// The path of a sideways route.
fn sideways_route(start: DiagramPosition, end: DiagramPosition, right: bool) -> (path: Vec<DiagramPosition>)
    ensures
        path@ == turned_path(start, end, right),
{
    let middle_x: u16 = if right {
        start.x.saturating_add(end.x.saturating_sub(start.x) / 2)
    } else {
        end.x.saturating_add(start.x.saturating_sub(end.x) / 2)
    };
    let mut path: Vec<DiagramPosition> = Vec::new();
    path.push(start);
    if start.y != end.y {
        path.push(DiagramPosition { x: middle_x, y: start.y });
        path.push(DiagramPosition { x: middle_x, y: end.y });
    }
    path.push(end);
    proof {
        assert(path@ =~= turned_path(start, end, right));
    }
    path
}

/// Route one relationship between two boxes.
pub fn canvas_relationship(
    target: PlanRelationshipTarget,
    source: DiagramRect,
    destination: DiagramRect,
    label: &str,
    verified: bool,
    viewport_width: u16,
) -> (r: DiagramRelationship)
    ensures
        r@ == route_of(target@, source, destination, label@, verified, viewport_width as int),
{
    let apart: bool = source.bottom() < destination.y || destination.bottom() < source.y;
    if max_u16(source.x, destination.x) <= min_u16(source.right(), destination.right()) && apart {
        stacked_relationship(target, source, destination, label, verified, viewport_width)
    } else {
        sideways_relationship(target, source, destination, label, verified, viewport_width)
    }
}

/// Route a relationship between two boxes above each other.
fn stacked_relationship(
    target: PlanRelationshipTarget,
    source: DiagramRect,
    destination: DiagramRect,
    label: &str,
    verified: bool,
    viewport_width: u16,
) -> (r: DiagramRelationship)
    requires
        is_stacked(source, destination),
    ensures
        r@ == route_of(target@, source, destination, label@, verified, viewport_width as int),
{
    let text = trim(label);
    let (path, route_x, label_y) = stacked_route(source, destination);
    let (compact, x, width) = vertical_relationship_label(text.as_str(), route_x, viewport_width);
    let hidden: bool = text.as_str().is_empty() || !same_text(compact.as_str(), text.as_str());
    DiagramRelationship {
        target,
        path,
        label_rect: DiagramRect { x, y: label_y, width, height: 1 },
        has_hidden_label: hidden,
        label: compact,
        verified,
    }
}

/// Where the label of a sideways route begins, its text and its cells.
fn sideways_label(text: &str, start: u16, end: u16, viewport_width: u16) -> (r: (String, u16, u16))
    ensures
        ({
            let left = sat16(min_int(start as int, end as int) + 1);
            let right = monus(max_int(start as int, end as int), 1);
            let lane = sat16(monus(right, left) + 1);
            let budget = min_int(max_int(monus(lane, 4), 1), max_int(viewport_width as int, 1));
            let width = low16(display_width(truncated(text@, budget)) as int);
            &&& r.0@ == truncated(text@, budget)
            &&& r.1 == sat16(left + monus(monus(right, left), monus(width, 1)) / 2)
            &&& r.2 == max_int(width, 1)
        }),
{
    // The label stays inside the free lane and leaves route glyphs on both sides.
    let left: u16 = min_u16(start, end).saturating_add(1);
    let last: u16 = max_u16(start, end).saturating_sub(1);
    let lane: u16 = last.saturating_sub(left).saturating_add(1);
    let budget: u16 = min_u16(max_u16(lane.saturating_sub(4), 1), max_u16(viewport_width, 1));
    let compact = truncate(text, budget as usize);
    let width: u16 = cut_u16(str_width(compact.as_str()));
    let x: u16 = left.saturating_add(last.saturating_sub(left).saturating_sub(width.saturating_sub(1)) / 2);
    (compact, x, max_u16(width, 1))
}

/// Route a relationship between two boxes beside each other.
fn sideways_relationship(
    target: PlanRelationshipTarget,
    source: DiagramRect,
    destination: DiagramRect,
    label: &str,
    verified: bool,
    viewport_width: u16,
) -> (r: DiagramRelationship)
    requires
        !is_stacked(source, destination),
    ensures
        r@ == route_of(target@, source, destination, label@, verified, viewport_width as int),
{
    let text = trim(label);
    let (start, end, right) = sideways_ends(source, destination);
    let path = sideways_route(start, end, right);
    let (compact, x, width) = sideways_label(text.as_str(), start.x, end.x, viewport_width);
    let hidden: bool = text.as_str().is_empty() || !same_text(compact.as_str(), text.as_str());
    DiagramRelationship {
        target,
        path,
        label_rect: DiagramRect { x, y: start.y, width, height: 1 },
        has_hidden_label: hidden,
        label: compact,
        verified,
    }
}

/// Whether a cell lies on a horizontal or vertical piece of a route.
pub open spec fn on_segment(p: DiagramPosition, a: DiagramPosition, b: DiagramPosition) -> bool {
    if a.x == b.x {
        p.x == a.x && min_int(a.y as int, b.y as int) <= p.y <= max_int(a.y as int, b.y as int)
    } else {
        a.y == b.y && p.y == a.y && min_int(a.x as int, b.x as int) <= p.x <= max_int(a.x as int, b.x as int)
    }
}

pub fn point_on_segment(point: DiagramPosition, a: DiagramPosition, b: DiagramPosition) -> (r: bool)
    ensures
        r == on_segment(point, a, b),
{
    if a.x == b.x {
        point.x == a.x && point.y >= min_u16(a.y, b.y) && point.y <= max_u16(a.y, b.y)
    } else if a.y == b.y {
        point.y == a.y && point.x >= min_u16(a.x, b.x) && point.x <= max_u16(a.x, b.x)
    } else {
        false
    }
}

/// The intent of a plan above its canvas: at most two lines.
pub open spec fn annotations_of(plan: VisualizationPlan, viewport_width: int) -> Seq<Seq<char>> {
    wrapped_start(trimmed(plan.intent@), max_int(viewport_width, 1), 2)
}

/// Base annotation rows. They share the canvas coordinate system, so rendering, scroll range,
/// and retained geometry all reserve exactly the same vertical origin before any box.
/// Evidence stays part of the plan, but is not shown here.
fn canvas_annotations(plan: &VisualizationPlan, width: u16) -> (out: Vec<String>)
    ensures
        texts(out@) == annotations_of(*plan, width as int),
{
    wrap_text(trim(plan.intent.as_str()).as_str(), max_usize(width as usize, 1), 2)
}

/// The width of the widest line, at least that of no line.
pub open spec fn widest(lines: Seq<Seq<char>>, n: int) -> int
    decreases n,
{
    if n <= 0 {
        0
    } else {
        max_int(widest(lines, n - 1), display_width(lines[n - 1]) as int)
    }
}

/// The width of the widest line of a list; one cell for no line.
pub open spec fn block_width(lines: Seq<Seq<char>>) -> int {
    low16(if lines.len() == 0 { 1 } else { widest(lines, lines.len() as int) })
}

fn lines_width(lines: &Vec<String>) -> (w: u16)
    ensures
        w == block_width(texts(lines@)),
{
    let ghost all = texts(lines@);
    if lines.len() == 0 {
        return 1;
    }
    let mut w: usize = 0;
    let mut i: usize = 0;
    while i < lines.len()
        invariant
            i <= lines.len() == all.len(),
            all == texts(lines@),
            w == widest(all, i as int),
        decreases lines.len() - i,
    {
        proof {
            assert(all[i as int] == lines@[i as int]@);
        }
        w = max_usize(w, str_width(lines[i].as_str()));
        i = i + 1;
    }
    cut_u16(w)
}

/// Where a node stands: where the user put it, else at its automatic place.
pub open spec fn position_of(
    t: TargetView,
    positions: Map<TargetView, DiagramPosition>,
    defaults: Map<TargetView, DiagramPosition>,
) -> DiagramPosition {
    if positions.dom().contains(t) {
        positions[t]
    } else if defaults.dom().contains(t) {
        defaults[t]
    } else {
        DiagramPosition { x: 0, y: 0 }
    }
}

/// The box of one node: its card at its place, moved left as far as the viewport asks.
pub open spec fn box_of(
    node: PlanNode,
    t: TargetView,
    viewport: DiagramViewport,
    position: DiagramPosition,
    expanded: bool,
) -> NodeView {
    let lines = node_card(node, card_width_of(viewport.width as int), expanded);
    let width = block_width(lines);
    NodeView {
        target: t,
        rect: DiagramRect {
            x: min_int(position.x as int, monus(viewport.width as int, width)) as u16,
            y: position.y,
            width: width as u16,
            height: low16(max_int(lines.len() as int, 1)) as u16,
        },
        lines,
    }
}

/// What a canvas is made from.
#[verifier::ext_equal]
pub struct Setting {
    pub viewport: DiagramViewport,
    pub positions: Map<TargetView, DiagramPosition>,
    pub expanded: Set<TargetView>,
    pub defaults: Map<TargetView, DiagramPosition>,
}

/// The boxes of the first `n` nodes of a form.
pub open spec fn form_boxes(form: VizForm, f: int, s: Setting, n: int) -> Seq<NodeView>
    decreases n,
{
    if n <= 0 {
        Seq::empty()
    } else {
        let node = form.nodes[n - 1];
        let t = TargetView { form: f, id: node.id@ };
        form_boxes(form, f, s, n - 1).push(
            box_of(node, t, s.viewport, position_of(t, s.positions, s.defaults), s.expanded.contains(t)),
        )
    }
}

/// The boxes of the first `n` forms in plan order.
pub open spec fn plan_boxes(forms: Seq<VizForm>, s: Setting, n: int) -> Seq<NodeView>
    decreases n,
{
    if n <= 0 {
        Seq::empty()
    } else {
        plan_boxes(forms, s, n - 1) + form_boxes(forms[n - 1], n - 1, s, forms[n - 1].nodes.len() as int)
    }
}

/// The place of a target in a list, from place `i` on.
pub open spec fn place_in(list: Seq<TargetView>, t: TargetView, i: int) -> Option<int>
    decreases list.len() - i,
{
    if 0 <= i < list.len() {
        if list[i] == t {
            Some(i)
        } else {
            place_in(list, t, i + 1)
        }
    } else {
        None
    }
}

/// Those of the first `n` boxes that have a place in the drawing order, in their order.
pub open spec fn boxes_at(boxes: Seq<NodeView>, z_order: Seq<TargetView>, place: Option<int>, n: int) -> Seq<NodeView>
    decreases n,
{
    if n <= 0 {
        Seq::empty()
    } else if place_in(z_order, boxes[n - 1].target, 0) == place {
        boxes_at(boxes, z_order, place, n - 1).push(boxes[n - 1])
    } else {
        boxes_at(boxes, z_order, place, n - 1)
    }
}

/// The boxes at the first `n` places of the drawing order.
pub open spec fn raised_boxes(boxes: Seq<NodeView>, z_order: Seq<TargetView>, n: int) -> Seq<NodeView>
    decreases n,
{
    if n <= 0 {
        Seq::empty()
    } else {
        raised_boxes(boxes, z_order, n - 1) + boxes_at(boxes, z_order, Some(n - 1), boxes.len() as int)
    }
}

/// The boxes in drawing order: plan order in the back, then those that were raised.
pub open spec fn drawn_boxes(boxes: Seq<NodeView>, z_order: Seq<TargetView>) -> Seq<NodeView> {
    boxes_at(boxes, z_order, None, boxes.len() as int) + raised_boxes(boxes, z_order, z_order.len() as int)
}

/// The first box of a target, from box `i` on.
pub open spec fn box_index(boxes: Seq<NodeView>, t: TargetView, i: int) -> Option<int>
    decreases boxes.len() - i,
{
    if 0 <= i < boxes.len() {
        if boxes[i].target == t {
            Some(i)
        } else {
            box_index(boxes, t, i + 1)
        }
    } else {
        None
    }
}

/// The routes of the first `n` edges of a form between boxes that are there.
pub open spec fn form_routes(
    form: VizForm,
    f: int,
    boxes: Seq<NodeView>,
    viewport_width: int,
    n: int,
) -> Seq<RouteView>
    decreases n,
{
    if n <= 0 {
        Seq::empty()
    } else {
        let before = form_routes(form, f, boxes, viewport_width, n - 1);
        let e = drawn_edges(form)[n - 1];
        let target = RelationshipView { form: f, edge: n - 1, from: e.from, to: e.to };
        match (
            box_index(boxes, TargetView { form: f, id: e.from }, 0),
            box_index(boxes, TargetView { form: f, id: e.to }, 0),
        ) {
            (Some(a), Some(b)) => before.push(
                route_of(target, boxes[a].rect, boxes[b].rect, e.label, e.verified, viewport_width),
            ),
            _ => before,
        }
    }
}

/// The routes of the first `n` forms.
pub open spec fn plan_routes(forms: Seq<VizForm>, boxes: Seq<NodeView>, viewport_width: int, n: int) -> Seq<RouteView>
    decreases n,
{
    if n <= 0 {
        Seq::empty()
    } else {
        plan_routes(forms, boxes, viewport_width, n - 1) + form_routes(
            forms[n - 1],
            n - 1,
            boxes,
            viewport_width,
            drawn_edges(forms[n - 1]).len() as int,
        )
    }
}

/// The extent of a canvas so far.
#[verifier::ext_equal]
pub struct Extent {
    pub x: int,
    pub y: int,
}

/// An extent that also takes in a rectangle.
pub open spec fn stretched(e: Extent, r: DiagramRect) -> Extent {
    Extent { x: max_int(e.x, sat16(r.right_spec() + 1)), y: max_int(e.y, sat16(r.bottom_spec() + 1)) }
}

/// An extent that also takes in the first `n` boxes.
pub open spec fn with_boxes(e: Extent, boxes: Seq<NodeView>, n: int) -> Extent
    decreases n,
{
    if n <= 0 {
        e
    } else {
        stretched(with_boxes(e, boxes, n - 1), boxes[n - 1].rect)
    }
}

/// An extent that also takes in the first `n` points.
pub open spec fn with_points(e: Extent, points: Seq<DiagramPosition>, n: int) -> Extent
    decreases n,
{
    if n <= 0 {
        e
    } else {
        let before = with_points(e, points, n - 1);
        Extent { x: max_int(before.x, sat16(points[n - 1].x + 1)), y: max_int(before.y, sat16(points[n - 1].y + 1)) }
    }
}

/// An extent that also takes in the first `n` routes and their labels.
pub open spec fn with_routes(e: Extent, routes: Seq<RouteView>, n: int) -> Extent
    decreases n,
{
    if n <= 0 {
        e
    } else {
        let route = routes[n - 1];
        with_points(stretched(with_routes(e, routes, n - 1), route.label_rect), route.path, route.path.len() as int)
    }
}

/// The canvas of a plan.
pub open spec fn canvas_of(
    plan: VisualizationPlan,
    viewport: DiagramViewport,
    positions: Map<TargetView, DiagramPosition>,
    expanded: Set<TargetView>,
    z_order: Seq<TargetView>,
    leading: Seq<Seq<char>>,
) -> CanvasView {
    let w = viewport.width as int;
    let annotations = leading + annotations_of(plan, w);
    let top = low16(annotations.len() as int);
    let setting = Setting { viewport, positions, expanded, defaults: automatic(plan, w, top) };
    let n = plan.forms.len() as int;
    let nodes = drawn_boxes(plan_boxes(plan.forms@, setting, n), z_order);
    let relationships = plan_routes(plan.forms@, nodes, w, n);
    let start = Extent { x: w, y: max_int(viewport.height as int, top) };
    let extent = with_routes(
        with_boxes(start, nodes, nodes.len() as int),
        relationships,
        relationships.len() as int,
    );
    CanvasView {
        size: DiagramViewport { width: extent.x as u16, height: extent.y as u16 },
        annotations,
        nodes,
        relationships,
        viewport,
    }
}

fn copy_node(node: &DiagramNode) -> (r: DiagramNode)
    ensures
        r@ == node@,
{
    let lines = crate::table::copied_keys(&node.lines);
    proof {
        assert(texts(lines@) =~= texts(node.lines@));
    }
    DiagramNode { target: node.target.copied(), rect: node.rect, lines }
}

fn find_place(list: &Vec<PlanNodeTarget>, t: &PlanNodeTarget) -> (r: Option<usize>)
    ensures
        match r {
            Some(k) => place_in(target_views(list@), t@, 0) == Some(k as int) && k < list.len(),
            None => place_in(target_views(list@), t@, 0) is None,
        },
{
    let ghost all = target_views(list@);
    let mut i: usize = 0;
    while i < list.len()
        invariant
            i <= list.len() == all.len(),
            all == target_views(list@),
            place_in(all, t@, 0) == place_in(all, t@, i as int),
        decreases list.len() - i,
    {
        proof {
            assert(all[i as int] == list@[i as int]@);
        }
        if list[i].same(t) {
            return Some(i);
        }
        i = i + 1;
    }
    None
}

/// Add the boxes that have a place in the drawing order.
fn push_boxes_at(
    out: &mut Vec<DiagramNode>,
    boxes: &Vec<DiagramNode>,
    places: &Vec<Option<usize>>,
    z_order: &Vec<PlanNodeTarget>,
    place: Option<usize>,
)
    requires
        places.len() == boxes.len(),
        forall|i: int| #![trigger places@[i]] 0 <= i < places.len() ==> match places@[i] {
            Some(k) => place_in(target_views(z_order@), boxes@[i].target@, 0) == Some(k as int),
            None => place_in(target_views(z_order@), boxes@[i].target@, 0) is None,
        },
    ensures
        node_views(final(out)@) == node_views(old(out)@) + boxes_at(
            node_views(boxes@),
            target_views(z_order@),
            (match place {
                Some(k) => Some(k as int),
                None => None,
            }),
            boxes.len() as int,
        ),
{
    let ghost all = node_views(boxes@);
    let ghost z = target_views(z_order@);
    let ghost wanted = match place {
        Some(k) => Some(k as int),
        None => None,
    };
    let ghost start = node_views(out@);
    let mut i: usize = 0;
    proof {
        assert(node_views(out@) =~= start + boxes_at(all, z, wanted, 0));
    }
    while i < boxes.len()
        invariant
            i <= boxes.len() == all.len(),
            places.len() == boxes.len(),
            all == node_views(boxes@),
            z == target_views(z_order@),
            wanted == (match place {
                Some(k) => Some(k as int),
                None => None,
            }),
            forall|j: int| #![trigger places@[j]] 0 <= j < places.len() ==> match places@[j] {
                Some(k) => place_in(z, boxes@[j].target@, 0) == Some(k as int),
                None => place_in(z, boxes@[j].target@, 0) is None,
            },
            node_views(out@) == start + boxes_at(all, z, wanted, i as int),
        decreases boxes.len() - i,
    {
        let ghost before = out@;
        proof {
            assert(all[i as int] == boxes@[i as int]@);
        }
        let here: bool = match (places[i], place) {
            (Some(a), Some(b)) => a == b,
            (None, None) => true,
            _ => false,
        };
        if here {
            out.push(copy_node(&boxes[i]));
            proof {
                assert(node_views(out@) =~= node_views(before).push(all[i as int]));
            }
        }
        proof {
            assert(node_views(out@) =~= start + boxes_at(all, z, wanted, i + 1));
        }
        i = i + 1;
    }
}

/// The boxes in drawing order.
fn ordered_boxes(boxes: &Vec<DiagramNode>, z_order: &Vec<PlanNodeTarget>) -> (out: Vec<DiagramNode>)
    ensures
        node_views(out@) == drawn_boxes(node_views(boxes@), target_views(z_order@)),
{
    let ghost all = node_views(boxes@);
    let ghost z = target_views(z_order@);
    let mut places: Vec<Option<usize>> = Vec::new();
    while places.len() < boxes.len()
        invariant
            places.len() <= boxes.len(),
            z == target_views(z_order@),
            forall|j: int| #![trigger places@[j]] 0 <= j < places.len() ==> match places@[j] {
                Some(k) => place_in(z, boxes@[j].target@, 0) == Some(k as int),
                None => place_in(z, boxes@[j].target@, 0) is None,
            },
        decreases boxes.len() - places.len(),
    {
        let i: usize = places.len();
        places.push(find_place(z_order, &boxes[i].target));
    }
    let mut out: Vec<DiagramNode> = Vec::new();
    push_boxes_at(&mut out, boxes, &places, z_order, None);
    let ghost back = boxes_at(all, z, None, boxes.len() as int);
    let mut r: usize = 0;
    proof {
        assert(node_views(out@) =~= back + raised_boxes(all, z, 0));
    }
    while r < z_order.len()
        invariant
            r <= z_order.len(),
            places.len() == boxes.len() == all.len(),
            all == node_views(boxes@),
            z == target_views(z_order@),
            back == boxes_at(all, z, None, boxes.len() as int),
            forall|j: int| #![trigger places@[j]] 0 <= j < places.len() ==> match places@[j] {
                Some(k) => place_in(z, boxes@[j].target@, 0) == Some(k as int),
                None => place_in(z, boxes@[j].target@, 0) is None,
            },
            node_views(out@) == back + raised_boxes(all, z, r as int),
        decreases z_order.len() - r,
    {
        let ghost before = node_views(out@);
        push_boxes_at(&mut out, boxes, &places, z_order, Some(r));
        proof {
            assert(node_views(out@) =~= back + raised_boxes(all, z, r + 1));
        }
        r = r + 1;
    }
    out
}

/// The first box of a target.
fn find_box(boxes: &Vec<DiagramNode>, form: usize, id: &str) -> (r: Option<usize>)
    ensures
        ({
            let t = TargetView { form: form as int, id: id@ };
            match r {
                Some(k) => box_index(node_views(boxes@), t, 0) == Some(k as int) && k < boxes.len(),
                None => box_index(node_views(boxes@), t, 0) is None,
            }
        }),
{
    let ghost all = node_views(boxes@);
    let ghost t = TargetView { form: form as int, id: id@ };
    let mut i: usize = 0;
    while i < boxes.len()
        invariant
            i <= boxes.len() == all.len(),
            all == node_views(boxes@),
            t == (TargetView { form: form as int, id: id@ }),
            box_index(all, t, 0) == box_index(all, t, i as int),
        decreases boxes.len() - i,
    {
        proof {
            assert(all[i as int] == boxes@[i as int]@);
        }
        if boxes[i].target.form == form && same_text(boxes[i].target.id.as_str(), id) {
            return Some(i);
        }
        i = i + 1;
    }
    None
}

/// Add the boxes of one form.
fn push_form_boxes(
    out: &mut Vec<DiagramNode>,
    form: &VizForm,
    f: usize,
    viewport: DiagramViewport,
    positions: &Table<PlanNodeTarget, DiagramPosition>,
    expanded_nodes: &KeySet<PlanNodeTarget>,
    defaults: &Table<PlanNodeTarget, DiagramPosition>,
)
    ensures
        node_views(final(out)@) == node_views(old(out)@) + form_boxes(
            *form,
            f as int,
            Setting { viewport, positions: positions@, expanded: expanded_nodes@, defaults: defaults@ },
            form.nodes.len() as int,
        ),
{
    let ghost s = Setting { viewport, positions: positions@, expanded: expanded_nodes@, defaults: defaults@ };
    let card_width: u16 = canvas_card_width(viewport);
    let ghost start = node_views(out@);
    let mut n: usize = 0;
    proof {
        assert(start + form_boxes(*form, f as int, s, 0) =~= start);
    }
    while n < form.nodes.len()
        invariant
            n <= form.nodes.len(),
            s == (Setting { viewport, positions: positions@, expanded: expanded_nodes@, defaults: defaults@ }),
            card_width == card_width_of(viewport.width as int),
            node_views(out@) == start + form_boxes(*form, f as int, s, n as int),
        decreases form.nodes.len() - n,
    {
        let node = &form.nodes[n];
        let target = PlanNodeTarget { form: f, id: node.id.clone() };
        let position: DiagramPosition = match positions.get(&target) {
            Some(p) => *p,
            None => match defaults.get(&target) {
                Some(p) => *p,
                None => DiagramPosition { x: 0, y: 0 },
            },
        };
        let expanded: bool = expanded_nodes.contains(&target);
        let ghost before = node_views(out@);
        let made = node_box(node, target, viewport, card_width, position, expanded);
        let ghost shown = made@;
        out.push(made);
        proof {
            assert(node_views(out@) =~= before.push(shown));
            assert(node_views(out@) =~= start + form_boxes(*form, f as int, s, n + 1));
        }
        n = n + 1;
    }
}

/// The box of one node.
fn node_box(
    node: &PlanNode,
    target: PlanNodeTarget,
    viewport: DiagramViewport,
    card_width: u16,
    position: DiagramPosition,
    expanded: bool,
) -> (r: DiagramNode)
    requires
        card_width == card_width_of(viewport.width as int),
    ensures
        r@ == box_of(*node, target@, viewport, position, expanded),
{
    let lines = canvas_node_lines(node, card_width, expanded);
    let width: u16 = lines_width(&lines);
    let height: u16 = cut_u16(max_usize(lines.len(), 1));
    let max_x: u16 = viewport.width.saturating_sub(width);
    proof {
        assert(texts(lines@).len() == lines.len());
    }
    DiagramNode { target, rect: DiagramRect { x: min_u16(position.x, max_x), y: position.y, width, height }, lines }
}

/// The boxes of a plan in plan order.
fn boxes_in_plan_order(
    plan: &VisualizationPlan,
    viewport: DiagramViewport,
    positions: &Table<PlanNodeTarget, DiagramPosition>,
    expanded_nodes: &KeySet<PlanNodeTarget>,
    defaults: &Table<PlanNodeTarget, DiagramPosition>,
) -> (out: Vec<DiagramNode>)
    ensures
        node_views(out@) == plan_boxes(
            plan.forms@,
            Setting { viewport, positions: positions@, expanded: expanded_nodes@, defaults: defaults@ },
            plan.forms.len() as int,
        ),
{
    let ghost s = Setting { viewport, positions: positions@, expanded: expanded_nodes@, defaults: defaults@ };
    let mut out: Vec<DiagramNode> = Vec::new();
    let mut f: usize = 0;
    proof {
        assert(node_views(out@) =~= plan_boxes(plan.forms@, s, 0));
    }
    while f < plan.forms.len()
        invariant
            f <= plan.forms.len(),
            s == (Setting { viewport, positions: positions@, expanded: expanded_nodes@, defaults: defaults@ }),
            node_views(out@) == plan_boxes(plan.forms@, s, f as int),
        decreases plan.forms.len() - f,
    {
        push_form_boxes(&mut out, &plan.forms[f], f, viewport, positions, expanded_nodes, defaults);
        f = f + 1;
    }
    out
}

/// Add the routes of one form.
fn push_form_routes(
    out: &mut Vec<DiagramRelationship>,
    form: &VizForm,
    f: usize,
    boxes: &Vec<DiagramNode>,
    viewport_width: u16,
)
    ensures
        route_views(final(out)@) == route_views(old(out)@) + form_routes(
            *form,
            f as int,
            node_views(boxes@),
            viewport_width as int,
            drawn_edges(*form).len() as int,
        ),
{
    let ghost all = node_views(boxes@);
    let ghost w = viewport_width as int;
    let edges = normalized_edges(form);
    let ghost start = route_views(out@);
    let ghost drawn = drawn_edges(*form);
    let mut e: usize = 0;
    proof {
        assert(edge_views(edges@).len() == edges.len());
        assert(start + form_routes(*form, f as int, all, w, 0) =~= start);
    }
    while e < edges.len()
        invariant
            e <= edges.len() == drawn.len(),
            drawn == edge_views(edges@),
            drawn == drawn_edges(*form),
            all == node_views(boxes@),
            w == viewport_width,
            route_views(out@) == start + form_routes(*form, f as int, all, w, e as int),
        decreases edges.len() - e,
    {
        let edge = &edges[e];
        proof {
            assert(drawn[e as int] == edge@);
        }
        let ghost before = route_views(out@);
        match (find_box(boxes, f, edge.from.as_str()), find_box(boxes, f, edge.to.as_str())) {
            (Some(a), Some(b)) => {
                let target = PlanRelationshipTarget {
                    form: f,
                    edge: e,
                    from: edge.from.clone(),
                    to: edge.to.clone(),
                };
                proof {
                    assert(all[a as int] == boxes@[a as int]@);
                    assert(all[b as int] == boxes@[b as int]@);
                }
                let route = canvas_relationship(
                    target,
                    boxes[a].rect,
                    boxes[b].rect,
                    edge.label.as_str(),
                    edge.verified,
                    viewport_width,
                );
                let ghost shown = route@;
                out.push(route);
                proof {
                    assert(route_views(out@) =~= before.push(shown));
                }
            },
            _ => {},
        }
        proof {
            assert(route_views(out@) =~= start + form_routes(*form, f as int, all, w, e + 1));
        }
        e = e + 1;
    }
}

/// The routes of a plan between its boxes.
fn routes_between(plan: &VisualizationPlan, boxes: &Vec<DiagramNode>, viewport_width: u16) -> (out: Vec<
    DiagramRelationship,
>)
    ensures
        route_views(out@) == plan_routes(
            plan.forms@,
            node_views(boxes@),
            viewport_width as int,
            plan.forms.len() as int,
        ),
{
    let ghost all = node_views(boxes@);
    let ghost w = viewport_width as int;
    let mut out: Vec<DiagramRelationship> = Vec::new();
    let mut f: usize = 0;
    proof {
        assert(route_views(out@) =~= plan_routes(plan.forms@, all, w, 0));
    }
    while f < plan.forms.len()
        invariant
            f <= plan.forms.len(),
            all == node_views(boxes@),
            w == viewport_width,
            route_views(out@) == plan_routes(plan.forms@, all, w, f as int),
        decreases plan.forms.len() - f,
    {
        push_form_routes(&mut out, &plan.forms[f], f, boxes, viewport_width);
        f = f + 1;
    }
    out
}

/// The size of a canvas that takes in its boxes, routes and labels.
fn canvas_size(start: DiagramViewport, boxes: &Vec<DiagramNode>, routes: &Vec<DiagramRelationship>) -> (size:
    DiagramViewport)
    ensures
        ({
            let e = with_routes(
                with_boxes(
                    Extent { x: start.width as int, y: start.height as int },
                    node_views(boxes@),
                    boxes.len() as int,
                ),
                route_views(routes@),
                routes.len() as int,
            );
            size.width == e.x && size.height == e.y
        }),
{
    let ghost all = node_views(boxes@);
    let ghost drawn = route_views(routes@);
    let ghost first = Extent { x: start.width as int, y: start.height as int };
    let mut x: u16 = start.width;
    let mut y: u16 = start.height;
    let mut i: usize = 0;
    while i < boxes.len()
        invariant
            i <= boxes.len() == all.len(),
            all == node_views(boxes@),
            (Extent { x: x as int, y: y as int }) == with_boxes(first, all, i as int),
        decreases boxes.len() - i,
    {
        proof {
            assert(all[i as int] == boxes@[i as int]@);
        }
        x = max_u16(x, boxes[i].rect.right().saturating_add(1));
        y = max_u16(y, boxes[i].rect.bottom().saturating_add(1));
        i = i + 1;
    }
    let ghost second = Extent { x: x as int, y: y as int };
    let mut j: usize = 0;
    while j < routes.len()
        invariant
            j <= routes.len() == drawn.len(),
            drawn == route_views(routes@),
            (Extent { x: x as int, y: y as int }) == with_routes(second, drawn, j as int),
        decreases routes.len() - j,
    {
        let route = &routes[j];
        proof {
            assert(drawn[j as int] == route@);
        }
        x = max_u16(x, route.label_rect.right().saturating_add(1));
        y = max_u16(y, route.label_rect.bottom().saturating_add(1));
        let ghost third = Extent { x: x as int, y: y as int };
        let mut k: usize = 0;
        while k < route.path.len()
            invariant
                k <= route.path.len(),
                (Extent { x: x as int, y: y as int }) == with_points(third, route.path@, k as int),
            decreases route.path.len() - k,
        {
            x = max_u16(x, route.path[k].x.saturating_add(1));
            y = max_u16(y, route.path[k].y.saturating_add(1));
            k = k + 1;
        }
        j = j + 1;
    }
    DiagramViewport { width: x, height: y }
}

/// The page of an overlay.
#[verifier::ext_equal]
pub struct PageView {
    /// How many content rows the page shows.
    pub capacity: int,
    /// Whether a heading stands above them.
    pub heading: bool,
    pub scroll: int,
    pub max_scroll: int,
}

/// The page of `total` rows that begins nearest to `requested` in `room` rows. A single row
/// shows content rather than a heading.
pub open spec fn page_of(total: int, room: int, requested: int) -> PageView {
    let heading = total > room && room >= 2;
    let capacity = max_int(if heading { room - 1 } else { room }, 1);
    let max_scroll = monus(total, capacity);
    PageView { capacity, heading, scroll: min_int(requested, max_scroll), max_scroll }
}

/// Every row of an overlay is on some page.
pub proof fn law_pages_reach_every_row(total: int, room: int, row: int)
    requires
        1 <= room,
        0 <= row < total,
    ensures
        ({
            let page = page_of(total, room, row);
            0 <= page.scroll <= page.max_scroll && page.scroll <= row < page.scroll + page.capacity
        }),
{
}

/// The heading of a paged overlay.
pub open spec fn page_heading(page: PageView, total: int) -> Seq<char> {
    "relationship details "@ + decimal_of(page.scroll + 1) + "-"@ + decimal_of(
        min_int(page.scroll + page.capacity, total),
    ) + "/"@ + decimal_of(total) + " · wheel"@
}

/// The rows of a page.
pub open spec fn page_lines(content: Seq<Seq<char>>, page: PageView) -> Seq<Seq<char>> {
    let total = content.len() as int;
    let rows = content.subrange(page.scroll, min_int(page.scroll + page.capacity, total));
    if page.heading {
        seq![page_heading(page, total)] + rows
    } else {
        rows
    }
}

/// Whether a relationship has an overlay to show where it is visible, and its route.
pub open spec fn overlay_route(
    c: CanvasView,
    plan: VisualizationPlan,
    r: RelationshipView,
    scroll_y: int,
    visible_height: int,
) -> Option<RouteView> {
    match route_index(c.relationships, r, 0) {
        Some(k) => {
            let route = c.relationships[k];
            if visible_height > 0 && relationship_in(plan, r) && route.has_hidden_label && scroll_y
                <= route.label_rect.y < sat16(scroll_y + visible_height) && route.label_rect.x < c.viewport.width {
                Some(route)
            } else {
                None
            }
        },
        None => None,
    }
}

/// The first route of a relationship, from route `i` on.
pub open spec fn route_index(routes: Seq<RouteView>, r: RelationshipView, i: int) -> Option<int>
    decreases routes.len() - i,
{
    if 0 <= i < routes.len() {
        if routes[i].target == r {
            Some(i)
        } else {
            route_index(routes, r, i + 1)
        }
    } else {
        None
    }
}

/// An overlay, by contents.
#[verifier::ext_equal]
pub struct OverlayView {
    pub target: RelationshipView,
    pub rect: DiagramRect,
    pub lines: Seq<Seq<char>>,
    pub total_lines: int,
    pub scroll: int,
    pub max_scroll: int,
}

impl View for DiagramOverlay {
    type V = OverlayView;

    open spec fn view(&self) -> OverlayView {
        OverlayView {
            target: self.target@,
            rect: self.rect,
            lines: texts(self.lines@),
            total_lines: self.total_lines as int,
            scroll: self.scroll as int,
            max_scroll: self.max_scroll as int,
        }
    }
}

/// The overlay of a visible relationship: a page of its whole text, at its label.
pub open spec fn overlay_of(
    c: CanvasView,
    plan: VisualizationPlan,
    r: RelationshipView,
    scroll_y: int,
    visible_height: int,
    requested: int,
) -> Option<OverlayView> {
    match overlay_route(c, plan, r, scroll_y, visible_height) {
        Some(route) => {
            let anchor = route.label_rect;
            let room = c.viewport.width - anchor.x;
            let content = wrapped(drawn_edges(plan.forms[r.form])[r.edge].overlay_label, room);
            let page = page_of(content.len() as int, sat16(scroll_y + visible_height) - anchor.y, requested);
            let lines = page_lines(content, page);
            Some(
                OverlayView {
                    target: r,
                    rect: DiagramRect {
                        x: anchor.x,
                        y: anchor.y,
                        width: min_int(block_width(lines), room) as u16,
                        height: low16(max_int(lines.len() as int, 1)) as u16,
                    },
                    lines,
                    total_lines: content.len() as int,
                    scroll: page.scroll,
                    max_scroll: page.max_scroll,
                },
            )
        },
        None => None,
    }
}

/// The topmost of the first `n` boxes that covers a cell.
pub open spec fn box_at(boxes: Seq<NodeView>, p: DiagramPosition, n: int) -> Option<TargetView>
    decreases n,
{
    if n <= 0 {
        None
    } else if boxes[n - 1].rect.covers(p) {
        Some(boxes[n - 1].target)
    } else {
        box_at(boxes, p, n - 1)
    }
}

/// Whether a route or its label passes a cell.
pub open spec fn route_covers(route: RouteView, p: DiagramPosition) -> bool {
    route.label_rect.covers(p) || exists|i: int| 0 <= i && i + 1 < route.path.len() && #[trigger] on_piece(
        route.path,
        i,
        p,
    )
}

/// Whether piece `i` of a path passes a cell.
pub open spec fn on_piece(path: Seq<DiagramPosition>, i: int, p: DiagramPosition) -> bool {
    on_segment(p, path[i], path[i + 1])
}

/// The last of the first `n` routes with hidden text that passes a cell.
pub open spec fn route_at(routes: Seq<RouteView>, p: DiagramPosition, n: int) -> Option<RelationshipView>
    decreases n,
{
    if n <= 0 {
        None
    } else if routes[n - 1].has_hidden_label && route_covers(routes[n - 1], p) {
        Some(routes[n - 1].target)
    } else {
        route_at(routes, p, n - 1)
    }
}

impl DiagramCanvas {
    /// Derive base geometry from a plan and persistent view state without mutating either.
    pub fn build(
        plan: &VisualizationPlan,
        viewport: DiagramViewport,
        positions: &Table<PlanNodeTarget, DiagramPosition>,
        expanded_nodes: &KeySet<PlanNodeTarget>,
    ) -> (r: DiagramCanvas)
        ensures
            r@ == canvas_of(*plan, viewport, positions@, expanded_nodes@, Seq::empty(), Seq::empty()),
    {
        let none: Vec<PlanNodeTarget> = Vec::new();
        proof {
            assert(target_views(none@) =~= Seq::empty());
        }
        DiagramCanvas::build_with_z_order(plan, viewport, positions, expanded_nodes, &none)
    }

    /// As [`DiagramCanvas::build`], with persistent back-to-front box ordering.
    pub fn build_with_z_order(
        plan: &VisualizationPlan,
        viewport: DiagramViewport,
        positions: &Table<PlanNodeTarget, DiagramPosition>,
        expanded_nodes: &KeySet<PlanNodeTarget>,
        z_order: &Vec<PlanNodeTarget>,
    ) -> (r: DiagramCanvas)
        ensures
            r@ == canvas_of(*plan, viewport, positions@, expanded_nodes@, target_views(z_order@), Seq::empty()),
    {
        let none: Vec<String> = Vec::new();
        proof {
            assert(texts(none@) =~= Seq::empty());
        }
        DiagramCanvas::build_with_annotations(plan, viewport, positions, expanded_nodes, z_order, &none)
    }

    /// Build with fixed leading annotations (for example a validator warning). Call rendering
    /// and geometry with the same list; it becomes base canvas geometry and shifts defaults.
    pub fn build_with_annotations(
        plan: &VisualizationPlan,
        viewport: DiagramViewport,
        positions: &Table<PlanNodeTarget, DiagramPosition>,
        expanded_nodes: &KeySet<PlanNodeTarget>,
        z_order: &Vec<PlanNodeTarget>,
        leading_annotations: &Vec<String>,
    ) -> (r: DiagramCanvas)
        ensures
            r@ == canvas_of(
                *plan,
                viewport,
                positions@,
                expanded_nodes@,
                target_views(z_order@),
                texts(leading_annotations@),
            ),
    {
        let mut annotations = crate::table::copied_keys(leading_annotations);
        proof {
            assert(texts(annotations@) =~= texts(leading_annotations@));
        }
        append_texts(&mut annotations, canvas_annotations(plan, viewport.width));
        proof {
            assert(texts(annotations@).len() == annotations.len());
        }
        let top: u16 = cut_u16(annotations.len());
        let defaults = automatic_positions(plan, viewport, top);
        let in_order = boxes_in_plan_order(plan, viewport, positions, expanded_nodes, &defaults);
        let nodes = ordered_boxes(&in_order, z_order);
        let relationships = routes_between(plan, &nodes, viewport.width);
        let size = canvas_size(
            DiagramViewport { width: viewport.width, height: max_u16(viewport.height, top) },
            &nodes,
            &relationships,
        );
        proof {
            assert(node_views(nodes@).len() == nodes.len());
            assert(route_views(relationships@).len() == relationships.len());
        }
        DiagramCanvas { size, annotations, nodes, relationships, viewport }
    }

    /// Deterministic default placement for a current-plan node.
    pub fn default_position(
        plan: &VisualizationPlan,
        target: &PlanNodeTarget,
        viewport: DiagramViewport,
    ) -> (r: Option<DiagramPosition>)
        ensures
            ({
                let w = viewport.width as int;
                let places = automatic(*plan, w, low16(annotations_of(*plan, w).len() as int));
                match r {
                    Some(p) => places.dom().contains(target@) && places[target@] == p,
                    None => !places.dom().contains(target@),
                }
            }),
    {
        let annotations = canvas_annotations(plan, viewport.width);
        proof {
            assert(texts(annotations@).len() == annotations.len());
        }
        let places = automatic_positions(plan, viewport, cut_u16(annotations.len()));
        match places.get(target) {
            Some(p) => Some(*p),
            None => None,
        }
    }

    /// Resolve a visible node. The topmost box wins.
    pub fn node_at(&self, position: DiagramPosition) -> (r: Option<PlanNodeTarget>)
        ensures
            optional_target(r) == box_at(self@.nodes, position, self@.nodes.len() as int),
    {
        let ghost all = node_views(self.nodes@);
        let mut n: usize = self.nodes.len();
        while n > 0
            invariant
                n <= self.nodes.len() == all.len(),
                all == node_views(self.nodes@),
                box_at(all, position, all.len() as int) == box_at(all, position, n as int),
            decreases n,
        {
            proof {
                assert(all[n - 1] == self.nodes@[n - 1]@);
            }
            if self.nodes[n - 1].rect.contains(position) {
                return Some(self.nodes[n - 1].target.copied());
            }
            n = n - 1;
        }
        None
    }

    /// Resolve a relationship label or route, except where a visible box covers it.
    pub fn relationship_at(&self, position: DiagramPosition) -> (r: Option<PlanRelationshipTarget>)
        ensures
            optional_relationship(r) == (if box_at(self@.nodes, position, self@.nodes.len() as int) is Some {
                None
            } else {
                route_at(self@.relationships, position, self@.relationships.len() as int)
            }),
    {
        if self.node_at(position).is_some() {
            return None;
        }
        let ghost all = route_views(self.relationships@);
        let mut n: usize = self.relationships.len();
        while n > 0
            invariant
                n <= self.relationships.len() == all.len(),
                all == route_views(self.relationships@),
                route_at(all, position, all.len() as int) == route_at(all, position, n as int),
                box_at(self@.nodes, position, self@.nodes.len() as int) is None,
            decreases n,
        {
            proof {
                assert(all[n - 1] == self.relationships@[n - 1]@);
            }
            let route = &self.relationships[n - 1];
            if route.has_hidden_label && passes(route, position) {
                return Some(route.target.copied());
            }
            n = n - 1;
        }
        None
    }

    /// Clamp a requested box top-left to the current visible width. Y stays free in the
    /// scrollable virtual canvas.
    pub fn clamp_position(&self, target: &PlanNodeTarget, requested: DiagramPosition) -> (r: DiagramPosition)
        ensures
            r == (match box_index(self@.nodes, target@, 0) {
                Some(k) => DiagramPosition {
                    x: min_int(
                        requested.x as int,
                        monus(self.viewport.width as int, self@.nodes[k].rect.width as int),
                    ) as u16,
                    y: requested.y,
                },
                None => requested,
            }),
    {
        match find_box(&self.nodes, target.form, target.id.as_str()) {
            Some(k) => {
                proof {
                    assert(node_views(self.nodes@)[k as int] == self.nodes@[k as int]@);
                }
                DiagramPosition {
                    x: min_u16(requested.x, self.viewport.width.saturating_sub(self.nodes[k].rect.width)),
                    y: requested.y,
                }
            },
            None => requested,
        }
    }

    /// Build a viewport-aware, paged relationship overlay without changing base canvas
    /// geometry. `scroll_y` and `visible_height` are the same clamped values used by renderer
    /// and retained geometry. Labels longer than a viewport remain lossless through pages.
    pub fn relationship_overlay_in_viewport(
        &self,
        plan: &VisualizationPlan,
        target: &PlanRelationshipTarget,
        scroll_y: u16,
        visible_height: u16,
        requested_scroll: usize,
    ) -> (r: Option<DiagramOverlay>)
        ensures
            match r {
                Some(overlay) => overlay_of(
                    self@,
                    *plan,
                    target@,
                    scroll_y as int,
                    visible_height as int,
                    requested_scroll as int,
                ) == Some(overlay@),
                None => overlay_of(
                    self@,
                    *plan,
                    target@,
                    scroll_y as int,
                    visible_height as int,
                    requested_scroll as int,
                ) is None,
            },
    {
        if visible_height == 0 || target.form >= plan.forms.len() {
            return None;
        }
        let edges = normalized_edges(&plan.forms[target.form]);
        proof {
            assert(edge_views(edges@).len() == edges.len());
        }
        if target.edge >= edges.len() {
            return None;
        }
        let edge = &edges[target.edge];
        proof {
            assert(edge_views(edges@)[target.edge as int] == edge@);
        }
        if !same_text(edge.from.as_str(), target.from.as_str()) || !same_text(edge.to.as_str(), target.to.as_str()) {
            return None;
        }
        let k: usize = match find_route(&self.relationships, target) {
            Some(k) => k,
            None => {
                return None;
            },
        };
        let route = &self.relationships[k];
        proof {
            assert(route_views(self.relationships@)[k as int] == route@);
        }
        if !route.has_hidden_label {
            return None;
        }
        let anchor: DiagramRect = route.label_rect;
        let visible_bottom: u16 = scroll_y.saturating_add(visible_height);
        if anchor.y < scroll_y || anchor.y >= visible_bottom || anchor.x >= self.viewport.width {
            return None;
        }
        let room: u16 = self.viewport.width - anchor.x;
        let content = wrap_all(edge.overlay_label.as_str(), room as usize);
        let ghost rows = texts(content@);
        let total: usize = content.len();
        proof {
            assert(rows.len() == total);
        }
        let height: usize = (visible_bottom - anchor.y) as usize;
        let heading: bool = total > height && height >= 2;
        let capacity: usize = if heading { height - 1 } else { height };
        let max_scroll: usize = total.saturating_sub(capacity);
        let scroll: usize = min_usize(requested_scroll, max_scroll);
        let ghost page = page_of(total as int, height as int, requested_scroll as int);
        let end: usize = if capacity > total - scroll { total } else { scroll + capacity };
        let mut lines: Vec<String> = Vec::new();
        if heading {
            let mut text = joined("relationship details ", decimal(scroll as u64 + 1).as_str());
            text.append("-");
            text.append(decimal(end as u64).as_str());
            text.append("/");
            text.append(decimal(total as u64).as_str());
            text.append(" · wheel");
            lines.push(text);
            proof {
                assert(text@ =~= page_heading(page, total as int));
            }
        }
        let ghost start = texts(lines@);
        let mut i: usize = scroll;
        proof {
            assert(texts(lines@) =~= start + rows.subrange(scroll as int, scroll as int));
        }
        while i < end
            invariant
                scroll <= i <= end <= total == content.len(),
                rows == texts(content@),
                texts(lines@) == start + rows.subrange(scroll as int, i as int),
            decreases end - i,
        {
            let ghost before = texts(lines@);
            lines.push(content[i].clone());
            proof {
                assert(rows[i as int] == content@[i as int]@);
                assert(texts(lines@) =~= before.push(rows[i as int]));
                assert(texts(lines@) =~= start + rows.subrange(scroll as int, i + 1));
            }
            i = i + 1;
        }
        proof {
            assert(texts(lines@) =~= page_lines(rows, page));
            assert(texts(lines@).len() == lines.len());
        }
        let width: u16 = lines_width(&lines);
        let shown: u16 = cut_u16(max_usize(lines.len(), 1));
        Some(
            DiagramOverlay {
                target: target.copied(),
                rect: DiagramRect { x: anchor.x, y: anchor.y, width: min_u16(width, room), height: shown },
                lines,
                total_lines: total,
                scroll,
                max_scroll,
            },
        )
    }

    /// The overlay positioned at the canvas label, in a viewport that is not scrolled.
    pub fn relationship_overlay(&self, plan: &VisualizationPlan, target: &PlanRelationshipTarget) -> (r: Option<
        DiagramOverlay,
    >)
        ensures
            match r {
                Some(overlay) => overlay_of(self@, *plan, target@, 0, self.viewport.height as int, 0) == Some(overlay@),
                None => overlay_of(self@, *plan, target@, 0, self.viewport.height as int, 0) is None,
            },
    {
        self.relationship_overlay_in_viewport(plan, target, 0, self.viewport.height, 0)
    }

    /// Test whether the visible overlay owns a position. Callers pass `None` when closed.
    pub fn overlay_at(&self, overlay: Option<&DiagramOverlay>, position: DiagramPosition) -> (r: Option<
        PlanRelationshipTarget,
    >)
        ensures
            optional_relationship(r) == (match overlay {
                Some(o) => if o.rect.covers(position) {
                    Some(o.target@)
                } else {
                    None
                },
                None => None,
            }),
    {
        match overlay {
            Some(o) => if o.rect.contains(position) {
                Some(o.target.copied())
            } else {
                None
            },
            None => None,
        }
    }
}

fn passes(route: &DiagramRelationship, position: DiagramPosition) -> (r: bool)
    ensures
        r == route_covers(route@, position),
{
    if route.label_rect.contains(position) {
        return true;
    }
    let mut i: usize = 0;
    while i < route.path.len() && i + 1 < route.path.len()
        invariant
            i <= route.path.len(),
            forall|k: int| 0 <= k < i ==> !#[trigger] on_piece(route.path@, k, position),
        decreases route.path.len() - i,
    {
        if point_on_segment(position, route.path[i], route.path[i + 1]) {
            proof {
                assert(on_piece(route@.path, i as int, position));
            }
            return true;
        }
        i = i + 1;
    }
    false
}

fn find_route(routes: &Vec<DiagramRelationship>, target: &PlanRelationshipTarget) -> (r: Option<usize>)
    ensures
        match r {
            Some(k) => route_index(route_views(routes@), target@, 0) == Some(k as int) && k < routes.len(),
            None => route_index(route_views(routes@), target@, 0) is None,
        },
{
    let ghost all = route_views(routes@);
    let mut i: usize = 0;
    while i < routes.len()
        invariant
            i <= routes.len() == all.len(),
            all == route_views(routes@),
            route_index(all, target@, 0) == route_index(all, target@, i as int),
        decreases routes.len() - i,
    {
        proof {
            assert(all[i as int] == routes@[i as int]@);
        }
        if routes[i].target.same(target) {
            return Some(i);
        }
        i = i + 1;
    }
    None
}

/// Opening or closing a relationship overlay changes nothing of the base canvas.
pub proof fn law_overlay_leaves_canvas_unchanged(
    plan: VisualizationPlan,
    viewport: DiagramViewport,
    s: StateView,
    r: RelationshipView,
    leading: Seq<Seq<char>>,
)
    ensures
        ({
            let t = relationship_toggled(s, r);
            canvas_of(plan, viewport, t.positions, t.expanded, t.z_order, leading) == canvas_of(
                plan,
                viewport,
                s.positions,
                s.expanded,
                s.z_order,
                leading,
            )
        }),
{
}

/// Moving a box moves no other box, and opening a box keeps every box, itself included, in
/// its row and every other box as it is.
pub proof fn law_boxes_are_independent(
    node: PlanNode,
    t: TargetView,
    moved: TargetView,
    to: DiagramPosition,
    s: StateView,
    viewport: DiagramViewport,
    defaults: Map<TargetView, DiagramPosition>,
)
    ensures
        t != moved ==> {
            let m = moved_state(s, moved, to);
            let o = node_toggled(s, moved);
            let now = box_of(node, t, viewport, position_of(t, s.positions, defaults), s.expanded.contains(t));
            &&& box_of(node, t, viewport, position_of(t, m.positions, defaults), m.expanded.contains(t)) == now
            &&& box_of(node, t, viewport, position_of(t, o.positions, defaults), o.expanded.contains(t)) == now
        },
        ({
            let o = node_toggled(s, t);
            box_of(node, t, viewport, position_of(t, o.positions, defaults), o.expanded.contains(t)).rect.y == box_of(
                node,
                t,
                viewport,
                position_of(t, s.positions, defaults),
                s.expanded.contains(t),
            ).rect.y
        }),
{
}

/// Whether a box need not move sideways for its open card: the card is as wide as before, or
/// there is room for it where the box stands.
pub open spec fn keeps_column(closed: NodeView, open: NodeView, viewport_width: int) -> bool {
    ||| open.rect.width == closed.rect.width
    ||| closed.rect.x + closed.rect.width < viewport_width && closed.rect.x + open.rect.width <= viewport_width
}

/// How the box of `t` changes when it is opened: it keeps its row and its column, unless a
/// wider card has to move left, and grows. Every other box stays as it is.
pub open spec fn opened_alike(closed: NodeView, open: NodeView, t: TargetView, viewport_width: int) -> bool {
    &&& open.target == closed.target
    &&& closed.target != t ==> open == closed
    &&& closed.target == t ==> {
        &&& open.rect.y == closed.rect.y
        &&& open.rect.height > closed.rect.height
        &&& keeps_column(closed, open, viewport_width) ==> open.rect.x == closed.rect.x
    }
}

/// Boxes before and after the box of `t` was opened, one for one.
pub open spec fn all_opened_alike(
    closed: Seq<NodeView>,
    open: Seq<NodeView>,
    t: TargetView,
    viewport_width: int,
) -> bool {
    closed.len() == open.len() && forall|i: int|
        #![trigger closed[i]]
        #![trigger open[i]]
        0 <= i < closed.len() ==> opened_alike(closed[i], open[i], t, viewport_width)
}

/// Whether the open cards of all nodes of a form with an id have rows that can be addressed.
pub open spec fn open_cards_fit(forms: Seq<VizForm>, t: TargetView, viewport_width: int) -> bool {
    forall|f: int, i: int|
        #![trigger forms[f].nodes[i]]
        0 <= f < forms.len() && 0 <= i < forms[f].nodes.len() && t == (TargetView { form: f, id: forms[f].nodes[i].id@ })
            ==> node_card(forms[f].nodes[i], card_width_of(viewport_width), true).len() <= u16::MAX
}

proof fn lemma_form_opened(forms: Seq<VizForm>, f: int, a: Setting, t: TargetView, n: int)
    requires
        0 <= f < forms.len(),
        0 <= n <= forms[f].nodes.len(),
        a.viewport.width >= 4,
        !a.expanded.contains(t),
        open_cards_fit(forms, t, a.viewport.width as int),
    ensures
        all_opened_alike(
            form_boxes(forms[f], f, a, n),
            form_boxes(forms[f], f, Setting { expanded: a.expanded.insert(t), ..a }, n),
            t,
            a.viewport.width as int,
        ),
    decreases n,
{
    if n > 0 {
        lemma_form_opened(forms, f, a, t, n - 1);
        let node = forms[f].nodes[n - 1];
        let w = card_width_of(a.viewport.width as int);
        law_open_card_is_taller(node, w);
    }
}

proof fn lemma_plan_opened(forms: Seq<VizForm>, a: Setting, t: TargetView, n: int)
    requires
        0 <= n <= forms.len(),
        a.viewport.width >= 4,
        !a.expanded.contains(t),
        open_cards_fit(forms, t, a.viewport.width as int),
    ensures
        all_opened_alike(
            plan_boxes(forms, a, n),
            plan_boxes(forms, Setting { expanded: a.expanded.insert(t), ..a }, n),
            t,
            a.viewport.width as int,
        ),
    decreases n,
{
    if n > 0 {
        lemma_plan_opened(forms, a, t, n - 1);
        lemma_form_opened(forms, n - 1, a, t, forms[n - 1].nodes.len() as int);
    }
}

proof fn lemma_boxes_at_opened(
    a: Seq<NodeView>,
    b: Seq<NodeView>,
    t: TargetView,
    w: int,
    z_order: Seq<TargetView>,
    place: Option<int>,
    n: int,
)
    requires
        all_opened_alike(a, b, t, w),
        0 <= n <= a.len(),
    ensures
        all_opened_alike(boxes_at(a, z_order, place, n), boxes_at(b, z_order, place, n), t, w),
    decreases n,
{
    if n > 0 {
        lemma_boxes_at_opened(a, b, t, w, z_order, place, n - 1);
        assert(opened_alike(a[n - 1], b[n - 1], t, w));
    }
}

proof fn lemma_raised_opened(
    a: Seq<NodeView>,
    b: Seq<NodeView>,
    t: TargetView,
    w: int,
    z_order: Seq<TargetView>,
    n: int,
)
    requires
        all_opened_alike(a, b, t, w),
    ensures
        all_opened_alike(raised_boxes(a, z_order, n), raised_boxes(b, z_order, n), t, w),
    decreases n,
{
    if n > 0 {
        lemma_raised_opened(a, b, t, w, z_order, n - 1);
        lemma_boxes_at_opened(a, b, t, w, z_order, Some(n - 1), a.len() as int);
    }
}

/// Opening a box on a canvas: the box keeps its place and becomes taller, every other box has
/// the same area and the same lines, and the drawing order is the same. Only where a line of
/// the open card measures wider than the compact card does the box move left to stay inside.
pub proof fn law_opening_a_box_keeps_the_others(
    plan: VisualizationPlan,
    viewport: DiagramViewport,
    positions: Map<TargetView, DiagramPosition>,
    expanded: Set<TargetView>,
    z_order: Seq<TargetView>,
    leading: Seq<Seq<char>>,
    t: TargetView,
)
    requires
        viewport.width >= 4,
        !expanded.contains(t),
        open_cards_fit(plan.forms@, t, viewport.width as int),
    ensures
        all_opened_alike(
            canvas_of(plan, viewport, positions, expanded, z_order, leading).nodes,
            canvas_of(plan, viewport, positions, expanded.insert(t), z_order, leading).nodes,
            t,
            viewport.width as int,
        ),
{
    let w = viewport.width as int;
    let top = low16((leading + annotations_of(plan, w)).len() as int);
    let a = Setting { viewport, positions, expanded, defaults: automatic(plan, w, top) };
    let b = Setting { expanded: expanded.insert(t), ..a };
    let n = plan.forms.len() as int;
    lemma_plan_opened(plan.forms@, a, t, n);
    let (x, y) = (plan_boxes(plan.forms@, a, n), plan_boxes(plan.forms@, b, n));
    lemma_boxes_at_opened(x, y, t, w, z_order, None, x.len() as int);
    lemma_raised_opened(x, y, t, w, z_order, z_order.len() as int);
}

} // verus!
