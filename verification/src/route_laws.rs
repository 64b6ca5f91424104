//! How a diagram is put on its canvas: boxes at their places, connectors between them, labels
//! beside them and lists over them.

use vstd::prelude::*;
use crate::action::{RelationshipView, TargetView};
use crate::diagram::{drawn_edges, DiagramPosition, DiagramRect, DiagramViewport};
use crate::diagram_canvas::{
    box_at, box_index, box_of, boxes_at, canvas_of, drawn_boxes, form_boxes, form_routes, on_segment, overlay_of,
    page_lines, page_of, place_in, plan_boxes, position_of, raised_boxes, route_at, route_covers, route_of, stretched,
    vertical_label, widest, with_boxes, with_points, with_routes, CanvasView, Extent, NodeView, RouteView, Setting,
};
use crate::diagram_layout::{card_width_of, node_card};
use crate::plan::{PlanNode, VisualizationPlan, VizForm};
use crate::text::display_width;
use crate::wrap::{decimal_of, trimmed, truncated, wrapped};

verus! {

/// A box whose last column and row are on the canvas, with room beside it.
pub open spec fn is_inner(r: DiagramRect) -> bool {
    1 <= r.x && 1 <= r.y && 0 < r.width && 0 < r.height && r.x + r.width < 65535 && r.y + r.height < 65535
}

/// A connector between boxes that stand above each other runs in one column that both have,
/// from the row next to the first to the row next to the second.
pub proof fn law_stacked_boxes_are_joined_vertically(
    r: RelationshipView,
    a: DiagramRect,
    b: DiagramRect,
    label: Seq<char>,
    verified: bool,
    width: int,
)
    requires
        is_inner(a),
        is_inner(b),
        a.x < b.x + b.width,
        b.x < a.x + a.width,
    ensures
        ({
            let route = route_of(r, a, b, label, verified, width);
            let path = route.path;
            &&& route.target == r && route.verified == verified
            &&& a.y + a.height <= b.y ==> path.len() == 2 && path[0].y == a.y + a.height && path[1].y == b.y - 1
            &&& b.y + b.height <= a.y ==> path.len() == 2 && path[0].y == a.y - 1 && path[1].y == b.y + b.height
            &&& a.y + a.height <= b.y || b.y + b.height <= a.y ==> {
                &&& path[0].x == path[1].x
                &&& a.x <= path[0].x < a.x + a.width
                &&& b.x <= path[0].x < b.x + b.width
            }
        }),
{
}

/// A connector between boxes that do not stand above each other leaves the first at the side
/// that faces the second, in one of its rows, and reaches the second at the other side, in one
/// of its rows.
pub proof fn law_other_boxes_are_joined_sideways(
    r: RelationshipView,
    a: DiagramRect,
    b: DiagramRect,
    label: Seq<char>,
    verified: bool,
    width: int,
)
    requires
        is_inner(a),
        is_inner(b),
        a.x + a.width <= b.x || b.x + b.width <= a.x,
    ensures
        ({
            let path = route_of(r, a, b, label, verified, width).path;
            let end = path.last();
            &&& path.len() >= 2
            &&& a.x + a.width <= b.x ==> path[0].x == a.x + a.width && end.x == b.x - 1
            &&& b.x + b.width <= a.x ==> path[0].x == a.x - 1 && end.x == b.x + b.width
            &&& a.y <= path[0].y < a.y + a.height
            &&& b.y <= end.y < b.y + b.height
            &&& a.y < b.y + b.height && b.y < a.y + a.height ==> path.len() == 2 && path[0].y == end.y
        }),
{
}

/// A label that is empty or was cut is hidden, and only such a connector can be opened.
pub proof fn law_hidden_labels_can_be_opened(
    r: RelationshipView,
    a: DiagramRect,
    b: DiagramRect,
    label: Seq<char>,
    verified: bool,
    width: int,
)
    ensures
        ({
            let route = route_of(r, a, b, label, verified, width);
            &&& trimmed(label).len() == 0 ==> route.has_hidden_label
            &&& route.label != trimmed(label) ==> route.has_hidden_label
            &&& trimmed(label).len() > 0 && route.label == trimmed(label) ==> !route.has_hidden_label
            &&& route.label_rect.height == 1
        }),
{
}

/// The label of a vertical connector stands two columns right of it where it fits, else left of
/// it, else in the middle.
pub proof fn law_vertical_labels_stand_beside(label: Seq<char>, x: int, width: int)
    requires
        label.len() > 0,
        0 <= x,
        x + 2 <= 65535,
        0 < width <= 65535,
        0 < display_width(truncated(label, width)) <= width,
    ensures
        ({
            let (shown, at, cells) = vertical_label(label, x, width);
            let needed = display_width(truncated(label, width)) as int;
            &&& shown == truncated(label, width)
            &&& cells == needed
            &&& x + 2 + needed <= width ==> at == x + 2
            &&& x + 2 + needed > width && needed + 1 <= x ==> at + needed == x - 1
            &&& x + 2 + needed > width && needed + 1 > x ==> at <= width - needed - at <= at + 1
        }),
{
}

/// A cell is on a piece of a connector where it lies between its ends.
pub proof fn law_pieces_hold_the_cells_between(p: DiagramPosition, a: DiagramPosition, b: DiagramPosition)
    ensures
        a.x == b.x && a.y <= b.y ==> (on_segment(p, a, b) <==> p.x == a.x && a.y <= p.y <= b.y),
        a.x == b.x && b.y <= a.y ==> (on_segment(p, a, b) <==> p.x == a.x && b.y <= p.y <= a.y),
        a.y == b.y && a.x < b.x ==> (on_segment(p, a, b) <==> p.y == a.y && a.x <= p.x <= b.x),
        a.y == b.y && b.x < a.x ==> (on_segment(p, a, b) <==> p.y == a.y && b.x <= p.x <= a.x),
        a.x != b.x && a.y != b.y ==> !on_segment(p, a, b),
{
}

proof fn lemma_widest(lines: Seq<Seq<char>>, n: int, i: int)
    requires
        0 <= i < n <= lines.len(),
    ensures
        display_width(lines[i]) <= widest(lines, n),
    decreases n,
{
    if i < n - 1 {
        lemma_widest(lines, n - 1, i);
    }
}

/// A box stands where it was put, moved left only as far as it must to stay inside, and is as
/// wide as its widest line and as tall as its card.
pub proof fn law_boxes_stand_at_their_place(
    node: PlanNode,
    t: TargetView,
    viewport: DiagramViewport,
    p: DiagramPosition,
    expanded: bool,
    i: int,
)
    requires
        ({
            let card = node_card(node, card_width_of(viewport.width as int), expanded);
            0 <= i < card.len() <= 65535 && widest(card, card.len() as int) <= viewport.width
        }),
    ensures
        ({
            let b = box_of(node, t, viewport, p, expanded);
            let card = node_card(node, card_width_of(viewport.width as int), expanded);
            &&& b.target == t
            &&& b.lines == card
            &&& b.rect.y == p.y
            &&& p.x + b.rect.width <= viewport.width ==> b.rect.x == p.x
            &&& p.x + b.rect.width > viewport.width ==> b.rect.x + b.rect.width == viewport.width
            &&& b.rect.height == card.len()
            &&& display_width(card[i]) <= b.rect.width
        }),
{
    let card = node_card(node, card_width_of(viewport.width as int), expanded);
    lemma_widest(card, card.len() as int, i);
    assert(0 <= widest(card, card.len() as int));
}

/// A box stands where it was moved to, or where it was placed.
pub proof fn law_moved_boxes_leave_their_place(
    t: TargetView,
    positions: Map<TargetView, DiagramPosition>,
    defaults: Map<TargetView, DiagramPosition>,
)
    ensures
        positions.dom().contains(t) ==> position_of(t, positions, defaults) == positions[t],
        !positions.dom().contains(t) && defaults.dom().contains(t) ==> position_of(t, positions, defaults) == defaults[t],
{
}

proof fn lemma_form_boxes(form: VizForm, f: int, s: Setting, n: int, i: int)
    requires
        0 <= i < n <= form.nodes.len(),
    ensures
        ({
            let boxes = form_boxes(form, f, s, n);
            let t = TargetView { form: f, id: form.nodes[i].id@ };
            &&& boxes.len() == n
            &&& boxes[i] == box_of(
                form.nodes[i],
                t,
                s.viewport,
                position_of(t, s.positions, s.defaults),
                s.expanded.contains(t),
            )
        }),
    decreases n,
{
    lemma_form_boxes_len(form, f, s, n - 1);
    if i < n - 1 {
        lemma_form_boxes(form, f, s, n - 1, i);
    }
}

proof fn lemma_form_boxes_len(form: VizForm, f: int, s: Setting, n: int)
    requires
        0 <= n,
    ensures
        form_boxes(form, f, s, n).len() == n,
    decreases n,
{
    if n > 0 {
        lemma_form_boxes_len(form, f, s, n - 1);
    }
}

/// Every node of every form has its box.
pub proof fn law_every_node_has_a_box(forms: Seq<VizForm>, s: Setting, n: int, f: int, i: int)
    requires
        0 <= f < n <= forms.len(),
        0 <= i < forms[f].nodes.len(),
    ensures
        ({
            let t = TargetView { form: f, id: forms[f].nodes[i].id@ };
            plan_boxes(forms, s, n).contains(
                box_of(
                    forms[f].nodes[i],
                    t,
                    s.viewport,
                    position_of(t, s.positions, s.defaults),
                    s.expanded.contains(t),
                ),
            )
        }),
    decreases n,
{
    let t = TargetView { form: f, id: forms[f].nodes[i].id@ };
    let b = box_of(
        forms[f].nodes[i],
        t,
        s.viewport,
        position_of(t, s.positions, s.defaults),
        s.expanded.contains(t),
    );
    let before = plan_boxes(forms, s, n - 1);
    let own = form_boxes(forms[n - 1], n - 1, s, forms[n - 1].nodes.len() as int);
    let all = plan_boxes(forms, s, n);
    if f < n - 1 {
        law_every_node_has_a_box(forms, s, n - 1, f, i);
        let k = choose|k: int| 0 <= k < before.len() && before[k] == b;
        assert(all[k] == b);
    } else {
        lemma_form_boxes(forms[f], f, s, forms[f].nodes.len() as int, i);
        assert(all[before.len() + i] == own[i]);
    }
}

proof fn lemma_place(list: Seq<TargetView>, t: TargetView, i: int)
    requires
        0 <= i <= list.len(),
    ensures
        match place_in(list, t, i) {
            Some(k) => i <= k < list.len() && list[k] == t && forall|j: int| i <= j < k ==> #[trigger] list[j] != t,
            None => forall|j: int| i <= j < list.len() ==> #[trigger] list[j] != t,
        },
    decreases list.len() - i,
{
    if i < list.len() {
        lemma_place(list, t, i + 1);
    }
}

proof fn lemma_boxes_at(boxes: Seq<NodeView>, z: Seq<TargetView>, place: Option<int>, n: int)
    requires
        0 <= n <= boxes.len(),
    ensures
        ({
            let out = boxes_at(boxes, z, place, n);
            &&& forall|k: int| #![trigger out[k]] 0 <= k < out.len() ==> place_in(z, out[k].target, 0) == place
            &&& forall|i: int| #![trigger boxes[i]]
                0 <= i < n && place_in(z, boxes[i].target, 0) == place ==> out.contains(boxes[i])
        }),
    decreases n,
{
    if n > 0 {
        lemma_boxes_at(boxes, z, place, n - 1);
        let before = boxes_at(boxes, z, place, n - 1);
        let out = boxes_at(boxes, z, place, n);
        assert forall|i: int| #![trigger boxes[i]] 0 <= i < n && place_in(z, boxes[i].target, 0) == place implies out.contains(
            boxes[i],
        ) by {
            if i < n - 1 {
                let k = choose|k: int| 0 <= k < before.len() && before[k] == boxes[i];
                assert(out[k] == boxes[i]);
            } else {
                assert(out[before.len() as int] == boxes[i]);
            }
        }
    }
}

/// The box that was moved or opened last is drawn last, over all others.
pub proof fn law_last_raised_box_is_on_top(boxes: Seq<NodeView>, z: Seq<TargetView>, i: int)
    requires
        z.len() > 0,
        forall|j: int| 0 <= j < z.len() - 1 ==> #[trigger] z[j] != z.last(),
        0 <= i < boxes.len(),
        boxes[i].target == z.last(),
    ensures
        drawn_boxes(boxes, z).len() > 0,
        drawn_boxes(boxes, z).last().target == z.last(),
{
    let n = z.len() as int;
    lemma_place(z, z.last(), 0);
    assert(place_in(z, z.last(), 0) == Some(n - 1));
    let top = boxes_at(boxes, z, Some(n - 1), boxes.len() as int);
    lemma_boxes_at(boxes, z, Some(n - 1), boxes.len() as int);
    assert(place_in(z, boxes[i].target, 0) == Some(n - 1));
    assert(top.contains(boxes[i]));
    assert(raised_boxes(boxes, z, n).last() == top.last());
    assert(top[top.len() - 1].target == z.last()) by {
        lemma_place(z, top[top.len() - 1].target, 0);
    }
}

/// Boxes that were never moved or opened lie below those that were.
pub proof fn law_raised_boxes_lie_above(boxes: Seq<NodeView>, z: Seq<TargetView>, k: int)
    requires
        0 <= k < drawn_boxes(boxes, z).len(),
    ensures
        ({
            let still = boxes_at(boxes, z, None, boxes.len() as int).len();
            z.contains(drawn_boxes(boxes, z)[k].target) <==> k >= still
        }),
{
    let still = boxes_at(boxes, z, None, boxes.len() as int);
    let raised = raised_boxes(boxes, z, z.len() as int);
    lemma_boxes_at(boxes, z, None, boxes.len() as int);
    lemma_raised(boxes, z, z.len() as int);
    let t = drawn_boxes(boxes, z)[k].target;
    lemma_place(z, t, 0);
    if k < still.len() {
        assert(drawn_boxes(boxes, z)[k] == still[k]);
        assert(place_in(z, still[k].target, 0) is None);
    } else {
        assert(drawn_boxes(boxes, z)[k] == raised[k - still.len()]);
        assert(place_in(z, raised[k - still.len()].target, 0) is Some);
        assert(z[place_in(z, t, 0)->0] == t);
    }
}

proof fn lemma_raised(boxes: Seq<NodeView>, z: Seq<TargetView>, n: int)
    requires
        0 <= n <= z.len(),
    ensures
        forall|k: int| #![trigger raised_boxes(boxes, z, n)[k]]
            0 <= k < raised_boxes(boxes, z, n).len() ==> place_in(z, raised_boxes(boxes, z, n)[k].target, 0) is Some,
    decreases n,
{
    if n > 0 {
        lemma_raised(boxes, z, n - 1);
        lemma_boxes_at(boxes, z, Some(n - 1), boxes.len() as int);
        let before = raised_boxes(boxes, z, n - 1);
        let own = boxes_at(boxes, z, Some(n - 1), boxes.len() as int);
        assert forall|k: int| #![trigger raised_boxes(boxes, z, n)[k]]
            0 <= k < raised_boxes(boxes, z, n).len() implies place_in(z, raised_boxes(boxes, z, n)[k].target, 0) is Some by {
            if k < before.len() {
                assert(raised_boxes(boxes, z, n)[k] == before[k]);
            } else {
                assert(raised_boxes(boxes, z, n)[k] == own[k - before.len()]);
            }
        }
    }
}

/// A box is found under a cell where it is drawn on top.
pub proof fn law_topmost_box_is_at_a_cell(boxes: Seq<NodeView>, p: DiagramPosition, n: int, k: int)
    requires
        0 <= k < n <= boxes.len(),
        boxes[k].rect.covers(p),
        forall|j: int| k < j < n ==> !(#[trigger] boxes[j]).rect.covers(p),
    ensures
        box_at(boxes, p, n) == Some(boxes[k].target),
    decreases n,
{
    if k < n - 1 {
        assert(!boxes[n - 1].rect.covers(p));
        law_topmost_box_is_at_a_cell(boxes, p, n - 1, k);
    }
}

/// A connector is found under its pieces and under its label, if it can be opened; the last
/// drawn wins.
pub proof fn law_connectors_are_at_their_cells(routes: Seq<RouteView>, p: DiagramPosition, n: int, k: int)
    requires
        0 <= k < n <= routes.len(),
        routes[k].has_hidden_label,
        routes[k].label_rect.covers(p) || exists|i: int|
            0 <= i < routes[k].path.len() - 1 && #[trigger] crate::diagram_canvas::on_piece(routes[k].path, i, p),
        forall|j: int| k < j < n ==> !(#[trigger] routes[j]).has_hidden_label || !route_covers(routes[j], p),
    ensures
        route_at(routes, p, n) == Some(routes[k].target),
    decreases n,
{
    if k < n - 1 {
        assert(!routes[n - 1].has_hidden_label || !route_covers(routes[n - 1], p));
        law_connectors_are_at_their_cells(routes, p, n - 1, k);
    } else {
        assert(route_covers(routes[k], p));
    }
}

/// No connector whose label is shown whole is ever found.
pub proof fn law_shown_labels_cannot_be_opened(routes: Seq<RouteView>, p: DiagramPosition, n: int)
    requires
        0 <= n <= routes.len(),
        forall|j: int| 0 <= j < n ==> !(#[trigger] routes[j]).has_hidden_label,
    ensures
        route_at(routes, p, n) is None,
    decreases n,
{
    if n > 0 {
        assert(!routes[n - 1].has_hidden_label);
        law_shown_labels_cannot_be_opened(routes, p, n - 1);
    }
}

proof fn lemma_boxes_stretch(e: Extent, boxes: Seq<NodeView>, n: int, k: int)
    requires
        0 <= n <= boxes.len(),
    ensures
        with_boxes(e, boxes, n).x >= e.x,
        with_boxes(e, boxes, n).y >= e.y,
        0 <= k < n && is_inner(boxes[k].rect) ==> with_boxes(e, boxes, n).x >= boxes[k].rect.x + boxes[k].rect.width
            && with_boxes(e, boxes, n).y >= boxes[k].rect.y + boxes[k].rect.height,
    decreases n,
{
    if n > 0 {
        lemma_boxes_stretch(e, boxes, n - 1, k);
    }
}

proof fn lemma_points_stretch(e: Extent, points: Seq<DiagramPosition>, n: int, k: int)
    requires
        0 <= n <= points.len(),
    ensures
        with_points(e, points, n).x >= e.x,
        with_points(e, points, n).y >= e.y,
        0 <= k < n && points[k].x < 65535 ==> with_points(e, points, n).x > points[k].x,
        0 <= k < n && points[k].y < 65535 ==> with_points(e, points, n).y > points[k].y,
    decreases n,
{
    if n > 0 {
        lemma_points_stretch(e, points, n - 1, k);
    }
}

proof fn lemma_routes_stretch(e: Extent, routes: Seq<RouteView>, n: int, r: int, k: int)
    requires
        0 <= n <= routes.len(),
    ensures
        with_routes(e, routes, n).x >= e.x,
        with_routes(e, routes, n).y >= e.y,
        0 <= r < n && 0 <= k < routes[r].path.len() && routes[r].path[k].x < 65535 ==> with_routes(e, routes, n).x
            > routes[r].path[k].x,
        0 <= r < n && 0 <= k < routes[r].path.len() && routes[r].path[k].y < 65535 ==> with_routes(e, routes, n).y
            > routes[r].path[k].y,
    decreases n,
{
    if n > 0 {
        lemma_routes_stretch(e, routes, n - 1, r, k);
        let before = with_routes(e, routes, n - 1);
        let route = routes[n - 1];
        lemma_points_stretch(stretched(before, route.label_rect), route.path, route.path.len() as int, k);
    }
}

proof fn lemma_extent_bounded(e: Extent, boxes: Seq<NodeView>, routes: Seq<RouteView>, n: int, m: int)
    requires
        0 <= e.x <= 65535,
        0 <= e.y <= 65535,
        0 <= n <= boxes.len(),
        0 <= m <= routes.len(),
    ensures
        0 <= with_boxes(e, boxes, n).x <= 65535,
        0 <= with_boxes(e, boxes, n).y <= 65535,
        0 <= with_routes(e, routes, m).x <= 65535,
        0 <= with_routes(e, routes, m).y <= 65535,
    decreases n + m,
{
    if n > 0 {
        lemma_extent_bounded(e, boxes, routes, n - 1, 0);
    }
    if m > 0 {
        lemma_extent_bounded(e, boxes, routes, 0, m - 1);
        let route = routes[m - 1];
        lemma_points_bounded(stretched(with_routes(e, routes, m - 1), route.label_rect), route.path, route.path.len() as int);
    }
}

proof fn lemma_points_bounded(e: Extent, points: Seq<DiagramPosition>, n: int)
    requires
        0 <= e.x <= 65535,
        0 <= e.y <= 65535,
        0 <= n <= points.len(),
    ensures
        0 <= with_points(e, points, n).x <= 65535,
        0 <= with_points(e, points, n).y <= 65535,
    decreases n,
{
    if n > 0 {
        lemma_points_bounded(e, points, n - 1);
    }
}

/// The canvas is at least as large as the viewport and reaches around every box and every bend
/// of every connector, so that scrolling can show all of them.
pub proof fn law_canvas_reaches_around_everything(
    plan: VisualizationPlan,
    viewport: DiagramViewport,
    positions: Map<TargetView, DiagramPosition>,
    expanded: Set<TargetView>,
    z: Seq<TargetView>,
    leading: Seq<Seq<char>>,
    i: int,
    r: int,
    k: int,
)
    ensures
        ({
            let c = canvas_of(plan, viewport, positions, expanded, z, leading);
            &&& c.viewport == viewport
            &&& c.size.width >= viewport.width && c.size.height >= viewport.height
            &&& 0 <= i < c.nodes.len() && is_inner(c.nodes[i].rect) ==> c.nodes[i].rect.x + c.nodes[i].rect.width
                <= c.size.width && c.nodes[i].rect.y + c.nodes[i].rect.height <= c.size.height
            &&& 0 <= r < c.relationships.len() && 0 <= k < c.relationships[r].path.len()
                && c.relationships[r].path[k].x < 65535 && c.relationships[r].path[k].y < 65535
                ==> c.relationships[r].path[k].x < c.size.width && c.relationships[r].path[k].y < c.size.height
        }),
{
    let c = canvas_of(plan, viewport, positions, expanded, z, leading);
    let w = viewport.width as int;
    let top = crate::num::low16((leading + crate::diagram_canvas::annotations_of(plan, w)).len() as int);
    let start = Extent { x: w, y: crate::num::max_int(viewport.height as int, top) };
    let boxed = with_boxes(start, c.nodes, c.nodes.len() as int);
    let n = c.relationships.len() as int;
    lemma_boxes_stretch(start, c.nodes, c.nodes.len() as int, i);
    lemma_routes_stretch(boxed, c.relationships, n, r, k);
    lemma_extent_bounded(start, c.nodes, c.relationships, c.nodes.len() as int, 0);
    lemma_extent_bounded(boxed, c.nodes, c.relationships, 0, n);
}

/// The notes of a plan stand first, above the boxes: what leads, then the plan's intent in two
/// lines at most.
pub proof fn law_notes_stand_first(
    plan: VisualizationPlan,
    viewport: DiagramViewport,
    positions: Map<TargetView, DiagramPosition>,
    expanded: Set<TargetView>,
    z: Seq<TargetView>,
    leading: Seq<Seq<char>>,
)
    requires
        viewport.width > 0,
    ensures
        ({
            let c = canvas_of(plan, viewport, positions, expanded, z, leading);
            let intent = trimmed(plan.intent@);
            &&& c.annotations.len() <= leading.len() + 2
            &&& c.annotations.len() >= leading.len()
            &&& c.annotations.take(leading.len() as int) == leading
            &&& trimmed(intent).len() == 0 ==> c.annotations.len() == leading.len()
            &&& trimmed(intent).len() > 0 && wrapped(intent, viewport.width as int).len() > 0 ==> c.annotations.len()
                > leading.len() && c.annotations[leading.len() as int] == wrapped(intent, viewport.width as int)[0]
        }),
{
    let c = canvas_of(plan, viewport, positions, expanded, z, leading);
    assert(c.annotations.take(leading.len() as int) =~= leading);
}

/// A list that fits its room is shown whole; a longer one gives its first row to a heading that
/// counts the rows from one, and shows the rows from the scroll on.
pub proof fn law_lists_are_shown_by_the_page(content: Seq<Seq<char>>, room: int, requested: int)
    requires
        2 <= room,
        0 <= requested,
        content.len() > 0,
    ensures
        ({
            let total = content.len() as int;
            let page = page_of(total, room, requested);
            let lines = page_lines(content, page);
            let first = if requested + room - 1 <= total { requested } else { total - room + 1 };
            &&& total <= room ==> lines == content && page.max_scroll == 0
            &&& total > room ==> {
                &&& lines.len() == room
                &&& lines.skip(1) == content.subrange(first, first + room - 1)
                &&& lines[0] == "relationship details "@ + decimal_of(first + 1) + "-"@ + decimal_of(first + room - 1)
                    + "/"@ + decimal_of(total) + " · wheel"@
                &&& page.max_scroll == total - room + 1
                &&& page.scroll == first
            }
        }),
{
    let total = content.len() as int;
    let page = page_of(total, room, requested);
    let lines = page_lines(content, page);
    if total <= room {
        assert(lines =~= content);
    } else {
        let first = if requested + room - 1 <= total { requested } else { total - room + 1 };
        assert(lines.skip(1) =~= content.subrange(first, first + room - 1));
    }
}

/// The list of a relationship stands at its label, as wide as the room right of it at most, and
/// says what the edge is called.
pub proof fn law_lists_stand_at_their_label(
    c: CanvasView,
    plan: VisualizationPlan,
    r: RelationshipView,
    scroll_y: int,
    height: int,
    requested: int,
)
    requires
        overlay_of(c, plan, r, scroll_y, height, requested) is Some,
        0 <= scroll_y,
        scroll_y + height <= 65535,
    ensures
        ({
            let o = overlay_of(c, plan, r, scroll_y, height, requested)->0;
            &&& o.target == r
            &&& scroll_y <= o.rect.y < scroll_y + height
            &&& o.rect.x < c.viewport.width
            &&& o.rect.x + o.rect.width <= c.viewport.width
            &&& exists|k: int|
                0 <= k < c.relationships.len() && (#[trigger] c.relationships[k]).target == r
                    && c.relationships[k].has_hidden_label && c.relationships[k].label_rect.x == o.rect.x
                    && c.relationships[k].label_rect.y == o.rect.y
            &&& o.total_lines == wrapped(
                drawn_edges(plan.forms[r.form])[r.edge].overlay_label,
                c.viewport.width - o.rect.x,
            ).len()
        }),
{
    lemma_route_index(c.relationships, r, 0);
}

proof fn lemma_route_index(routes: Seq<RouteView>, r: RelationshipView, i: int)
    requires
        0 <= i <= routes.len(),
    ensures
        crate::diagram_canvas::route_index(routes, r, i) is Some ==> {
            let k = crate::diagram_canvas::route_index(routes, r, i)->0;
            i <= k < routes.len() && routes[k].target == r
        },
    decreases routes.len() - i,
{
    if i < routes.len() {
        lemma_route_index(routes, r, i + 1);
    }
}

/// A connector is drawn for every edge between two boxes, from the box of its source to the box
/// of its target.
pub proof fn law_edges_join_their_boxes(form: VizForm, f: int, boxes: Seq<NodeView>, width: int, n: int, e: int)
    requires
        0 <= e < n <= drawn_edges(form).len(),
        box_index(boxes, TargetView { form: f, id: drawn_edges(form)[e].from }, 0) is Some,
        box_index(boxes, TargetView { form: f, id: drawn_edges(form)[e].to }, 0) is Some,
    ensures
        ({
            let edge = drawn_edges(form)[e];
            let a = boxes[box_index(boxes, TargetView { form: f, id: edge.from }, 0)->0];
            let b = boxes[box_index(boxes, TargetView { form: f, id: edge.to }, 0)->0];
            form_routes(form, f, boxes, width, n).contains(
                route_of(
                    RelationshipView { form: f, edge: e, from: edge.from, to: edge.to },
                    a.rect,
                    b.rect,
                    edge.label,
                    edge.verified,
                    width,
                ),
            )
        }),
    decreases n,
{
    let edge = drawn_edges(form)[e];
    let a = boxes[box_index(boxes, TargetView { form: f, id: edge.from }, 0)->0];
    let b = boxes[box_index(boxes, TargetView { form: f, id: edge.to }, 0)->0];
    let route = route_of(
        RelationshipView { form: f, edge: e, from: edge.from, to: edge.to },
        a.rect,
        b.rect,
        edge.label,
        edge.verified,
        width,
    );
    let before = form_routes(form, f, boxes, width, n - 1);
    let all = form_routes(form, f, boxes, width, n);
    if e < n - 1 {
        law_edges_join_their_boxes(form, f, boxes, width, n - 1, e);
        let k = choose|k: int| 0 <= k < before.len() && before[k] == route;
        assert(all[k] == route);
    } else {
        assert(all[before.len() as int] == route);
    }
}

/// A box is found by its target.
pub proof fn law_boxes_are_found_by_target(boxes: Seq<NodeView>, t: TargetView, i: int)
    requires
        0 <= i <= boxes.len(),
    ensures
        match box_index(boxes, t, i) {
            Some(k) => i <= k < boxes.len() && boxes[k].target == t,
            None => forall|j: int| i <= j < boxes.len() ==> (#[trigger] boxes[j]).target != t,
        },
    decreases boxes.len() - i,
{
    if i < boxes.len() {
        law_boxes_are_found_by_target(boxes, t, i + 1);
    }
}

/// A vertical connector runs midway between the middles of its boxes where both have that
/// column, and its label stands midway along it.
pub proof fn law_vertical_connectors_run_midway(
    r: RelationshipView,
    a: DiagramRect,
    b: DiagramRect,
    label: Seq<char>,
    verified: bool,
    width: int,
)
    requires
        is_inner(a),
        is_inner(b),
        a.x < b.x + b.width,
        b.x < a.x + a.width,
        a.y + a.height <= b.y || b.y + b.height <= a.y,
    ensures
        ({
            let route = route_of(r, a, b, label, verified, width);
            let (p, q) = (a.x + a.width / 2, b.x + b.width / 2);
            let (low, high) = if p <= q { (p, q) } else { (q, p) };
            let mid = low + (high - low) / 2;
            let (top, bottom) = if route.path[0].y <= route.path[1].y {
                (route.path[0].y as int, route.path[1].y as int)
            } else {
                (route.path[1].y as int, route.path[0].y as int)
            };
            &&& a.x <= mid < a.x + a.width && b.x <= mid < b.x + b.width ==> route.path[0].x == mid
            &&& route.label_rect.y == top + (bottom - top) / 2
        }),
{
}

/// A sideways connector leaves and reaches its boxes in a row they share, midway in what they
/// share, or else in the middle of each, and bends midway between them.
pub proof fn law_sideways_connectors_bend_midway(
    r: RelationshipView,
    a: DiagramRect,
    b: DiagramRect,
    label: Seq<char>,
    verified: bool,
    width: int,
)
    requires
        is_inner(a),
        is_inner(b),
        a.x + a.width <= b.x || b.x + b.width <= a.x,
    ensures
        ({
            let path = route_of(r, a, b, label, verified, width).path;
            let share = a.y < b.y + b.height && b.y < a.y + a.height;
            let top = if a.y >= b.y { a.y as int } else { b.y as int };
            let bottom = if a.y + a.height <= b.y + b.height { a.y + a.height - 1 } else { b.y + b.height - 1 };
            let (p, q) = (path[0], path.last());
            &&& share ==> p.y == top + (bottom - top) / 2 && q.y == p.y
            &&& !share ==> p.y == a.y + a.height / 2 && q.y == b.y + b.height / 2
            &&& p.y != q.y ==> path.len() == 4 && path[1].y == p.y && path[2].y == q.y && path[1].x == path[2].x
            &&& p.y != q.y && p.x <= q.x && a.x + a.width <= b.x ==> path[1].x == p.x + (q.x - p.x) / 2
            &&& p.y != q.y && q.x <= p.x && b.x + b.width <= a.x ==> path[1].x == q.x + (p.x - q.x) / 2
        }),
{
}

/// The label of a sideways connector stands in the row in which it leaves, in the middle of the
/// lane between the boxes, and leaves two cells at each side.
pub proof fn law_sideways_labels_stand_in_the_lane(
    r: RelationshipView,
    a: DiagramRect,
    b: DiagramRect,
    label: Seq<char>,
    verified: bool,
    width: int,
)
    requires
        is_inner(a),
        is_inner(b),
        a.x + a.width + 8 <= b.x,
        b.x - (a.x + a.width) <= width,
    ensures
        ({
            let route = route_of(r, a, b, label, verified, width);
            let left = a.x + a.width + 1;
            let right = b.x - 2;
            let room = right - left + 1 - 4;
            let cells = display_width(truncated(trimmed(label), room)) as int;
            &&& route.label == truncated(trimmed(label), room)
            &&& route.label_rect.y == route.path[0].y
            &&& 0 < cells <= room ==> route.label_rect.width == cells && route.label_rect.x == left + (right - left - (cells
                - 1)) / 2
        }),
{
}

} // verus!
