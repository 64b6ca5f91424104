//! What a generated diagram is made of: which boxes are open and where they were put, which
//! edges are drawn, and how cards look and are laid out.

use vstd::prelude::*;
use crate::action::{RelationshipView, TargetView};
use crate::diagram::{
    collapsed_state, connects, drawn_edges, edge_verifiable, explicit_edge, is_node, is_sanitized, keep_nodes,
    kind_name, moved_state, node_index, node_toggled, relationship_in, relationship_toggled, sanitized_warning,
    synced_state, with_children, with_containment, without, DiagramPosition, DiagramRect, EdgeView, StateView,
};
use crate::diagram_layout::{
    card_height, card_row, card_width_of, card_x, chunked, columns_of, compact_card, form_rows, is_directed, last_index,
    layer_of, layers_of, leads, node_card, open_card, row_height, stride_of, top_rank, with_row, with_rows, Placed,
};
use crate::plan::{FormKind, PlanEdge, PlanEdgeKind, PlanNode, VisualizationPlan, VizForm};
use crate::wrap::{decimal_of, padded, trimmed, wrapped};

verus! {

proof fn lemma_without_is_filter(list: Seq<TargetView>, t: TargetView)
    ensures
        without(list, t) == list.filter(|x: TargetView| x != t),
    decreases list.len(),
{
    reveal(Seq::filter);
    if list.len() > 0 {
        lemma_without_is_filter(list.drop_last(), t);
    }
}

proof fn lemma_keep_is_filter(list: Seq<TargetView>, plan: VisualizationPlan)
    ensures
        keep_nodes(list, plan) == list.filter(|x: TargetView| is_node(plan, x)),
    decreases list.len(),
{
    reveal(Seq::filter);
    if list.len() > 0 {
        lemma_keep_is_filter(list.drop_last(), plan);
    }
}

/// A moved box stands where it was put and lies on top; every other box stays where it is, in
/// the order it had, and what is open stays open.
pub proof fn law_moved_boxes_stay_where_put(s: StateView, t: TargetView, p: DiagramPosition)
    ensures
        ({
            let after = moved_state(s, t, p);
            &&& after.positions.dom() == s.positions.dom().insert(t)
            &&& after.positions[t] == p
            &&& forall|u: TargetView| u != t ==> #[trigger] after.positions[u] == s.positions[u]
            &&& after.z_order.last() == t
            &&& after.z_order.drop_last() == s.z_order.filter(|x: TargetView| x != t)
            &&& after.scope == s.scope && after.expanded == s.expanded && after.relationship == s.relationship
                && after.overlay_scroll == s.overlay_scroll
        }),
{
    lemma_without_is_filter(s.z_order, t);
    let after = moved_state(s, t, p);
    assert(after.z_order.drop_last() =~= without(s.z_order, t));
}

/// Opening a box opens it and no other, puts it on top and closes the list of a relationship;
/// closing it closes it and no other, and leaves the order and the list alone. Neither moves a
/// box.
pub proof fn law_boxes_open_and_close(s: StateView, t: TargetView)
    ensures
        ({
            let after = node_toggled(s, t);
            &&& after.expanded.contains(t) == !s.expanded.contains(t)
            &&& forall|u: TargetView| u != t ==> (#[trigger] after.expanded.contains(u) == s.expanded.contains(u))
            &&& after.positions == s.positions && after.scope == s.scope && after.overlay_scroll == s.overlay_scroll
            &&& !s.expanded.contains(t) ==> after.relationship is None && after.z_order.last() == t
                && after.z_order.drop_last() == s.z_order.filter(|x: TargetView| x != t)
            &&& s.expanded.contains(t) ==> after.relationship == s.relationship && after.z_order == s.z_order
        }),
{
    lemma_without_is_filter(s.z_order, t);
    let after = node_toggled(s, t);
    if !s.expanded.contains(t) {
        assert(after.z_order.drop_last() =~= without(s.z_order, t));
    }
}

/// One relationship's list is open at a time: asking for it opens it at its first page in place
/// of another, asking again closes it.
pub proof fn law_relationships_open_and_close(s: StateView, r: RelationshipView)
    ensures
        ({
            let once = relationship_toggled(s, r);
            &&& s.relationship != Some(r) ==> once.relationship == Some(r)
            &&& s.relationship == Some(r) ==> once.relationship is None
            &&& once.overlay_scroll == 0
            &&& once.positions == s.positions && once.z_order == s.z_order && once.expanded == s.expanded && once.scope
                == s.scope
        }),
{
}

/// A plan of another generation starts afresh; one of the same generation keeps the places,
/// the order and what is open of every node it still has, and drops the rest.
pub proof fn law_plans_of_one_generation_keep_the_diagram(s: StateView, plan: VisualizationPlan, t: TargetView)
    ensures
        ({
            let after = synced_state(s, plan);
            let same = s.scope == Some(plan.epoch);
            &&& after.scope == Some(plan.epoch)
            &&& !same ==> !after.positions.dom().contains(t) && !after.expanded.contains(t) && after.z_order.len() == 0
                && after.relationship is None && after.overlay_scroll == 0
            &&& same ==> {
                &&& after.positions.dom().contains(t) <==> s.positions.dom().contains(t) && is_node(plan, t)
                &&& after.positions.dom().contains(t) ==> after.positions[t] == s.positions[t]
                &&& after.expanded.contains(t) <==> s.expanded.contains(t) && is_node(plan, t)
                &&& after.z_order == s.z_order.filter(|x: TargetView| is_node(plan, x))
                &&& after.overlay_scroll == s.overlay_scroll
                &&& after.relationship == (if s.relationship is Some && relationship_in(plan, s.relationship->0) {
                    s.relationship
                } else {
                    None
                })
            }
        }),
{
    lemma_keep_is_filter(s.z_order, plan);
}

/// Leaving the diagram closes everything and moves nothing.
pub proof fn law_closing_all_moves_nothing(s: StateView)
    ensures
        collapsed_state(s).expanded == Set::<TargetView>::empty(),
        collapsed_state(s).relationship is None,
        collapsed_state(s).overlay_scroll == 0,
        collapsed_state(s).positions == s.positions,
        collapsed_state(s).z_order == s.z_order,
        collapsed_state(s).scope == s.scope,
{
}

/// The names of the relationships.
pub proof fn law_relationships_have_names(kind: PlanEdgeKind)
    ensures
        kind == PlanEdgeKind::FlowsTo ==> kind_name(kind) == "flows to"@,
        kind == PlanEdgeKind::Calls ==> kind_name(kind) == "calls"@,
        kind == PlanEdgeKind::Reads ==> kind_name(kind) == "reads"@,
        kind == PlanEdgeKind::Writes ==> kind_name(kind) == "writes"@,
        kind == PlanEdgeKind::Imports ==> kind_name(kind) == "imports"@,
        kind == PlanEdgeKind::Implements ==> kind_name(kind) == "implements"@,
        kind == PlanEdgeKind::Contains ==> kind_name(kind) == "contains"@,
{
}

/// An edge is verified only between two nodes that stand for code, and only where the analysis
/// can know it: a flow, a read or a write never is.
pub proof fn law_verified_edges_are_known(from: PlanNode, to: PlanNode, kind: PlanEdgeKind)
    ensures
        from.entity is None || to.entity is None ==> !edge_verifiable(from, to, kind),
        kind == PlanEdgeKind::FlowsTo || kind == PlanEdgeKind::Reads || kind == PlanEdgeKind::Writes
            ==> !edge_verifiable(from, to, kind),
        from.entity is Some && to.entity is Some && (kind == PlanEdgeKind::Calls || kind == PlanEdgeKind::Imports || kind
            == PlanEdgeKind::Implements || kind == PlanEdgeKind::Contains) ==> edge_verifiable(from, to, kind),
{
}

/// An edge of the plan leads from its source to its target and shows its label; in the list of
/// the relationship one without a label shows what it is.
pub proof fn law_edges_lead_where_the_plan_says(form: VizForm, e: PlanEdge)
    ensures
        ({
            let shown = explicit_edge(form, e);
            &&& shown.from == e.from@
            &&& shown.to == e.to@
            &&& e.label is Some ==> shown.label == e.label->0@ && shown.overlay_label == e.label->0@
            &&& e.label is None ==> shown.label.len() == 0 && shown.overlay_label == kind_name(e.kind)
            &&& shown.verified ==> node_index(form.nodes@, e.from@, 0) is Some && node_index(form.nodes@, e.to@, 0) is Some
        }),
{
}

proof fn lemma_children_kept(edges: Seq<EdgeView>, node: PlanNode, c: int)
    requires
        0 <= c <= node.children.len(),
    ensures
        ({
            let all = with_children(edges, node, c);
            &&& all.len() >= edges.len()
            &&& all.take(edges.len() as int) == edges
            &&& forall|j: int| #![trigger node.children[j]] 0 <= j < c ==> connects(all, node.id@, node.children[j]@)
            &&& forall|k: int| #![trigger all[k]]
                edges.len() <= k < all.len() ==> !all[k].verified && all[k].label == "contains"@ && all[k].overlay_label
                    == "contains"@ && all[k].from == node.id@ && exists|j: int|
                    0 <= j < c && (#[trigger] node.children[j])@ == all[k].to
        }),
    decreases c,
{
    if c > 0 {
        lemma_children_kept(edges, node, c - 1);
        let before = with_children(edges, node, c - 1);
        let all = with_children(edges, node, c);
        assert(all.take(edges.len() as int) =~= edges);
        let child = node.children[c - 1]@;
        assert forall|j: int| #![trigger node.children[j]] 0 <= j < c implies connects(all, node.id@, node.children[j]@) by {
            if j < c - 1 {
                let i = choose|i: int| #![trigger before[i]]
                    0 <= i < before.len() && before[i].from == node.id@ && before[i].to == node.children[j]@;
                assert(all[i] == before[i]);
            } else if !connects(before, node.id@, child) {
                assert(all[before.len() as int].to == child);
            }
        }
        assert forall|k: int| #![trigger all[k]] edges.len() <= k < all.len() implies !all[k].verified && all[k].label
            == "contains"@ && all[k].overlay_label == "contains"@ && all[k].from == node.id@ && exists|j: int|
            0 <= j < c && (#[trigger] node.children[j])@ == all[k].to by {
            if k < before.len() {
                assert(all[k] == before[k]);
                let j = choose|j: int| 0 <= j < c - 1 && (#[trigger] node.children[j])@ == before[k].to;
                assert(node.children[j]@ == all[k].to);
            } else {
                assert(node.children[c - 1]@ == all[k].to);
            }
        }
    } else {
        assert(edges.take(edges.len() as int) =~= edges);
    }
}

proof fn lemma_containment_kept(edges: Seq<EdgeView>, nodes: Seq<PlanNode>, n: int)
    requires
        0 <= n <= nodes.len(),
    ensures
        ({
            let all = with_containment(edges, nodes, n);
            &&& all.len() >= edges.len()
            &&& all.take(edges.len() as int) == edges
            &&& forall|i: int, j: int| #![trigger nodes[i].children[j]]
                0 <= i < n && 0 <= j < nodes[i].children.len() ==> connects(all, nodes[i].id@, nodes[i].children[j]@)
            &&& forall|k: int| #![trigger all[k]]
                edges.len() <= k < all.len() ==> !all[k].verified && all[k].label == "contains"@
        }),
    decreases n,
{
    if n > 0 {
        lemma_containment_kept(edges, nodes, n - 1);
        let before = with_containment(edges, nodes, n - 1);
        let node = nodes[n - 1];
        let all = with_containment(edges, nodes, n);
        lemma_children_kept(before, node, node.children.len() as int);
        assert(all.take(edges.len() as int) =~= all.take(before.len() as int).take(edges.len() as int));
        assert forall|i: int, j: int| #![trigger nodes[i].children[j]]
            0 <= i < n && 0 <= j < nodes[i].children.len() implies connects(all, nodes[i].id@, nodes[i].children[j]@) by {
            if i < n - 1 {
                let k = choose|k: int| #![trigger before[k]]
                    0 <= k < before.len() && before[k].from == nodes[i].id@ && before[k].to == nodes[i].children[j]@;
                assert(all[k] == all.take(before.len() as int)[k]);
            } else {
                assert(node.children[j]@ == nodes[i].children[j]@);
            }
        }
        assert forall|k: int| #![trigger all[k]] edges.len() <= k < all.len() implies !all[k].verified && all[k].label
            == "contains"@ by {
            if k < before.len() {
                assert(all[k] == all.take(before.len() as int)[k]);
            }
        }
    } else {
        assert(edges.take(edges.len() as int) =~= edges);
    }
}

/// Every edge of the plan is drawn, in order, and every node is connected to each of its
/// children; what is drawn beyond the plan's edges is never verified.
pub proof fn law_every_edge_and_child_is_drawn(form: VizForm, i: int, n: int, c: int)
    requires
        0 <= n < form.nodes.len(),
        0 <= c < form.nodes[n].children.len(),
    ensures
        ({
            let all = drawn_edges(form);
            &&& all.len() >= form.edges.len()
            &&& 0 <= i < form.edges.len() ==> all[i] == explicit_edge(form, form.edges[i])
            &&& form.edges.len() <= i < all.len() ==> !all[i].verified
            &&& connects(all, form.nodes[n].id@, form.nodes[n].children[c]@)
        }),
{
    let explicit = Seq::new(form.edges.len() as nat, |k: int| explicit_edge(form, form.edges[k]));
    let edges = with_containment(explicit, form.nodes@, form.nodes.len() as int);
    lemma_containment_kept(explicit, form.nodes@, form.nodes.len() as int);
    assert(form.nodes@[n].children[c]@ == form.nodes[n].children[c]@);
    assert(connects(edges, form.nodes[n].id@, form.nodes[n].children[c]@));
    let k = choose|k: int| #![trigger edges[k]]
        0 <= k < edges.len() && edges[k].from == form.nodes[n].id@ && edges[k].to == form.nodes[n].children[c]@;
    assert(drawn_edges(form)[k] == edges[k]);
    if 0 <= i < form.edges.len() {
        assert(edges.take(explicit.len() as int)[i] == edges[i]);
        assert(drawn_edges(form)[i] == edges[i]);
    }
}

/// A before and an after without any edge are joined: the first becomes the second. No other
/// form is given an edge it does not have.
pub proof fn law_before_becomes_after(form: VizForm)
    requires
        form.edges.len() == 0,
        forall|n: int| 0 <= n < form.nodes.len() ==> (#[trigger] form.nodes[n]).children.len() == 0,
    ensures
        form.kind == FormKind::BeforeAfter && form.nodes.len() >= 2 ==> drawn_edges(form).len() == 1 && drawn_edges(form)[0]
            == (EdgeView {
            from: form.nodes[0].id@,
            to: form.nodes[1].id@,
            label: "becomes"@,
            overlay_label: "becomes"@,
            verified: false,
        }),
        form.kind != FormKind::BeforeAfter || form.nodes.len() < 2 ==> drawn_edges(form).len() == 0,
{
    let explicit = Seq::new(form.edges.len() as nat, |k: int| explicit_edge(form, form.edges[k]));
    lemma_childless(explicit, form.nodes@, form.nodes.len() as int);
}

proof fn lemma_childless(edges: Seq<EdgeView>, nodes: Seq<PlanNode>, n: int)
    requires
        0 <= n <= nodes.len(),
        forall|i: int| 0 <= i < nodes.len() ==> (#[trigger] nodes[i]).children.len() == 0,
    ensures
        with_containment(edges, nodes, n) == edges,
    decreases n,
{
    if n > 0 {
        lemma_childless(edges, nodes, n - 1);
        assert(nodes[n - 1].children.len() == 0);
    }
}

/// A node is found by its id: the first that has it.
pub proof fn law_nodes_are_found_by_id(nodes: Seq<PlanNode>, id: Seq<char>, i: int)
    requires
        0 <= i <= nodes.len(),
    ensures
        node_index(nodes, id, i) is Some ==> {
            let k = node_index(nodes, id, i)->0;
            i <= k < nodes.len() && nodes[k].id@ == id && forall|j: int| i <= j < k ==> (#[trigger] nodes[j]).id@ != id
        },
        node_index(nodes, id, i) is None ==> forall|j: int| i <= j < nodes.len() ==> (#[trigger] nodes[j]).id@ != id,
    decreases nodes.len() - i,
{
    if i < nodes.len() {
        law_nodes_are_found_by_id(nodes, id, i + 1);
    }
}

/// A plan from which something was taken out says so, and how much.
pub proof fn law_sanitized_plans_say_so(n: int)
    ensures
        n == 1 ==> sanitized_warning(n) == "⚠ sanitized AI plan · "@ + decimal_of(1) + " item removed"@,
        n != 1 ==> sanitized_warning(n) == "⚠ sanitized AI plan · "@ + decimal_of(n) + " items removed"@,
        is_sanitized(None) == false,
{
}

/// The last column and row of a box are inside it, and the next ones are not.
pub proof fn law_box_edges_are_inside(r: DiagramRect)
    requires
        r.width > 0,
        r.height > 0,
        r.x + r.width <= 65535,
        r.y + r.height <= 65535,
    ensures
        r.right_spec() == r.x + r.width - 1,
        r.bottom_spec() == r.y + r.height - 1,
        r.covers(DiagramPosition { x: r.right_spec() as u16, y: r.bottom_spec() as u16 }),
        forall|x: u16, y: u16| #[trigger]
            r.covers(DiagramPosition { x, y }) <==> r.x <= x && x - r.x < r.width && r.y <= y && y - r.y < r.height,
{
}

/// Whether a line is drawn from one character to another with a text between them.
pub open spec fn is_framed_line(line: Seq<char>, left: char, right: char, inner: Seq<char>) -> bool {
    line == seq![left] + inner + seq![right]
}

/// A card is a frame about its lines: a top, rows between two bars, and a bottom. Closed it has
/// five lines at least; its rows are the label and then the detail.
pub proof fn law_cards_are_framed(node: PlanNode, width: int)
    requires
        4 <= width <= 32,
    ensures
        ({
            let card = node_card(node, width, false);
            let detail = match node.detail {
                Some(t) => trimmed(t@),
                None => trimmed(Seq::empty()),
            };
            let label = wrapped(trimmed(node.label@), width - 2);
            let more = if detail.len() == 0 { Seq::empty() } else { wrapped(detail, width - 2) };
            let line = Seq::new((width - 2) as nat, |i: int| '─');
            &&& card.len() >= 5
            &&& is_framed_line(card[0], '┌', '┐', line)
            &&& is_framed_line(card.last(), '└', '┘', line)
            &&& card.len() == (if label.len() + more.len() < 3 { 5 } else { label.len() + more.len() + 2 })
            &&& forall|i: int|
                0 <= i < label.len() ==> is_framed_line(#[trigger] card[i + 1], '│', '│', padded(label[i], width - 2))
            &&& forall|i: int|
                label.len() <= i < label.len() + more.len() ==> is_framed_line(
                    #[trigger] card[i + 1],
                    '│',
                    '│',
                    padded(more[i - label.len()], width - 2),
                )
        }),
{
    let detail = crate::diagram_layout::text_or_none(node.detail);
    let inner = width - 2;
    let card = compact_card(node.label@, detail, width);
    let body = crate::diagram_layout::compact_body(node.label@, detail, inner);
    let line = Seq::new((width - 2) as nat, |i: int| '─');
    assert(crate::wrap::repeat_of('─', inner) =~= line);
    let label = wrapped(trimmed(node.label@), inner);
    let more = crate::diagram_layout::card_text(detail, inner);
    assert(card.last() == crate::diagram_layout::card_bottom(inner));
    assert forall|i: int| 0 <= i < label.len() + more.len() implies #[trigger] card[i + 1] == card_row(
        if i < label.len() { label[i] } else { more[i - label.len()] },
        inner,
    ) by {
        assert(card[i + 1] == crate::diagram_layout::card_rows(body, inner)[i]);
        assert(body[i] == if i < label.len() { label[i] } else { more[i - label.len()] });
    }
}

/// An open card has the same frame and the same first rows; what it has more stands below them,
/// after an empty row where there is a detail.
pub proof fn law_open_cards_add_to_closed_ones(node: PlanNode, width: int)
    requires
        4 <= width <= 32,
    ensures
        ({
            let closed = node_card(node, width, false);
            let card = node_card(node, width, true);
            let detail = match node.detail {
                Some(t) => trimmed(t@),
                None => trimmed(Seq::empty()),
            };
            let extra = match node.expanded_detail {
                Some(t) => trimmed(t@),
                None => trimmed(Seq::empty()),
            };
            let label = wrapped(trimmed(node.label@), width - 2);
            let short = if detail.len() == 0 { Seq::empty() } else { wrapped(detail, width - 2) };
            let start = label.len() + short.len() + 1;
            let gap = if detail.len() == 0 { 0int } else { 1int };
            &&& card[0] == closed[0]
            &&& card.last() == closed.last()
            &&& forall|i: int| 0 <= i < label.len() + short.len() ==> #[trigger] card[i + 1] == closed[i + 1]
            &&& extra.len() > 0 && extra != detail ==> {
                &&& card.len() >= start + gap + wrapped(extra, width - 2).len() + 1
                &&& forall|i: int|
                    0 <= i < wrapped(extra, width - 2).len() ==> is_framed_line(
                        #[trigger] card[start + gap + i],
                        '│',
                        '│',
                        padded(wrapped(extra, width - 2)[i], width - 2),
                    )
            }
        }),
{
    law_cards_are_framed(node, width);
    let detail = crate::diagram_layout::text_or_none(node.detail);
    let extra = crate::diagram_layout::text_or_none(node.expanded_detail);
    let inner = width - 2;
    let card = open_card(node.label@, detail, extra, width);
    let body = crate::diagram_layout::open_body(node.label@, detail, extra, inner);
    let label = wrapped(trimmed(node.label@), inner);
    let short = crate::diagram_layout::card_text(detail, inner);
    let closed = node_card(node, width, false);
    assert(node_card(node, width, true) == card);
    assert forall|i: int| 0 <= i < body.len() implies #[trigger] card[i + 1] == body[i] by {}
    assert forall|i: int| 0 <= i < label.len() + short.len() implies #[trigger] card[i + 1] == closed[i + 1] by {
        assert(card[i + 1] == body[i]);
        if i < label.len() {
            assert(body[i] == card_row(label[i], inner));
            assert(is_framed_line(closed[i + 1], '│', '│', padded(label[i], inner)));
        } else {
            assert(body[i] == card_row(short[i - label.len()], inner));
            assert(is_framed_line(closed[i + 1], '│', '│', padded(short[i - label.len()], inner)));
        }
    }
    let gap = if trimmed(detail).len() == 0 { 0int } else { 1int };
    let start = label.len() + short.len() + 1;
    let rows = wrapped(trimmed(extra), inner);
    if trimmed(extra).len() > 0 && trimmed(extra) != trimmed(detail) {
        assert forall|i: int| 0 <= i < rows.len() implies is_framed_line(
            #[trigger] card[start + gap + i],
            '│',
            '│',
            padded(rows[i], inner),
        ) by {
            assert(card[start + gap + i] == body[start - 1 + gap + i]);
            assert(body[start - 1 + gap + i] == card_row(rows[i], inner));
        }
    }
}

/// From forty columns on two cards stand beside each other with four columns at least between
/// them, one at each edge; a card is never wider than thirty-two columns.
pub proof fn law_two_cards_fit_from_forty_columns(width: int)
    requires
        0 <= width,
    ensures
        width >= 40 ==> {
            &&& columns_of(width) == 2
            &&& card_width_of(width) == (if width >= 68 { 32int } else { (width - 4) / 2 })
            &&& stride_of(width) + card_width_of(width) == width
            &&& stride_of(width) >= card_width_of(width) + 4
        },
        1 <= width < 40 ==> card_width_of(width) == (if width < 32 { width } else { 32int }) && columns_of(width) == 1,
{
}

/// Cards of a layered form that stand alone in their row are centred; otherwise the first
/// stands at the left edge and the second at the right one.
pub proof fn law_cards_stand_in_their_column(form: VizForm, row: Seq<int>, column: int, width: int)
    requires
        width >= 40,
        0 <= column < row.len() <= 2,
    ensures
        ({
            let x = card_x(form, row, column, width);
            let alone = layers_of(form) is Some && row.len() == 1;
            &&& alone ==> x == (width - card_width_of(width)) / 2
            &&& !alone && column == 0 ==> x == 0
            &&& !alone && column == 1 ==> x + card_width_of(width) == width
        }),
{
    law_two_cards_fit_from_forty_columns(width);
}

/// A form is layered where it shows a sequence or a flow of three nodes or more, one of which
/// leads to another, without a circle.
pub proof fn law_layers_are_for_directed_forms(form: VizForm)
    ensures
        layers_of(form) is Some ==> (form.kind == FormKind::Sequence || form.kind == FormKind::RelationshipFlow)
            && form.nodes.len() >= 3 && exists|u: int, v: int| leads(form, u, v),
        is_directed(form) ==> form.nodes.len() >= 3,
{
}

/// A layer holds the nodes of its rank, and every one of them once, in their order.
pub proof fn law_layers_hold_their_rank(ranks: Seq<int>, rank: int, n: int)
    requires
        0 <= n <= ranks.len(),
    ensures
        ({
            let layer = layer_of(ranks, rank, n);
            &&& forall|k: int| #![trigger layer[k]] 0 <= k < layer.len() ==> 0 <= layer[k] < n && ranks[layer[k]] == rank
            &&& forall|i: int| 0 <= i < n && #[trigger] ranks[i] == rank ==> layer.contains(i)
            &&& forall|j: int, k: int| #![trigger layer[j], layer[k]] 0 <= j < k < layer.len() ==> layer[j] < layer[k]
        }),
    decreases n,
{
    if n > 0 {
        law_layers_hold_their_rank(ranks, rank, n - 1);
        let before = layer_of(ranks, rank, n - 1);
        let layer = layer_of(ranks, rank, n);
        assert forall|i: int| 0 <= i < n && #[trigger] ranks[i] == rank implies layer.contains(i) by {
            if i < n - 1 {
                let k = choose|k: int| 0 <= k < before.len() && before[k] == i;
                assert(layer[k] == i);
            } else {
                assert(layer[before.len() as int] == i);
            }
        }
    }
}

/// No node ranks above the top rank.
pub proof fn law_top_rank_is_the_highest(ranks: Seq<int>, n: int, i: int)
    requires
        0 <= i < n <= ranks.len(),
    ensures
        ranks[i] <= top_rank(ranks, n),
    decreases n,
{
    if i < n - 1 {
        law_top_rank_is_the_highest(ranks, n - 1, i);
    }
}

/// Rows are filled before a new one is begun: each but the last is full, and together they are
/// the list.
pub proof fn law_rows_are_filled_in_order(list: Seq<int>, c: int)
    requires
        c > 0,
    ensures
        ({
            let rows = chunked(list, c);
            &&& rows.flatten() == list
            &&& forall|k: int| #![trigger rows[k]] 0 <= k < rows.len() ==> 0 < rows[k].len() <= c
            &&& forall|k: int| #![trigger rows[k]] 0 <= k < rows.len() - 1 ==> rows[k].len() == c
        }),
    decreases list.len(),
{
    let rows = chunked(list, c);
    if list.len() > 0 {
        let k = if c < list.len() { c } else { list.len() as int };
        law_rows_are_filled_in_order(list.skip(k), c);
        let rest = chunked(list.skip(k), c);
        assert(rows == seq![list.take(k)] + rest);
        assert(rows.drop_first() =~= rest);
        assert(list.take(k) + list.skip(k) =~= list);
        assert(rows.flatten() == rows.first() + rows.drop_first().flatten());
        if c >= list.len() {
            assert(list.skip(k).len() == 0);
            assert(rest.len() == 0);
        }
    } else {
        assert(rows.flatten() =~= list);
    }
}

/// A form without layers shows its nodes in the plan's order.
pub proof fn law_unlayered_forms_keep_the_order(form: VizForm, columns: int)
    requires
        layers_of(form) is None,
        columns > 0,
    ensures
        form_rows(form, columns).flatten() == Seq::new(form.nodes.len() as nat, |i: int| i),
{
    law_rows_are_filled_in_order(Seq::new(form.nodes.len() as nat, |i: int| i), columns);
}

/// A row is as tall as its tallest card.
pub proof fn law_rows_are_as_tall_as_their_cards(form: VizForm, row: Seq<int>, width: int, k: int, j: int)
    requires
        0 <= j < k <= row.len(),
        0 <= row[j] < form.nodes.len(),
    ensures
        row_height(form, row, width, k) >= card_height(form.nodes[row[j]], width),
    decreases k,
{
    if j < k - 1 {
        law_rows_are_as_tall_as_their_cards(form, row, width, k - 1, j);
    }
}

/// The cards of a row stand in one line, each in its column.
pub proof fn law_cards_of_a_row_stand_in_line(
    m: Map<TargetView, DiagramPosition>,
    f: int,
    form: VizForm,
    row: Seq<int>,
    y: int,
    width: int,
    k: int,
    j: int,
)
    requires
        0 <= j < k <= row.len(),
        forall|i: int| 0 <= i < row.len() ==> 0 <= #[trigger] row[i] < form.nodes.len(),
        forall|i: int|
            j < i < row.len() ==> form.nodes[#[trigger] row[i]].id@ != form.nodes[row[j]].id@,
        0 <= y <= 65535,
        0 <= card_x(form, row, j, width) <= 65535,
    ensures
        ({
            let t = TargetView { form: f, id: form.nodes[row[j]].id@ };
            let after = with_row(m, f, form, row, y, width, k);
            &&& after.dom().contains(t)
            &&& after[t].y == y
            &&& after[t].x == card_x(form, row, j, width)
        }),
    decreases k,
{
    if j < k - 1 {
        law_cards_of_a_row_stand_in_line(m, f, form, row, y, width, k - 1, j);
        assert(form.nodes[row[k - 1]].id@ != form.nodes[row[j]].id@);
    }
}

/// The next row begins two lines below the tallest card of the one before.
pub proof fn law_rows_are_two_lines_apart(p: Placed, f: int, form: VizForm, width: int, k: int)
    requires
        0 < k <= form_rows(form, columns_of(width)).len(),
    ensures
        ({
            let row = form_rows(form, columns_of(width))[k - 1];
            let before = with_rows(p, f, form, width, k - 1).y;
            let tall = row_height(form, row, card_width_of(width), row.len() as int);
            0 <= before && before + tall + 2 <= 65535 && 0 <= tall ==> with_rows(p, f, form, width, k).y == before + tall + 2
        }),
{
}

/// Where an id occurs more than once, edges lead to its last node.
pub proof fn law_edges_lead_to_the_last_of_an_id(nodes: Seq<PlanNode>, id: Seq<char>, n: int)
    requires
        0 <= n <= nodes.len(),
    ensures
        last_index(nodes, id, n) is Some ==> {
            let k = last_index(nodes, id, n)->0;
            0 <= k < n && nodes[k].id@ == id && forall|j: int| k < j < n ==> (#[trigger] nodes[j]).id@ != id
        },
        last_index(nodes, id, n) is None ==> forall|j: int| 0 <= j < n ==> (#[trigger] nodes[j]).id@ != id,
    decreases n,
{
    if n > 0 {
        law_edges_lead_to_the_last_of_an_id(nodes, id, n - 1);
    }
}

} // verus!
