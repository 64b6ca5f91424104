//! How a plan becomes a scene: where its boxes are placed, which links join them, which way the
//! connectors take, and what is written along them.

use vstd::prelude::*;
use crate::action::TargetView;
use crate::canvas::{
    across, areas, bounds_of, box_role, box_showing, box_width_of, carries, connector_route, crosses, crossings, detour,
    edge_drawn, ends_of, evidence_row, label_piece, label_written, link_drawn, lowest, rightmost, route_score, score,
    size, stands_out, topmost, widest,
};
use crate::canvas_grid::{around, CanvasRect, CellView, PlanCanvasPoint};
use crate::canvas_scene::{
    automatic, below, beside_at, chars_within, child_links, column_of, cut_label, edge_links, evidence_place,
    evidence_text, first_top, form_bottom, form_links, gap_of, graph_at, is_child, knows, label_of, last_node, layer_in,
    layer_of, layer_row, next_row, node_links, pass, roots_visited, scene_box, scene_of, spelled_out, stack_row,
    stacked_at, stands_at, visited, words_filled, Arrangement, Growth, LinkView, SceneView,
};
use crate::diagram::{edge_verifiable, kind_name, DiagramRole};
use crate::diagram_layout::node_card;
use crate::plan::{FormKind, PlanEdge, PlanEdgeKind, PlanEvidence, PlanNode, VisualizationPlan, VizForm};
use crate::text::{cells_of_char, display_width, join_with};
use crate::wrap::{decimal_of, ended, trimmed};

verus! {

/// Lines break between words and keep every word: joined by spaces they read as the words do.
pub proof fn law_lines_keep_the_words(words: Seq<Seq<char>>, width: int, n: int)
    requires
        0 <= n <= words.len(),
        forall|k: int| 0 <= k < words.len() ==> (#[trigger] words[k]).len() > 0 && display_width(words[k]) <= width,
    ensures
        join_with(ended(words_filled(words, width, n)), seq![' ']) == join_with(words.take(n), seq![' ']),
        n > 0 ==> words_filled(words, width, n).open.len() > 0,
        n == 0 ==> words_filled(words, width, n).lines.len() == 0 && words_filled(words, width, n).open.len() == 0,
    decreases n,
{
    let sp = seq![' '];
    if n > 0 {
        law_lines_keep_the_words(words, width, n - 1);
        let before = words_filled(words, width, n - 1);
        let after = words_filled(words, width, n);
        let word = words[n - 1];
        assert(word.len() > 0 && display_width(word) <= width);
        assert(words.take(n).drop_last() =~= words.take(n - 1));
        assert(words.take(n).last() == word);
        if n == 1 {
            assert(ended(after) =~= seq![word]);
            assert(words.take(1) =~= seq![word]);
        } else {
            let old = ended(before);
            assert(old == before.lines.push(before.open));
            if display_width(before.open) + 1 + display_width(word) > width {
                assert(ended(after).drop_last() =~= old);
            } else {
                let new = ended(after);
                assert(new.drop_last() =~= before.lines);
                assert(old.drop_last() =~= before.lines);
                assert(join_with(new, sp) =~= join_with(old, sp) + sp + word);
            }
        }
    } else {
        assert(words.take(0) =~= Seq::empty());
        assert(ended(words_filled(words, width, 0)) =~= Seq::empty());
    }
}

/// A word goes on the open line wherever it fits there after a space, and else begins the next.
pub proof fn law_words_fill_the_lines(words: Seq<Seq<char>>, width: int, n: int)
    requires
        0 < n <= words.len(),
        words_filled(words, width, n - 1).open.len() > 0,
    ensures
        ({
            let before = words_filled(words, width, n - 1);
            let after = words_filled(words, width, n);
            let fits = display_width(before.open) + 1 + display_width(words[n - 1]) <= width;
            &&& fits ==> after.lines == before.lines && after.open == before.open + seq![' '] + words[n - 1]
            &&& !fits ==> after.lines == before.lines.push(before.open) && after.open == words[n - 1]
        }),
{
    let before = words_filled(words, width, n - 1);
    assert(before.open.push(' ') + words[n - 1] =~= before.open + seq![' '] + words[n - 1]);
}

proof fn lemma_within(text: Seq<char>, budget: int, i: int)
    requires
        0 <= i <= text.len(),
    ensures
        i <= chars_within(text, budget, i) <= text.len(),
        chars_within(text, budget, i) < text.len() ==> display_width(text.take(chars_within(text, budget, i)))
            + cells_of_char(text[chars_within(text, budget, i)]) > budget,
    decreases text.len() - i,
{
    if i < text.len() && display_width(text.take(i)) + cells_of_char(text[i]) <= budget {
        lemma_within(text, budget, i + 1);
    }
}

/// A label that fits is kept; one that does not keeps its beginning and ends in an ellipsis.
pub proof fn law_cut_labels_end_in_an_ellipsis(text: Seq<char>, width: int)
    requires
        0 <= width,
    ensures
        display_width(text) <= width ==> cut_label(text, width) == text,
        display_width(text) > width && width == 0 ==> cut_label(text, width).len() == 0,
        display_width(text) > width && width > 0 ==> {
            let n = cut_label(text, width).len() - 1;
            &&& 0 <= n <= text.len()
            &&& cut_label(text, width).last() == '…'
            &&& cut_label(text, width).take(n) == text.take(n)
            &&& n < text.len() ==> display_width(text.take(n)) + cells_of_char(text[n]) > width - 1
        },
{
    lemma_within(text, width - 1, 0);
    if display_width(text) > width && width > 0 {
        let n = chars_within(text, width - 1, 0);
        assert(cut_label(text, width).take(n) =~= text.take(n));
    }
}

/// An edge shows its own label, or else what it is.
pub proof fn law_edges_show_a_label(e: PlanEdge)
    ensures
        e.label is Some ==> label_of(e) == e.label->0@,
        e.label is None ==> label_of(e) == kind_name(e.kind),
{
}

/// Columns are far enough apart for every label between them: fourteen cells, and eight more
/// than the label takes.
pub proof fn law_columns_leave_room_for_labels(edges: Seq<PlanEdge>, n: int, i: int)
    requires
        0 <= i < n <= edges.len(),
        display_width(label_of(edges[i])) <= 1_000_000,
    ensures
        gap_of(edges, n) >= 14,
        gap_of(edges, n) >= display_width(label_of(edges[i])) + 8,
    decreases n,
{
    if i < n - 1 {
        law_columns_leave_room_for_labels(edges, n - 1, i);
    } else {
        lemma_gap(edges, n - 1);
    }
}

proof fn lemma_gap(edges: Seq<PlanEdge>, n: int)
    ensures
        gap_of(edges, n) >= 14,
    decreases n,
{
    if n > 0 {
        lemma_gap(edges, n - 1);
    }
}

/// The next box begins three rows below the full height of the one before.
pub proof fn law_boxes_are_three_rows_apart(y: int, node: PlanNode, width: int)
    requires
        0 <= y,
        y + node_card(node, width, true).len() + 3 <= i32::MAX,
    ensures
        next_row(y, node, width) == y + node_card(node, width, true).len() + 3,
{
}

/// Columns follow each other at the width of a box and the gap.
pub proof fn law_columns_follow_each_other(depth: int, width: int, gap: int)
    requires
        0 <= depth <= 1000,
        0 <= width <= 32,
        0 <= gap <= 1_000_000,
    ensures
        column_of(0, width, gap) == 0,
        column_of(depth + 1, width, gap) == column_of(depth, width, gap) + width + gap,
{
    assert((depth + 1) * (width + gap) == depth * (width + gap) + (width + gap)) by (nonlinear_arith);
    assert(0 <= depth * (width + gap) <= 1000 * 1_000_032) by (nonlinear_arith)
        requires
            0 <= depth <= 1000,
            0 <= width + gap <= 1_000_032,
    ;
    assert(0 * (width + gap) == 0);
}

/// Stacked boxes stand in the first column, each below the one before.
pub proof fn law_stacked_boxes_stand_below_each_other(nodes: Seq<PlanNode>, top: int, width: int, n: int, i: int)
    requires
        0 <= i < n <= nodes.len(),
        forall|j: int| i < j < n ==> (#[trigger] nodes[j]).id@ != nodes[i].id@,
    ensures
        ({
            let placed = stacked_at(nodes, top, width, n);
            &&& placed.dom().contains(nodes[i].id@)
            &&& placed[nodes[i].id@].x == 0
            &&& i32::MIN <= stack_row(nodes, top, width, i) <= i32::MAX ==> placed[nodes[i].id@].y == stack_row(
                nodes,
                top,
                width,
                i,
            )
            &&& stack_row(nodes, top, width, i + 1) == next_row(stack_row(nodes, top, width, i), nodes[i], width)
            &&& stack_row(nodes, top, width, 0) == top
        }),
    decreases n,
{
    if i < n - 1 {
        law_stacked_boxes_stand_below_each_other(nodes, top, width, n - 1, i);
        assert(nodes[n - 1].id@ != nodes[i].id@);
    }
}

/// Before and after stand beside each other in one row.
pub proof fn law_compared_boxes_stand_beside_each_other(
    nodes: Seq<PlanNode>,
    top: int,
    width: int,
    gap: int,
    n: int,
    i: int,
)
    requires
        0 <= i < n <= nodes.len(),
        i32::MIN <= top <= i32::MAX,
        forall|j: int| i < j < n ==> (#[trigger] nodes[j]).id@ != nodes[i].id@,
    ensures
        ({
            let placed = beside_at(nodes, top, width, gap, n);
            &&& placed.dom().contains(nodes[i].id@)
            &&& placed[nodes[i].id@].y == top
            &&& placed[nodes[i].id@].x == column_of(i, width, gap)
        }),
    decreases n,
{
    if i < n - 1 {
        law_compared_boxes_stand_beside_each_other(nodes, top, width, gap, n - 1, i);
        assert(nodes[n - 1].id@ != nodes[i].id@);
    }
}

proof fn lemma_growth(nodes: Seq<PlanNode>, k: int, depth: int, s: Growth, width: int, gap: int, id: Seq<char>)
    requires
        s.placed.dom().contains(id),
    ensures
        visited(nodes, k, depth, s, width, gap).placed.dom().contains(id),
        visited(nodes, k, depth, s, width, gap).placed[id] == s.placed[id],
    decreases nodes.len() - depth, nodes[k].children.len() + 1,
{
    if !(depth >= nodes.len() || s.placed.dom().contains(nodes[k].id@)) {
        let here = Growth {
            row: next_row(s.row, nodes[k], width),
            placed: s.placed.insert(nodes[k].id@, crate::canvas_scene::point(column_of(depth, width, gap), s.row)),
        };
        lemma_growth_below(nodes, k, depth, here, width, gap, nodes[k].children.len() as int, id);
    }
}

proof fn lemma_growth_below(
    nodes: Seq<PlanNode>,
    k: int,
    depth: int,
    s: Growth,
    width: int,
    gap: int,
    n: int,
    id: Seq<char>,
)
    requires
        s.placed.dom().contains(id),
    ensures
        below(nodes, k, depth, s, width, gap, n).placed.dom().contains(id),
        below(nodes, k, depth, s, width, gap, n).placed[id] == s.placed[id],
    decreases nodes.len() - depth, n,
{
    if !(n <= 0 || depth >= nodes.len()) {
        lemma_growth_below(nodes, k, depth, s, width, gap, n - 1, id);
        let before = below(nodes, k, depth, s, width, gap, n - 1);
        match last_node(nodes, nodes[k].children[n - 1]@, nodes.len() as int) {
            Some(j) => {
                lemma_growth(nodes, j, depth + 1, before, width, gap, id);
            },
            None => {},
        }
    }
}

/// A node of a tree stands in the column of its depth, in the next free row; its first child
/// stands one column further, below it. What is placed stays where it is.
pub proof fn law_trees_grow_to_the_right(nodes: Seq<PlanNode>, k: int, depth: int, s: Growth, width: int, gap: int, id: Seq<char>)
    requires
        0 <= depth < nodes.len(),
        !s.placed.dom().contains(nodes[k].id@),
        i32::MIN <= s.row <= i32::MAX,
    ensures
        ({
            let after = visited(nodes, k, depth, s, width, gap);
            let child = last_node(nodes, nodes[k].children[0]@, nodes.len() as int);
            &&& after.placed.dom().contains(nodes[k].id@)
            &&& after.placed[nodes[k].id@].x == column_of(depth, width, gap)
            &&& after.placed[nodes[k].id@].y == s.row
            &&& s.placed.dom().contains(id) ==> after.placed.dom().contains(id) && after.placed[id] == s.placed[id]
            &&& nodes[k].children.len() > 0 && child is Some && depth + 1 < nodes.len() && !s.placed.dom().contains(
                nodes[child->0].id@,
            ) && nodes[child->0].id@ != nodes[k].id@ ==> after.placed.dom().contains(nodes[child->0].id@)
                && after.placed[nodes[child->0].id@].x == column_of(depth + 1, width, gap) && after.placed[nodes[child->0].id@].y
                == next_row(s.row, nodes[k], width)
        }),
{
    let here = Growth {
        row: next_row(s.row, nodes[k], width),
        placed: s.placed.insert(nodes[k].id@, crate::canvas_scene::point(column_of(depth, width, gap), s.row)),
    };
    let n = nodes[k].children.len() as int;
    lemma_growth_below(nodes, k, depth, here, width, gap, n, nodes[k].id@);
    if s.placed.dom().contains(id) {
        lemma_growth_below(nodes, k, depth, here, width, gap, n, id);
    }
    let child = last_node(nodes, nodes[k].children[0]@, nodes.len() as int);
    if n > 0 && child is Some && depth + 1 < nodes.len() && !s.placed.dom().contains(nodes[child->0].id@) && nodes[child->0].id@
        != nodes[k].id@ {
        let j = child->0;
        let first = visited(nodes, j, depth + 1, here, width, gap);
        assert(below(nodes, k, depth, here, width, gap, 0) == here);
        assert(below(nodes, k, depth, here, width, gap, 1) == first);
        let there = Growth {
            row: next_row(here.row, nodes[j], width),
            placed: here.placed.insert(nodes[j].id@, crate::canvas_scene::point(column_of(depth + 1, width, gap), here.row)),
        };
        lemma_growth_below(nodes, j, depth + 1, there, width, gap, nodes[j].children.len() as int, nodes[j].id@);
        lemma_later_children(nodes, k, depth, here, width, gap, n, nodes[j].id@);
    }
}

proof fn lemma_later_children(
    nodes: Seq<PlanNode>,
    k: int,
    depth: int,
    s: Growth,
    width: int,
    gap: int,
    n: int,
    id: Seq<char>,
)
    requires
        n >= 1,
        depth < nodes.len(),
        below(nodes, k, depth, s, width, gap, 1).placed.dom().contains(id),
    ensures
        below(nodes, k, depth, s, width, gap, n).placed.dom().contains(id),
        below(nodes, k, depth, s, width, gap, n).placed[id] == below(nodes, k, depth, s, width, gap, 1).placed[id],
    decreases n,
{
    if n > 1 {
        lemma_later_children(nodes, k, depth, s, width, gap, n - 1, id);
        let before = below(nodes, k, depth, s, width, gap, n - 1);
        match last_node(nodes, nodes[k].children[n - 1]@, nodes.len() as int) {
            Some(j) => {
                lemma_growth(nodes, j, depth + 1, before, width, gap, id);
            },
            None => {},
        }
    }
}

/// A pass puts the target of every edge at least one layer after its source, as far as there are
/// layers, and takes no node back.
pub proof fn law_passes_push_targets_on(
    before: Map<Seq<char>, usize>,
    edges: Seq<PlanEdge>,
    deepest: int,
    n: int,
    e: int,
    id: Seq<char>,
)
    requires
        0 <= e < n <= edges.len(),
        0 <= deepest <= usize::MAX,
    ensures
        ({
            let now = pass(before, edges, deepest, n);
            let from = layer_in(before, edges[e].from@);
            &&& from + 1 <= deepest ==> layer_in(now, edges[e].to@) >= from + 1
            &&& from + 1 > deepest ==> layer_in(now, edges[e].to@) >= deepest
            &&& layer_in(now, id) >= layer_in(before, id)
        }),
    decreases n,
{
    lemma_pass_grows(before, edges, deepest, n - 1, id);
    lemma_pass_grows(before, edges, deepest, n - 1, edges[e].to@);
    let now = pass(before, edges, deepest, n - 1);
    if e < n - 1 {
        law_passes_push_targets_on(before, edges, deepest, n - 1, e, id);
    }
    lemma_pass_step(before, edges, deepest, n, id);
    lemma_pass_step(before, edges, deepest, n, edges[e].to@);
}

proof fn lemma_pass_step(before: Map<Seq<char>, usize>, edges: Seq<PlanEdge>, deepest: int, n: int, id: Seq<char>)
    requires
        0 < n <= edges.len(),
        0 <= deepest <= usize::MAX,
    ensures
        layer_in(pass(before, edges, deepest, n), id) >= layer_in(pass(before, edges, deepest, n - 1), id),
        id == edges[n - 1].to@ ==> layer_in(pass(before, edges, deepest, n), id) >= (if layer_in(
            before,
            edges[n - 1].from@,
        ) + 1 < deepest { layer_in(before, edges[n - 1].from@) + 1 } else { deepest }),
{
}

proof fn lemma_pass_grows(before: Map<Seq<char>, usize>, edges: Seq<PlanEdge>, deepest: int, n: int, id: Seq<char>)
    requires
        0 <= n <= edges.len(),
        0 <= deepest <= usize::MAX,
    ensures
        layer_in(pass(before, edges, deepest, n), id) >= layer_in(before, id),
    decreases n,
{
    if n > 0 {
        lemma_pass_grows(before, edges, deepest, n - 1, id);
        lemma_pass_step(before, edges, deepest, n, id);
    }
}

/// A node of a flow stands in the column of its layer, below the earlier nodes of that layer.
pub proof fn law_flows_stand_in_their_layers(form: VizForm, top: int, width: int, gap: int, n: int, i: int)
    requires
        0 <= i < n <= form.nodes.len(),
        forall|j: int| i < j < n ==> (#[trigger] form.nodes[j]).id@ != form.nodes[i].id@,
        i32::MIN <= layer_row(form, layer_of(form, i), top, width, i) <= i32::MAX,
    ensures
        ({
            let placed = graph_at(form, top, width, gap, n);
            let layer = layer_of(form, i);
            &&& placed.dom().contains(form.nodes[i].id@)
            &&& placed[form.nodes[i].id@].x == column_of(layer, width, gap)
            &&& placed[form.nodes[i].id@].y == layer_row(form, layer, top, width, i)
            &&& layer_row(form, layer, top, width, i + 1) == next_row(
                layer_row(form, layer, top, width, i),
                form.nodes[i],
                width,
            )
            &&& forall|other: int|
                other != layer ==> #[trigger] layer_row(form, other, top, width, i + 1) == layer_row(
                    form,
                    other,
                    top,
                    width,
                    i,
                )
            &&& layer_row(form, layer, top, width, 0) == top
        }),
    decreases n,
{
    if i < n - 1 {
        law_flows_stand_in_their_layers(form, top, width, gap, n - 1, i);
        assert(form.nodes[n - 1].id@ != form.nodes[i].id@);
    }
}

/// Sequences and summaries are stacked, comparisons stand beside each other, and flows follow
/// their edges.
pub proof fn law_forms_are_placed_by_kind(form: VizForm, top: int, width: int)
    ensures
        ({
            let n = form.nodes.len() as int;
            let gap = gap_of(form.edges@, form.edges.len() as int);
            &&& form.kind == FormKind::Sequence || form.kind == FormKind::ImpactSummary || form.kind == FormKind::FocusedDiff
                ==> automatic(form, top, width) == stacked_at(form.nodes@, top, width, n)
            &&& form.kind == FormKind::BeforeAfter ==> automatic(form, top, width) == beside_at(
                form.nodes@,
                top,
                width,
                gap,
                n,
            )
            &&& form.kind == FormKind::RelationshipFlow ==> automatic(form, top, width) == graph_at(form, top, width, gap, n)
        }),
{
}

/// A box stands where it was moved to, else where it was placed.
pub proof fn law_moved_boxes_keep_their_place(
    moved: Map<TargetView, PlanCanvasPoint>,
    placed: Map<Seq<char>, PlanCanvasPoint>,
    t: TargetView,
    top: int,
)
    ensures
        moved.dom().contains(t) ==> stands_at(moved, placed, t, top) == moved[t],
        !moved.dom().contains(t) && placed.dom().contains(t.id) ==> stands_at(moved, placed, t, top) == placed[t.id],
{
}

/// A box shows its node's card, open or closed, at its place; its footprint is that of the open
/// card, so that opening it moves nothing.
pub proof fn law_boxes_show_their_card(form: VizForm, f: int, k: int, top: int, width: int, a: Arrangement)
    requires
        0 <= k < form.nodes.len(),
        0 <= width <= 32,
        node_card(form.nodes[k], width, true).len() <= i32::MAX,
    ensures
        ({
            let b = scene_box(form, f, k, top, width, a);
            let t = TargetView { form: f, id: form.nodes[k].id@ };
            &&& b.target == t
            &&& b.node == form.nodes[k]
            &&& a.open.contains(t) ==> b.lines == node_card(form.nodes[k], width, true)
            &&& !a.open.contains(t) ==> b.lines == node_card(form.nodes[k], width, false)
            &&& b.footprint.x == b.position.x && b.footprint.y == b.position.y
            &&& b.footprint.width == width
            &&& b.footprint.height == node_card(form.nodes[k], width, true).len()
            &&& b.area().x == b.position.x && b.area().y == b.position.y && b.area().width == width
        }),
{
}

/// The next form begins four rows below the lowest box of the one before.
pub proof fn law_forms_stand_below_each_other(plan: VisualizationPlan, top: int, width: int, a: Arrangement, n: int)
    requires
        0 < n <= plan.forms.len(),
    ensures
        ({
            let before = scene_of(plan, top, width, a, n - 1);
            let form = plan.forms[n - 1];
            let bottom = form_bottom(form, n - 1, form.nodes.len() as int, before.top, width, a);
            let after = scene_of(plan, top, width, a, n);
            &&& i32::MIN <= bottom && bottom + 4 <= i32::MAX ==> after.top == bottom + 4
            &&& after.nodes.len() == before.nodes.len() + form.nodes.len()
            &&& after.nodes.take(before.nodes.len() as int) == before.nodes
            &&& after.links == before.links + form_links(form, n - 1)
            &&& scene_of(plan, top, width, a, 0).top == top
        }),
{
    let before = scene_of(plan, top, width, a, n - 1);
    let after = scene_of(plan, top, width, a, n);
    assert(after.nodes.take(before.nodes.len() as int) =~= before.nodes);
}

/// No box of a form reaches below its bottom.
pub proof fn law_forms_end_below_their_boxes(form: VizForm, f: int, n: int, top: int, width: int, a: Arrangement, k: int)
    requires
        0 <= k < n <= form.nodes.len(),
    ensures
        form_bottom(form, f, n, top, width, a) >= scene_box(form, f, k, top, width, a).footprint.spec_bottom(),
        form_bottom(form, f, n, top, width, a) >= top,
    decreases n,
{
    if k < n - 1 {
        law_forms_end_below_their_boxes(form, f, n - 1, top, width, a, k);
    } else {
        lemma_bottom(form, f, n - 1, top, width, a);
    }
}

proof fn lemma_bottom(form: VizForm, f: int, n: int, top: int, width: int, a: Arrangement)
    ensures
        form_bottom(form, f, n, top, width, a) >= top,
    decreases n,
{
    if n > 0 {
        lemma_bottom(form, f, n - 1, top, width, a);
    }
}

/// An id is known exactly where a node has it.
pub proof fn law_known_ids_are_nodes(nodes: Seq<PlanNode>, id: Seq<char>)
    ensures
        knows(nodes, id) <==> exists|i: int| 0 <= i < nodes.len() && (#[trigger] nodes[i]).id@ == id,
{
    lemma_last_node(nodes, id, nodes.len() as int);
}

proof fn lemma_last_node(nodes: Seq<PlanNode>, id: Seq<char>, n: int)
    requires
        0 <= n <= nodes.len(),
    ensures
        match last_node(nodes, id, n) {
            Some(k) => 0 <= k < n && nodes[k].id@ == id,
            None => forall|i: int| 0 <= i < n ==> (#[trigger] nodes[i]).id@ != id,
        },
    decreases n,
{
    if n > 0 {
        lemma_last_node(nodes, id, n - 1);
    }
}

/// Every edge between known nodes is a link from its source to its target, under its label; an
/// edge of which an end is unknown is left out.
pub proof fn law_known_edges_are_links(form: VizForm, f: int, n: int, e: int)
    requires
        0 <= e < n <= form.edges.len(),
    ensures
        knows(form.nodes@, form.edges[e].from@) && knows(form.nodes@, form.edges[e].to@) ==> edge_links(form, f, n).contains(
            LinkView {
                form: f,
                from: form.edges[e].from@,
                to: form.edges[e].to@,
                kind: form.edges[e].kind,
                label: label_of(form.edges[e]),
            },
        ),
        forall|k: int| #![trigger edge_links(form, f, n)[k]]
            0 <= k < edge_links(form, f, n).len() ==> knows(form.nodes@, edge_links(form, f, n)[k].from) && knows(
                form.nodes@,
                edge_links(form, f, n)[k].to,
            ) && edge_links(form, f, n)[k].form == f,
    decreases n,
{
    let all = edge_links(form, f, n);
    let before = edge_links(form, f, n - 1);
    let item = LinkView {
        form: f,
        from: form.edges[e].from@,
        to: form.edges[e].to@,
        kind: form.edges[e].kind,
        label: label_of(form.edges[e]),
    };
    lemma_links_known(form, f, n);
    if knows(form.nodes@, form.edges[e].from@) && knows(form.nodes@, form.edges[e].to@) {
        if e < n - 1 {
            law_known_edges_are_links(form, f, n - 1, e);
            let k = choose|k: int| 0 <= k < before.len() && before[k] == item;
            assert(all[k] == item);
        } else {
            assert(all[before.len() as int] == item);
        }
    }
}

proof fn lemma_links_known(form: VizForm, f: int, n: int)
    requires
        0 <= n <= form.edges.len(),
    ensures
        forall|k: int| #![trigger edge_links(form, f, n)[k]]
            0 <= k < edge_links(form, f, n).len() ==> knows(form.nodes@, edge_links(form, f, n)[k].from) && knows(
                form.nodes@,
                edge_links(form, f, n)[k].to,
            ) && edge_links(form, f, n)[k].form == f,
    decreases n,
{
    if n > 0 {
        lemma_links_known(form, f, n - 1);
        let before = edge_links(form, f, n - 1);
        assert forall|k: int| #![trigger edge_links(form, f, n)[k]]
            0 <= k < edge_links(form, f, n).len() implies knows(form.nodes@, edge_links(form, f, n)[k].from) && knows(
            form.nodes@,
            edge_links(form, f, n)[k].to,
        ) && edge_links(form, f, n)[k].form == f by {
            if k < before.len() {
                assert(edge_links(form, f, n)[k] == before[k]);
            }
        }
    }
}

/// A known child that no edge spells out is linked to its parent; one that is spelled out is not
/// linked twice.
pub proof fn law_children_are_linked_once(links: Seq<LinkView>, form: VizForm, f: int, k: int, n: int, c: int)
    requires
        0 <= c < n <= form.nodes[k].children.len(),
    ensures
        ({
            let (from, to) = (form.nodes[k].id@, form.nodes[k].children[c]@);
            let all = child_links(links, form, f, k, n);
            let item = LinkView { form: f, from, to, kind: PlanEdgeKind::Contains, label: "contains"@ };
            let named = exists|e: int| 0 <= e < form.edges.len() && (#[trigger] form.edges[e]).from@ == from && form.edges[e].to@
                == to;
            &&& knows(form.nodes@, to) && !named ==> all.contains(item)
            &&& all.len() >= links.len()
            &&& n == 1 && (named || !knows(form.nodes@, to)) ==> all == links
        }),
    decreases n,
{
    let (from, to) = (form.nodes[k].id@, form.nodes[k].children[c]@);
    let all = child_links(links, form, f, k, n);
    let before = child_links(links, form, f, k, n - 1);
    let item = LinkView { form: f, from, to, kind: PlanEdgeKind::Contains, label: "contains"@ };
    let named = exists|e: int| 0 <= e < form.edges.len() && (#[trigger] form.edges[e]).from@ == from && form.edges[e].to@ == to;
    if named {
        let e = choose|e: int| 0 <= e < form.edges.len() && (#[trigger] form.edges[e]).from@ == from && form.edges[e].to@ == to;
        assert(form.edges@[e].from@ == from);
        assert(spelled_out(form.edges@, from, to));
    }
    if spelled_out(form.edges@, from, to) {
        let e = choose|e: int| #![trigger form.edges@[e]]
            0 <= e < form.edges@.len() && form.edges@[e].from@ == from && form.edges@[e].to@ == to;
        assert(form.edges[e].from@ == from);
        assert(named);
    }
    lemma_child_links_grow(links, form, f, k, n - 1);
    if c < n - 1 {
        law_children_are_linked_once(links, form, f, k, n - 1, c);
        if knows(form.nodes@, to) && !named {
            let j = choose|j: int| 0 <= j < before.len() && before[j] == item;
            assert(all[j] == item);
        }
    } else if knows(form.nodes@, to) && !named {
        assert(all[before.len() as int] == item);
    }
}

proof fn lemma_child_links_grow(links: Seq<LinkView>, form: VizForm, f: int, k: int, n: int)
    ensures
        child_links(links, form, f, k, n).len() >= links.len(),
    decreases n,
{
    if n > 0 {
        lemma_child_links_grow(links, form, f, k, n - 1);
    }
}

/// A before and an after without any link are joined by what the first becomes; no other form
/// is.
pub proof fn law_only_before_becomes_after(form: VizForm, f: int)
    ensures
        ({
            let links = node_links(form, f, form.nodes.len() as int);
            let joined = form.kind == FormKind::BeforeAfter && links.len() == 0 && form.nodes.len() >= 2;
            &&& joined ==> form_links(form, f).len() == 1 && form_links(form, f)[0].from == form.nodes[0].id@ && form_links(
                form,
                f,
            )[0].to == form.nodes[1].id@ && form_links(form, f)[0].label == "becomes"@
            &&& !joined ==> form_links(form, f) == links
        }),
{
}

/// Evidence names its file and the line from one, or the hunk from one, and its reason.
pub proof fn law_evidence_names_its_place(e: PlanEvidence)
    ensures
        e.range is Some && (e.range->0).start < u32::MAX ==> evidence_place(e) == e.file@ + seq![':'] + decimal_of(
            (e.range->0).start + 1,
        ),
        e.range is None && e.hunk is Some && e.hunk->0 < u32::MAX ==> evidence_place(e) == e.file@ + " [h"@ + decimal_of(
            e.hunk->0 + 1,
        ) + "]"@,
        e.range is None && e.hunk is None ==> evidence_place(e) == e.file@,
        evidence_text(e) == evidence_place(e) + " — "@ + trimmed(e.reason@),
{
    assert(e.file@.push(':') =~= e.file@ + seq![':']);
}

/// Whether a cell lies in a box of the canvas.
pub open spec fn holds_cell(r: CanvasRect, x: int, y: int) -> bool {
    r.x <= x && x < r.x + r.width && r.y <= y && y < r.y + r.height
}

/// A piece of a connector crosses a box exactly where one of its cells lies in it.
pub proof fn law_pieces_cross_the_boxes_they_touch(a: PlanCanvasPoint, b: PlanCanvasPoint, r: CanvasRect)
    requires
        r.width > 0,
        r.height > 0,
        r.x + r.width <= i32::MAX,
        r.y + r.height <= i32::MAX,
        a.x == b.x || a.y == b.y,
    ensures
        a.y == b.y ==> (crosses(a, b, r) <==> exists|x: int|
            (a.x <= x <= b.x || b.x <= x <= a.x) && #[trigger] holds_cell(r, x, a.y as int)),
        a.x == b.x && a.y != b.y ==> (crosses(a, b, r) <==> exists|y: int|
            (a.y <= y <= b.y || b.y <= y <= a.y) && #[trigger] holds_cell(r, a.x as int, y)),
{
    if a.y == b.y {
        let (low, high) = if a.x <= b.x { (a.x as int, b.x as int) } else { (b.x as int, a.x as int) };
        if crosses(a, b, r) {
            let x = if low >= r.x { low } else { r.x as int };
            assert(holds_cell(r, x, a.y as int));
        }
    } else {
        let (low, high) = if a.y <= b.y { (a.y as int, b.y as int) } else { (b.y as int, a.y as int) };
        if crosses(a, b, r) {
            let y = if low >= r.y { low } else { r.y as int };
            assert(holds_cell(r, a.x as int, y));
        }
    }
}

/// A connector with one bend that crosses no box is taken wherever there is one; only then is
/// there no detour.
pub proof fn law_free_connectors_are_taken(from: CanvasRect, to: CanvasRect, obstacles: Seq<CanvasRect>)
    ensures
        ({
            let e = ends_of(from, to);
            let first = seq![e.start, PlanCanvasPoint { x: e.end.x, y: e.start.y }, e.end];
            let second = seq![e.start, PlanCanvasPoint { x: e.start.x, y: e.end.y }, e.end];
            let route = connector_route(from, to, obstacles);
            &&& score(first, obstacles, from, to) == 0 ==> route == first
            &&& score(first, obstacles, from, to) > 0 && score(second, obstacles, from, to) == 0 ==> route == second
            &&& score(first, obstacles, from, to) > 0 && score(second, obstacles, from, to) > 0 ==> route == detour(
                e.start,
                e.end,
                across(from, to),
                obstacles,
            )
            &&& route[0] == e.start && route.last() == e.end
        }),
{
    let e = ends_of(from, to);
    let first = seq![e.start, PlanCanvasPoint { x: e.end.x, y: e.start.y }, e.end];
    let second = seq![e.start, PlanCanvasPoint { x: e.start.x, y: e.end.y }, e.end];
    lemma_scores(first, obstacles, from, to, 2);
    lemma_scores(second, obstacles, from, to, 2);
}

proof fn lemma_scores(route: Seq<PlanCanvasPoint>, obstacles: Seq<CanvasRect>, from: CanvasRect, to: CanvasRect, n: int)
    ensures
        route_score(route, obstacles, from, to, n) >= 0,
    decreases n,
{
    if n > 0 {
        lemma_scores(route, obstacles, from, to, n - 1);
        lemma_crossings(route[n - 1], route[n], obstacles, from, to, obstacles.len() as int);
    }
}

proof fn lemma_crossings(
    a: PlanCanvasPoint,
    b: PlanCanvasPoint,
    obstacles: Seq<CanvasRect>,
    from: CanvasRect,
    to: CanvasRect,
    n: int,
)
    ensures
        crossings(a, b, obstacles, from, to, n) >= 0,
    decreases n,
{
    if n > 0 {
        lemma_crossings(a, b, obstacles, from, to, n - 1);
    }
}

/// A piece that crosses a box other than its own two ends is counted.
pub proof fn law_crossed_boxes_are_counted(
    a: PlanCanvasPoint,
    b: PlanCanvasPoint,
    obstacles: Seq<CanvasRect>,
    from: CanvasRect,
    to: CanvasRect,
    n: int,
)
    requires
        0 <= n <= obstacles.len(),
    ensures
        crossings(a, b, obstacles, from, to, n) == 0 <==> forall|i: int|
            0 <= i < n && #[trigger] obstacles[i] != from && obstacles[i] != to ==> !crosses(a, b, obstacles[i]),
    decreases n,
{
    if n > 0 {
        law_crossed_boxes_are_counted(a, b, obstacles, from, to, n - 1);
        lemma_crossings(a, b, obstacles, from, to, n - 1);
    }
}

proof fn lemma_edges_of_all(obstacles: Seq<CanvasRect>, n: int, i: int)
    requires
        0 <= i < n <= obstacles.len(),
    ensures
        topmost(obstacles, n) <= obstacles[i].y,
        rightmost(obstacles, n) >= obstacles[i].spec_right(),
    decreases n,
{
    if n > 1 {
        if i < n - 1 {
            lemma_edges_of_all(obstacles, n - 1, i);
        }
    }
}

/// A detour passes two rows above all boxes, or two columns right of them.
pub proof fn law_detours_pass_around_all_boxes(
    start: PlanCanvasPoint,
    end: PlanCanvasPoint,
    above: bool,
    obstacles: Seq<CanvasRect>,
    i: int,
)
    requires
        0 <= i < obstacles.len(),
        topmost(obstacles, obstacles.len() as int) >= i32::MIN + 2,
        rightmost(obstacles, obstacles.len() as int) <= i32::MAX - 2,
    ensures
        ({
            let route = detour(start, end, above, obstacles);
            &&& route.len() == 4 && route[0] == start && route[3] == end
            &&& above ==> route[1].x == start.x && route[2].x == end.x && route[1].y == route[2].y && route[1].y
                <= obstacles[i].y - 2
            &&& !above ==> route[1].y == start.y && route[2].y == end.y && route[1].x == route[2].x && route[1].x
                >= obstacles[i].spec_right() + 2
        }),
{
    lemma_edges_of_all(obstacles, obstacles.len() as int, i);
    lemma_extremes_bounded(obstacles, obstacles.len() as int);
}

proof fn lemma_extremes_bounded(obstacles: Seq<CanvasRect>, n: int)
    requires
        0 < n <= obstacles.len(),
    ensures
        i32::MIN <= topmost(obstacles, n) <= i32::MAX,
        i32::MIN <= rightmost(obstacles, n) <= i32::MAX,
    decreases n,
{
    if n > 1 {
        lemma_extremes_bounded(obstacles, n - 1);
    }
}

proof fn lemma_label_piece(route: Seq<PlanCanvasPoint>, n: int, i: int)
    requires
        0 <= n < route.len(),
        0 <= i < n,
        carries(route, i),
    ensures
        ({
            let p = label_piece(route, n);
            &&& p is Some && 0 <= p->0 < n && carries(route, p->0)
            &&& size(route[p->0].x - route[p->0 + 1].x) >= size(route[i].x - route[i + 1].x)
        }),
    decreases n,
{
    lemma_label_piece_is(route, n - 1);
    if i < n - 1 {
        lemma_label_piece(route, n - 1, i);
    }
}

proof fn lemma_label_piece_is(route: Seq<PlanCanvasPoint>, n: int)
    requires
        0 <= n < route.len(),
    ensures
        label_piece(route, n) is Some ==> 0 <= label_piece(route, n)->0 < n && carries(route, label_piece(route, n)->0),
    decreases n,
{
    if n > 0 {
        lemma_label_piece_is(route, n - 1);
    }
}

/// The label of a connector stands on its longest horizontal piece, in the middle, and leaves
/// both of its ends free.
pub proof fn law_labels_stand_on_the_longest_piece(
    route: Seq<PlanCanvasPoint>,
    label: Seq<char>,
    from: CanvasRect,
    to: CanvasRect,
    i: int,
)
    requires
        0 <= i < route.len() - 1,
        route[i].y == route[i + 1].y,
        route[i].x + 2 < route[i + 1].x || route[i + 1].x + 2 < route[i].x,
    ensures
        ({
            let p = label_piece(route, route.len() - 1);
            let w = label_written(route, label, from, to);
            let long = if route[p->0].x < route[p->0 + 1].x { route[p->0 + 1].x - route[p->0].x } else {
                route[p->0].x - route[p->0 + 1].x
            };
            let own = if route[i].x < route[i + 1].x { route[i + 1].x - route[i].x } else { route[i].x - route[i + 1].x };
            &&& p is Some && long >= own
            &&& w.y == route[p->0].y
            &&& w.text == cut_label(trimmed(label), long - 2)
            &&& w.x > route[p->0].x || w.x > route[p->0 + 1].x
        }),
{
    assert(carries(route, i));
    lemma_label_piece(route, route.len() - 1, i);
}

/// A box stands out where the plan highlights it, or where it stands for what is selected.
pub proof fn law_selected_boxes_stand_out(node: PlanNode, selected: Seq<char>)
    ensures
        node.highlight ==> stands_out(node, selected),
        selected.len() > 0 && node.label@ == selected ==> stands_out(node, selected),
        selected.len() > 0 && node.entity is Some && (node.entity->0).symbol is Some && ((node.entity->0).symbol->0)@ == selected
            ==> stands_out(node, selected),
        !node.highlight && selected.len() == 0 ==> !stands_out(node, selected),
        !node.highlight && node.label@ != selected && (node.entity is None || (node.entity->0).symbol is None) ==> !stands_out(
            node,
            selected,
        ),
{
}

/// What is under the pointer is drawn as such, then what is selected; else the first and the
/// last row are the border.
pub proof fn law_boxes_are_drawn_by_role(hovered: bool, selected: bool, i: int, rows: int)
    ensures
        hovered ==> box_role(hovered, selected, i, rows) == DiagramRole::Hovered,
        !hovered && selected ==> box_role(hovered, selected, i, rows) == DiagramRole::Selected,
        !hovered && !selected && (i == 0 || i == rows - 1) ==> box_role(hovered, selected, i, rows) == DiagramRole::Border,
        !hovered && !selected && 0 < i < rows - 1 ==> box_role(hovered, selected, i, rows) == DiagramRole::Text,
{
}

proof fn lemma_lowest(nodes: Seq<SceneView>, n: int, i: int)
    requires
        0 <= i < n <= nodes.len(),
    ensures
        lowest(nodes, n) >= nodes[i].footprint.spec_bottom(),
    decreases n,
{
    if n > 1 && i < n - 1 {
        lemma_lowest(nodes, n - 1, i);
    }
}

/// Evidence stands two rows below the lowest box; boxes stand two rows below the intent.
pub proof fn law_evidence_stands_below_all_boxes(nodes: Seq<SceneView>, intent_rows: int, i: int)
    requires
        0 <= i < nodes.len(),
        lowest(nodes, nodes.len() as int) <= i32::MAX - 2,
        0 <= intent_rows <= 1_000_000,
    ensures
        evidence_row(nodes, intent_rows) >= nodes[i].footprint.spec_bottom() + 2,
        first_top(intent_rows) == intent_rows + 2,
{
    lemma_lowest(nodes, nodes.len() as int, i);
}

/// An area around two areas reaches around both.
pub proof fn law_areas_reach_around_both(a: CanvasRect, b: CanvasRect, x: int, y: int)
    requires
        a.width > 0,
        a.height > 0,
        0 <= a.x < 1_000_000,
        0 <= a.y < 1_000_000,
        0 <= b.x < 1_000_000,
        0 <= b.y < 1_000_000,
        a.width < 1_000_000,
        a.height < 1_000_000,
        0 <= b.width < 1_000_000,
        0 <= b.height < 1_000_000,
    ensures
        holds_cell(a, x, y) || holds_cell(b, x, y) ==> holds_cell(around(a, b), x, y),
        around(a, b).x == a.x || around(a, b).x == b.x,
        around(a, b).y == a.y || around(a, b).y == b.y,
{
}

/// A box is as wide as the viewport, between four and thirty-two columns.
pub proof fn law_boxes_are_four_to_thirty_two_wide(width: int)
    ensures
        width < 4 ==> box_width_of(width) == 4,
        4 <= width <= 32 ==> box_width_of(width) == width,
        width > 32 ==> box_width_of(width) == 32,
{
}

/// No line is wider than the widest.
pub proof fn law_widest_line_is_the_widest(lines: Seq<Seq<char>>, n: int, i: int)
    requires
        0 <= i < n <= lines.len(),
        display_width(lines[i]) <= i32::MAX,
    ensures
        widest(lines, n) >= display_width(lines[i]),
    decreases n,
{
    if i < n - 1 {
        law_widest_line_is_the_widest(lines, n - 1, i);
    }
}

/// Two boxes meet exactly where they share a cell.
pub proof fn law_boxes_meet_where_they_share_a_cell(a: CanvasRect, b: CanvasRect)
    requires
        0 < a.width,
        0 < a.height,
        0 < b.width,
        0 < b.height,
        a.x + a.width <= i32::MAX,
        a.y + a.height <= i32::MAX,
        b.x + b.width <= i32::MAX,
        b.y + b.height <= i32::MAX,
    ensures
        a.meets(b) <==> exists|x: int, y: int| #[trigger] holds_cell(a, x, y) && holds_cell(b, x, y),
{
    if a.meets(b) {
        let x = if a.x >= b.x { a.x as int } else { b.x as int };
        let y = if a.y >= b.y { a.y as int } else { b.y as int };
        assert(holds_cell(a, x, y) && holds_cell(b, x, y));
    }
}

/// A link is drawn from the box of its source to the box of its target, solid only where the
/// analysis can know it; a link without both boxes is not drawn.
pub proof fn law_links_join_their_boxes(
    g: Seq<Seq<Option<CellView>>>,
    nodes: Seq<SceneView>,
    link: LinkView,
    origin: PlanCanvasPoint,
    a: int,
    b: int,
)
    requires
        0 <= a < nodes.len(),
        0 <= b < nodes.len(),
        nodes[a].target == (TargetView { form: link.form, id: link.from }),
        nodes[b].target == (TargetView { form: link.form, id: link.to }),
        forall|i: int, j: int| #![trigger nodes[i], nodes[j]] 0 <= i < j < nodes.len() ==> nodes[i].target != nodes[j].target,
    ensures
        link_drawn(g, nodes, link, origin) == edge_drawn(
            g,
            nodes[a].area(),
            nodes[b].area(),
            link.label,
            edge_verifiable(nodes[a].node, nodes[b].node, link.kind),
            origin,
            areas(nodes),
        ),
{
    lemma_box_showing(nodes, nodes[a].target, 0, a);
    lemma_box_showing(nodes, nodes[b].target, 0, b);
}

proof fn lemma_box_showing(nodes: Seq<SceneView>, t: TargetView, i: int, k: int)
    requires
        0 <= i <= k < nodes.len(),
        nodes[k].target == t,
        forall|j: int| i <= j < k ==> (#[trigger] nodes[j]).target != t,
    ensures
        box_showing(nodes, t, i) == Some(k),
    decreases k - i,
{
    if i < k {
        lemma_box_showing(nodes, t, i + 1, k);
    }
}

/// A connector leaves the middle of the side that faces the target, in the cell next to it, and
/// ends next to the middle of the side that it reaches.
pub proof fn law_connectors_join_the_middles(from: CanvasRect, to: CanvasRect)
    requires
        0 < from.x < 1_000_000,
        0 < from.y < 1_000_000,
        0 < to.x < 1_000_000,
        0 < to.y < 1_000_000,
        0 < from.width < 1_000_000,
        0 < from.height < 1_000_000,
        0 < to.width < 1_000_000,
        0 < to.height < 1_000_000,
    ensures
        ({
            let e = ends_of(from, to);
            let dx = to.x - from.x;
            let dy = to.y - from.y;
            let wide = (if dx < 0 { -dx } else { dx }) >= (if dy < 0 { -dy } else { dy });
            &&& wide ==> e.start.y == from.y + from.height / 2 && e.end.y == to.y + to.height / 2
            &&& wide && dx >= 0 ==> e.start.x == from.x + from.width && e.end.x == to.x - 1
            &&& wide && dx < 0 ==> e.start.x == from.x - 1 && e.end.x == to.x + to.width
            &&& !wide ==> e.start.x == from.x + from.width / 2 && e.end.x == to.x + to.width / 2
            &&& !wide && dy >= 0 ==> e.start.y == from.y + from.height && e.end.y == to.y - 1
            &&& !wide && dy < 0 ==> e.start.y == from.y - 1 && e.end.y == to.y + to.height
        }),
{
}

/// A node that is no child of another stands in the first column, unless it was reached before.
pub proof fn law_roots_stand_in_the_first_column(nodes: Seq<PlanNode>, top: int, width: int, gap: int, n: int, k: int)
    requires
        0 <= k < n <= nodes.len(),
        !is_child(nodes, nodes[k].id@),
        !roots_visited(nodes, top, width, gap, k).placed.dom().contains(nodes[k].id@),
        i32::MIN <= roots_visited(nodes, top, width, gap, k).row <= i32::MAX,
    ensures
        ({
            let after = roots_visited(nodes, top, width, gap, n).placed;
            after.dom().contains(nodes[k].id@) && after[nodes[k].id@].x == 0 && after[nodes[k].id@].y == roots_visited(
                nodes,
                top,
                width,
                gap,
                k,
            ).row
        }),
    decreases n,
{
    let before = roots_visited(nodes, top, width, gap, n - 1);
    if k < n - 1 {
        law_roots_stand_in_the_first_column(nodes, top, width, gap, n - 1, k);
        if !is_child(nodes, nodes[n - 1].id@) {
            lemma_growth(nodes, n - 1, 0, before, width, gap, nodes[k].id@);
        }
    } else {
        law_trees_grow_to_the_right(nodes, k, 0, before, width, gap, nodes[k].id@);
        assert(column_of(0, width, gap) == 0) by {
            assert(0 * crate::canvas_grid::sat32(width + gap) == 0);
        }
    }
}

/// The bounds of a lone box leave two cells around it, and room for labels at its right.
pub proof fn law_bounds_leave_a_margin(nodes: Seq<SceneView>)
    requires
        nodes.len() == 1,
        0 < nodes[0].footprint.width < 1_000_000,
        0 < nodes[0].footprint.height < 1_000_000,
        0 <= nodes[0].footprint.x < 1_000_000,
        0 <= nodes[0].footprint.y < 1_000_000,
    ensures
        ({
            let r = bounds_of(nodes, Seq::empty(), Seq::empty(), Seq::empty());
            let f = nodes[0].footprint;
            r.x == f.x - 2 && r.y == f.y - 2 && r.height == f.height + 4 && r.width == f.width + 8
        }),
{
    assert(crate::canvas::with_boxes(crate::canvas_grid::no_area(), nodes, 0) == crate::canvas_grid::no_area());
    assert(crate::canvas::with_boxes(crate::canvas_grid::no_area(), nodes, 1) == nodes[0].footprint);
}

} // verus!
