//! The cards of a diagram: what each one says, in which layer it stands, and where.

use vstd::prelude::*;
use crate::action::{PlanNodeTarget, TargetView};
use crate::diagram::{drawn_edges, edge_views, normalized_edges, DiagramPosition, DiagramViewport, EdgeView};
use crate::num::{clamp_int, cut_u16, low16, max_int, max_u16, max_usize, min_int, min_usize, monus, sat16};
use crate::plan::{FormKind, PlanNode, VisualizationPlan, VizForm};
use crate::table::Table;
use crate::text::{same_text, texts};
use crate::wrap::{
    append_texts, is_blank, pad, padded, repeat_of, repeated, trim, trimmed, truncate, truncated, wrap_all, wrapped,
};

verus! {

/// Narrowest card of a two-column layout.
pub const MIN_BOX_WIDTH: u16 = 18;

/// Widest card.
pub const MAX_BOX_WIDTH: u16 = 32;

/// The upper border of a card.
pub open spec fn card_top(inner: int) -> Seq<char> {
    seq!['┌'] + repeat_of('─', inner) + seq!['┐']
}

/// The lower border of a card.
pub open spec fn card_bottom(inner: int) -> Seq<char> {
    seq!['└'] + repeat_of('─', inner) + seq!['┘']
}

/// A row of a card that says nothing.
pub open spec fn card_blank(inner: int) -> Seq<char> {
    seq!['│'] + repeat_of(' ', inner) + seq!['│']
}

/// A row of a card with a line of text.
pub open spec fn card_row(line: Seq<char>, inner: int) -> Seq<char> {
    seq!['│'] + padded(line, inner) + seq!['│']
}

/// Rows of a card with lines of text.
pub open spec fn card_rows(lines: Seq<Seq<char>>, inner: int) -> Seq<Seq<char>> {
    Seq::new(lines.len(), |i: int| card_row(lines[i], inner))
}

/// A text in a card: its lines, or nothing where it is blank.
pub open spec fn card_text(text: Seq<char>, inner: int) -> Seq<Seq<char>> {
    if trimmed(text).len() == 0 {
        Seq::empty()
    } else {
        wrapped(trimmed(text), inner)
    }
}

/// The body of a compact card: label and detail in full, and at least three rows.
pub open spec fn compact_body(label: Seq<char>, detail: Seq<char>, inner: int) -> Seq<Seq<char>> {
    let lines = wrapped(trimmed(label), inner) + card_text(detail, inner);
    lines + Seq::new(monus(3, lines.len() as int) as nat, |i: int| Seq::<char>::empty())
}

/// A compact card.
pub open spec fn compact_card(label: Seq<char>, detail: Seq<char>, width: int) -> Seq<Seq<char>> {
    let inner = max_int(width, 4) - 2;
    seq![card_top(inner)] + card_rows(compact_body(label, detail, inner), inner) + seq![card_bottom(inner)]
}

/// The rows of an open card before it is filled up: label, detail, and the expanded detail
/// where it says anything else.
pub open spec fn open_body(label: Seq<char>, detail: Seq<char>, more: Seq<char>, inner: int) -> Seq<Seq<char>> {
    let start = card_rows(wrapped(trimmed(label), inner), inner) + card_rows(card_text(detail, inner), inner);
    if trimmed(more).len() == 0 || trimmed(more) == trimmed(detail) {
        start
    } else if trimmed(detail).len() == 0 {
        start + card_rows(wrapped(trimmed(more), inner), inner)
    } else {
        start + seq![card_blank(inner)] + card_rows(wrapped(trimmed(more), inner), inner)
    }
}

/// An open card: always taller than the compact card of the same node.
pub open spec fn open_card(label: Seq<char>, detail: Seq<char>, more: Seq<char>, width: int) -> Seq<Seq<char>> {
    let inner = width - 2;
    let body = open_body(label, detail, more, inner);
    let fill = monus(compact_card(label, detail, width).len() - 1, body.len() as int);
    seq![card_top(inner)] + body + Seq::new(fill as nat, |i: int| card_blank(inner)) + seq![card_bottom(inner)]
}

/// An optional text, or nothing.
pub open spec fn text_or_none(text: Option<String>) -> Seq<char> {
    match text {
        Some(t) => t@,
        None => Seq::empty(),
    }
}

/// The rows of a node's card in a viewport of some width.
pub open spec fn node_card(node: PlanNode, viewport_width: int, expanded: bool) -> Seq<Seq<char>> {
    let width = clamp_int(viewport_width, 1, MAX_BOX_WIDTH as int);
    if width < 4 {
        seq![truncated("□"@, width)]
    } else if expanded {
        open_card(node.label@, text_or_none(node.detail), text_or_none(node.expanded_detail), width)
    } else {
        compact_card(node.label@, text_or_none(node.detail), width)
    }
}

/// Opening a card makes it taller.
pub proof fn law_open_card_is_taller(node: PlanNode, viewport_width: int)
    requires
        viewport_width >= 4,
    ensures
        node_card(node, viewport_width, true).len() > node_card(node, viewport_width, false).len(),
{
}

fn border(left: char, right: char, inner: usize) -> (out: String)
    ensures
        out@ == seq![left] + repeat_of('─', inner as int) + seq![right],
{
    let mut out = String::new();
    out.push(left);
    out.append(repeated('─', inner).as_str());
    out.push(right);
    proof {
        assert(out@ =~= seq![left] + repeat_of('─', inner as int) + seq![right]);
    }
    out
}

fn boxed(line: &str, inner: usize) -> (out: String)
    ensures
        out@ == card_row(line@, inner as int),
{
    let mut out = String::new();
    out.push('│');
    out.append(pad(line, inner).as_str());
    out.push('│');
    proof {
        assert(out@ =~= card_row(line@, inner as int));
    }
    out
}

fn blank_row(inner: usize) -> (out: String)
    ensures
        out@ == card_blank(inner as int),
{
    let mut out = String::new();
    out.push('│');
    out.append(repeated(' ', inner).as_str());
    out.push('│');
    proof {
        assert(out@ =~= card_blank(inner as int));
    }
    out
}

/// Add a card row for every line.
fn push_boxed(out: &mut Vec<String>, lines: &Vec<String>, inner: usize)
    ensures
        texts(final(out)@) == texts(old(out)@) + card_rows(texts(lines@), inner as int),
{
    let ghost all = card_rows(texts(lines@), inner as int);
    let ghost start = texts(out@);
    let mut i: usize = 0;
    proof {
        assert(start + all.take(0) =~= start);
    }
    while i < lines.len()
        invariant
            i <= lines.len() == all.len(),
            all == card_rows(texts(lines@), inner as int),
            texts(out@) == start + all.take(i as int),
        decreases lines.len() - i,
    {
        let ghost before = out@;
        out.push(boxed(lines[i].as_str(), inner));
        proof {
            assert(all[i as int] == card_row(lines@[i as int]@, inner as int));
            assert(all.take(i + 1) =~= all.take(i as int).push(all[i as int]));
            assert(texts(out@) =~= texts(before).push(all[i as int]));
            assert(texts(out@) =~= start + all.take(i + 1));
        }
        i = i + 1;
    }
    proof {
        assert(all.take(all.len() as int) =~= all);
    }
}

/// The lines of a text in a card.
fn card_lines(text: &str, inner: usize) -> (out: Vec<String>)
    ensures
        texts(out@) == card_text(text@, inner as int),
{
    if is_blank(text) {
        let none: Vec<String> = Vec::new();
        proof {
            assert(texts(none@) =~= Seq::empty());
        }
        none
    } else {
        wrap_all(trim(text).as_str(), inner)
    }
}

/// The rows of a compact card.
pub fn node_box_text(label: &str, detail: &str, width: usize) -> (rows: Vec<String>)
    ensures
        texts(rows@) == compact_card(label@, detail@, width as int),
{
    let width: usize = max_usize(width, 4);
    let inner: usize = width - 2;
    let mut lines = wrap_all(trim(label).as_str(), inner);
    append_texts(&mut lines, card_lines(detail, inner));
    let ghost text = texts(lines@);
    let ghost mut fill: nat = 0;
    proof {
        assert(text.len() == lines.len());
        assert(texts(lines@) =~= text + Seq::new(fill, |i: int| Seq::<char>::empty()));
    }
    while lines.len() < 3
        invariant
            texts(lines@) == text + Seq::new(fill, |i: int| Seq::<char>::empty()),
            fill == monus(lines.len() as int, text.len() as int),
            lines.len() >= text.len(),
            lines.len() <= max_int(3, text.len() as int),
        decreases 3 - lines.len(),
    {
        let ghost before = lines@;
        lines.push(String::new());
        proof {
            assert(texts(lines@) =~= texts(before).push(Seq::<char>::empty()));
            assert(texts(lines@) =~= text + Seq::new(fill + 1, |i: int| Seq::<char>::empty()));
            fill = fill + 1;
        }
    }
    let mut rows: Vec<String> = Vec::new();
    rows.push(border('┌', '┐', inner));
    proof {
        assert(texts(lines@) =~= compact_body(label@, detail@, inner as int));
        assert(texts(rows@) =~= seq![card_top(inner as int)]);
    }
    push_boxed(&mut rows, &lines, inner);
    let ghost before = texts(rows@);
    rows.push(border('└', '┘', inner));
    proof {
        assert(texts(rows@) =~= before + seq![card_bottom(inner as int)]);
    }
    rows
}

/// The rows of an open card.
fn open_box_text(label: &str, detail: &str, more: &str, width: usize) -> (rows: Vec<String>)
    requires
        4 <= width <= MAX_BOX_WIDTH,
    ensures
        texts(rows@) == open_card(label@, detail@, more@, width as int),
{
    let inner: usize = width - 2;
    let mut rows: Vec<String> = Vec::new();
    rows.push(border('┌', '┐', inner));
    let ghost top = seq![card_top(inner as int)];
    proof {
        assert(texts(rows@) =~= top);
    }
    push_boxed(&mut rows, &wrap_all(trim(label).as_str(), inner), inner);
    push_boxed(&mut rows, &card_lines(detail, inner), inner);
    let ghost start = card_rows(wrapped(trimmed(label@), inner as int), inner as int) + card_rows(
        card_text(detail@, inner as int),
        inner as int,
    );
    proof {
        assert(texts(rows@) =~= top + start);
    }
    if !is_blank(more) && !same_text(trim(more).as_str(), trim(detail).as_str()) {
        if !is_blank(detail) {
            let ghost before = texts(rows@);
            rows.push(blank_row(inner));
            proof {
                assert(texts(rows@) =~= before + seq![card_blank(inner as int)]);
            }
        }
        push_boxed(&mut rows, &wrap_all(trim(more).as_str(), inner), inner);
    }
    let ghost body = open_body(label@, detail@, more@, inner as int);
    proof {
        assert(texts(rows@) =~= top + body);
    }
    let compact = node_box_text(label, detail, width);
    let minimum: usize = compact.len();
    let ghost mut fill: nat = 0;
    proof {
        assert(texts(compact@).len() == compact.len());
        assert(texts(rows@) =~= top + body + Seq::new(fill, |i: int| card_blank(inner as int)));
        assert(texts(rows@).len() == rows.len());
    }
    while rows.len() < minimum
        invariant
            texts(rows@) == top + body + Seq::new(fill, |i: int| card_blank(inner as int)),
            rows.len() == 1 + body.len() + fill,
            top.len() == 1,
            fill > 0 ==> rows.len() <= minimum,
        decreases minimum - rows.len(),
    {
        let ghost before = rows@;
        rows.push(blank_row(inner));
        proof {
            assert(texts(rows@) =~= texts(before).push(card_blank(inner as int)));
            assert(texts(rows@) =~= top + body + Seq::new(fill + 1, |i: int| card_blank(inner as int)));
            fill = fill + 1;
        }
    }
    let ghost before = texts(rows@);
    rows.push(border('└', '┘', inner));
    proof {
        assert(fill == monus(minimum - 1, body.len() as int));
        assert(texts(rows@) =~= before + seq![card_bottom(inner as int)]);
    }
    rows
}

/// The rows of a node's card.
pub fn canvas_node_lines(node: &PlanNode, viewport_width: u16, expanded: bool) -> (rows: Vec<String>)
    ensures
        texts(rows@) == node_card(*node, viewport_width as int, expanded),
{
    let width: usize = if viewport_width < 1 {
        1
    } else if viewport_width > MAX_BOX_WIDTH {
        MAX_BOX_WIDTH as usize
    } else {
        viewport_width as usize
    };
    if width < 4 {
        let mut rows: Vec<String> = Vec::new();
        rows.push(truncate("□", width));
        proof {
            assert(texts(rows@) =~= seq![truncated("□"@, width as int)]);
        }
        return rows;
    }
    let none = String::new();
    let detail: &str = match &node.detail {
        Some(d) => d.as_str(),
        None => none.as_str(),
    };
    if !expanded {
        return node_box_text(node.label.as_str(), detail, width);
    }
    let more: &str = match &node.expanded_detail {
        Some(d) => d.as_str(),
        None => none.as_str(),
    };
    open_box_text(node.label.as_str(), detail, more, width)
}

/// The width of an automatic card.
pub open spec fn card_width_of(viewport_width: int) -> int {
    if viewport_width >= 2 * MIN_BOX_WIDTH + 4 {
        clamp_int((viewport_width - 4) / 2, 4, MAX_BOX_WIDTH as int)
    } else {
        clamp_int(viewport_width, 1, MAX_BOX_WIDTH as int)
    }
}

/// Width chosen for automatic cards. At two-column widths it derives from the actual
/// viewport, so the column stride always leaves a gap rather than overlapping cards.
pub fn canvas_card_width(viewport: DiagramViewport) -> (width: u16)
    ensures
        width == card_width_of(viewport.width as int),
{
    if viewport.width >= 2 * MIN_BOX_WIDTH + 4 {
        let half: u16 = (viewport.width - 4) / 2;
        if half > MAX_BOX_WIDTH { MAX_BOX_WIDTH } else { half }
    } else if viewport.width < 1 {
        1
    } else if viewport.width > MAX_BOX_WIDTH {
        MAX_BOX_WIDTH
    } else {
        viewport.width
    }
}

/// The last node of a list with an id, among the first `n`.
pub open spec fn last_index(nodes: Seq<PlanNode>, id: Seq<char>, n: int) -> Option<int>
    decreases n,
{
    if n <= 0 {
        None
    } else if nodes[n - 1].id@ == id {
        Some(n - 1)
    } else {
        last_index(nodes, id, n - 1)
    }
}

/// Whether edge `e` of a form leads from node `u` to another node `v`.
pub open spec fn edge_leads(form: VizForm, e: EdgeView, u: int, v: int) -> bool {
    let n = form.nodes.len() as int;
    u != v && last_index(form.nodes@, e.from, n) == Some(u) && last_index(form.nodes@, e.to, n) == Some(v)
}

/// Whether an edge of a form leads from node `u` to another node `v`.
pub open spec fn leads(form: VizForm, u: int, v: int) -> bool {
    exists|k: int| #![trigger drawn_edges(form)[k]]
        0 <= k < drawn_edges(form).len() && edge_leads(form, drawn_edges(form)[k], u, v)
}

/// Whether `ranks` puts every node one below the lowest of the nodes that lead to it, and the
/// others on top.
pub open spec fn is_ranking(form: VizForm, ranks: Seq<int>) -> bool {
    &&& ranks.len() == form.nodes.len()
    &&& forall|v: int| #![trigger ranks[v]] 0 <= v < ranks.len() ==> 0 <= ranks[v] < ranks.len()
    &&& forall|u: int, v: int| #[trigger] leads(form, u, v) ==> ranks[u] < ranks[v]
    &&& forall|v: int| #![trigger ranks[v]] 0 <= v < ranks.len() && ranks[v] > 0 ==> has_parent(form, ranks, v)
}

/// Whether some node one rank above `v` leads to it.
pub open spec fn has_parent(form: VizForm, ranks: Seq<int>, v: int) -> bool {
    exists|u: int| #[trigger] leads(form, u, v) && ranks[u] + 1 == ranks[v]
}

/// Whether a form describes directional flow.
pub open spec fn is_directed(form: VizForm) -> bool {
    &&& form.kind == FormKind::Sequence || form.kind == FormKind::RelationshipFlow
    &&& form.nodes.len() >= 3
    &&& exists|u: int, v: int| leads(form, u, v)
}

/// The ranks of the nodes of a form.
pub open spec fn ranks_of(form: VizForm) -> Seq<int> {
    choose|ranks: Seq<int>| is_ranking(form, ranks)
}

/// The nodes among the first `n` that have a rank, in order.
pub open spec fn layer_of(ranks: Seq<int>, rank: int, n: int) -> Seq<int>
    decreases n,
{
    if n <= 0 {
        Seq::empty()
    } else if ranks[n - 1] == rank {
        layer_of(ranks, rank, n - 1).push(n - 1)
    } else {
        layer_of(ranks, rank, n - 1)
    }
}

/// The highest rank among the first `n` nodes.
pub open spec fn top_rank(ranks: Seq<int>, n: int) -> int
    decreases n,
{
    if n <= 0 {
        0
    } else {
        max_int(top_rank(ranks, n - 1), ranks[n - 1])
    }
}

/// The layers of a directed form, from its sources down; none where its edges go round in a
/// circle, for which no ranking exists.
pub open spec fn layers_of(form: VizForm) -> Option<Seq<Seq<int>>> {
    let ranks = ranks_of(form);
    let n = form.nodes.len() as int;
    if is_directed(form) && is_ranking(form, ranks) {
        Some(Seq::new((top_rank(ranks, n) + 1) as nat, |r: int| layer_of(ranks, r, n)))
    } else {
        None
    }
}

proof fn lemma_last_index(nodes: Seq<PlanNode>, id: Seq<char>, n: int)
    requires
        0 <= n <= nodes.len(),
    ensures
        last_index(nodes, id, n) matches Some(k) ==> 0 <= k < n && nodes[k].id@ == id,
    decreases n,
{
    if n > 0 {
        lemma_last_index(nodes, id, n - 1);
    }
}

proof fn lemma_leads_in_range(form: VizForm, u: int, v: int)
    requires
        leads(form, u, v),
    ensures
        0 <= u < form.nodes.len(),
        0 <= v < form.nodes.len(),
        u != v,
{
    let k = choose|k: int| #![trigger drawn_edges(form)[k]]
        0 <= k < drawn_edges(form).len() && edge_leads(form, drawn_edges(form)[k], u, v);
    let e = drawn_edges(form)[k];
    lemma_last_index(form.nodes@, e.from, form.nodes.len() as int);
    lemma_last_index(form.nodes@, e.to, form.nodes.len() as int);
}

/// Two rankings of a form agree on every node of rank `k` or less.
proof fn lemma_ranking_agrees(form: VizForm, a: Seq<int>, b: Seq<int>, v: int)
    requires
        is_ranking(form, a),
        is_ranking(form, b),
        0 <= v < form.nodes.len(),
    ensures
        a[v] == b[v],
    decreases a[v],
{
    if a[v] > 0 {
        let u = choose|u: int| #[trigger] leads(form, u, v) && a[u] + 1 == a[v];
        lemma_leads_in_range(form, u, v);
        lemma_ranking_agrees(form, a, b, u);
        assert(b[u] < b[v]);
    }
    if b[v] > 0 {
        assert(has_parent(form, b, v));
        let w = choose|w: int| #[trigger] leads(form, w, v) && b[w] + 1 == b[v];
        lemma_leads_in_range(form, w, v);
        assert(a[w] < a[v]);
        lemma_ranking_agrees(form, a, b, w);
    }
}

/// A form has at most one ranking.
pub proof fn law_ranking_is_unique(form: VizForm, a: Seq<int>, b: Seq<int>)
    requires
        is_ranking(form, a),
        is_ranking(form, b),
    ensures
        a == b,
{
    assert forall|v: int| 0 <= v < a.len() implies a[v] == b[v] by {
        lemma_ranking_agrees(form, a, b, v);
    }
    assert(a =~= b);
}

/// Layers keep every edge aimed downwards: a node stands in a later layer than every node
/// that leads to it.
pub proof fn law_edges_aim_down(form: VizForm, u: int, v: int)
    requires
        layers_of(form) is Some,
        leads(form, u, v),
    ensures
        ranks_of(form)[u] < ranks_of(form)[v],
{
}

/// The steps that are left until every rank has reached `n`.
spec fn slack(ranks: Seq<int>, n: int, k: int) -> int
    decreases k,
{
    if k <= 0 {
        0
    } else {
        slack(ranks, n, k - 1) + n - ranks[k - 1]
    }
}

proof fn lemma_slack_step(a: Seq<int>, b: Seq<int>, n: int, k: int, v: int)
    requires
        0 <= k <= a.len(),
        0 <= v < a.len(),
        a.len() == b.len(),
        a[v] < b[v],
        forall|i: int| 0 <= i < a.len() && i != v ==> a[i] == b[i],
        forall|i: int| 0 <= i < b.len() ==> b[i] <= n,
    ensures
        0 <= slack(b, n, k) <= slack(a, n, k),
        v < k ==> slack(b, n, k) < slack(a, n, k),
    decreases k,
{
    if k > 0 {
        lemma_slack_step(a, b, n, k - 1, v);
    }
}

proof fn lemma_slack_positive(a: Seq<int>, n: int, k: int)
    requires
        0 <= k <= a.len(),
        forall|i: int| 0 <= i < a.len() ==> a[i] <= n,
    ensures
        0 <= slack(a, n, k),
    decreases k,
{
    if k > 0 {
        lemma_slack_positive(a, n, k - 1);
    }
}

/// Ranks as numbers.
spec fn as_ints(v: Seq<usize>) -> Seq<int> {
    Seq::new(v.len(), |i: int| v[i] as int)
}

fn find_last(nodes: &Vec<PlanNode>, id: &str) -> (r: Option<usize>)
    ensures
        match r {
            Some(k) => last_index(nodes@, id@, nodes.len() as int) == Some(k as int) && k < nodes.len(),
            None => last_index(nodes@, id@, nodes.len() as int) is None,
        },
{
    let mut i: usize = nodes.len();
    while i > 0
        invariant
            i <= nodes.len(),
            last_index(nodes@, id@, nodes.len() as int) == last_index(nodes@, id@, i as int),
        decreases i,
    {
        if same_text(nodes[i - 1].id.as_str(), id) {
            return Some(i - 1);
        }
        i = i - 1;
    }
    None
}

/// Whether a list of index pairs holds a pair.
pub open spec fn has_pair(pairs: Seq<(usize, usize)>, u: int, v: int) -> bool {
    exists|k: int| #![trigger pairs[k]] 0 <= k < pairs.len() && pairs[k].0 == u && pairs[k].1 == v
}

/// All pairs of nodes that an edge leads between.
fn leading_pairs(form: &VizForm) -> (pairs: Vec<(usize, usize)>)
    ensures
        forall|u: int, v: int| #![trigger leads(*form, u, v)] leads(*form, u, v) <==> has_pair(pairs@, u, v),
        forall|k: int| #![trigger pairs@[k]] 0 <= k < pairs.len() ==> pairs@[k].0 < form.nodes.len() && pairs@[k].1
            < form.nodes.len() && leads(*form, pairs@[k].0 as int, pairs@[k].1 as int),
{
    let edges = normalized_edges(form);
    let ghost all = drawn_edges(*form);
    let mut pairs: Vec<(usize, usize)> = Vec::new();
    let mut i: usize = 0;
    proof {
        assert(edge_views(edges@).len() == edges.len());
    }
    while i < edges.len()
        invariant
            i <= edges.len() == all.len(),
            all == edge_views(edges@),
            all == drawn_edges(*form),
            forall|k: int| #![trigger pairs@[k]] 0 <= k < pairs.len() ==> pairs@[k].0 < form.nodes.len() && pairs@[k].1
                < form.nodes.len() && leads(*form, pairs@[k].0 as int, pairs@[k].1 as int),
            forall|j: int, u: int, v: int| #![trigger edge_leads(*form, all[j], u, v)]
                0 <= j < i && edge_leads(*form, all[j], u, v) ==> has_pair(pairs@, u, v),
        decreases edges.len() - i,
    {
        let ghost before = pairs@;
        proof {
            assert(all[i as int] == edges@[i as int]@);
        }
        match (find_last(&form.nodes, edges[i].from.as_str()), find_last(&form.nodes, edges[i].to.as_str())) {
            (Some(from), Some(to)) => {
                if from != to {
                    pairs.push((from, to));
                    proof {
                        assert(edge_leads(*form, drawn_edges(*form)[i as int], from as int, to as int));
                        assert(leads(*form, from as int, to as int));
                        assert(pairs@[before.len() as int] == (from, to));
                    }
                }
            },
            _ => {},
        }
        proof {
            assert forall|j: int, u: int, v: int| #![trigger edge_leads(*form, all[j], u, v)]
                0 <= j < i + 1 && edge_leads(*form, all[j], u, v) implies has_pair(pairs@, u, v) by {
                if j < i {
                    assert(has_pair(before, u, v));
                    let k = choose|k: int| #![trigger before[k]] 0 <= k < before.len() && before[k].0 == u && before[k].1
                        == v;
                    assert(pairs@[k] == before[k]);
                } else {
                    let last = pairs.len() - 1;
                    assert(pairs@[last].0 == u && pairs@[last].1 == v);
                }
            }
        }
        i = i + 1;
    }
    proof {
        assert forall|u: int, v: int| #![trigger leads(*form, u, v)] leads(*form, u, v) <==> has_pair(pairs@, u, v) by {
            if leads(*form, u, v) {
                let k = choose|k: int| #![trigger drawn_edges(*form)[k]]
                    0 <= k < drawn_edges(*form).len() && edge_leads(*form, drawn_edges(*form)[k], u, v);
                assert(edge_leads(*form, all[k], u, v));
            }
            if has_pair(pairs@, u, v) {
                let k = choose|k: int| #![trigger pairs@[k]] 0 <= k < pairs.len() && pairs@[k].0 == u && pairs@[k].1 == v;
                assert(leads(*form, pairs@[k].0 as int, pairs@[k].1 as int));
            }
        }
    }
    pairs
}

/// What relaxing keeps: ranks that no ranking undercuts, each with a reason.
spec fn is_partial(form: VizForm, ranks: Seq<int>) -> bool {
    &&& ranks.len() == form.nodes.len()
    &&& forall|v: int| #![trigger ranks[v]] 0 <= v < ranks.len() ==> 0 <= ranks[v] < ranks.len()
    &&& forall|r: Seq<int>, v: int| #![trigger is_ranking(form, r), r[v]]
        is_ranking(form, r) && 0 <= v < ranks.len() ==> ranks[v] <= r[v]
    &&& forall|v: int| #![trigger ranks[v]] 0 <= v < ranks.len() && ranks[v] > 0 ==> has_cause(form, ranks, v)
}

spec fn has_cause(form: VizForm, ranks: Seq<int>, v: int) -> bool {
    exists|u: int| #[trigger] leads(form, u, v) && ranks[u] + 1 >= ranks[v]
}

/// The ranking of a form, where it has one.
fn find_ranks(form: &VizForm, pairs: &Vec<(usize, usize)>) -> (r: Option<Vec<usize>>)
    requires
        forall|u: int, v: int| #![trigger leads(*form, u, v)] leads(*form, u, v) <==> has_pair(pairs@, u, v),
        forall|k: int| #![trigger pairs@[k]] 0 <= k < pairs.len() ==> pairs@[k].0 < form.nodes.len() && pairs@[k].1
            < form.nodes.len() && leads(*form, pairs@[k].0 as int, pairs@[k].1 as int),
    ensures
        match r {
            Some(ranks) => is_ranking(*form, as_ints(ranks@)),
            None => forall|ranks: Seq<int>| !is_ranking(*form, ranks),
        },
{
    let n: usize = form.nodes.len();
    let mut ranks: Vec<usize> = Vec::new();
    while ranks.len() < n
        invariant
            ranks.len() <= n,
            forall|i: int| 0 <= i < ranks.len() ==> ranks@[i] == 0,
        decreases n - ranks.len(),
    {
        ranks.push(0);
    }
    let mut changed: bool = true;
    proof {
        assert forall|r: Seq<int>, v: int| #![trigger is_ranking(*form, r), r[v]]
            is_ranking(*form, r) && 0 <= v < n implies as_ints(ranks@)[v] <= r[v] by {}
    }
    while changed
        invariant
            n == form.nodes.len() == ranks.len(),
            is_partial(*form, as_ints(ranks@)),
            forall|u: int, v: int| #![trigger leads(*form, u, v)] leads(*form, u, v) <==> has_pair(pairs@, u, v),
            forall|k: int| #![trigger pairs@[k]] 0 <= k < pairs.len() ==> pairs@[k].0 < n && pairs@[k].1 < n && leads(
                *form,
                pairs@[k].0 as int,
                pairs@[k].1 as int,
            ),
            !changed ==> forall|k: int| #![trigger pairs@[k]] 0 <= k < pairs.len() ==> ranks@[pairs@[k].0 as int]
                < ranks@[pairs@[k].1 as int],
        decreases slack(as_ints(ranks@), n as int, n as int), if changed { 1int } else { 0int },
    {
        let ghost start = as_ints(ranks@);
        changed = false;
        let mut i: usize = 0;
        proof {
            lemma_slack_positive(start, n as int, n as int);
        }
        while i < pairs.len()
            invariant
                i <= pairs.len(),
                n == form.nodes.len() == ranks.len(),
                is_partial(*form, as_ints(ranks@)),
                forall|k: int| #![trigger pairs@[k]] 0 <= k < pairs.len() ==> pairs@[k].0 < n && pairs@[k].1 < n
                    && leads(*form, pairs@[k].0 as int, pairs@[k].1 as int),
                !changed ==> as_ints(ranks@) == start && forall|k: int| #![trigger pairs@[k]]
                    0 <= k < i ==> ranks@[pairs@[k].0 as int] < ranks@[pairs@[k].1 as int],
                changed ==> 0 <= slack(as_ints(ranks@), n as int, n as int) < slack(start, n as int, n as int),
            decreases pairs.len() - i,
        {
            let (from, to) = pairs[i];
            let ghost before = as_ints(ranks@);
            proof {
                assert(leads(*form, from as int, to as int));
                assert(before[from as int] == ranks@[from as int]);
                assert(before[to as int] == ranks@[to as int]);
            }
            let candidate: usize = ranks[from] + 1;
            if candidate > ranks[to] {
                proof {
                    assert forall|r: Seq<int>| is_ranking(*form, r) implies candidate <= r[to as int] < n by {
                        assert(before[from as int] <= r[from as int]);
                    }
                }
                if candidate >= n {
                    return None;
                }
                ranks.set(to, candidate);
                changed = true;
                proof {
                    let after = as_ints(ranks@);
                    assert(after =~= before.update(to as int, candidate as int));
                    lemma_slack_step(before, after, n as int, n as int, to as int);
                    assert forall|v: int| #![trigger after[v]] 0 <= v < n && after[v] > 0 implies has_cause(*form, after, v) by {
                        if v == to {
                            assert(leads(*form, from as int, to as int) && after[from as int] + 1 >= after[v]);
                        } else {
                            assert(has_cause(*form, before, v));
                            let u = choose|u: int| #[trigger] leads(*form, u, v) && before[u] + 1 >= before[v];
                            lemma_leads_in_range(*form, u, v);
                            assert(after[u] + 1 >= after[v]);
                        }
                    }
                    assert forall|r: Seq<int>, v: int| #![trigger is_ranking(*form, r), r[v]]
                        is_ranking(*form, r) && 0 <= v < n implies after[v] <= r[v] by {
                        assert(before[v] <= r[v]);
                    }
                }
            }
            i = i + 1;
        }
    }
    proof {
        let done = as_ints(ranks@);
        assert forall|u: int, v: int| #[trigger] leads(*form, u, v) implies done[u] < done[v] by {
            let k = choose|k: int| #![trigger pairs@[k]] 0 <= k < pairs.len() && pairs@[k].0 == u && pairs@[k].1 == v;
            assert(ranks@[pairs@[k].0 as int] < ranks@[pairs@[k].1 as int]);
        }
        assert forall|v: int| #![trigger done[v]] 0 <= v < n && done[v] > 0 implies has_parent(*form, done, v) by {
            assert(has_cause(*form, done, v));
            let u = choose|u: int| #[trigger] leads(*form, u, v) && done[u] + 1 >= done[v];
            assert(done[u] < done[v]);
            assert(done[u] + 1 == done[v]);
        }
    }
    Some(ranks)
}

/// Layers by contents.
pub open spec fn layer_views(layers: Seq<Vec<usize>>) -> Seq<Seq<int>> {
    Seq::new(layers.len(), |i: int| index_views(layers[i]@))
}

/// Indices as numbers.
pub open spec fn index_views(v: Seq<usize>) -> Seq<int> {
    Seq::new(v.len(), |i: int| v[i] as int)
}

/// The nodes that have a rank, in order.
fn layer_members(ranks: &Vec<usize>, rank: usize) -> (out: Vec<usize>)
    ensures
        index_views(out@) == layer_of(as_ints(ranks@), rank as int, ranks.len() as int),
{
    let ghost all = as_ints(ranks@);
    let mut out: Vec<usize> = Vec::new();
    let mut i: usize = 0;
    proof {
        assert(index_views(out@) =~= Seq::empty());
    }
    while i < ranks.len()
        invariant
            i <= ranks.len() == all.len(),
            all == as_ints(ranks@),
            index_views(out@) == layer_of(all, rank as int, i as int),
        decreases ranks.len() - i,
    {
        let ghost before = out@;
        if ranks[i] == rank {
            out.push(i);
            proof {
                assert(index_views(out@) =~= index_views(before).push(i as int));
            }
        }
        i = i + 1;
    }
    out
}

/// Topological layers for forms whose edges describe directional flow. Keeping every edge
/// aimed from an earlier row to a later row avoids the ambiguous zigzag of a document-order
/// grid. Cycles have no truthful top-to-bottom order, and get none.
pub fn directed_form_layers(form: &VizForm) -> (r: Option<Vec<Vec<usize>>>)
    ensures
        match r {
            Some(layers) => layers_of(*form) == Some(layer_views(layers@)),
            None => layers_of(*form) is None,
        },
{
    if !matches!(form.kind, FormKind::Sequence | FormKind::RelationshipFlow) || form.nodes.len() < 3 {
        return None;
    }
    let pairs = leading_pairs(form);
    if pairs.len() == 0 {
        proof {
            if is_directed(*form) {
                let (u, v) = choose|u: int, v: int| leads(*form, u, v);
                assert(has_pair(pairs@, u, v));
            }
        }
        return None;
    }
    proof {
        assert(leads(*form, pairs@[0].0 as int, pairs@[0].1 as int));
    }
    let ranks = match find_ranks(form, &pairs) {
        Some(ranks) => ranks,
        None => {
            return None;
        },
    };
    let ghost all = as_ints(ranks@);
    let ghost n = form.nodes.len() as int;
    proof {
        law_ranking_is_unique(*form, all, ranks_of(*form));
    }
    let mut top: usize = 0;
    let mut i: usize = 0;
    while i < ranks.len()
        invariant
            i <= ranks.len() == all.len(),
            all == as_ints(ranks@),
            top == top_rank(all, i as int),
            all.len() > 0,
            forall|v: int| #![trigger all[v]] 0 <= v < all.len() ==> all[v] < all.len(),
            top < all.len(),
        decreases ranks.len() - i,
    {
        proof {
            assert(all[i as int] == ranks@[i as int]);
        }
        top = max_usize(top, ranks[i]);
        i = i + 1;
    }
    let mut layers: Vec<Vec<usize>> = Vec::new();
    while layers.len() <= top
        invariant
            layers.len() <= top + 1,
            top < usize::MAX,
            all == as_ints(ranks@),
            forall|r: int| 0 <= r < layers.len() ==> #[trigger] index_views(layers@[r]@) == layer_of(
                all,
                r,
                ranks.len() as int,
            ),
        decreases top + 1 - layers.len(),
    {
        let rank: usize = layers.len();
        layers.push(layer_members(&ranks, rank));
    }
    proof {
        assert(layer_views(layers@) =~= layers_of(*form)->0);
    }
    Some(layers)
}

/// How many columns of cards a viewport has.
pub open spec fn columns_of(viewport_width: int) -> int {
    if viewport_width >= 2 * card_width_of(viewport_width) + 4 { 2 } else { 1 }
}

/// The column of the second card: at the right edge of the viewport, so that the whole middle
/// lane belongs to the connectors.
pub open spec fn stride_of(viewport_width: int) -> int {
    if columns_of(viewport_width) == 2 {
        monus(viewport_width, card_width_of(viewport_width))
    } else {
        card_width_of(viewport_width) + 4
    }
}

/// A list in pieces of at most `c` items.
pub open spec fn chunked(list: Seq<int>, c: int) -> Seq<Seq<int>>
    decreases list.len(),
{
    let k = min_int(c, list.len() as int);
    if list.len() == 0 || c <= 0 {
        Seq::empty()
    } else {
        seq![list.take(k)] + chunked(list.skip(k), c)
    }
}

/// The first `n` layers in pieces of at most `c` nodes.
pub open spec fn chunked_layers(layers: Seq<Seq<int>>, c: int, n: int) -> Seq<Seq<int>>
    decreases n,
{
    if n <= 0 {
        Seq::empty()
    } else {
        chunked_layers(layers, c, n - 1) + chunked(layers[n - 1], c)
    }
}

/// The rows of cards of a form.
pub open spec fn form_rows(form: VizForm, columns: int) -> Seq<Seq<int>> {
    match layers_of(form) {
        Some(layers) => chunked_layers(layers, columns, layers.len() as int),
        None => chunked(Seq::new(form.nodes.len() as nat, |i: int| i), columns),
    }
}

/// The height of a node's compact card.
pub open spec fn card_height(node: PlanNode, card_width: int) -> int {
    low16(node_card(node, card_width, false).len() as int)
}

/// The height of the tallest of the first `k` cards of a row.
pub open spec fn row_height(form: VizForm, row: Seq<int>, card_width: int, k: int) -> int
    decreases k,
{
    if k <= 0 {
        0
    } else {
        let i = row[k - 1];
        let before = row_height(form, row, card_width, k - 1);
        if 0 <= i < form.nodes.len() {
            max_int(before, card_height(form.nodes[i], card_width))
        } else {
            before
        }
    }
}

/// The column at which a card of a row begins.
pub open spec fn card_x(form: VizForm, row: Seq<int>, column: int, viewport_width: int) -> int {
    if layers_of(form) is Some && columns_of(viewport_width) == 2 && row.len() == 1 {
        monus(viewport_width, card_width_of(viewport_width)) / 2
    } else if column == 0 {
        0
    } else {
        stride_of(viewport_width)
    }
}

/// Where cards stand, and the first free row below them.
#[verifier::ext_equal]
pub struct Placed {
    pub positions: Map<TargetView, DiagramPosition>,
    pub y: int,
}

/// The positions once the first `k` cards of a row stand at `y`.
pub open spec fn with_row(
    m: Map<TargetView, DiagramPosition>,
    form_index: int,
    form: VizForm,
    row: Seq<int>,
    y: int,
    viewport_width: int,
    k: int,
) -> Map<TargetView, DiagramPosition>
    decreases k,
{
    if k <= 0 {
        m
    } else {
        let before = with_row(m, form_index, form, row, y, viewport_width, k - 1);
        let i = row[k - 1];
        if 0 <= i < form.nodes.len() {
            before.insert(
                TargetView { form: form_index, id: form.nodes[i].id@ },
                DiagramPosition { x: card_x(form, row, k - 1, viewport_width) as u16, y: y as u16 },
            )
        } else {
            before
        }
    }
}

/// The placement once the first `k` rows of a form stand.
pub open spec fn with_rows(p: Placed, form_index: int, form: VizForm, viewport_width: int, k: int) -> Placed
    decreases k,
{
    if k <= 0 {
        p
    } else {
        let before = with_rows(p, form_index, form, viewport_width, k - 1);
        let row = form_rows(form, columns_of(viewport_width))[k - 1];
        Placed {
            positions: with_row(
                before.positions,
                form_index,
                form,
                row,
                before.y,
                viewport_width,
                row.len() as int,
            ),
            y: sat16(before.y + sat16(row_height(form, row, card_width_of(viewport_width), row.len() as int) + 2)),
        }
    }
}

/// The placement of the first `n` forms below `top` rows of annotations.
pub open spec fn placed(forms: Seq<VizForm>, viewport_width: int, top: int, n: int) -> Placed
    decreases n,
{
    if n <= 0 {
        Placed { positions: Map::empty(), y: top }
    } else {
        let form = forms[n - 1];
        with_rows(
            placed(forms, viewport_width, top, n - 1),
            n - 1,
            form,
            viewport_width,
            form_rows(form, columns_of(viewport_width)).len() as int,
        )
    }
}

/// The automatic position of every node.
pub open spec fn automatic(plan: VisualizationPlan, viewport_width: int, top: int) -> Map<TargetView, DiagramPosition> {
    placed(plan.forms@, viewport_width, top, plan.forms.len() as int).positions
}

/// Add a list in pieces of at most `columns` items.
fn push_chunks(rows: &mut Vec<Vec<usize>>, list: &Vec<usize>, columns: usize)
    requires
        columns > 0,
    ensures
        layer_views(final(rows)@) == layer_views(old(rows)@) + chunked(index_views(list@), columns as int),
{
    let ghost all = index_views(list@);
    let ghost start = layer_views(rows@);
    let mut i: usize = 0;
    proof {
        assert(all.skip(0) =~= all);
    }
    while i < list.len()
        invariant
            columns > 0,
            i <= list.len() == all.len(),
            all == index_views(list@),
            layer_views(rows@) + chunked(all.skip(i as int), columns as int) == start + chunked(all, columns as int),
        decreases list.len() - i,
    {
        let left: usize = list.len() - i;
        let k: usize = min_usize(columns, left);
        let mut row: Vec<usize> = Vec::new();
        let mut j: usize = 0;
        while j < k
            invariant
                j <= k,
                i + k <= list.len() == all.len(),
                all == index_views(list@),
                index_views(row@) == all.subrange(i as int, i + j),
            decreases k - j,
        {
            let ghost before = row@;
            row.push(list[i + j]);
            proof {
                assert(index_views(row@) =~= index_views(before).push(list@[i + j] as int));
                assert(all.subrange(i as int, i + j + 1) =~= all.subrange(i as int, i + j).push(all[i + j]));
            }
            j = j + 1;
        }
        let ghost before = rows@;
        rows.push(row);
        proof {
            let rest = all.skip(i as int);
            assert(rest.take(k as int) =~= index_views(row@));
            assert(rest.skip(k as int) =~= all.skip(i + k));
            assert(layer_views(rows@) =~= layer_views(before).push(index_views(row@)));
            assert(layer_views(rows@) + chunked(all.skip(i + k), columns as int) =~= layer_views(before) + chunked(
                rest,
                columns as int,
            ));
        }
        i = i + k;
    }
    proof {
        assert(layer_views(rows@) + chunked(all.skip(i as int), columns as int) =~= layer_views(rows@));
    }
}

/// The rows of cards of a form, and whether they follow its edges.
fn layout_rows(form: &VizForm, columns: usize) -> (r: (Vec<Vec<usize>>, bool))
    requires
        columns > 0,
    ensures
        layer_views(r.0@) == form_rows(*form, columns as int),
        r.1 == (layers_of(*form) is Some),
{
    let mut rows: Vec<Vec<usize>> = Vec::new();
    match directed_form_layers(form) {
        Some(layers) => {
            let ghost all = layer_views(layers@);
            let mut i: usize = 0;
            proof {
                assert(layer_views(rows@) =~= Seq::empty());
            }
            while i < layers.len()
                invariant
                    columns > 0,
                    i <= layers.len() == all.len(),
                    all == layer_views(layers@),
                    layer_views(rows@) == chunked_layers(all, columns as int, i as int),
                decreases layers.len() - i,
            {
                proof {
                    assert(all[i as int] == index_views(layers@[i as int]@));
                }
                push_chunks(&mut rows, &layers[i], columns);
                i = i + 1;
            }
            (rows, true)
        },
        None => {
            let mut all: Vec<usize> = Vec::new();
            while all.len() < form.nodes.len()
                invariant
                    all.len() <= form.nodes.len(),
                    forall|i: int| 0 <= i < all.len() ==> #[trigger] all@[i] == i,
                decreases form.nodes.len() - all.len(),
            {
                let next: usize = all.len();
                all.push(next);
            }
            push_chunks(&mut rows, &all, columns);
            proof {
                assert(index_views(all@) =~= Seq::new(form.nodes.len() as nat, |i: int| i));
                assert(layer_views(rows@) =~= chunked(index_views(all@), columns as int));
            }
            (rows, false)
        },
    }
}

/// Deterministic, non-overlapping placement for every node.
pub fn automatic_positions(plan: &VisualizationPlan, viewport: DiagramViewport, annotation_height: u16) -> (positions:
    Table<PlanNodeTarget, DiagramPosition>)
    ensures
        positions@ == automatic(*plan, viewport.width as int, annotation_height as int),
{
    let card_width: u16 = canvas_card_width(viewport);
    let ghost vw = viewport.width as int;
    let two: bool = viewport.width >= 2 * card_width + 4;
    let columns: usize = if two { 2 } else { 1 };
    let stride: u16 = if two {
        viewport.width.saturating_sub(card_width)
    } else {
        card_width.saturating_add(4)
    };
    let mut positions: Table<PlanNodeTarget, DiagramPosition> = Table::new();
    let mut y: u16 = annotation_height;
    let mut f: usize = 0;
    while f < plan.forms.len()
        invariant
            f <= plan.forms.len(),
            vw == viewport.width,
            card_width == card_width_of(vw),
            two == (columns_of(vw) == 2),
            columns == columns_of(vw),
            stride == stride_of(vw),
            (Placed { positions: positions@, y: y as int }) == placed(
                plan.forms@,
                vw,
                annotation_height as int,
                f as int,
            ),
        decreases plan.forms.len() - f,
    {
        let form = &plan.forms[f];
        let (rows, directed) = layout_rows(form, columns);
        let ghost all = form_rows(*form, columns as int);
        let ghost start = placed(plan.forms@, vw, annotation_height as int, f as int);
        let mut r: usize = 0;
        proof {
            assert(layer_views(rows@).len() == rows.len());
        }
        while r < rows.len()
            invariant
                r <= rows.len() == all.len(),
                f < plan.forms.len(),
                *form == plan.forms@[f as int],
                all == layer_views(rows@),
                all == form_rows(*form, columns_of(vw)),
                directed == (layers_of(*form) is Some),
                vw == viewport.width,
                card_width == card_width_of(vw),
                two == (columns_of(vw) == 2),
                stride == stride_of(vw),
                (Placed { positions: positions@, y: y as int }) == with_rows(start, f as int, *form, vw, r as int),
            decreases rows.len() - r,
        {
            let row = &rows[r];
            let ghost items = index_views(row@);
            proof {
                assert(all[r as int] == items);
                assert(items.len() == row.len());
            }
            let centered: bool = directed && two && row.len() == 1;
            let ghost before = positions@;
            let mut height: u16 = 0;
            let mut k: usize = 0;
            while k < row.len()
                invariant
                    k <= row.len() == items.len(),
                    f < plan.forms.len(),
                    *form == plan.forms@[f as int],
                    items == index_views(row@),
                    directed == (layers_of(*form) is Some),
                    vw == viewport.width,
                    card_width == card_width_of(vw),
                    two == (columns_of(vw) == 2),
                    stride == stride_of(vw),
                    centered == (directed && two && row.len() == 1),
                    height == row_height(*form, items, card_width as int, k as int),
                    positions@ == with_row(before, f as int, *form, items, y as int, vw, k as int),
                decreases row.len() - k,
            {
                let index: usize = row[k];
                proof {
                    assert(items[k as int] == index);
                }
                if index < form.nodes.len() {
                    let node = &form.nodes[index];
                    let lines = canvas_node_lines(node, card_width, false);
                    proof {
                        assert(texts(lines@).len() == lines.len());
                    }
                    height = max_u16(height, cut_u16(lines.len()));
                    let x: u16 = if centered {
                        viewport.width.saturating_sub(card_width) / 2
                    } else if k == 0 {
                        0
                    } else {
                        stride
                    };
                    positions.insert(PlanNodeTarget { form: f, id: node.id.clone() }, DiagramPosition { x, y });
                }
                k = k + 1;
            }
            y = y.saturating_add(height.saturating_add(2));
            r = r + 1;
        }
        f = f + 1;
    }
    positions
}

/// Two areas without a common cell.
pub open spec fn apart(a: DiagramPosition, wa: int, ha: int, b: DiagramPosition, wb: int, hb: int) -> bool {
    a.x + wa <= b.x || b.x + wb <= a.x || a.y + ha <= b.y || b.y + hb <= a.y
}

/// No id comes twice in a form.
pub open spec fn distinct_ids(form: VizForm) -> bool {
    forall|i: int, j: int| #![trigger form.nodes[i], form.nodes[j]]
        0 <= i < j < form.nodes.len() ==> form.nodes[i].id@ != form.nodes[j].id@
}

/// The node that a target names.
pub open spec fn node_of(forms: Seq<VizForm>, t: TargetView) -> PlanNode {
    forms[t.form].nodes[choose|i: int| 0 <= i < forms[t.form].nodes.len() && #[trigger] forms[t.form].nodes[i].id@ == t.id]
}

proof fn lemma_node_of(forms: Seq<VizForm>, f: int, i: int)
    requires
        0 <= f < forms.len(),
        distinct_ids(forms[f]),
        0 <= i < forms[f].nodes.len(),
    ensures
        node_of(forms, TargetView { form: f, id: forms[f].nodes[i].id@ }) == forms[f].nodes[i],
{
    let form = forms[f];
    let t = TargetView { form: f, id: form.nodes[i].id@ };
    assert(form.nodes[i].id@ == t.id);
    let k = choose|k: int| 0 <= k < forms[t.form].nodes.len() && #[trigger] forms[t.form].nodes[k].id@ == t.id;
    if k < i {
        assert(form.nodes[k].id@ != form.nodes[i].id@);
    } else if i < k {
        assert(form.nodes[i].id@ != form.nodes[k].id@);
    }
}

/// What a placement keeps: every card ends above the first free row, inside the viewport's
/// columns, and no two cards share a cell.
spec fn is_clear(p: Placed, forms: Seq<VizForm>, viewport_width: int) -> bool {
    let w = card_width_of(viewport_width);
    &&& forall|t: TargetView| #[trigger] p.positions.dom().contains(t) ==> p.positions[t].y + card_height(
        node_of(forms, t),
        w,
    ) <= p.y
    &&& forall|s: TargetView, t: TargetView|
        #![trigger p.positions.dom().contains(s), p.positions.dom().contains(t)]
        s != t && p.positions.dom().contains(s) && p.positions.dom().contains(t) ==> apart(
            p.positions[s],
            w,
            card_height(node_of(forms, s), w),
            p.positions[t],
            w,
            card_height(node_of(forms, t), w),
        )
}

proof fn lemma_row_height(form: VizForm, row: Seq<int>, card_width: int, k: int, j: int)
    requires
        0 <= j < k <= row.len(),
        0 <= row[j] < form.nodes.len(),
    ensures
        card_height(form.nodes[row[j]], card_width) <= row_height(form, row, card_width, k),
    decreases k,
{
    if j < k - 1 {
        lemma_row_height(form, row, card_width, k - 1, j);
    }
}

proof fn lemma_row_height_range(form: VizForm, row: Seq<int>, card_width: int, k: int)
    ensures
        0 <= row_height(form, row, card_width, k) < 65536,
    decreases k,
{
    if k > 0 {
        lemma_row_height_range(form, row, card_width, k - 1);
    }
}

/// In a row being placed, a target is either an older one or the card of one of the first
/// `k` columns.
proof fn lemma_with_row(
    m: Map<TargetView, DiagramPosition>,
    form_index: int,
    form: VizForm,
    row: Seq<int>,
    y: int,
    viewport_width: int,
    k: int,
    t: TargetView,
)
    requires
        0 <= k <= row.len(),
        with_row(m, form_index, form, row, y, viewport_width, k).dom().contains(t),
    ensures
        ({
            let after = with_row(m, form_index, form, row, y, viewport_width, k);
            (m.dom().contains(t) && after[t] == m[t]) || exists|c: int| #![trigger row[c]]
                0 <= c < k && 0 <= row[c] < form.nodes.len() && t == (TargetView {
                    form: form_index,
                    id: form.nodes[row[c]].id@,
                }) && after[t] == (DiagramPosition {
                    x: card_x(form, row, c, viewport_width) as u16,
                    y: y as u16,
                })
        }),
    decreases k,
{
    if k > 0 {
        let before = with_row(m, form_index, form, row, y, viewport_width, k - 1);
        let i = row[k - 1];
        if 0 <= i < form.nodes.len() && t == (TargetView { form: form_index, id: form.nodes[i].id@ }) {
            assert(0 <= row[k - 1] < form.nodes.len());
        } else {
            lemma_with_row(m, form_index, form, row, y, viewport_width, k - 1, t);
        }
    }
}

proof fn lemma_chunk_len(list: Seq<int>, c: int, r: int)
    requires
        c > 0,
        0 <= r < chunked(list, c).len(),
    ensures
        chunked(list, c)[r].len() <= c,
    decreases list.len(),
{
    let k = min_int(c, list.len() as int);
    if list.len() > 0 && r > 0 {
        lemma_chunk_len(list.skip(k), c, r - 1);
        assert(chunked(list, c)[r] == chunked(list.skip(k), c)[r - 1]);
    }
}

proof fn lemma_layer_chunk_len(layers: Seq<Seq<int>>, c: int, n: int, r: int)
    requires
        c > 0,
        0 <= n <= layers.len(),
        0 <= r < chunked_layers(layers, c, n).len(),
    ensures
        chunked_layers(layers, c, n)[r].len() <= c,
    decreases n,
{
    let before = chunked_layers(layers, c, n - 1);
    if n > 0 {
        if r < before.len() {
            lemma_layer_chunk_len(layers, c, n - 1, r);
        } else {
            lemma_chunk_len(layers[n - 1], c, r - before.len());
        }
    }
}

proof fn lemma_clear_row(
    p: Placed,
    forms: Seq<VizForm>,
    f: int,
    row: Seq<int>,
    viewport_width: int,
)
    requires
        0 <= viewport_width <= 65535,
        0 <= f < forms.len(),
        distinct_ids(forms[f]),
        row.len() <= columns_of(viewport_width),
        is_clear(p, forms, viewport_width),
        0 <= p.y,
        p.y + row_height(forms[f], row, card_width_of(viewport_width), row.len() as int) + 2 < 65535,
    ensures
        is_clear(
            Placed {
                positions: with_row(p.positions, f, forms[f], row, p.y, viewport_width, row.len() as int),
                y: p.y + row_height(forms[f], row, card_width_of(viewport_width), row.len() as int) + 2,
            },
            forms,
            viewport_width,
        ),
{
    let form = forms[f];
    let w = card_width_of(viewport_width);
    let n = row.len() as int;
    let m = with_row(p.positions, f, form, row, p.y, viewport_width, n);
    let h = row_height(form, row, w, n);
    lemma_row_height_range(form, row, w, n);
    assert forall|t: TargetView| #[trigger] m.dom().contains(t) implies m[t].y + card_height(node_of(forms, t), w)
        <= p.y + h + 2 by {
        lemma_with_row(p.positions, f, form, row, p.y, viewport_width, n, t);
        if !(p.positions.dom().contains(t) && m[t] == p.positions[t]) {
            let c = choose|c: int| #![trigger row[c]]
                0 <= c < n && 0 <= row[c] < form.nodes.len() && t == (TargetView { form: f, id: form.nodes[row[c]].id@ })
                    && m[t] == (DiagramPosition { x: card_x(form, row, c, viewport_width) as u16, y: p.y as u16 });
            lemma_node_of(forms, f, row[c]);
            lemma_row_height(form, row, w, n, c);
        }
    }
    assert forall|s: TargetView, t: TargetView| #![trigger m.dom().contains(s), m.dom().contains(t)]
        s != t && m.dom().contains(s) && m.dom().contains(t) implies apart(
        m[s],
        w,
        card_height(node_of(forms, s), w),
        m[t],
        w,
        card_height(node_of(forms, t), w),
    ) by {
        lemma_with_row(p.positions, f, form, row, p.y, viewport_width, n, s);
        lemma_with_row(p.positions, f, form, row, p.y, viewport_width, n, t);
        let old_s = p.positions.dom().contains(s) && m[s] == p.positions[s];
        let old_t = p.positions.dom().contains(t) && m[t] == p.positions[t];
        if !old_s && !old_t {
            let c = choose|c: int| #![trigger row[c]]
                0 <= c < n && 0 <= row[c] < form.nodes.len() && s == (TargetView { form: f, id: form.nodes[row[c]].id@ })
                    && m[s] == (DiagramPosition { x: card_x(form, row, c, viewport_width) as u16, y: p.y as u16 });
            let d = choose|d: int| #![trigger row[d]]
                0 <= d < n && 0 <= row[d] < form.nodes.len() && t == (TargetView { form: f, id: form.nodes[row[d]].id@ })
                    && m[t] == (DiagramPosition { x: card_x(form, row, d, viewport_width) as u16, y: p.y as u16 });
            assert(c != d);
            assert(n == 2);
            assert(stride_of(viewport_width) >= w);
        }
    }
}

proof fn lemma_clear_rows(p: Placed, forms: Seq<VizForm>, f: int, viewport_width: int, k: int)
    requires
        0 <= viewport_width <= 65535,
        0 <= f < forms.len(),
        distinct_ids(forms[f]),
        is_clear(p, forms, viewport_width),
        0 <= p.y,
        0 <= k <= form_rows(forms[f], columns_of(viewport_width)).len(),
        with_rows(p, f, forms[f], viewport_width, k).y < 65535,
    ensures
        is_clear(with_rows(p, f, forms[f], viewport_width, k), forms, viewport_width),
        p.y <= with_rows(p, f, forms[f], viewport_width, k).y,
    decreases k,
{
    if k > 0 {
        let before = with_rows(p, f, forms[f], viewport_width, k - 1);
        let c = columns_of(viewport_width);
        let row = form_rows(forms[f], c)[k - 1];
        lemma_row_height_range(forms[f], row, card_width_of(viewport_width), row.len() as int);
        lemma_clear_rows(p, forms, f, viewport_width, k - 1);
        match layers_of(forms[f]) {
            Some(layers) => {
                lemma_layer_chunk_len(layers, c, layers.len() as int, k - 1);
            },
            None => {
                lemma_chunk_len(Seq::new(forms[f].nodes.len() as nat, |i: int| i), c, k - 1);
            },
        }
        lemma_clear_row(before, forms, f, row, viewport_width);
    }
}

proof fn lemma_clear_forms(forms: Seq<VizForm>, viewport_width: int, top: int, n: int)
    requires
        0 <= viewport_width <= 65535,
        0 <= top,
        0 <= n <= forms.len(),
        forall|f: int| 0 <= f < forms.len() ==> #[trigger] distinct_ids(forms[f]),
        placed(forms, viewport_width, top, n).y < 65535,
    ensures
        is_clear(placed(forms, viewport_width, top, n), forms, viewport_width),
        top <= placed(forms, viewport_width, top, n).y,
    decreases n,
{
    if n > 0 {
        let before = placed(forms, viewport_width, top, n - 1);
        let rows = form_rows(forms[n - 1], columns_of(viewport_width));
        lemma_rows_grow(before, n - 1, forms[n - 1], viewport_width, rows.len() as int);
        lemma_clear_forms(forms, viewport_width, top, n - 1);
        assert(distinct_ids(forms[n - 1]));
        lemma_clear_rows(before, forms, n - 1, viewport_width, rows.len() as int);
    }
}

proof fn lemma_rows_grow(p: Placed, f: int, form: VizForm, viewport_width: int, k: int)
    ensures
        with_rows(p, f, form, viewport_width, k).y >= min_int(p.y, 65535),
    decreases k,
{
    if k > 0 {
        lemma_rows_grow(p, f, form, viewport_width, k - 1);
        let row = form_rows(form, columns_of(viewport_width))[k - 1];
        lemma_row_height_range(form, row, card_width_of(viewport_width), row.len() as int);
    }
}

/// Automatic placement never lets two compact cards share a cell, as long as ids are unique
/// within their form, no card is wider than the card width, and the canvas does not reach
/// the last row that a position can name.
pub proof fn law_automatic_cards_do_not_overlap(
    plan: VisualizationPlan,
    viewport_width: int,
    top: int,
    s: TargetView,
    t: TargetView,
    ws: int,
    wt: int,
)
    requires
        0 <= viewport_width <= 65535,
        0 <= top,
        forall|f: int| 0 <= f < plan.forms.len() ==> #[trigger] distinct_ids(plan.forms[f]),
        placed(plan.forms@, viewport_width, top, plan.forms.len() as int).y < 65535,
        s != t,
        automatic(plan, viewport_width, top).dom().contains(s),
        automatic(plan, viewport_width, top).dom().contains(t),
        ws <= card_width_of(viewport_width),
        wt <= card_width_of(viewport_width),
    ensures
        apart(
            automatic(plan, viewport_width, top)[s],
            ws,
            card_height(node_of(plan.forms@, s), card_width_of(viewport_width)),
            automatic(plan, viewport_width, top)[t],
            wt,
            card_height(node_of(plan.forms@, t), card_width_of(viewport_width)),
        ),
{
    assert forall|f: int| 0 <= f < plan.forms@.len() implies #[trigger] distinct_ids(plan.forms@[f]) by {
        assert(distinct_ids(plan.forms[f]));
    }
    lemma_clear_forms(plan.forms@, viewport_width, top, plan.forms.len() as int);
}

} // verus!
