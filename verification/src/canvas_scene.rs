//! The scene of a plan: where its boxes stand, what connects them, and the text around them.

use vstd::prelude::*;
use crate::action::{PlanNodeTarget, TargetView};
use crate::canvas_grid::{count32, max_i32, plus, sat32, times, CanvasRect, PlanCanvasPoint};
use crate::diagram::{kind_name, relationship_kind_name};
use crate::diagram_layout::{canvas_node_lines, node_card};
use crate::num::{max_int, max_usize, min_int, min_usize, monus};
use crate::plan::{FormKind, PlanEdge, PlanEdgeKind, PlanEvidence, PlanNode, VisualizationPlan, VizForm};
use crate::table::{is_held, Table};
use crate::text::{cells_of_char, char_cells_or_none, chars_of, display_width, same_text, str_width, texts};
use crate::wrap::{append_texts, decimal, decimal_of, ended, trim, trimmed, words, words_of, Fill};

verus! {

/// Rows between two boxes of one column.
pub const NODE_GAP_Y: i32 = 3;

/// Rows between two forms.
pub const FORM_GAP: i32 = 4;

/// One character of a word that is too long for a line.
pub open spec fn char_step(f: Fill, c: char, width: int) -> Fill {
    if display_width(f.open) + cells_of_char(c) > width && f.open.len() > 0 {
        Fill { lines: f.lines.push(f.open), open: seq![c] }
    } else {
        Fill { lines: f.lines, open: f.open.push(c) }
    }
}

/// The first `n` characters of a long word, cut to lines.
pub open spec fn chars_cut(word: Seq<char>, width: int, n: int) -> Fill
    decreases n,
{
    if n <= 0 {
        Fill { lines: Seq::empty(), open: Seq::empty() }
    } else {
        char_step(chars_cut(word, width, n - 1), word[n - 1], width)
    }
}

/// One word of a wrapped text.
pub open spec fn word_step(f: Fill, word: Seq<char>, width: int) -> Fill {
    if f.open.len() == 0 {
        if display_width(word) > width {
            let cut = chars_cut(word, width, word.len() as int);
            Fill { lines: f.lines + cut.lines, open: cut.open }
        } else {
            Fill { lines: f.lines, open: word }
        }
    } else if display_width(f.open) + 1 + display_width(word) > width {
        Fill { lines: f.lines.push(f.open), open: word }
    } else {
        Fill { lines: f.lines, open: f.open.push(' ') + word }
    }
}

/// The first `n` words of a text, wrapped.
pub open spec fn words_filled(list: Seq<Seq<char>>, width: int, n: int) -> Fill
    decreases n,
{
    if n <= 0 {
        Fill { lines: Seq::empty(), open: Seq::empty() }
    } else {
        word_step(words_filled(list, width, n - 1), list[n - 1], width)
    }
}

/// The lines of a text at a width, with nothing left out but the space between words.
pub open spec fn full_lines(text: Seq<char>, width: int) -> Seq<Seq<char>> {
    let list = words_of(text);
    ended(words_filled(list, max_int(width, 1), list.len() as int))
}

fn cut_word(word: &str, width: usize) -> (r: (Vec<String>, String))
    ensures
        chars_cut(word@, width as int, word@.len() as int) == (Fill { lines: texts(r.0@), open: r.1@ }),
{
    let chars = chars_of(word);
    let mut lines: Vec<String> = Vec::new();
    let mut open = String::new();
    let mut n: usize = 0;
    proof {
        assert(texts(lines@) =~= Seq::empty());
    }
    while n < chars.len()
        invariant
            n <= chars.len(),
            chars@ == word@,
            chars_cut(word@, width as int, n as int) == (Fill { lines: texts(lines@), open: open@ }),
        decreases chars.len() - n,
    {
        let ch: char = chars[n];
        let taken: usize = str_width(open.as_str());
        let more: usize = char_cells_or_none(ch);
        let over: bool = taken > width || more > width - taken;
        let ghost before = texts(lines@);
        if over && !open.as_str().is_empty() {
            let ghost whole = open@;
            lines.push(open);
            open = String::new();
            proof {
                assert(texts(lines@) =~= before.push(whole));
            }
        }
        open.push(ch);
        proof {
            assert(seq![ch] =~= Seq::<char>::empty().push(ch));
        }
        n = n + 1;
    }
    (lines, open)
}

/// Wrap a text at a width, with nothing left out but the space between words.
pub fn wrap_full(text: &str, width: usize) -> (out: Vec<String>)
    ensures
        texts(out@) == full_lines(text@, width as int),
{
    let width: usize = max_usize(width, 1);
    let list = words(text);
    let ghost all = words_of(text@);
    let mut lines: Vec<String> = Vec::new();
    let mut open = String::new();
    let mut n: usize = 0;
    proof {
        assert(texts(lines@) =~= Seq::empty());
        assert(all.len() == list.len());
    }
    while n < list.len()
        invariant
            n <= list.len() == all.len(),
            all == texts(list@),
            words_filled(all, width as int, n as int) == (Fill { lines: texts(lines@), open: open@ }),
        decreases list.len() - n,
    {
        let word: &str = list[n].as_str();
        let w: usize = str_width(word);
        let ghost before = texts(lines@);
        proof {
            assert(all[n as int] == list@[n as int]@);
        }
        if open.as_str().is_empty() {
            if w > width {
                let (cut, rest) = cut_word(word, width);
                append_texts(&mut lines, cut);
                open = rest;
            } else {
                open = word.to_owned();
            }
        } else {
            let taken: usize = str_width(open.as_str());
            if taken >= width || w > width - taken - 1 {
                let ghost whole = open@;
                lines.push(open);
                open = word.to_owned();
                proof {
                    assert(texts(lines@) =~= before.push(whole));
                }
            } else {
                open.push(' ');
                open.append(word);
            }
        }
        n = n + 1;
    }
    let ghost f = Fill { lines: texts(lines@), open: open@ };
    if !open.as_str().is_empty() {
        lines.push(open);
    }
    proof {
        assert(texts(lines@) =~= ended(f));
    }
    lines
}

/// How many characters from `i` on fit a budget of cells, counted from the start.
pub open spec fn chars_within(text: Seq<char>, budget: int, i: int) -> int
    decreases text.len() - i,
{
    if 0 <= i < text.len() && display_width(text.take(i)) + cells_of_char(text[i]) <= budget {
        chars_within(text, budget, i + 1)
    } else {
        i
    }
}

/// A label cut to a width, with an ellipsis where something is missing.
pub open spec fn cut_label(text: Seq<char>, width: int) -> Seq<char> {
    if display_width(text) <= width {
        text
    } else if width == 0 {
        Seq::empty()
    } else {
        text.take(chars_within(text, width - 1, 0)).push('…')
    }
}

/// Cut a label to a width, with an ellipsis where something is missing.
pub fn truncate_label(text: &str, width: usize) -> (out: String)
    ensures
        out@ == cut_label(text@, width as int),
{
    if str_width(text) <= width {
        return text.to_owned();
    }
    if width == 0 {
        return String::new();
    }
    let chars = chars_of(text);
    let mut out = String::new();
    let budget: usize = width - 1;
    let mut n: usize = 0;
    proof {
        assert(text@.take(0) =~= Seq::empty());
    }
    while n < chars.len()
        invariant_except_break
            n <= chars.len(),
            chars@ == text@,
            out@ == text@.take(n as int),
            chars_within(text@, budget as int, 0) == chars_within(text@, budget as int, n as int),
        ensures
            out@ == text@.take(chars_within(text@, budget as int, 0)),
        decreases chars.len() - n,
    {
        let taken: usize = str_width(out.as_str());
        let more: usize = char_cells_or_none(chars[n]);
        if taken > budget || more > budget - taken {
            break;
        }
        out.push(chars[n]);
        proof {
            assert(text@.take(n + 1) =~= text@.take(n as int).push(text@[n as int]));
        }
        n = n + 1;
    }
    out.push('…');
    out
}

/// What an edge is labelled with: its own label, or what its kind is called.
pub open spec fn label_of(edge: PlanEdge) -> Seq<char> {
    match edge.label {
        Some(l) => l@,
        None => kind_name(edge.kind),
    }
}

/// What an edge is labelled with.
pub fn edge_label(edge: &PlanEdge) -> (label: &str)
    ensures
        label@ == label_of(*edge),
{
    match &edge.label {
        Some(l) => l.as_str(),
        None => relationship_kind_name(edge.kind),
    }
}

/// A count as `i32`, or a default where it does not fit.
pub open spec fn count_or(n: int, default: int) -> int {
    if n > i32::MAX {
        default
    } else {
        n
    }
}

/// A count as `i32`, or a default where it does not fit.
pub fn count_or_default(n: usize, default: i32) -> (r: i32)
    ensures
        r == count_or(n as int, default as int),
{
    if n > i32::MAX as usize {
        default
    } else {
        n as i32
    }
}

/// The space beside a box that the labels of the first `n` edges ask for.
pub open spec fn gap_of(edges: Seq<PlanEdge>, n: int) -> int
    decreases n,
{
    if n <= 0 {
        14
    } else {
        max_int(
            gap_of(edges, n - 1),
            sat32(count_or(display_width(label_of(edges[n - 1])) as int, 24) + 8),
        )
    }
}

fn label_gap(form: &VizForm) -> (gap: i32)
    ensures
        gap == gap_of(form.edges@, form.edges.len() as int),
        gap >= 14,
{
    let mut gap: i32 = 14;
    let mut n: usize = 0;
    while n < form.edges.len()
        invariant
            n <= form.edges.len(),
            gap == gap_of(form.edges@, n as int),
            gap >= 14,
        decreases form.edges.len() - n,
    {
        let wide: i32 = count_or_default(str_width(edge_label(&form.edges[n])), 24);
        gap = max_i32(gap, plus(wide, 8));
        n = n + 1;
    }
    gap
}

/// The rows of a box at its tallest.
pub open spec fn full_height(node: PlanNode, box_width: int) -> int {
    sat32(node_card(node, box_width, true).len() as int)
}

fn maximum_height(node: &PlanNode, box_width: u16) -> (h: i32)
    ensures
        h == full_height(*node, box_width as int),
        h >= 0,
{
    let rows = canvas_node_lines(node, box_width, true);
    proof {
        assert(texts(rows@).len() == rows.len());
    }
    count32(rows.len())
}

/// The row below a box and the gap under it.
pub open spec fn next_row(y: int, node: PlanNode, box_width: int) -> int {
    sat32(y + sat32(full_height(node, box_width) + NODE_GAP_Y))
}

fn row_below(y: i32, node: &PlanNode, box_width: u16) -> (r: i32)
    ensures
        r == next_row(y as int, *node, box_width as int),
{
    plus(y, plus(maximum_height(node, box_width), NODE_GAP_Y))
}

/// The column of a depth.
pub open spec fn column_of(depth: int, box_width: int, gap: int) -> int {
    sat32(sat32(depth) * sat32(box_width + gap))
}

fn column_at(depth: usize, box_width: u16, gap: i32) -> (x: i32)
    requires
        gap >= 0,
    ensures
        x == column_of(depth as int, box_width as int, gap as int),
{
    times(depth, plus(box_width as i32, gap))
}

pub open spec fn point(x: int, y: int) -> PlanCanvasPoint {
    PlanCanvasPoint { x: x as i32, y: y as i32 }
}

/// The row of box `n` when boxes stand below each other.
pub open spec fn stack_row(nodes: Seq<PlanNode>, top: int, box_width: int, n: int) -> int
    decreases n,
{
    if n <= 0 {
        top
    } else {
        next_row(stack_row(nodes, top, box_width, n - 1), nodes[n - 1], box_width)
    }
}

/// The first `n` boxes below each other.
pub open spec fn stacked_at(nodes: Seq<PlanNode>, top: int, box_width: int, n: int) -> Map<Seq<char>, PlanCanvasPoint>
    decreases n,
{
    if n <= 0 {
        Map::empty()
    } else {
        stacked_at(nodes, top, box_width, n - 1).insert(
            nodes[n - 1].id@,
            point(0, stack_row(nodes, top, box_width, n - 1)),
        )
    }
}

/// The first `n` boxes beside each other.
pub open spec fn beside_at(nodes: Seq<PlanNode>, top: int, box_width: int, gap: int, n: int) -> Map<
    Seq<char>,
    PlanCanvasPoint,
>
    decreases n,
{
    if n <= 0 {
        Map::empty()
    } else {
        beside_at(nodes, top, box_width, gap, n - 1).insert(
            nodes[n - 1].id@,
            point(column_of(n - 1, box_width, gap), top),
        )
    }
}

fn stack_positions(nodes: &Vec<PlanNode>, top: i32, box_width: u16) -> (out: Table<String, PlanCanvasPoint>)
    ensures
        out@ == stacked_at(nodes@, top as int, box_width as int, nodes.len() as int),
{
    let mut out: Table<String, PlanCanvasPoint> = Table::new();
    let mut y: i32 = top;
    let mut n: usize = 0;
    while n < nodes.len()
        invariant
            n <= nodes.len(),
            y == stack_row(nodes@, top as int, box_width as int, n as int),
            out@ == stacked_at(nodes@, top as int, box_width as int, n as int),
        decreases nodes.len() - n,
    {
        out.insert(nodes[n].id.clone(), PlanCanvasPoint { x: 0, y });
        y = row_below(y, &nodes[n], box_width);
        n = n + 1;
    }
    out
}

fn beside_positions(nodes: &Vec<PlanNode>, top: i32, box_width: u16, gap: i32) -> (out: Table<
    String,
    PlanCanvasPoint,
>)
    requires
        gap >= 0,
    ensures
        out@ == beside_at(nodes@, top as int, box_width as int, gap as int, nodes.len() as int),
{
    let mut out: Table<String, PlanCanvasPoint> = Table::new();
    let mut n: usize = 0;
    while n < nodes.len()
        invariant
            n <= nodes.len(),
            gap >= 0,
            out@ == beside_at(nodes@, top as int, box_width as int, gap as int, n as int),
        decreases nodes.len() - n,
    {
        out.insert(nodes[n].id.clone(), PlanCanvasPoint { x: column_at(n, box_width, gap), y: top });
        n = n + 1;
    }
    out
}

/// The last of the first `n` nodes with an id.
pub open spec fn last_node(nodes: Seq<PlanNode>, id: Seq<char>, n: int) -> Option<int>
    decreases n,
{
    if n <= 0 {
        None
    } else if nodes[n - 1].id@ == id {
        Some(n - 1)
    } else {
        last_node(nodes, id, n - 1)
    }
}

fn find_last(nodes: &Vec<PlanNode>, id: &str) -> (r: Option<usize>)
    ensures
        match r {
            Some(k) => last_node(nodes@, id@, nodes.len() as int) == Some(k as int) && k < nodes.len(),
            None => last_node(nodes@, id@, nodes.len() as int) is None,
        },
{
    let mut n: usize = nodes.len();
    while n > 0
        invariant
            n <= nodes.len(),
            last_node(nodes@, id@, nodes.len() as int) == last_node(nodes@, id@, n as int),
        decreases n,
    {
        if same_text(nodes[n - 1].id.as_str(), id) {
            return Some(n - 1);
        }
        n = n - 1;
    }
    None
}

/// A tree while it is laid out: the next free row, and the boxes placed so far.
#[verifier::ext_equal]
pub struct Growth {
    pub row: int,
    pub placed: Map<Seq<char>, PlanCanvasPoint>,
}

/// A tree with a node placed, and what hangs below it. A node that stands already is left
/// where it is. A chain of distinct nodes is never longer than the list.
pub open spec fn visited(nodes: Seq<PlanNode>, k: int, depth: int, s: Growth, box_width: int, gap: int) -> Growth
    decreases nodes.len() - depth, nodes[k].children.len() + 1,
{
    if depth >= nodes.len() || s.placed.dom().contains(nodes[k].id@) {
        s
    } else {
        let here = Growth {
            row: next_row(s.row, nodes[k], box_width),
            placed: s.placed.insert(nodes[k].id@, point(column_of(depth, box_width, gap), s.row)),
        };
        below(nodes, k, depth, here, box_width, gap, nodes[k].children.len() as int)
    }
}

/// A tree with the first `n` children of a node visited.
pub open spec fn below(
    nodes: Seq<PlanNode>,
    k: int,
    depth: int,
    s: Growth,
    box_width: int,
    gap: int,
    n: int,
) -> Growth
    decreases nodes.len() - depth, n,
{
    if n <= 0 || depth >= nodes.len() {
        s
    } else {
        let before = below(nodes, k, depth, s, box_width, gap, n - 1);
        match last_node(nodes, nodes[k].children[n - 1]@, nodes.len() as int) {
            Some(j) => visited(nodes, j, depth + 1, before, box_width, gap),
            None => before,
        }
    }
}

/// Whether some node lists an id as a child.
pub open spec fn is_child(nodes: Seq<PlanNode>, id: Seq<char>) -> bool {
    exists|k: int, c: int|
        #![trigger nodes[k].children[c]]
        0 <= k < nodes.len() && 0 <= c < nodes[k].children.len() && nodes[k].children[c]@ == id
}

/// A tree with those of the first `n` nodes visited that are no children.
pub open spec fn roots_visited(nodes: Seq<PlanNode>, top: int, box_width: int, gap: int, n: int) -> Growth
    decreases n,
{
    if n <= 0 {
        Growth { row: top, placed: Map::empty() }
    } else {
        let before = roots_visited(nodes, top, box_width, gap, n - 1);
        if is_child(nodes, nodes[n - 1].id@) {
            before
        } else {
            visited(nodes, n - 1, 0, before, box_width, gap)
        }
    }
}

/// A tree with its roots and then the first `n` nodes visited.
pub open spec fn all_visited(nodes: Seq<PlanNode>, top: int, box_width: int, gap: int, n: int) -> Growth
    decreases n,
{
    if n <= 0 {
        roots_visited(nodes, top, box_width, gap, nodes.len() as int)
    } else {
        visited(nodes, n - 1, 0, all_visited(nodes, top, box_width, gap, n - 1), box_width, gap)
    }
}

fn visit(
    nodes: &Vec<PlanNode>,
    k: usize,
    depth: usize,
    box_width: u16,
    gap: i32,
    row: &mut i32,
    out: &mut Table<String, PlanCanvasPoint>,
)
    requires
        k < nodes.len(),
        gap >= 0,
    ensures
        (Growth { row: *final(row) as int, placed: final(out)@ }) == visited(
            nodes@,
            k as int,
            depth as int,
            (Growth { row: *old(row) as int, placed: old(out)@ }),
            box_width as int,
            gap as int,
        ),
    decreases nodes.len() - depth,
{
    if depth >= nodes.len() || out.contains(&nodes[k].id) {
        return;
    }
    let ghost s = Growth { row: *row as int, placed: out@ };
    out.insert(nodes[k].id.clone(), PlanCanvasPoint { x: column_at(depth, box_width, gap), y: *row });
    *row = row_below(*row, &nodes[k], box_width);
    let ghost here = Growth { row: *row as int, placed: out@ };
    let mut n: usize = 0;
    while n < nodes[k].children.len()
        invariant
            k < nodes.len(),
            depth < nodes.len(),
            gap >= 0,
            n <= nodes@[k as int].children.len(),
            (Growth { row: *row as int, placed: out@ }) == below(
                nodes@,
                k as int,
                depth as int,
                here,
                box_width as int,
                gap as int,
                n as int,
            ),
        decreases nodes@[k as int].children.len() - n,
    {
        match find_last(nodes, nodes[k].children[n].as_str()) {
            Some(j) => {
                visit(nodes, j, depth + 1, box_width, gap, row, out);
            },
            None => {},
        }
        n = n + 1;
    }
}

fn listed_as_child(nodes: &Vec<PlanNode>, id: &str) -> (r: bool)
    ensures
        r == is_child(nodes@, id@),
{
    let mut k: usize = 0;
    while k < nodes.len()
        invariant
            k <= nodes.len(),
            forall|i: int, c: int|
                #![trigger nodes@[i].children[c]]
                0 <= i < k && 0 <= c < nodes@[i].children.len() ==> nodes@[i].children[c]@ != id@,
        decreases nodes.len() - k,
    {
        let mut c: usize = 0;
        while c < nodes[k].children.len()
            invariant
                k < nodes.len(),
                c <= nodes@[k as int].children.len(),
                forall|j: int| #![trigger nodes@[k as int].children[j]] 0 <= j < c ==> nodes@[k as int].children[j]@
                    != id@,
            decreases nodes@[k as int].children.len() - c,
        {
            if same_text(nodes[k].children[c].as_str(), id) {
                proof {
                    assert(nodes@[k as int].children[c as int]@ == id@);
                }
                return true;
            }
            c = c + 1;
        }
        k = k + 1;
    }
    false
}

fn tree_positions(nodes: &Vec<PlanNode>, top: i32, box_width: u16, gap: i32) -> (out: Table<String, PlanCanvasPoint>)
    requires
        gap >= 0,
    ensures
        out@ == all_visited(nodes@, top as int, box_width as int, gap as int, nodes.len() as int).placed,
{
    let mut out: Table<String, PlanCanvasPoint> = Table::new();
    let mut row: i32 = top;
    let mut n: usize = 0;
    while n < nodes.len()
        invariant
            n <= nodes.len(),
            gap >= 0,
            (Growth { row: row as int, placed: out@ }) == roots_visited(
                nodes@,
                top as int,
                box_width as int,
                gap as int,
                n as int,
            ),
        decreases nodes.len() - n,
    {
        if !listed_as_child(nodes, nodes[n].id.as_str()) {
            visit(nodes, n, 0, box_width, gap, &mut row, &mut out);
        }
        n = n + 1;
    }
    let mut m: usize = 0;
    while m < nodes.len()
        invariant
            m <= nodes.len(),
            gap >= 0,
            (Growth { row: row as int, placed: out@ }) == all_visited(
                nodes@,
                top as int,
                box_width as int,
                gap as int,
                m as int,
            ),
        decreases nodes.len() - m,
    {
        visit(nodes, m, 0, box_width, gap, &mut row, &mut out);
        m = m + 1;
    }
    out
}

/// The layer that a table gives an id; the first where it gives none.
pub open spec fn layer_in(layers: Map<Seq<char>, usize>, id: Seq<char>) -> int {
    if layers.dom().contains(id) {
        layers[id] as int
    } else {
        0
    }
}

/// One pass over the first `n` edges: the end of an edge is at least one layer behind what
/// its start had before the pass, within the deepest layer.
pub open spec fn pass(
    before: Map<Seq<char>, usize>,
    edges: Seq<PlanEdge>,
    deepest: int,
    n: int,
) -> Map<Seq<char>, usize>
    decreases n,
{
    if n <= 0 {
        before
    } else {
        let now = pass(before, edges, deepest, n - 1);
        let candidate = min_int(layer_in(before, edges[n - 1].from@) + 1, deepest);
        if candidate > layer_in(now, edges[n - 1].to@) {
            now.insert(edges[n - 1].to@, candidate as usize)
        } else {
            now
        }
    }
}

/// The layers after `k` passes.
pub open spec fn layered(edges: Seq<PlanEdge>, deepest: int, k: int) -> Map<Seq<char>, usize>
    decreases k,
{
    if k <= 0 {
        Map::empty()
    } else {
        pass(layered(edges, deepest, k - 1), edges, deepest, edges.len() as int)
    }
}

/// Layers that a pass keeps are final.
proof fn lemma_layers_settle(edges: Seq<PlanEdge>, deepest: int, k: int, later: int)
    requires
        0 <= k <= later,
        layered(edges, deepest, k + 1) == layered(edges, deepest, k),
    ensures
        layered(edges, deepest, later) == layered(edges, deepest, k),
    decreases later - k,
{
    if later > k {
        lemma_layers_settle(edges, deepest, k, later - 1);
    }
}

/// No layer is behind the deepest.
proof fn lemma_pass_bound(before: Map<Seq<char>, usize>, edges: Seq<PlanEdge>, deepest: int, n: int)
    requires
        0 <= deepest <= usize::MAX,
        forall|id: Seq<char>| #![trigger layer_in(before, id)] layer_in(before, id) <= deepest,
    ensures
        forall|id: Seq<char>| #![trigger layer_in(pass(before, edges, deepest, n), id)] layer_in(
            pass(before, edges, deepest, n),
            id,
        ) <= deepest,
    decreases n,
{
    if n > 0 {
        lemma_pass_bound(before, edges, deepest, n - 1);
        let now = pass(before, edges, deepest, n - 1);
        assert forall|id: Seq<char>| #![trigger layer_in(pass(before, edges, deepest, n), id)] layer_in(
            pass(before, edges, deepest, n),
            id,
        ) <= deepest by {
            assert(layer_in(now, id) <= deepest);
        }
    }
}

proof fn lemma_layers_bound(edges: Seq<PlanEdge>, deepest: int, k: int)
    requires
        0 <= deepest <= usize::MAX,
    ensures
        forall|id: Seq<char>| #![trigger layer_in(layered(edges, deepest, k), id)] layer_in(
            layered(edges, deepest, k),
            id,
        ) <= deepest,
    decreases k,
{
    if k > 0 {
        lemma_layers_bound(edges, deepest, k - 1);
        lemma_pass_bound(layered(edges, deepest, k - 1), edges, deepest, edges.len() as int);
    }
}

fn layer_held(layers: &Table<String, usize>, id: &String) -> (n: usize)
    ensures
        n == layer_in(layers@, id@),
{
    match layers.get(id) {
        Some(n) => *n,
        None => 0,
    }
}

fn one_pass(layers: &mut Table<String, usize>, edges: &Vec<PlanEdge>, deepest: usize) -> (changed: bool)
    ensures
        final(layers)@ == pass(old(layers)@, edges@, deepest as int, edges.len() as int),
        !changed ==> final(layers)@ == old(layers)@,
{
    let previous: Vec<usize> = starts_of(layers, edges);
    let ghost before = layers@;
    let mut changed: bool = false;
    let mut n: usize = 0;
    while n < edges.len()
        invariant
            n <= edges.len(),
            previous.len() == edges.len(),
            forall|i: int| #![trigger previous@[i]] 0 <= i < edges.len() ==> previous@[i] == layer_in(
                before,
                edges@[i].from@,
            ),
            layers@ == pass(before, edges@, deepest as int, n as int),
            !changed ==> layers@ == before,
        decreases edges.len() - n,
    {
        let candidate: usize = min_usize(previous[n].saturating_add(1), deepest);
        proof {
            assert(candidate == min_int(layer_in(before, edges@[n as int].from@) + 1, deepest as int));
        }
        if candidate > layer_held(layers, &edges[n].to) {
            layers.insert(edges[n].to.clone(), candidate);
            changed = true;
        }
        n = n + 1;
    }
    changed
}

fn starts_of(layers: &Table<String, usize>, edges: &Vec<PlanEdge>) -> (out: Vec<usize>)
    ensures
        out.len() == edges.len(),
        forall|i: int| #![trigger out@[i]] 0 <= i < edges.len() ==> out@[i] == layer_in(layers@, edges@[i].from@),
{
    let mut out: Vec<usize> = Vec::new();
    while out.len() < edges.len()
        invariant
            out.len() <= edges.len(),
            forall|i: int| #![trigger out@[i]] 0 <= i < out.len() ==> out@[i] == layer_in(layers@, edges@[i].from@),
        decreases edges.len() - out.len(),
    {
        let n: usize = layer_held(layers, &edges[out.len()].from);
        out.push(n);
    }
    out
}

fn graph_layers(form: &VizForm, deepest: usize) -> (layers: Table<String, usize>)
    ensures
        layers@ == layered(form.edges@, deepest as int, form.nodes.len() as int),
{
    let mut layers: Table<String, usize> = Table::new();
    let mut k: usize = 0;
    while k < form.nodes.len()
        invariant
            k <= form.nodes.len(),
            layers@ == layered(form.edges@, deepest as int, k as int),
        decreases form.nodes.len() - k,
    {
        if !one_pass(&mut layers, &form.edges, deepest) {
            proof {
                lemma_layers_settle(form.edges@, deepest as int, k as int, form.nodes.len() as int);
            }
            return layers;
        }
        k = k + 1;
    }
    layers
}

/// The deepest layer that a form can have.
pub open spec fn deepest_of(form: VizForm) -> int {
    monus(form.nodes.len() as int, 1)
}

/// The layer of node `i`.
pub open spec fn layer_of(form: VizForm, i: int) -> int {
    layer_in(layered(form.edges@, deepest_of(form), form.nodes.len() as int), form.nodes[i].id@)
}

/// The next free row of a layer when the first `n` nodes stand.
pub open spec fn layer_row(form: VizForm, layer: int, top: int, box_width: int, n: int) -> int
    decreases n,
{
    if n <= 0 {
        top
    } else {
        let before = layer_row(form, layer, top, box_width, n - 1);
        if layer_of(form, n - 1) == layer {
            next_row(before, form.nodes[n - 1], box_width)
        } else {
            before
        }
    }
}

/// The first `n` nodes in their layers.
pub open spec fn graph_at(form: VizForm, top: int, box_width: int, gap: int, n: int) -> Map<
    Seq<char>,
    PlanCanvasPoint,
>
    decreases n,
{
    if n <= 0 {
        Map::empty()
    } else {
        graph_at(form, top, box_width, gap, n - 1).insert(
            form.nodes[n - 1].id@,
            point(
                column_of(layer_of(form, n - 1), box_width, gap),
                layer_row(form, layer_of(form, n - 1), top, box_width, n - 1),
            ),
        )
    }
}

fn graph_positions(form: &VizForm, top: i32, box_width: u16, gap: i32) -> (out: Table<String, PlanCanvasPoint>)
    requires
        gap >= 0,
    ensures
        out@ == graph_at(*form, top as int, box_width as int, gap as int, form.nodes.len() as int),
{
    let deepest: usize = form.nodes.len().saturating_sub(1);
    let layers = graph_layers(form, deepest);
    let mut rows: Vec<i32> = Vec::new();
    while rows.len() < form.nodes.len()
        invariant
            rows.len() <= form.nodes.len(),
            forall|l: int| #![trigger rows@[l]] 0 <= l < rows.len() ==> rows@[l] == top,
        decreases form.nodes.len() - rows.len(),
    {
        rows.push(top);
    }
    let mut out: Table<String, PlanCanvasPoint> = Table::new();
    let mut n: usize = 0;
    while n < form.nodes.len()
        invariant
            n <= form.nodes.len() == rows.len(),
            gap >= 0,
            deepest == deepest_of(*form),
            layers@ == layered(form.edges@, deepest as int, form.nodes.len() as int),
            forall|l: int| #![trigger rows@[l]] 0 <= l < rows.len() ==> rows@[l] == layer_row(
                *form,
                l,
                top as int,
                box_width as int,
                n as int,
            ),
            out@ == graph_at(*form, top as int, box_width as int, gap as int, n as int),
        decreases form.nodes.len() - n,
    {
        let layer: usize = layer_held(&layers, &form.nodes[n].id);
        proof {
            lemma_layers_bound(form.edges@, deepest as int, form.nodes.len() as int);
            assert(layer == layer_of(*form, n as int));
            assert(layer_in(layers@, form.nodes@[n as int].id@) <= deepest);
        }
        let y: i32 = rows[layer];
        out.insert(form.nodes[n].id.clone(), PlanCanvasPoint { x: column_at(layer, box_width, gap), y });
        rows.set(layer, row_below(y, &form.nodes[n], box_width));
        n = n + 1;
    }
    out
}

/// Where the boxes of a form stand before anybody moves them.
pub open spec fn automatic(form: VizForm, top: int, box_width: int) -> Map<Seq<char>, PlanCanvasPoint> {
    let n = form.nodes.len() as int;
    let gap = gap_of(form.edges@, form.edges.len() as int);
    match form.kind {
        FormKind::Sequence | FormKind::ImpactSummary | FormKind::FocusedDiff => stacked_at(
            form.nodes@,
            top,
            box_width,
            n,
        ),
        FormKind::BeforeAfter => beside_at(form.nodes@, top, box_width, gap, n),
        FormKind::ChangedSymbolTree | FormKind::CallTree | FormKind::TypeImplTree => all_visited(
            form.nodes@,
            top,
            box_width,
            gap,
            n,
        ).placed,
        FormKind::RelationshipFlow => graph_at(form, top, box_width, gap, n),
    }
}

/// Where the boxes of a form stand before anybody moves them.
pub fn automatic_positions(form: &VizForm, top: i32, box_width: u16) -> (out: Table<String, PlanCanvasPoint>)
    ensures
        out@ == automatic(*form, top as int, box_width as int),
{
    let gap: i32 = label_gap(form);
    match form.kind {
        FormKind::Sequence | FormKind::ImpactSummary | FormKind::FocusedDiff => stack_positions(
            &form.nodes,
            top,
            box_width,
        ),
        FormKind::BeforeAfter => beside_positions(&form.nodes, top, box_width, gap),
        FormKind::ChangedSymbolTree | FormKind::CallTree | FormKind::TypeImplTree => tree_positions(
            &form.nodes,
            top,
            box_width,
            gap,
        ),
        FormKind::RelationshipFlow => graph_positions(form, top, box_width, gap),
    }
}

/// A connector of the scene.
#[derive(Debug, Clone)]
pub struct SceneEdge {
    pub form: usize,
    pub from: String,
    pub to: String,
    pub kind: PlanEdgeKind,
    /// What is written beside it.
    pub label: String,
}

/// A connector, by contents.
#[verifier::ext_equal]
pub struct LinkView {
    pub form: int,
    pub from: Seq<char>,
    pub to: Seq<char>,
    pub kind: PlanEdgeKind,
    pub label: Seq<char>,
}

impl View for SceneEdge {
    type V = LinkView;

    open spec fn view(&self) -> LinkView {
        LinkView { form: self.form as int, from: self.from@, to: self.to@, kind: self.kind, label: self.label@ }
    }
}

/// Connectors, by contents.
pub open spec fn link_views(edges: Seq<SceneEdge>) -> Seq<LinkView> {
    Seq::new(edges.len(), |i: int| edges[i]@)
}

/// Whether a form has a node with an id.
pub open spec fn knows(nodes: Seq<PlanNode>, id: Seq<char>) -> bool {
    last_node(nodes, id, nodes.len() as int) is Some
}

/// The connectors for the first `n` edges of a form; an edge with an unknown end has none.
pub open spec fn edge_links(form: VizForm, f: int, n: int) -> Seq<LinkView>
    decreases n,
{
    if n <= 0 {
        Seq::empty()
    } else {
        let e = form.edges[n - 1];
        let before = edge_links(form, f, n - 1);
        if knows(form.nodes@, e.from@) && knows(form.nodes@, e.to@) {
            before.push(LinkView { form: f, from: e.from@, to: e.to@, kind: e.kind, label: label_of(e) })
        } else {
            before
        }
    }
}

/// Whether an edge of the form leads from one node to another.
pub open spec fn spelled_out(edges: Seq<PlanEdge>, from: Seq<char>, to: Seq<char>) -> bool {
    exists|i: int| #![trigger edges[i]] 0 <= i < edges.len() && edges[i].from@ == from && edges[i].to@ == to
}

/// A connector of containment.
pub open spec fn contains_link(f: int, from: Seq<char>, to: Seq<char>, label: Seq<char>) -> LinkView {
    LinkView { form: f, from, to, kind: PlanEdgeKind::Contains, label }
}

/// The connectors with those to the first `n` children of node `k` that no edge spells out.
pub open spec fn child_links(links: Seq<LinkView>, form: VizForm, f: int, k: int, n: int) -> Seq<LinkView>
    decreases n,
{
    if n <= 0 {
        links
    } else {
        let before = child_links(links, form, f, k, n - 1);
        let (from, to) = (form.nodes[k].id@, form.nodes[k].children[n - 1]@);
        if spelled_out(form.edges@, from, to) || !knows(form.nodes@, to) {
            before
        } else {
            before.push(contains_link(f, from, to, "contains"@))
        }
    }
}

/// The connectors of the edges, and of the children of the first `n` nodes.
pub open spec fn node_links(form: VizForm, f: int, n: int) -> Seq<LinkView>
    decreases n,
{
    if n <= 0 {
        edge_links(form, f, form.edges.len() as int)
    } else {
        child_links(node_links(form, f, n - 1), form, f, n - 1, form.nodes[n - 1].children.len() as int)
    }
}

/// All connectors of a form. Before and after are connected even where nothing says so.
pub open spec fn form_links(form: VizForm, f: int) -> Seq<LinkView> {
    let links = node_links(form, f, form.nodes.len() as int);
    if form.kind == FormKind::BeforeAfter && links.len() == 0 && form.nodes.len() >= 2 {
        links.push(contains_link(f, form.nodes[0].id@, form.nodes[1].id@, "becomes"@))
    } else {
        links
    }
}

fn is_spelled_out(edges: &Vec<PlanEdge>, from: &str, to: &str) -> (r: bool)
    ensures
        r == spelled_out(edges@, from@, to@),
{
    let mut i: usize = 0;
    while i < edges.len()
        invariant
            i <= edges.len(),
            forall|j: int| #![trigger edges@[j]] 0 <= j < i ==> !(edges@[j].from@ == from@ && edges@[j].to@ == to@),
        decreases edges.len() - i,
    {
        if same_text(edges[i].from.as_str(), from) && same_text(edges[i].to.as_str(), to) {
            return true;
        }
        i = i + 1;
    }
    false
}

fn contains_edge(form: usize, from: &str, to: &str, label: &str) -> (e: SceneEdge)
    ensures
        e@ == contains_link(form as int, from@, to@, label@),
{
    SceneEdge {
        form,
        from: from.to_owned(),
        to: to.to_owned(),
        kind: PlanEdgeKind::Contains,
        label: label.to_owned(),
    }
}

fn push_link(out: &mut Vec<SceneEdge>, e: SceneEdge)
    ensures
        link_views(final(out)@) == link_views(old(out)@).push(e@),
{
    let ghost before = link_views(out@);
    out.push(e);
    proof {
        assert(link_views(out@) =~= before.push(e@));
    }
}

fn push_child_edges(out: &mut Vec<SceneEdge>, form: &VizForm, f: usize, k: usize)
    requires
        k < form.nodes.len(),
    ensures
        link_views(final(out)@) == child_links(
            link_views(old(out)@),
            *form,
            f as int,
            k as int,
            form.nodes@[k as int].children.len() as int,
        ),
{
    let ghost start = link_views(out@);
    let mut n: usize = 0;
    while n < form.nodes[k].children.len()
        invariant
            k < form.nodes.len(),
            n <= form.nodes@[k as int].children.len(),
            link_views(out@) == child_links(start, *form, f as int, k as int, n as int),
        decreases form.nodes@[k as int].children.len() - n,
    {
        let from: &str = form.nodes[k].id.as_str();
        let to: &str = form.nodes[k].children[n].as_str();
        if !is_spelled_out(&form.edges, from, to) && find_last(&form.nodes, to).is_some() {
            push_link(out, contains_edge(f, from, to, "contains"));
        }
        n = n + 1;
    }
}

/// All connectors of a form.
pub fn scene_edges(form: &VizForm, form_index: usize) -> (out: Vec<SceneEdge>)
    ensures
        link_views(out@) == form_links(*form, form_index as int),
{
    let mut out: Vec<SceneEdge> = Vec::new();
    let mut n: usize = 0;
    proof {
        assert(link_views(out@) =~= Seq::empty());
    }
    while n < form.edges.len()
        invariant
            n <= form.edges.len(),
            link_views(out@) == edge_links(*form, form_index as int, n as int),
        decreases form.edges.len() - n,
    {
        let e: &PlanEdge = &form.edges[n];
        if find_last(&form.nodes, e.from.as_str()).is_some() && find_last(&form.nodes, e.to.as_str()).is_some() {
            push_link(
                &mut out,
                SceneEdge {
                    form: form_index,
                    from: e.from.clone(),
                    to: e.to.clone(),
                    kind: e.kind,
                    label: edge_label(e).to_owned(),
                },
            );
        }
        n = n + 1;
    }
    let mut k: usize = 0;
    while k < form.nodes.len()
        invariant
            k <= form.nodes.len(),
            link_views(out@) == node_links(*form, form_index as int, k as int),
        decreases form.nodes.len() - k,
    {
        push_child_edges(&mut out, form, form_index, k);
        k = k + 1;
    }
    proof {
        assert(link_views(out@).len() == out.len());
    }
    if form.kind == FormKind::BeforeAfter && out.len() == 0 && form.nodes.len() >= 2 {
        push_link(
            &mut out,
            contains_edge(form_index, form.nodes[0].id.as_str(), form.nodes[1].id.as_str(), "becomes"),
        );
    }
    out
}

/// Where the viewport stands, and where the reader put boxes.
#[derive(Debug, Clone)]
pub struct PlanCanvasView {
    /// The world cell at the upper left of the viewport.
    pub origin: PlanCanvasPoint,
    /// Boxes that the reader moved.
    pub positions: Table<PlanNodeTarget, PlanCanvasPoint>,
}

impl Default for PlanCanvasView {
    fn default() -> (r: Self)
        ensures
            r.origin == (PlanCanvasPoint { x: 0, y: 0 }),
            r.positions@ == Map::<TargetView, PlanCanvasPoint>::empty(),
    {
        PlanCanvasView { origin: PlanCanvasPoint { x: 0, y: 0 }, positions: Table::new() }
    }
}

/// One box of the scene.
#[derive(Debug, Clone)]
pub struct SceneNode<'a> {
    pub target: PlanNodeTarget,
    /// What it shows.
    pub node: &'a PlanNode,
    pub position: PlanCanvasPoint,
    /// What the box shows now.
    pub lines: Vec<String>,
    /// The room it takes at its tallest.
    pub footprint: CanvasRect,
}

/// A box, by contents.
#[verifier::ext_equal]
pub struct SceneView {
    pub target: TargetView,
    pub node: PlanNode,
    pub position: PlanCanvasPoint,
    pub lines: Seq<Seq<char>>,
    pub footprint: CanvasRect,
}

impl<'a> View for SceneNode<'a> {
    type V = SceneView;

    open spec fn view(&self) -> SceneView {
        SceneView {
            target: self.target@,
            node: *self.node,
            position: self.position,
            lines: texts(self.lines@),
            footprint: self.footprint,
        }
    }
}

/// Boxes, by contents.
pub open spec fn scene_views(nodes: Seq<SceneNode>) -> Seq<SceneView> {
    Seq::new(nodes.len(), |i: int| nodes[i]@)
}

impl SceneView {
    /// The room that the box takes now.
    pub open spec fn area(self) -> CanvasRect {
        CanvasRect {
            x: self.position.x,
            y: self.position.y,
            width: self.footprint.width,
            height: sat32(self.lines.len() as int) as i32,
        }
    }
}

impl<'a> SceneNode<'a> {
    /// The room that the box takes now.
    pub fn actual_rect(&self) -> (r: CanvasRect)
        ensures
            r == self@.area(),
    {
        proof {
            assert(texts(self.lines@).len() == self.lines.len());
        }
        CanvasRect {
            x: self.position.x,
            y: self.position.y,
            width: self.footprint.width,
            height: count32(self.lines.len()),
        }
    }
}

/// The reader's view of the boxes: which are open, and where some of them were put.
#[verifier::ext_equal]
pub struct Arrangement {
    pub open: Set<TargetView>,
    pub moved: Map<TargetView, PlanCanvasPoint>,
}

/// Where a box stands: where the reader put it, or where the layout puts it.
pub open spec fn stands_at(
    moved: Map<TargetView, PlanCanvasPoint>,
    placed: Map<Seq<char>, PlanCanvasPoint>,
    t: TargetView,
    top: int,
) -> PlanCanvasPoint {
    if moved.dom().contains(t) {
        moved[t]
    } else if placed.dom().contains(t.id) {
        placed[t.id]
    } else {
        point(0, top)
    }
}

/// The box of node `k` of form `f`.
pub open spec fn scene_box(
    form: VizForm,
    f: int,
    k: int,
    top: int,
    box_width: int,
    a: Arrangement,
) -> SceneView {
    let node = form.nodes[k];
    let t = TargetView { form: f, id: node.id@ };
    let position = stands_at(a.moved, automatic(form, top, box_width), t, top);
    SceneView {
        target: t,
        node,
        position,
        lines: node_card(node, box_width, a.open.contains(t)),
        footprint: CanvasRect {
            x: position.x,
            y: position.y,
            width: box_width as i32,
            height: full_height(node, box_width) as i32,
        },
    }
}

/// The lowest row below the first `n` boxes of a form.
pub open spec fn form_bottom(form: VizForm, f: int, n: int, top: int, box_width: int, a: Arrangement) -> int
    decreases n,
{
    if n <= 0 {
        top
    } else {
        max_int(
            form_bottom(form, f, n - 1, top, box_width, a),
            scene_box(form, f, n - 1, top, box_width, a).footprint.spec_bottom(),
        )
    }
}

/// A scene while it is built: boxes, connectors, and the row of the next form.
#[verifier::ext_equal]
pub struct SceneDraft {
    pub nodes: Seq<SceneView>,
    pub links: Seq<LinkView>,
    pub top: int,
}

/// The boxes of a form.
pub open spec fn form_boxes(form: VizForm, f: int, top: int, box_width: int, a: Arrangement) -> Seq<SceneView> {
    Seq::new(form.nodes.len() as nat, |k: int| scene_box(form, f, k, top, box_width, a))
}

/// The scene of the first `n` forms.
pub open spec fn scene_of(plan: VisualizationPlan, top: int, box_width: int, a: Arrangement, n: int) -> SceneDraft
    decreases n,
{
    if n <= 0 {
        SceneDraft { nodes: Seq::empty(), links: Seq::empty(), top }
    } else {
        let before = scene_of(plan, top, box_width, a, n - 1);
        let form = plan.forms[n - 1];
        SceneDraft {
            nodes: before.nodes + form_boxes(form, n - 1, before.top, box_width, a),
            links: before.links + form_links(form, n - 1),
            top: sat32(
                form_bottom(form, n - 1, form.nodes.len() as int, before.top, box_width, a) + FORM_GAP,
            ),
        }
    }
}

/// The first row of the boxes, below the lines that tell what the plan is about.
pub open spec fn first_top(intent_rows: int) -> int {
    sat32(count_or(intent_rows, 0) + 2)
}

/// Where in the code a piece of evidence is.
pub open spec fn evidence_place(e: PlanEvidence) -> Seq<char> {
    match e.range {
        Some(range) => e.file@.push(':') + decimal_of(min_int(range.start + 1, u32::MAX as int)),
        None => match e.hunk {
            Some(hunk) => e.file@ + " [h"@ + decimal_of(min_int(hunk + 1, u32::MAX as int)) + "]"@,
            None => e.file@,
        },
    }
}

/// A piece of evidence as one text.
pub open spec fn evidence_text(e: PlanEvidence) -> Seq<char> {
    evidence_place(e) + " — "@ + trimmed(e.reason@)
}

/// The lines of the first `n` pieces of evidence.
pub open spec fn evidence_lines(evidence: Seq<PlanEvidence>, width: int, n: int) -> Seq<Seq<char>>
    decreases n,
{
    if n <= 0 {
        Seq::empty()
    } else {
        evidence_lines(evidence, width, n - 1) + full_lines(evidence_text(evidence[n - 1]), width)
    }
}

fn evidence_line(e: &PlanEvidence) -> (out: String)
    ensures
        out@ == evidence_text(*e),
{
    let mut out = e.file.clone();
    match &e.range {
        Some(range) => {
            out.push(':');
            out.append(decimal(range.start.saturating_add(1) as u64).as_str());
        },
        None => match e.hunk {
            Some(hunk) => {
                out.append(" [h");
                out.append(decimal(hunk.saturating_add(1) as u64).as_str());
                out.append("]");
            },
            None => {},
        },
    }
    out.append(" — ");
    out.append(trim(e.reason.as_str()).as_str());
    out
}

fn evidence_rows(evidence: &Vec<PlanEvidence>, width: usize) -> (out: Vec<String>)
    ensures
        texts(out@) == evidence_lines(evidence@, width as int, evidence.len() as int),
{
    let mut out: Vec<String> = Vec::new();
    let mut n: usize = 0;
    proof {
        assert(texts(out@) =~= Seq::empty());
    }
    while n < evidence.len()
        invariant
            n <= evidence.len(),
            texts(out@) == evidence_lines(evidence@, width as int, n as int),
        decreases evidence.len() - n,
    {
        let line = evidence_line(&evidence[n]);
        append_texts(&mut out, wrap_full(line.as_str(), width));
        n = n + 1;
    }
    out
}

/// What a list of open boxes and a view say of the boxes.
pub open spec fn arrangement(open: Seq<PlanNodeTarget>, view: PlanCanvasView) -> Arrangement {
    Arrangement { open: crate::table::held(open), moved: view.positions@ }
}

fn make_box<'a>(
    form: &'a VizForm,
    f: usize,
    k: usize,
    top: i32,
    box_width: u16,
    open: &Vec<PlanNodeTarget>,
    view: &PlanCanvasView,
    placed: &Table<String, PlanCanvasPoint>,
) -> (r: SceneNode<'a>)
    requires
        k < form.nodes.len(),
        placed@ == automatic(*form, top as int, box_width as int),
    ensures
        r@ == scene_box(*form, f as int, k as int, top as int, box_width as int, arrangement(open@, *view)),
{
    let node: &'a PlanNode = &form.nodes[k];
    let target = PlanNodeTarget { form: f, id: node.id.clone() };
    let position: PlanCanvasPoint = match view.positions.get(&target) {
        Some(p) => *p,
        None => match placed.get(&node.id) {
            Some(p) => *p,
            None => PlanCanvasPoint { x: 0, y: top },
        },
    };
    let is_open: bool = is_held(open, &target);
    let lines = canvas_node_lines(node, box_width, is_open);
    let height: i32 = maximum_height(node, box_width);
    let footprint = CanvasRect { x: position.x, y: position.y, width: box_width as i32, height };
    SceneNode { target, node, position, lines, footprint }
}

fn append_links(head: &mut Vec<SceneEdge>, tail: Vec<SceneEdge>)
    ensures
        link_views(final(head)@) == link_views(old(head)@) + link_views(tail@),
{
    let mut tail = tail;
    let ghost (a, b) = (head@, tail@);
    head.append(&mut tail);
    proof {
        assert(head@ =~= a + b);
        assert(link_views(head@) =~= link_views(a) + link_views(b));
    }
}

/// A scene: its boxes, its connectors, and the texts above and below them.
#[derive(Debug, Clone)]
pub struct Scene<'a> {
    pub nodes: Vec<SceneNode<'a>>,
    pub edges: Vec<SceneEdge>,
    pub intent_rows: Vec<String>,
    pub evidence_rows: Vec<String>,
}

fn push_boxes<'a>(
    nodes: &mut Vec<SceneNode<'a>>,
    form: &'a VizForm,
    f: usize,
    top: i32,
    box_width: u16,
    open: &Vec<PlanNodeTarget>,
    view: &PlanCanvasView,
) -> (bottom: i32)
    ensures
        scene_views(final(nodes)@) == scene_views(old(nodes)@) + form_boxes(
            *form,
            f as int,
            top as int,
            box_width as int,
            arrangement(open@, *view),
        ),
        bottom == form_bottom(
            *form,
            f as int,
            form.nodes.len() as int,
            top as int,
            box_width as int,
            arrangement(open@, *view),
        ),
{
    let ghost a = arrangement(open@, *view);
    let ghost start = scene_views(nodes@);
    let ghost all = form_boxes(*form, f as int, top as int, box_width as int, a);
    let placed = automatic_positions(form, top, box_width);
    let mut bottom: i32 = top;
    let mut k: usize = 0;
    proof {
        assert(scene_views(nodes@) =~= start + all.take(0));
    }
    while k < form.nodes.len()
        invariant
            k <= form.nodes.len() == all.len(),
            a == arrangement(open@, *view),
            all == form_boxes(*form, f as int, top as int, box_width as int, a),
            placed@ == automatic(*form, top as int, box_width as int),
            scene_views(nodes@) == start + all.take(k as int),
            bottom == form_bottom(*form, f as int, k as int, top as int, box_width as int, a),
        decreases form.nodes.len() - k,
    {
        let made = make_box(form, f, k, top, box_width, open, view, &placed);
        bottom = max_i32(bottom, made.footprint.bottom());
        let ghost before = scene_views(nodes@);
        proof {
            assert(all[k as int] == made@);
            assert(made.footprint == made@.footprint);
        }
        nodes.push(made);
        proof {
            assert(scene_views(nodes@) =~= before.push(made@));
            assert(all.take(k + 1) =~= all.take(k as int).push(made@));
            assert(scene_views(nodes@) =~= start + all.take(k + 1));
        }
        k = k + 1;
    }
    proof {
        assert(all.take(all.len() as int) =~= all);
    }
    bottom
}

/// Build the scene of a plan for boxes of one width; the texts wrap at another.
pub fn build_scene<'a>(
    plan: &'a VisualizationPlan,
    wrap_width: usize,
    box_width: u16,
    expanded: &Vec<PlanNodeTarget>,
    view: &PlanCanvasView,
) -> (r: Scene<'a>)
    ensures
        texts(r.intent_rows@) == full_lines(plan.intent@, wrap_width as int),
        texts(r.evidence_rows@) == evidence_lines(plan.evidence@, wrap_width as int, plan.evidence.len() as int),
        ({
            let s = scene_of(
                *plan,
                first_top(full_lines(plan.intent@, wrap_width as int).len() as int),
                box_width as int,
                arrangement(expanded@, *view),
                plan.forms.len() as int,
            );
            scene_views(r.nodes@) == s.nodes && link_views(r.edges@) == s.links
        }),
{
    let intent_rows = wrap_full(plan.intent.as_str(), wrap_width);
    let mut nodes: Vec<SceneNode<'a>> = Vec::new();
    let mut edges: Vec<SceneEdge> = Vec::new();
    let start: i32 = plus(count_or_default(intent_rows.len(), 0), 2);
    let mut top: i32 = start;
    let mut f: usize = 0;
    let ghost a = arrangement(expanded@, *view);
    proof {
        assert(texts(intent_rows@).len() == intent_rows.len());
        assert(scene_views(nodes@) =~= Seq::empty());
        assert(link_views(edges@) =~= Seq::empty());
    }
    while f < plan.forms.len()
        invariant
            f <= plan.forms.len(),
            a == arrangement(expanded@, *view),
            scene_of(*plan, start as int, box_width as int, a, f as int) == (SceneDraft {
                nodes: scene_views(nodes@),
                links: link_views(edges@),
                top: top as int,
            }),
        decreases plan.forms.len() - f,
    {
        let bottom: i32 = push_boxes(&mut nodes, &plan.forms[f], f, top, box_width, expanded, view);
        append_links(&mut edges, scene_edges(&plan.forms[f], f));
        top = plus(bottom, FORM_GAP);
        f = f + 1;
    }
    let evidence_rows = evidence_rows(&plan.evidence, wrap_width);
    Scene { nodes, edges, intent_rows, evidence_rows }
}

/// A box takes the same room on the canvas whether it is open or not, and so does every
/// other one: opening a box moves nothing.
pub proof fn law_opening_moves_nothing(
    plan: VisualizationPlan,
    top: int,
    box_width: int,
    a: Arrangement,
    b: Arrangement,
    n: int,
)
    requires
        a.moved == b.moved,
        0 <= n <= plan.forms.len(),
    ensures
        ({
            let (s, t) = (scene_of(plan, top, box_width, a, n), scene_of(plan, top, box_width, b, n));
            &&& s.top == t.top
            &&& s.links == t.links
            &&& s.nodes.len() == t.nodes.len()
            &&& forall|i: int|
                #![trigger s.nodes[i]]
                #![trigger t.nodes[i]]
                0 <= i < s.nodes.len() ==> s.nodes[i].footprint == t.nodes[i].footprint && s.nodes[i].target
                    == t.nodes[i].target && s.nodes[i].position == t.nodes[i].position
        }),
    decreases n,
{
    if n > 0 {
        law_opening_moves_nothing(plan, top, box_width, a, b, n - 1);
        let form = plan.forms[n - 1];
        let before = scene_of(plan, top, box_width, a, n - 1);
        lemma_same_bottom(form, n - 1, form.nodes.len() as int, before.top, box_width, a, b);
    }
}

proof fn lemma_same_bottom(
    form: VizForm,
    f: int,
    n: int,
    top: int,
    box_width: int,
    a: Arrangement,
    b: Arrangement,
)
    requires
        a.moved == b.moved,
    ensures
        form_bottom(form, f, n, top, box_width, a) == form_bottom(form, f, n, top, box_width, b),
    decreases n,
{
    if n > 0 {
        lemma_same_bottom(form, f, n - 1, top, box_width, a, b);
    }
}

/// A node that was placed stays placed.
proof fn lemma_visited_keeps(nodes: Seq<PlanNode>, k: int, depth: int, s: Growth, box_width: int, gap: int, id: Seq<char>)
    requires
        s.placed.dom().contains(id),
    ensures
        visited(nodes, k, depth, s, box_width, gap).placed.dom().contains(id),
    decreases nodes.len() - depth, nodes[k].children.len() + 1,
{
    if depth < nodes.len() && !s.placed.dom().contains(nodes[k].id@) {
        let here = Growth {
            row: next_row(s.row, nodes[k], box_width),
            placed: s.placed.insert(nodes[k].id@, point(column_of(depth, box_width, gap), s.row)),
        };
        lemma_below_keeps(nodes, k, depth, here, box_width, gap, nodes[k].children.len() as int, id);
    }
}

proof fn lemma_below_keeps(
    nodes: Seq<PlanNode>,
    k: int,
    depth: int,
    s: Growth,
    box_width: int,
    gap: int,
    n: int,
    id: Seq<char>,
)
    requires
        s.placed.dom().contains(id),
    ensures
        below(nodes, k, depth, s, box_width, gap, n).placed.dom().contains(id),
    decreases nodes.len() - depth, n,
{
    if n > 0 && depth < nodes.len() {
        lemma_below_keeps(nodes, k, depth, s, box_width, gap, n - 1, id);
        let before = below(nodes, k, depth, s, box_width, gap, n - 1);
        match last_node(nodes, nodes[k].children[n - 1]@, nodes.len() as int) {
            Some(j) => lemma_visited_keeps(nodes, j, depth + 1, before, box_width, gap, id),
            None => {},
        }
    }
}

proof fn lemma_visit_places(nodes: Seq<PlanNode>, k: int, s: Growth, box_width: int, gap: int)
    requires
        0 <= k < nodes.len(),
    ensures
        visited(nodes, k, 0, s, box_width, gap).placed.dom().contains(nodes[k].id@),
{
    if !s.placed.dom().contains(nodes[k].id@) {
        let here = Growth {
            row: next_row(s.row, nodes[k], box_width),
            placed: s.placed.insert(nodes[k].id@, point(column_of(0, box_width, gap), s.row)),
        };
        lemma_below_keeps(nodes, k, 0, here, box_width, gap, nodes[k].children.len() as int, nodes[k].id@);
    }
}

proof fn lemma_all_visited(nodes: Seq<PlanNode>, top: int, box_width: int, gap: int, n: int, k: int)
    requires
        0 <= k < n <= nodes.len(),
    ensures
        all_visited(nodes, top, box_width, gap, n).placed.dom().contains(nodes[k].id@),
    decreases n,
{
    let before = all_visited(nodes, top, box_width, gap, n - 1);
    if k == n - 1 {
        lemma_visit_places(nodes, k, before, box_width, gap);
    } else {
        lemma_all_visited(nodes, top, box_width, gap, n - 1, k);
        lemma_visited_keeps(nodes, n - 1, 0, before, box_width, gap, nodes[k].id@);
    }
}

proof fn lemma_stacked_has(nodes: Seq<PlanNode>, top: int, box_width: int, n: int, k: int)
    requires
        0 <= k < n,
    ensures
        stacked_at(nodes, top, box_width, n).dom().contains(nodes[k].id@),
    decreases n,
{
    if k < n - 1 {
        lemma_stacked_has(nodes, top, box_width, n - 1, k);
    }
}

proof fn lemma_beside_has(nodes: Seq<PlanNode>, top: int, box_width: int, gap: int, n: int, k: int)
    requires
        0 <= k < n,
    ensures
        beside_at(nodes, top, box_width, gap, n).dom().contains(nodes[k].id@),
    decreases n,
{
    if k < n - 1 {
        lemma_beside_has(nodes, top, box_width, gap, n - 1, k);
    }
}

proof fn lemma_graph_has(form: VizForm, top: int, box_width: int, gap: int, n: int, k: int)
    requires
        0 <= k < n,
    ensures
        graph_at(form, top, box_width, gap, n).dom().contains(form.nodes[k].id@),
    decreases n,
{
    if k < n - 1 {
        lemma_graph_has(form, top, box_width, gap, n - 1, k);
    }
}

/// Every layout finds a place for every node, also where nodes contain each other in a circle.
pub proof fn law_every_node_is_placed(form: VizForm, top: int, box_width: int, k: int)
    requires
        0 <= k < form.nodes.len(),
    ensures
        automatic(form, top, box_width).dom().contains(form.nodes[k].id@),
{
    let n = form.nodes.len() as int;
    let gap = gap_of(form.edges@, form.edges.len() as int);
    lemma_stacked_has(form.nodes@, top, box_width, n, k);
    lemma_beside_has(form.nodes@, top, box_width, gap, n, k);
    lemma_all_visited(form.nodes@, top, box_width, gap, n, k);
    lemma_graph_has(form, top, box_width, gap, n, k);
}

/// All boxes of a scene are equally wide.
pub proof fn law_scene_widths(plan: VisualizationPlan, top: int, box_width: int, a: Arrangement, n: int)
    ensures
        forall|i: int|
            #![trigger scene_of(plan, top, box_width, a, n).nodes[i]]
            0 <= i < scene_of(plan, top, box_width, a, n).nodes.len() ==> scene_of(
                plan,
                top,
                box_width,
                a,
                n,
            ).nodes[i].footprint.width == box_width as i32,
    decreases n,
{
    if n > 0 {
        law_scene_widths(plan, top, box_width, a, n - 1);
    }
}

} // verus!
