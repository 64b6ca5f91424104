//! What a drawn diagram shows, cell by cell: text where it was put, connectors along their
//! routes, and heads that point at their targets.

use vstd::prelude::*;
use crate::action::TargetView;
use crate::canvas::{arrow_of, connector_route, edge_drawn, ends_of, label_written, route_drawn, Heading};
use crate::canvas_grid::{
    arrow_ink, char_typed, clipped_rect, cursor_at, drawn_extent, drawn_text, filled, row_line, runs_of, segment_drawn,
    shown_cell, span_of, text_typed, CanvasRect, CellView, PlanCanvasPoint,
};
use crate::diagram::DiagramRole;
use crate::diagram_canvas::{NodeView, RouteView};
use crate::diagram_view::{card_drawn, points_of, relation_drawn};
use crate::text::cells_of_char;

verus! {

/// A viewport of cells.
pub type Cells = Seq<Seq<Option<CellView>>>;

/// Whether a cell of the viewport stands at a point of the world.
pub open spec fn is_at(g: Cells, origin: PlanCanvasPoint, r: int, c: int, x: int, y: int) -> bool {
    0 <= r < g.len() && 0 <= c < g[r].len() && c + origin.x == x && r + origin.y == y
}

/// Whether a character is a head that points right, left, down or up.
pub open spec fn points_right(c: char) -> bool {
    c == '▶' || c == '▷'
}

pub open spec fn points_left(c: char) -> bool {
    c == '◀' || c == '◁'
}

pub open spec fn points_down(c: char) -> bool {
    c == '▼' || c == '▽'
}

pub open spec fn points_up(c: char) -> bool {
    c == '▲' || c == '△'
}

/// A head that stands for something proved is solid, and one that is only inferred is hollow.
pub open spec fn is_solid(c: char) -> bool {
    c == '▶' || c == '◀' || c == '▼' || c == '▲'
}

/// Each heading has a head of its own that points its way, solid where a fact backs it.
pub proof fn law_heads_point_their_way(heading: Heading, verified: bool)
    ensures
        heading == Heading::Right <==> points_right(arrow_of(heading, verified)),
        heading == Heading::Left <==> points_left(arrow_of(heading, verified)),
        heading == Heading::Down <==> points_down(arrow_of(heading, verified)),
        heading == Heading::Up <==> points_up(arrow_of(heading, verified)),
        is_solid(arrow_of(heading, verified)) == verified,
{
}

/// A connector heads for the box it leads to: sideways where the boxes are further apart
/// sideways than in height, towards the side on which the target stands.
pub proof fn law_connectors_head_for_their_target(from: CanvasRect, to: CanvasRect, verified: bool)
    ensures
        ({
            let dx = to.x - from.x;
            let dy = to.y - from.y;
            let wide = if dx < 0 { -dx } else { dx };
            let tall = if dy < 0 { -dy } else { dy };
            let head = arrow_of(ends_of(from, to).heading, verified);
            &&& wide >= tall && dx >= 0 ==> points_right(head)
            &&& wide >= tall && dx < 0 ==> points_left(head)
            &&& wide < tall && dy >= 0 ==> points_down(head)
            &&& wide < tall && dy < 0 ==> points_up(head)
        }),
{
}

/// A fill keeps the shape of the viewport and reaches the cells of its rectangle.
proof fn lemma_filled(g: Cells, origin: PlanCanvasPoint, x0: int, x1: int, y0: int, y1: int, cell: CellView)
    ensures
        ({
            let w = filled(g, origin, x0, x1, y0, y1, cell);
            &&& w.len() == g.len()
            &&& forall|r: int| #![trigger w[r]] 0 <= r < g.len() ==> w[r].len() == g[r].len()
            &&& forall|r: int, c: int|
                #![trigger w[r][c]]
                0 <= r < g.len() && 0 <= c < g[r].len() ==> w[r][c] == if x0 <= c + origin.x <= x1 && y0 <= r + origin.y
                    <= y1 {
                    Some(cell)
                } else {
                    g[r][c]
                }
        }),
{
}

proof fn lemma_text_keeps_rows(
    g: Cells,
    text: Seq<char>,
    n: int,
    x: int,
    y: int,
    role: DiagramRole,
    target: Option<TargetView>,
    origin: PlanCanvasPoint,
)
    ensures
        ({
            let w = text_typed(g, text, n, x, y, role, target, origin);
            &&& w.len() == g.len()
            &&& forall|r: int| #![trigger w[r]] 0 <= r < g.len() ==> w[r].len() == g[r].len()
            &&& forall|r: int| #![trigger w[r]] 0 <= r < g.len() && r + origin.y != y ==> w[r] == g[r]
        }),
    decreases n,
{
    if n > 0 {
        lemma_text_keeps_rows(g, text, n - 1, x, y, role, target, origin);
        let before = text_typed(g, text, n - 1, x, y, role, target, origin);
        let w = text_typed(g, text, n, x, y, role, target, origin);
        let at = cursor_at(text, x, n - 1);
        let c = text[n - 1];
        let ink = CellView { ch: c, role, target };
        let first = filled(before, origin, at, at, y, y, ink);
        let end = crate::num::min_int(at + span_of(c) - 1, i32::MAX as int);
        lemma_filled(before, origin, at, at, y, y, ink);
        lemma_filled(first, origin, at + 1, end, y, y, CellView { ch: ' ', role, target });
        assert(w.len() == before.len());
        assert forall|r: int| #![trigger w[r]] 0 <= r < g.len() implies w[r].len() == g[r].len() && (r + origin.y != y
            ==> w[r] == g[r]) by {
            assert(before[r].len() == g[r].len());
            assert(first[r].len() == before[r].len());
            if r + origin.y != y {
                assert(first[r] =~= before[r]);
                assert(w[r] =~= before[r]);
            }
        }
    }
}

/// Text of narrow characters stands where it was put, one character per cell from its start
/// on, with its role and its box; every other cell stays as it was.
pub proof fn law_text_stands_where_it_is_put(
    g: Cells,
    text: Seq<char>,
    n: int,
    x: int,
    y: int,
    role: DiagramRole,
    target: Option<TargetView>,
    origin: PlanCanvasPoint,
    r: int,
    c: int,
)
    requires
        0 <= n <= text.len(),
        i32::MIN <= x,
        x + text.len() <= i32::MAX,
        forall|i: int| 0 <= i < text.len() ==> span_of(#[trigger] text[i]) == 1,
        0 <= r < g.len(),
        0 <= c < g[r].len(),
    ensures
        ({
            let w = text_typed(g, text, n, x, y, role, target, origin);
            let i = c + origin.x - x;
            &&& w.len() == g.len() && w[r].len() == g[r].len()
            &&& r + origin.y == y && 0 <= i < n ==> w[r][c] == Some(CellView { ch: text[i], role, target })
            &&& !(r + origin.y == y && 0 <= i < n) ==> w[r][c] == g[r][c]
        }),
        cursor_at(text, x, n) == x + n,
    decreases n,
{
    lemma_text_keeps_rows(g, text, n, x, y, role, target, origin);
    if n > 0 {
        law_text_stands_where_it_is_put(g, text, n - 1, x, y, role, target, origin, r, c);
        let before = text_typed(g, text, n - 1, x, y, role, target, origin);
        let ch = text[n - 1];
        assert(span_of(text[n - 1]) == 1);
        let at = cursor_at(text, x, n - 1);
        let ink = CellView { ch, role, target };
        let first = filled(before, origin, at, at, y, y, ink);
        lemma_filled(before, origin, at, at, y, y, ink);
        lemma_filled(first, origin, at + 1, at, y, y, CellView { ch: ' ', role, target });
        assert(first[r].len() == before[r].len());
    }
}

/// A straight piece of a connector is drawn over all its cells and no other, solid where a
/// fact backs it and dashed where not.
pub proof fn law_pieces_are_drawn_along(
    g: Cells,
    a: PlanCanvasPoint,
    b: PlanCanvasPoint,
    verified: bool,
    origin: PlanCanvasPoint,
    r: int,
    c: int,
)
    requires
        0 <= r < g.len(),
        0 <= c < g[r].len(),
        a.x == b.x || a.y == b.y,
    ensures
        ({
            let w = segment_drawn(g, a, b, verified, origin);
            let (x, y) = (c + origin.x, r + origin.y);
            let between = (a.x <= x <= b.x || b.x <= x <= a.x) && (a.y <= y <= b.y || b.y <= y <= a.y);
            &&& !between ==> w[r][c] == g[r][c]
            &&& between ==> w[r][c] is Some && w[r][c]->0.target is None && w[r][c]->0.role == DiagramRole::Arrow
            &&& between && a.y == b.y ==> w[r][c]->0.ch == if verified { '─' } else { '┄' }
            &&& between && a.y != b.y ==> w[r][c]->0.ch == if verified { '│' } else { '┊' }
        }),
{
}

proof fn lemma_route_keeps_rows(g: Cells, route: Seq<PlanCanvasPoint>, verified: bool, origin: PlanCanvasPoint, n: int)
    ensures
        route_drawn(g, route, verified, origin, n).len() == g.len(),
        forall|r: int|
            #![trigger route_drawn(g, route, verified, origin, n)[r]]
            0 <= r < g.len() ==> route_drawn(g, route, verified, origin, n)[r].len() == g[r].len(),
    decreases n,
{
    if n > 0 {
        lemma_route_keeps_rows(g, route, verified, origin, n - 1);
        let before = route_drawn(g, route, verified, origin, n - 1);
        let w = route_drawn(g, route, verified, origin, n);
        assert forall|r: int| #![trigger w[r]] 0 <= r < g.len() implies w[r].len() == g[r].len() by {
            assert(before[r].len() == g[r].len());
        }
    }
}

/// The head of a connector stands at its end, beside the target, and points along the last
/// piece of the route; only a label in the same row can hide it.
pub proof fn law_relationships_point_at_their_target(
    g: Cells,
    route: RouteView,
    origin: PlanCanvasPoint,
    r: int,
    c: int,
)
    requires
        route.path.len() >= 2,
        ({
            let (a, b) = (route.path[route.path.len() - 2], route.path[route.path.len() - 1]);
            is_at(g, origin, r, c, b.x as int, b.y as int) && (a.x == b.x || a.y == b.y) && a != b
        }),
        route.label_rect.y != route.path[route.path.len() - 1].y,
    ensures
        ({
            let (a, b) = (route.path[route.path.len() - 2], route.path[route.path.len() - 1]);
            relation_drawn(g, route, origin)[r][c] matches Some(cell) && {
                &&& b.x > a.x ==> points_right(cell.ch)
                &&& b.x < a.x ==> points_left(cell.ch)
                &&& b.y > a.y ==> points_down(cell.ch)
                &&& b.y < a.y ==> points_up(cell.ch)
                &&& is_solid(cell.ch) == route.verified
            }
        }),
{
    let points = points_of(route.path);
    let lines = route_drawn(g, points, route.verified, origin, points.len() - 1);
    lemma_route_keeps_rows(g, points, route.verified, origin, points.len() - 1);
    let end = points[points.len() - 1];
    let arrow = arrow_ink(arrow_of(crate::diagram_view::route_heading(route.path), route.verified));
    let (end_x, end_y) = (end.x as int, end.y as int);
    let headed = filled(lines, origin, end.x as int, end.x as int, end.y as int, end.y as int, arrow);
    lemma_filled(lines, origin, end_x, end_x, end_y, end_y, arrow);
    assert(lines[r].len() == g[r].len());
    assert(headed[r][c] == Some(arrow));
    lemma_text_keeps_rows(
        headed,
        route.label,
        route.label.len() as int,
        route.label_rect.x as int,
        route.label_rect.y as int,
        DiagramRole::Arrow,
        None,
        origin,
    );
    assert(relation_drawn(g, route, origin)[r] == headed[r]);
}

/// The head of a free connector stands at its end beside the target box and points at it; only
/// a label in the same row can hide it.
pub proof fn law_edges_point_at_their_target(
    g: Cells,
    from: CanvasRect,
    to: CanvasRect,
    label: Seq<char>,
    verified: bool,
    origin: PlanCanvasPoint,
    obstacles: Seq<CanvasRect>,
    r: int,
    c: int,
)
    requires
        i32::MIN < to.x && i32::MIN < to.y && to.x + to.width <= i32::MAX && to.y + to.height <= i32::MAX,
        0 < to.width && 0 < to.height,
        ({
            let e = ends_of(from, to);
            is_at(g, origin, r, c, e.end.x as int, e.end.y as int) && label_written(
                connector_route(from, to, obstacles),
                label,
                from,
                to,
            ).y != e.end.y
        }),
    ensures
        ({
            let (x, y) = (c + origin.x, r + origin.y);
            edge_drawn(g, from, to, label, verified, origin, obstacles)[r][c] matches Some(cell) && {
                &&& points_right(cell.ch) ==> x == to.x - 1
                &&& points_left(cell.ch) ==> x == to.x + to.width
                &&& points_down(cell.ch) ==> y == to.y - 1
                &&& points_up(cell.ch) ==> y == to.y + to.height
                &&& points_right(cell.ch) || points_left(cell.ch) || points_down(cell.ch) || points_up(cell.ch)
                &&& is_solid(cell.ch) == verified
            }
        }),
{
    let e = ends_of(from, to);
    let route = connector_route(from, to, obstacles);
    let lines = route_drawn(g, route, verified, origin, route.len() - 1);
    lemma_route_keeps_rows(g, route, verified, origin, route.len() - 1);
    let arrow = arrow_ink(arrow_of(e.heading, verified));
    let (end_x, end_y) = (e.end.x as int, e.end.y as int);
    let headed = filled(lines, origin, e.end.x as int, e.end.x as int, e.end.y as int, e.end.y as int, arrow);
    lemma_filled(lines, origin, end_x, end_x, end_y, end_y, arrow);
    assert(lines[r].len() == g[r].len());
    assert(headed[r][c] == Some(arrow));
    let w = label_written(route, label, from, to);
    lemma_text_keeps_rows(headed, w.text, w.text.len() as int, w.x, w.y, DiagramRole::Arrow, None, origin);
    assert(edge_drawn(g, from, to, label, verified, origin, obstacles)[r] == headed[r]);
}

/// A row of cells reads from left to right, one character per cell, up to the last drawn one;
/// undrawn cells before it are blanks.
pub proof fn law_rows_read_from_left_to_right(row: Seq<Option<CellView>>)
    ensures
        ({
            let n = drawn_extent(row, row.len() as int);
            &&& 0 <= n <= row.len()
            &&& n > 0 ==> row[n - 1] is Some
            &&& forall|c: int| #![trigger row[c]] n <= c < row.len() ==> row[c] is None
            &&& drawn_text(row_line(row)).len() == n
            &&& forall|c: int|
                #![trigger row[c]]
                0 <= c < n ==> drawn_text(row_line(row))[c] == match row[c] {
                    Some(cell) => cell.ch,
                    None => ' ',
                }
        }),
{
    lemma_extent(row, row.len() as int);
    lemma_runs_read(row, drawn_extent(row, row.len() as int));
}

proof fn lemma_extent(row: Seq<Option<CellView>>, n: int)
    requires
        0 <= n <= row.len(),
    ensures
        0 <= drawn_extent(row, n) <= n,
        drawn_extent(row, n) > 0 ==> row[drawn_extent(row, n) - 1] is Some,
        forall|c: int| #![trigger row[c]] drawn_extent(row, n) <= c < n ==> row[c] is None,
    decreases n,
{
    if n > 0 && row[n - 1] is None {
        lemma_extent(row, n - 1);
    }
}

proof fn lemma_runs_read(row: Seq<Option<CellView>>, n: int)
    requires
        0 <= n <= row.len(),
    ensures
        drawn_text(runs_of(row, n)) == Seq::new(n as nat, |c: int| shown_cell(row[c]).ch),
    decreases n,
{
    let all = Seq::new(n as nat, |c: int| shown_cell(row[c]).ch);
    if n > 0 {
        lemma_runs_read(row, n - 1);
        let before = runs_of(row, n - 1);
        let after = runs_of(row, n);
        let cell = shown_cell(row[n - 1]);
        if before.len() > 0 && before.last().role == cell.role && before.last().target == cell.target {
            assert(after.drop_last() =~= before.drop_last());
            assert(drawn_text(after) =~= drawn_text(before).push(cell.ch));
        } else {
            assert(after.drop_last() =~= before);
            assert(drawn_text(after) =~= drawn_text(before).push(cell.ch));
        }
        assert(drawn_text(after) =~= all);
    } else {
        assert(drawn_text(runs_of(row, n)) =~= all);
    }
}

/// A box of narrow characters shows its rows one below the other from its place on, and
/// belongs to its node.
pub proof fn law_boxes_stand_where_they_are_placed(
    g: Cells,
    b: NodeView,
    hovered: bool,
    selected: bool,
    origin: PlanCanvasPoint,
    n: int,
    r: int,
    c: int,
)
    requires
        0 <= n <= b.lines.len() <= u16::MAX,
        0 <= r < g.len(),
        0 <= c < g[r].len(),
        forall|k: int, i: int|
            #![trigger b.lines[k][i]]
            0 <= k < b.lines.len() && 0 <= i < b.lines[k].len() ==> span_of(b.lines[k][i]) == 1,
        forall|k: int| #![trigger b.lines[k]] 0 <= k < b.lines.len() ==> b.lines[k].len() <= u16::MAX,
    ensures
        ({
            let w = card_drawn(g, b, hovered, selected, origin, n);
            let k = r + origin.y - b.rect.y;
            let i = c + origin.x - b.rect.x;
            &&& w.len() == g.len() && w[r].len() == g[r].len()
            &&& 0 <= k < n && 0 <= i < b.lines[k].len() ==> {
                &&& w[r][c] is Some
                &&& w[r][c]->0.ch == b.lines[k][i]
                &&& w[r][c]->0.target == Some(b.target)
                &&& hovered ==> w[r][c]->0.role == DiagramRole::Hovered
            }
            &&& !(0 <= k < n && 0 <= i < b.lines[k].len()) ==> w[r][c] == g[r][c]
        }),
    decreases n,
{
    if n > 0 {
        law_boxes_stand_where_they_are_placed(g, b, hovered, selected, origin, n - 1, r, c);
        let before = card_drawn(g, b, hovered, selected, origin, n - 1);
        let row = b.lines[n - 1];
        assert(before[r].len() == g[r].len());
        law_text_stands_where_it_is_put(
            before,
            row,
            row.len() as int,
            b.rect.x as int,
            b.rect.y + n - 1,
            crate::canvas::box_role(hovered, selected, n - 1, b.lines.len() as int),
            Some(b.target),
            origin,
            r,
            c,
        );
    }
}

/// A rectangle on screen is exactly what of it lies in the viewport, seen from the origin.
pub proof fn law_clipping_shows_what_is_inside(
    rect: CanvasRect,
    origin: PlanCanvasPoint,
    width: int,
    height: int,
    x: int,
    y: int,
)
    requires
        0 <= width <= u16::MAX,
        0 <= height <= u16::MAX,
        rect.x + rect.width <= i32::MAX,
        rect.y + rect.height <= i32::MAX,
        rect.width >= 0,
        rect.height >= 0,
        0 <= x < width,
        0 <= y < height,
    ensures
        ({
            let inside = rect.x <= x + origin.x < rect.x + rect.width && rect.y <= y + origin.y < rect.y + rect.height;
            inside == (clipped_rect(rect, origin, width, height) matches Some(s) && s.x <= x < s.x + s.width && s.y <= y
                < s.y + s.height)
        }),
{
}

/// Text advances by the cells of its characters.
pub proof fn law_text_advances_by_its_cells(text: Seq<char>, x: int, n: int)
    requires
        0 <= n < text.len(),
        i32::MIN <= x <= i32::MAX,
        i32::MIN <= cursor_at(text, x, n),
        cursor_at(text, x, n) + cells_of_char(text[n]) <= i32::MAX,
        0 <= cells_of_char(text[n]) <= i32::MAX,
    ensures
        cursor_at(text, x, 0) == x,
        cursor_at(text, x, n + 1) == cursor_at(text, x, n) + cells_of_char(text[n]),
{
}

/// A wide character stands in its first cell and covers the others with blanks of its own.
pub proof fn law_wide_characters_cover_their_cells(
    g: Cells,
    ch: char,
    x: int,
    y: int,
    role: DiagramRole,
    target: Option<TargetView>,
    origin: PlanCanvasPoint,
    r: int,
    c: int,
)
    requires
        0 <= r < g.len(),
        0 <= c < g[r].len(),
        0 < cells_of_char(ch) <= i32::MAX,
        x + cells_of_char(ch) <= i32::MAX,
        i32::MIN <= x,
    ensures
        ({
            let w = char_typed(g, ch, x, y, role, target, origin);
            let i = c + origin.x - x;
            &&& y == r + origin.y && i == 0 ==> w[r][c] == Some(CellView { ch, role, target })
            &&& y == r + origin.y && 0 < i < cells_of_char(ch) ==> w[r][c] == Some(CellView { ch: ' ', role, target })
            &&& y != r + origin.y || i < 0 || i >= cells_of_char(ch) ==> w[r][c] == g[r][c]
        }),
{
    let one = filled(g, origin, x, x, y, y, (CellView { ch, role, target }));
    lemma_filled(g, origin, x, x, y, y, (CellView { ch, role, target }));
    let last = x + cells_of_char(ch) - 1;
    lemma_filled(one, origin, x + 1, last, y, y, (CellView { ch: ' ', role, target }));
}

} // verus!
