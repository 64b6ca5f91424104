//! Retained, world-coordinate layout for directly manipulated plan diagrams.
//!
//! The structured plan remains the source of truth. This module deterministically assigns
//! initial positions, applies session-only node overrides, routes connectors, and clips a
//! styled scene into the current terminal viewport. Rendering and mouse geometry consume
//! the same [`CanvasFrame`], so an interaction can target only cells the user saw.

use vstd::prelude::*;
use crate::action::{PlanNodeTarget, TargetView};
use crate::canvas_grid::{
    around, arrow_ink, blank_cells, blank_grid, borrowed_target, cells_to_line, clip_to_screen, clipped_rect, count32,
    draw_segment, filled, grid_view, max_i32, min_i32, minus, no_area, plus, put_arrow, put_text, row_line, sat32,
    segment_drawn, text_typed, CanvasLine, CanvasRect, CanvasSpanView, Cell, CellView, PlanCanvasPoint,
};
use crate::canvas_scene::{
    arrangement, build_scene, count_or, count_or_default, cut_label, evidence_lines, first_top, full_lines, link_views,
    point, scene_of, scene_views, truncate_label, LinkView, PlanCanvasView, Scene, SceneEdge, SceneNode, SceneView,
};
use crate::diagram::{edge_verifiable, edge_verified, DiagramRole};
use crate::num::{clamp_int, max_int, max_usize, min_int, monus};
use crate::plan::{PlanNode, VisualizationPlan};
use crate::rect::Rect;
use crate::table::Key;
use crate::text::{display_width, same_text, str_width, texts};
use crate::wrap::{trim, trimmed};

verus! {

/// World cells left free around everything.
pub const CANVAS_MARGIN: i32 = 2;

/// Which way a connector ends.
#[derive(Debug, Clone, Copy, PartialEq, Eq, Structural)]
pub enum Heading {
    Right,
    Left,
    Down,
    Up,
}

/// The ends of a connector between two boxes.
#[derive(Debug, Clone, Copy, PartialEq, Eq, Structural)]
pub struct Ends {
    pub start: PlanCanvasPoint,
    pub end: PlanCanvasPoint,
    pub heading: Heading,
}

/// The size of a number.
pub open spec fn size(n: int) -> int {
    if n < 0 {
        -n
    } else {
        n
    }
}

/// Whether two boxes are further apart across than down.
pub open spec fn across(from: CanvasRect, to: CanvasRect) -> bool {
    size(to.x - from.x) >= size(to.y - from.y)
}

/// Half of a number, rounded towards zero.
pub open spec fn half_of(n: int) -> int {
    if n >= 0 { n / 2 } else { -((-n) / 2) }
}

/// The row of the middle of a box.
pub open spec fn middle_row(r: CanvasRect) -> int {
    sat32(r.y + half_of(r.height as int))
}

/// The column of the middle of a box.
pub open spec fn middle_column(r: CanvasRect) -> int {
    sat32(r.x + half_of(r.width as int))
}

/// The ends of the connector between two boxes: on the sides that face each other.
pub open spec fn ends_of(from: CanvasRect, to: CanvasRect) -> Ends {
    if across(from, to) {
        if to.x >= from.x {
            Ends {
                start: point(from.spec_right(), middle_row(from)),
                end: point(sat32(to.x - 1), middle_row(to)),
                heading: Heading::Right,
            }
        } else {
            Ends {
                start: point(sat32(from.x - 1), middle_row(from)),
                end: point(to.spec_right(), middle_row(to)),
                heading: Heading::Left,
            }
        }
    } else if to.y >= from.y {
        Ends {
            start: point(middle_column(from), from.spec_bottom()),
            end: point(middle_column(to), sat32(to.y - 1)),
            heading: Heading::Down,
        }
    } else {
        Ends {
            start: point(middle_column(from), sat32(from.y - 1)),
            end: point(middle_column(to), to.spec_bottom()),
            heading: Heading::Up,
        }
    }
}

/// The head of a connector; hollow where no fact of the code backs it.
pub open spec fn arrow_of(heading: Heading, verified: bool) -> char {
    match heading {
        Heading::Right => if verified { '▶' } else { '▷' },
        Heading::Left => if verified { '◀' } else { '◁' },
        Heading::Down => if verified { '▼' } else { '▽' },
        Heading::Up => if verified { '▲' } else { '△' },
    }
}

/// The head of a connector.
pub fn arrow_char(heading: Heading, verified: bool) -> (c: char)
    ensures
        c == arrow_of(heading, verified),
{
    match heading {
        Heading::Right => if verified { '▶' } else { '▷' },
        Heading::Left => if verified { '◀' } else { '◁' },
        Heading::Down => if verified { '▼' } else { '▽' },
        Heading::Up => if verified { '▲' } else { '△' },
    }
}

fn distance(a: i32, b: i32) -> (d: i64)
    ensures
        d == size(a - b),
{
    if a < b {
        b as i64 - a as i64
    } else {
        a as i64 - b as i64
    }
}

fn is_across(from: CanvasRect, to: CanvasRect) -> (r: bool)
    ensures
        r == across(from, to),
{
    distance(to.x, from.x) >= distance(to.y, from.y)
}

fn half(n: i32) -> (r: i32)
    ensures
        r == half_of(n as int),
{
    if n >= 0 {
        n / 2
    } else {
        (0 - (0 - n as i64) / 2) as i32
    }
}

/// The ends of the connector between two boxes.
pub fn connector_ends(from: CanvasRect, to: CanvasRect) -> (r: Ends)
    ensures
        r == ends_of(from, to),
{
    let from_row: i32 = plus(from.y, half(from.height));
    let to_row: i32 = plus(to.y, half(to.height));
    let from_column: i32 = plus(from.x, half(from.width));
    let to_column: i32 = plus(to.x, half(to.width));
    if is_across(from, to) {
        if to.x >= from.x {
            Ends {
                start: PlanCanvasPoint { x: from.right(), y: from_row },
                end: PlanCanvasPoint { x: minus(to.x, 1), y: to_row },
                heading: Heading::Right,
            }
        } else {
            Ends {
                start: PlanCanvasPoint { x: minus(from.x, 1), y: from_row },
                end: PlanCanvasPoint { x: to.right(), y: to_row },
                heading: Heading::Left,
            }
        }
    } else if to.y >= from.y {
        Ends {
            start: PlanCanvasPoint { x: from_column, y: from.bottom() },
            end: PlanCanvasPoint { x: to_column, y: minus(to.y, 1) },
            heading: Heading::Down,
        }
    } else {
        Ends {
            start: PlanCanvasPoint { x: from_column, y: minus(from.y, 1) },
            end: PlanCanvasPoint { x: to_column, y: to.bottom() },
            heading: Heading::Up,
        }
    }
}

/// Whether a straight piece crosses a rectangle.
pub open spec fn crosses(a: PlanCanvasPoint, b: PlanCanvasPoint, rect: CanvasRect) -> bool {
    if a.y == b.y {
        rect.y <= a.y < rect.spec_bottom() && min_int(a.x as int, b.x as int) < rect.spec_right() && max_int(
            a.x as int,
            b.x as int,
        ) >= rect.x
    } else if a.x == b.x {
        rect.x <= a.x < rect.spec_right() && min_int(a.y as int, b.y as int) < rect.spec_bottom() && max_int(
            a.y as int,
            b.y as int,
        ) >= rect.y
    } else {
        false
    }
}

/// Whether a straight piece crosses a rectangle.
pub fn segment_intersects_rect(a: PlanCanvasPoint, b: PlanCanvasPoint, rect: CanvasRect) -> (r: bool)
    ensures
        r == crosses(a, b, rect),
{
    if a.y == b.y {
        a.y >= rect.y && a.y < rect.bottom() && min_i32(a.x, b.x) < rect.right() && max_i32(a.x, b.x) >= rect.x
    } else if a.x == b.x {
        a.x >= rect.x && a.x < rect.right() && min_i32(a.y, b.y) < rect.bottom() && max_i32(a.y, b.y) >= rect.y
    } else {
        false
    }
}

/// How many of the first `n` obstacles other than the two connected boxes a piece crosses.
pub open spec fn crossings(
    a: PlanCanvasPoint,
    b: PlanCanvasPoint,
    obstacles: Seq<CanvasRect>,
    from: CanvasRect,
    to: CanvasRect,
    n: int,
) -> int
    decreases n,
{
    if n <= 0 {
        0
    } else {
        let rect = obstacles[n - 1];
        crossings(a, b, obstacles, from, to, n - 1) + if rect != from && rect != to && crosses(a, b, rect) {
            1int
        } else {
            0int
        }
    }
}

/// How often the first `n` pieces of a route cross obstacles.
pub open spec fn route_score(
    route: Seq<PlanCanvasPoint>,
    obstacles: Seq<CanvasRect>,
    from: CanvasRect,
    to: CanvasRect,
    n: int,
) -> int
    decreases n,
{
    if n <= 0 {
        0
    } else {
        route_score(route, obstacles, from, to, n - 1) + crossings(
            route[n - 1],
            route[n],
            obstacles,
            from,
            to,
            obstacles.len() as int,
        )
    }
}

/// How often a route crosses obstacles.
pub open spec fn score(route: Seq<PlanCanvasPoint>, obstacles: Seq<CanvasRect>, from: CanvasRect, to: CanvasRect) -> int {
    route_score(route, obstacles, from, to, route.len() - 1)
}

fn piece_crossings(
    a: PlanCanvasPoint,
    b: PlanCanvasPoint,
    obstacles: &Vec<CanvasRect>,
    from: CanvasRect,
    to: CanvasRect,
) -> (count: usize)
    ensures
        count == crossings(a, b, obstacles@, from, to, obstacles.len() as int),
{
    let mut count: usize = 0;
    let mut n: usize = 0;
    while n < obstacles.len()
        invariant
            n <= obstacles.len(),
            count <= n,
            count == crossings(a, b, obstacles@, from, to, n as int),
        decreases obstacles.len() - n,
    {
        let rect: CanvasRect = obstacles[n];
        if rect != from && rect != to && segment_intersects_rect(a, b, rect) {
            count = count + 1;
        }
        n = n + 1;
    }
    count
}

fn elbow_score(route: &Vec<PlanCanvasPoint>, obstacles: &Vec<CanvasRect>, from: CanvasRect, to: CanvasRect) -> (total:
    u128)
    requires
        route.len() == 3,
    ensures
        total == score(route@, obstacles@, from, to),
{
    proof {
        reveal_with_fuel(route_score, 3);
    }
    piece_crossings(route[0], route[1], obstacles, from, to) as u128 + piece_crossings(
        route[1],
        route[2],
        obstacles,
        from,
        to,
    ) as u128
}

/// The highest row of the first `n` obstacles.
pub open spec fn topmost(obstacles: Seq<CanvasRect>, n: int) -> int
    decreases n,
{
    if n <= 1 {
        obstacles[0].y as int
    } else {
        min_int(topmost(obstacles, n - 1), obstacles[n - 1].y as int)
    }
}

/// The column right of the first `n` obstacles.
pub open spec fn rightmost(obstacles: Seq<CanvasRect>, n: int) -> int
    decreases n,
{
    if n <= 1 {
        obstacles[0].spec_right()
    } else {
        max_int(rightmost(obstacles, n - 1), obstacles[n - 1].spec_right())
    }
}

/// The route around all obstacles: above them, or right of them.
pub open spec fn detour(start: PlanCanvasPoint, end: PlanCanvasPoint, above: bool, obstacles: Seq<CanvasRect>) -> Seq<
    PlanCanvasPoint,
> {
    if above {
        let y = sat32((if obstacles.len() == 0 { start.y as int } else { topmost(obstacles, obstacles.len() as int) }) - 2);
        seq![start, point(start.x as int, y), point(end.x as int, y), end]
    } else {
        let x = sat32(
            (if obstacles.len() == 0 { start.x as int } else { rightmost(obstacles, obstacles.len() as int) }) + 2,
        );
        seq![start, point(x, start.y as int), point(x, end.y as int), end]
    }
}

/// The route of a connector: the elbow that crosses less, and where even that crosses a box,
/// the way around all of them.
pub open spec fn connector_route(from: CanvasRect, to: CanvasRect, obstacles: Seq<CanvasRect>) -> Seq<PlanCanvasPoint> {
    let e = ends_of(from, to);
    let first = seq![e.start, point(e.end.x as int, e.start.y as int), e.end];
    let second = seq![e.start, point(e.start.x as int, e.end.y as int), e.end];
    let elbow = if score(first, obstacles, from, to) <= score(second, obstacles, from, to) {
        first
    } else {
        second
    };
    if score(elbow, obstacles, from, to) > 0 {
        detour(e.start, e.end, across(from, to), obstacles)
    } else {
        elbow
    }
}

fn detour_route(start: PlanCanvasPoint, end: PlanCanvasPoint, above: bool, obstacles: &Vec<CanvasRect>) -> (route: Vec<
    PlanCanvasPoint,
>)
    ensures
        route@ == detour(start, end, above, obstacles@),
{
    let mut y: i32 = start.y;
    let mut x: i32 = start.x;
    if obstacles.len() > 0 {
        y = obstacles[0].y;
        x = obstacles[0].right();
        let mut n: usize = 1;
        while n < obstacles.len()
            invariant
                1 <= n <= obstacles.len(),
                y == topmost(obstacles@, n as int),
                x == rightmost(obstacles@, n as int),
            decreases obstacles.len() - n,
        {
            y = min_i32(y, obstacles[n].y);
            x = max_i32(x, obstacles[n].right());
            n = n + 1;
        }
    }
    let mut route: Vec<PlanCanvasPoint> = Vec::new();
    route.push(start);
    if above {
        let row: i32 = minus(y, 2);
        route.push(PlanCanvasPoint { x: start.x, y: row });
        route.push(PlanCanvasPoint { x: end.x, y: row });
    } else {
        let column: i32 = plus(x, 2);
        route.push(PlanCanvasPoint { x: column, y: start.y });
        route.push(PlanCanvasPoint { x: column, y: end.y });
    }
    route.push(end);
    proof {
        assert(route@ =~= detour(start, end, above, obstacles@));
    }
    route
}

fn elbow(start: PlanCanvasPoint, corner: PlanCanvasPoint, end: PlanCanvasPoint) -> (route: Vec<PlanCanvasPoint>)
    ensures
        route@ == seq![start, corner, end],
{
    let mut route: Vec<PlanCanvasPoint> = Vec::new();
    route.push(start);
    route.push(corner);
    route.push(end);
    proof {
        assert(route@ =~= seq![start, corner, end]);
    }
    route
}

/// The route of a connector between two boxes.
pub fn route_connector(from: CanvasRect, to: CanvasRect, obstacles: &Vec<CanvasRect>) -> (route: Vec<PlanCanvasPoint>)
    ensures
        route@ == connector_route(from, to, obstacles@),
{
    let e = connector_ends(from, to);
    let first = elbow(e.start, PlanCanvasPoint { x: e.end.x, y: e.start.y }, e.end);
    let second = elbow(e.start, PlanCanvasPoint { x: e.start.x, y: e.end.y }, e.end);
    let a: u128 = elbow_score(&first, obstacles, from, to);
    let b: u128 = elbow_score(&second, obstacles, from, to);
    let (best, hits) = if a <= b {
        (first, a)
    } else {
        (second, b)
    };
    if hits > 0 {
        detour_route(e.start, e.end, is_across(from, to), obstacles)
    } else {
        best
    }
}

/// Whether piece `i` of a route can carry a label: it is horizontal and long enough.
pub open spec fn carries(route: Seq<PlanCanvasPoint>, i: int) -> bool {
    route[i].y == route[i + 1].y && size(route[i].x - route[i + 1].x) > 2
}

/// The last of the longest of the first `n` pieces that can carry a label.
pub open spec fn label_piece(route: Seq<PlanCanvasPoint>, n: int) -> Option<int>
    decreases n,
{
    if n <= 0 {
        None
    } else {
        let before = label_piece(route, n - 1);
        if !carries(route, n - 1) {
            before
        } else {
            match before {
                Some(p) => if size(route[n - 1].x - route[n].x) >= size(route[p].x - route[p + 1].x) {
                    Some(n - 1)
                } else {
                    Some(p)
                },
                None => Some(n - 1),
            }
        }
    }
}

/// A label as it is written, and where.
#[verifier::ext_equal]
pub struct Written {
    pub text: Seq<char>,
    pub x: int,
    pub y: int,
}

/// Where the label of a connector goes, and how much of it: along the longest horizontal
/// piece, or beside the boxes where there is none.
pub open spec fn label_written(route: Seq<PlanCanvasPoint>, label: Seq<char>, from: CanvasRect, to: CanvasRect) -> Written {
    match label_piece(route, route.len() - 1) {
        Some(p) => {
            let (a, b) = (route[p], route[p + 1]);
            let length = size(a.x - b.x) - 2;
            let text = cut_label(trimmed(label), length);
            let inset = count_or(monus(length, display_width(text) as int) / 2, 0);
            Written {
                text,
                x: sat32(sat32(min_int(a.x as int, b.x as int) + 1) + inset),
                y: a.y as int,
            }
        },
        None => {
            let (start, end) = (route[0], route[route.len() - 1]);
            Written {
                text: cut_label(trimmed(label), display_width(label) as int),
                x: sat32(max_int(from.spec_right(), to.spec_right()) + 2),
                y: min_int(start.y as int, end.y as int) + size(start.y - end.y) / 2,
            }
        },
    }
}

/// A viewport with the first `n` pieces of a route drawn.
pub open spec fn route_drawn(
    g: Seq<Seq<Option<CellView>>>,
    route: Seq<PlanCanvasPoint>,
    verified: bool,
    origin: PlanCanvasPoint,
    n: int,
) -> Seq<Seq<Option<CellView>>>
    decreases n,
{
    if n <= 0 {
        g
    } else {
        segment_drawn(route_drawn(g, route, verified, origin, n - 1), route[n - 1], route[n], verified, origin)
    }
}

/// A viewport with a connector drawn: its pieces, its head, and its label.
pub open spec fn edge_drawn(
    g: Seq<Seq<Option<CellView>>>,
    from: CanvasRect,
    to: CanvasRect,
    label: Seq<char>,
    verified: bool,
    origin: PlanCanvasPoint,
    obstacles: Seq<CanvasRect>,
) -> Seq<Seq<Option<CellView>>> {
    let e = ends_of(from, to);
    let route = connector_route(from, to, obstacles);
    let lines = route_drawn(g, route, verified, origin, route.len() - 1);
    let headed = filled(
        lines,
        origin,
        e.end.x as int,
        e.end.x as int,
        e.end.y as int,
        e.end.y as int,
        arrow_ink(arrow_of(e.heading, verified)),
    );
    let w = label_written(route, label, from, to);
    text_typed(headed, w.text, w.text.len() as int, w.x, w.y, DiagramRole::Arrow, None, origin)
}

fn find_label_piece(route: &Vec<PlanCanvasPoint>) -> (r: Option<usize>)
    requires
        route.len() >= 1,
    ensures
        match r {
            Some(p) => label_piece(route@, route.len() - 1) == Some(p as int) && p + 1 < route.len() && carries(
                route@,
                p as int,
            ),
            None => label_piece(route@, route.len() - 1) is None,
        },
{
    let mut best: Option<usize> = None;
    let mut n: usize = 0;
    while n + 1 < route.len()
        invariant
            n + 1 <= route.len(),
            match best {
                Some(p) => label_piece(route@, n as int) == Some(p as int) && p < n && carries(route@, p as int),
                None => label_piece(route@, n as int) is None,
            },
        decreases route.len() - n,
    {
        let length: i64 = distance(route[n].x, route[n + 1].x);
        if route[n].y == route[n + 1].y && length > 2 {
            let longer: bool = match best {
                Some(p) => length >= distance(route[p].x, route[p + 1].x),
                None => true,
            };
            if longer {
                best = Some(n);
            }
        }
        n = n + 1;
    }
    best
}

/// Where and how the label of a connector is written.
fn write_label(route: &Vec<PlanCanvasPoint>, label: &str, from: CanvasRect, to: CanvasRect) -> (r: (String, i32, i32))
    requires
        route.len() >= 2,
    ensures
        (Written { text: r.0@, x: r.1 as int, y: r.2 as int }) == label_written(route@, label@, from, to),
{
    match find_label_piece(route) {
        Some(p) => {
            let (a, b) = (route[p], route[p + 1]);
            let length: usize = (distance(a.x, b.x) - 2) as usize;
            let text = truncate_label(trim(label).as_str(), length);
            let rest: usize = length.saturating_sub(str_width(text.as_str()));
            let inset: i32 = count_or_default(rest / 2, 0);
            let x: i32 = plus(plus(min_i32(a.x, b.x), 1), inset);
            (text, x, a.y)
        },
        None => {
            let (start, end) = (route[0], route[route.len() - 1]);
            let text = truncate_label(trim(label).as_str(), str_width(label));
            let x: i32 = plus(max_i32(from.right(), to.right()), 2);
            let y: i64 = min_i32(start.y, end.y) as i64 + distance(start.y, end.y) / 2;
            (text, x, y as i32)
        },
    }
}

/// Draw a connector between two boxes.
pub fn draw_edge(
    cells: &mut Vec<Vec<Option<Cell>>>,
    from: CanvasRect,
    to: CanvasRect,
    label: &str,
    verified: bool,
    origin: PlanCanvasPoint,
    obstacles: &Vec<CanvasRect>,
)
    ensures
        grid_view(final(cells)@) == edge_drawn(
            grid_view(old(cells)@),
            from,
            to,
            label@,
            verified,
            origin,
            obstacles@,
        ),
{
    let ghost g = grid_view(cells@);
    let e = connector_ends(from, to);
    let route = route_connector(from, to, obstacles);
    proof {
        assert(route.len() == 3 || route.len() == 4);
    }
    let mut n: usize = 0;
    while n + 1 < route.len()
        invariant
            n + 1 <= route.len(),
            grid_view(cells@) == route_drawn(g, route@, verified, origin, n as int),
        decreases route.len() - n,
    {
        draw_segment(cells, route[n], route[n + 1], verified, origin);
        n = n + 1;
    }
    put_arrow(cells, e.end, arrow_char(e.heading, verified), origin);
    let (text, x, y) = write_label(&route, label, from, to);
    put_text(cells, x, y, text.as_str(), DiagramRole::Arrow, None, origin);
}

/// The first box of the scene from `i` on that shows a node.
pub open spec fn box_showing(nodes: Seq<SceneView>, t: TargetView, i: int) -> Option<int>
    decreases nodes.len() - i,
{
    if 0 <= i < nodes.len() {
        if nodes[i].target == t {
            Some(i)
        } else {
            box_showing(nodes, t, i + 1)
        }
    } else {
        None
    }
}

/// The room that the boxes take now.
pub open spec fn areas(nodes: Seq<SceneView>) -> Seq<CanvasRect> {
    Seq::new(nodes.len(), |i: int| nodes[i].area())
}

/// A viewport with one connector of the scene drawn; one whose ends are not shown is left out.
pub open spec fn link_drawn(
    g: Seq<Seq<Option<CellView>>>,
    nodes: Seq<SceneView>,
    link: LinkView,
    origin: PlanCanvasPoint,
) -> Seq<Seq<Option<CellView>>> {
    match (
        box_showing(nodes, TargetView { form: link.form, id: link.from }, 0),
        box_showing(nodes, TargetView { form: link.form, id: link.to }, 0),
    ) {
        (Some(a), Some(b)) => edge_drawn(
            g,
            nodes[a].area(),
            nodes[b].area(),
            link.label,
            edge_verifiable(nodes[a].node, nodes[b].node, link.kind),
            origin,
            areas(nodes),
        ),
        _ => g,
    }
}

/// A viewport with the first `n` connectors of the scene drawn.
pub open spec fn links_drawn(
    g: Seq<Seq<Option<CellView>>>,
    nodes: Seq<SceneView>,
    links: Seq<LinkView>,
    origin: PlanCanvasPoint,
    n: int,
) -> Seq<Seq<Option<CellView>>>
    decreases n,
{
    if n <= 0 {
        g
    } else {
        link_drawn(links_drawn(g, nodes, links, origin, n - 1), nodes, links[n - 1], origin)
    }
}

fn find_box<'a>(nodes: &Vec<SceneNode<'a>>, form: usize, id: &str) -> (r: Option<usize>)
    ensures
        match r {
            Some(k) => k < nodes.len() && box_showing(
                scene_views(nodes@),
                TargetView { form: form as int, id: id@ },
                0,
            ) == Some(k as int),
            None => box_showing(scene_views(nodes@), TargetView { form: form as int, id: id@ }, 0) is None,
        },
{
    let ghost t = TargetView { form: form as int, id: id@ };
    let ghost all = scene_views(nodes@);
    let mut i: usize = 0;
    while i < nodes.len()
        invariant
            i <= nodes.len() == all.len(),
            all == scene_views(nodes@),
            t == (TargetView { form: form as int, id: id@ }),
            box_showing(all, t, 0) == box_showing(all, t, i as int),
        decreases nodes.len() - i,
    {
        proof {
            assert(all[i as int] == nodes@[i as int]@);
        }
        if nodes[i].target.form == form && same_text(nodes[i].target.id.as_str(), id) {
            proof {
                assert(all[i as int].target =~= t);
            }
            return Some(i);
        }
        i = i + 1;
    }
    None
}

fn occupied<'a>(nodes: &Vec<SceneNode<'a>>) -> (out: Vec<CanvasRect>)
    ensures
        out@ == areas(scene_views(nodes@)),
{
    let mut out: Vec<CanvasRect> = Vec::new();
    while out.len() < nodes.len()
        invariant
            out.len() <= nodes.len(),
            forall|i: int| #![trigger out@[i]] 0 <= i < out.len() ==> out@[i] == nodes@[i]@.area(),
        decreases nodes.len() - out.len(),
    {
        let r: CanvasRect = nodes[out.len()].actual_rect();
        out.push(r);
    }
    proof {
        assert(out@ =~= areas(scene_views(nodes@)));
    }
    out
}

/// Draw all connectors of a scene.
pub fn draw_edges<'a>(
    cells: &mut Vec<Vec<Option<Cell>>>,
    nodes: &Vec<SceneNode<'a>>,
    edges: &Vec<SceneEdge>,
    origin: PlanCanvasPoint,
)
    ensures
        grid_view(final(cells)@) == links_drawn(
            grid_view(old(cells)@),
            scene_views(nodes@),
            link_views(edges@),
            origin,
            edges.len() as int,
        ),
{
    let ghost g = grid_view(cells@);
    let ghost all = scene_views(nodes@);
    let ghost links = link_views(edges@);
    let obstacles = occupied(nodes);
    let mut n: usize = 0;
    while n < edges.len()
        invariant
            n <= edges.len(),
            all == scene_views(nodes@),
            links == link_views(edges@),
            obstacles@ == areas(all),
            grid_view(cells@) == links_drawn(g, all, links, origin, n as int),
        decreases edges.len() - n,
    {
        let e: &SceneEdge = &edges[n];
        proof {
            assert(links[n as int] == e@);
        }
        let source = find_box(nodes, e.form, e.from.as_str());
        let target = find_box(nodes, e.form, e.to.as_str());
        match (source, target) {
            (Some(a), Some(b)) => {
                proof {
                    assert(all[a as int] == nodes@[a as int]@);
                    assert(all[b as int] == nodes@[b as int]@);
                }
                let verified: bool = edge_verified(nodes[a].node, nodes[b].node, e.kind);
                draw_edge(
                    cells,
                    nodes[a].actual_rect(),
                    nodes[b].actual_rect(),
                    e.label.as_str(),
                    verified,
                    origin,
                    &obstacles,
                );
            },
            _ => {},
        }
        n = n + 1;
    }
}

/// Whether a node stands out: the plan asks for it, or it stands for the selected entity.
pub open spec fn stands_out(node: PlanNode, selected: Seq<char>) -> bool {
    node.highlight || (selected.len() > 0 && (node.label@ == selected || (node.entity matches Some(entity)
        && entity.symbol matches Some(symbol) && symbol@ == selected)))
}

/// Whether a node stands out.
pub fn node_selected(node: &PlanNode, selected_label: &str) -> (r: bool)
    ensures
        r == stands_out(*node, selected_label@),
{
    if node.highlight {
        return true;
    }
    if selected_label.is_empty() {
        return false;
    }
    if same_text(node.label.as_str(), selected_label) {
        return true;
    }
    match &node.entity {
        Some(entity) => match &entity.symbol {
            Some(symbol) => same_text(symbol.as_str(), selected_label),
            None => false,
        },
        None => false,
    }
}

/// How row `i` of a box of `rows` rows is styled.
pub open spec fn box_role(hovered: bool, selected: bool, i: int, rows: int) -> DiagramRole {
    if hovered {
        DiagramRole::Hovered
    } else if selected {
        DiagramRole::Selected
    } else if i == 0 || i + 1 == rows {
        DiagramRole::Border
    } else {
        DiagramRole::Text
    }
}

/// A viewport with the first `n` rows of a box drawn.
pub open spec fn box_drawn(
    g: Seq<Seq<Option<CellView>>>,
    b: SceneView,
    hovered: bool,
    selected: bool,
    origin: PlanCanvasPoint,
    n: int,
) -> Seq<Seq<Option<CellView>>>
    decreases n,
{
    if n <= 0 {
        g
    } else {
        let row = b.lines[n - 1];
        text_typed(
            box_drawn(g, b, hovered, selected, origin, n - 1),
            row,
            row.len() as int,
            b.position.x as int,
            sat32(b.position.y + sat32(n - 1)),
            box_role(hovered, selected, n - 1, b.lines.len() as int),
            Some(b.target),
            origin,
        )
    }
}

/// A viewport with the first `n` boxes drawn over what is there.
pub open spec fn boxes_drawn(
    g: Seq<Seq<Option<CellView>>>,
    nodes: Seq<SceneView>,
    selected: Seq<char>,
    hovered: Option<TargetView>,
    origin: PlanCanvasPoint,
    n: int,
) -> Seq<Seq<Option<CellView>>>
    decreases n,
{
    if n <= 0 {
        g
    } else {
        let b = nodes[n - 1];
        box_drawn(
            boxes_drawn(g, nodes, selected, hovered, origin, n - 1),
            b,
            hovered == Some(b.target),
            stands_out(b.node, selected),
            origin,
            b.lines.len() as int,
        )
    }
}

fn draw_box<'a>(
    cells: &mut Vec<Vec<Option<Cell>>>,
    b: &SceneNode<'a>,
    hovered: bool,
    selected: bool,
    origin: PlanCanvasPoint,
)
    ensures
        grid_view(final(cells)@) == box_drawn(
            grid_view(old(cells)@),
            b@,
            hovered,
            selected,
            origin,
            b.lines.len() as int,
        ),
{
    let ghost g = grid_view(cells@);
    let mut n: usize = 0;
    while n < b.lines.len()
        invariant
            n <= b.lines.len(),
            grid_view(cells@) == box_drawn(g, b@, hovered, selected, origin, n as int),
        decreases b.lines.len() - n,
    {
        let role: DiagramRole = if hovered {
            DiagramRole::Hovered
        } else if selected {
            DiagramRole::Selected
        } else if n == 0 || n == b.lines.len() - 1 {
            DiagramRole::Border
        } else {
            DiagramRole::Text
        };
        proof {
            assert(b@.lines[n as int] == b.lines@[n as int]@);
            assert(b@.lines.len() == b.lines.len());
        }
        put_text(
            cells,
            b.position.x,
            plus(b.position.y, count32(n)),
            b.lines[n].as_str(),
            role,
            Some(&b.target),
            origin,
        );
        n = n + 1;
    }
}

fn draw_boxes<'a>(
    cells: &mut Vec<Vec<Option<Cell>>>,
    nodes: &Vec<SceneNode<'a>>,
    selected_label: &str,
    hovered: Option<&PlanNodeTarget>,
    origin: PlanCanvasPoint,
)
    ensures
        grid_view(final(cells)@) == boxes_drawn(
            grid_view(old(cells)@),
            scene_views(nodes@),
            selected_label@,
            borrowed_target(hovered),
            origin,
            nodes.len() as int,
        ),
{
    let ghost g = grid_view(cells@);
    let ghost all = scene_views(nodes@);
    let mut n: usize = 0;
    while n < nodes.len()
        invariant
            n <= nodes.len(),
            all == scene_views(nodes@),
            grid_view(cells@) == boxes_drawn(
                g,
                all,
                selected_label@,
                borrowed_target(hovered),
                origin,
                n as int,
            ),
        decreases nodes.len() - n,
    {
        let b: &SceneNode<'a> = &nodes[n];
        let is_hovered: bool = match hovered {
            Some(t) => t.same(&b.target),
            None => false,
        };
        proof {
            assert(all[n as int] == b@);
            assert(b@.lines.len() == b.lines.len());
        }
        draw_box(cells, b, is_hovered, node_selected(b.node, selected_label), origin);
        n = n + 1;
    }
}

/// A viewport with the first `n` lines of a text drawn from column 0 and row `y` on.
pub open spec fn lines_typed(
    g: Seq<Seq<Option<CellView>>>,
    lines: Seq<Seq<char>>,
    y: int,
    role: DiagramRole,
    origin: PlanCanvasPoint,
    n: int,
) -> Seq<Seq<Option<CellView>>>
    decreases n,
{
    if n <= 0 {
        g
    } else {
        text_typed(
            lines_typed(g, lines, y, role, origin, n - 1),
            lines[n - 1],
            lines[n - 1].len() as int,
            0,
            sat32(y + sat32(n - 1)),
            role,
            None,
            origin,
        )
    }
}

fn put_lines(cells: &mut Vec<Vec<Option<Cell>>>, lines: &Vec<String>, y: i32, role: DiagramRole, origin: PlanCanvasPoint)
    ensures
        grid_view(final(cells)@) == lines_typed(
            grid_view(old(cells)@),
            texts(lines@),
            y as int,
            role,
            origin,
            lines.len() as int,
        ),
{
    let ghost g = grid_view(cells@);
    let mut n: usize = 0;
    while n < lines.len()
        invariant
            n <= lines.len(),
            grid_view(cells@) == lines_typed(g, texts(lines@), y as int, role, origin, n as int),
        decreases lines.len() - n,
    {
        proof {
            assert(texts(lines@)[n as int] == lines@[n as int]@);
        }
        put_text(cells, 0, plus(y, count32(n)), lines[n].as_str(), role, None, origin);
        n = n + 1;
    }
}

/// The columns that the first `n` lines take.
pub open spec fn widest(lines: Seq<Seq<char>>, n: int) -> int
    decreases n,
{
    if n <= 0 {
        0
    } else {
        max_int(widest(lines, n - 1), sat32(display_width(lines[n - 1]) as int))
    }
}

fn widest_line(lines: &Vec<String>) -> (w: i32)
    ensures
        w == widest(texts(lines@), lines.len() as int),
        w >= 0,
{
    let mut w: i32 = 0;
    let mut n: usize = 0;
    while n < lines.len()
        invariant
            n <= lines.len(),
            w == widest(texts(lines@), n as int),
            w >= 0,
        decreases lines.len() - n,
    {
        proof {
            assert(texts(lines@)[n as int] == lines@[n as int]@);
        }
        w = max_i32(w, count32(str_width(lines[n].as_str())));
        n = n + 1;
    }
    w
}

/// The columns that the first `n` labels take.
pub open spec fn widest_label(links: Seq<LinkView>, n: int) -> int
    decreases n,
{
    if n <= 0 {
        0
    } else {
        max_int(widest_label(links, n - 1), sat32(display_width(links[n - 1].label) as int))
    }
}

/// The room that a text takes from row `y` on; none where it is empty.
pub open spec fn with_text(r: CanvasRect, lines: Seq<Seq<char>>, y: int) -> CanvasRect {
    if lines.len() == 0 {
        r
    } else {
        around(
            r,
            CanvasRect {
                x: 0,
                y: y as i32,
                width: widest(lines, lines.len() as int) as i32,
                height: sat32(lines.len() as int) as i32,
            },
        )
    }
}

/// A rectangle with the footprints of the first `n` boxes.
pub open spec fn with_boxes(r: CanvasRect, nodes: Seq<SceneView>, n: int) -> CanvasRect
    decreases n,
{
    if n <= 0 {
        r
    } else {
        around(with_boxes(r, nodes, n - 1), nodes[n - 1].footprint)
    }
}

/// The row below the first `n` boxes.
pub open spec fn lowest(nodes: Seq<SceneView>, n: int) -> int
    decreases n,
{
    if n <= 1 {
        nodes[0].footprint.spec_bottom()
    } else {
        max_int(lowest(nodes, n - 1), nodes[n - 1].footprint.spec_bottom())
    }
}

/// The first row of the evidence.
pub open spec fn evidence_row(nodes: Seq<SceneView>, intent_rows: int) -> int {
    sat32(
        (if nodes.len() == 0 {
            count_or(intent_rows, 0)
        } else {
            lowest(nodes, nodes.len() as int)
        }) + 2,
    )
}

/// The part of the world that holds anything, with a margin.
pub open spec fn bounds_of(
    nodes: Seq<SceneView>,
    links: Seq<LinkView>,
    intent: Seq<Seq<char>>,
    evidence: Seq<Seq<char>>,
) -> CanvasRect {
    let boxes = with_boxes(with_text(no_area(), intent, 0), nodes, nodes.len() as int);
    let labelled = CanvasRect {
        width: sat32(boxes.width + sat32(widest_label(links, links.len() as int) + 4)) as i32,
        ..boxes
    };
    let all = with_text(labelled, evidence, evidence_row(nodes, intent.len() as int));
    CanvasRect {
        x: sat32(all.x - CANVAS_MARGIN) as i32,
        y: sat32(all.y - CANVAS_MARGIN) as i32,
        width: sat32(all.width + 2 * CANVAS_MARGIN) as i32,
        height: sat32(all.height + 2 * CANVAS_MARGIN) as i32,
    }
}

fn grow_by_text(r: &mut CanvasRect, lines: &Vec<String>, y: i32)
    ensures
        *final(r) == with_text(*old(r), texts(lines@), y as int),
{
    proof {
        assert(texts(lines@).len() == lines.len());
    }
    if lines.len() > 0 {
        r.include_rect(CanvasRect { x: 0, y, width: widest_line(lines), height: count32(lines.len()) });
    }
}

fn evidence_top<'a>(nodes: &Vec<SceneNode<'a>>, intent_rows: usize) -> (y: i32)
    ensures
        y == evidence_row(scene_views(nodes@), intent_rows as int),
{
    let ghost all = scene_views(nodes@);
    if nodes.len() == 0 {
        return plus(count_or_default(intent_rows, 0), 2);
    }
    let mut low: i32 = nodes[0].footprint.bottom();
    let mut n: usize = 1;
    proof {
        assert(all[0] == nodes@[0]@);
    }
    while n < nodes.len()
        invariant
            1 <= n <= nodes.len(),
            all == scene_views(nodes@),
            low == lowest(all, n as int),
        decreases nodes.len() - n,
    {
        proof {
            assert(all[n as int] == nodes@[n as int]@);
        }
        low = max_i32(low, nodes[n].footprint.bottom());
        n = n + 1;
    }
    plus(low, 2)
}

fn label_allowance(edges: &Vec<SceneEdge>) -> (w: i32)
    ensures
        w == sat32(widest_label(link_views(edges@), edges.len() as int) + 4),
{
    let ghost links = link_views(edges@);
    let mut w: i32 = 0;
    let mut n: usize = 0;
    while n < edges.len()
        invariant
            n <= edges.len(),
            links == link_views(edges@),
            w == widest_label(links, n as int),
        decreases edges.len() - n,
    {
        proof {
            assert(links[n as int] == edges@[n as int]@);
        }
        w = max_i32(w, count32(str_width(edges[n].label.as_str())));
        n = n + 1;
    }
    plus(w, 4)
}

fn scene_bounds<'a>(scene: &Scene<'a>, evidence_y: i32) -> (r: CanvasRect)
    requires
        evidence_y == evidence_row(scene_views(scene.nodes@), scene.intent_rows.len() as int),
    ensures
        r == bounds_of(
            scene_views(scene.nodes@),
            link_views(scene.edges@),
            texts(scene.intent_rows@),
            texts(scene.evidence_rows@),
        ),
{
    let ghost all = scene_views(scene.nodes@);
    let mut bounds = CanvasRect { x: 0, y: 0, width: 0, height: 0 };
    grow_by_text(&mut bounds, &scene.intent_rows, 0);
    let ghost texted = bounds;
    let mut n: usize = 0;
    while n < scene.nodes.len()
        invariant
            n <= scene.nodes.len(),
            all == scene_views(scene.nodes@),
            bounds == with_boxes(texted, all, n as int),
        decreases scene.nodes.len() - n,
    {
        proof {
            assert(all[n as int] == scene.nodes@[n as int]@);
        }
        bounds.include_rect(scene.nodes[n].footprint);
        n = n + 1;
    }
    bounds.width = plus(bounds.width, label_allowance(&scene.edges));
    grow_by_text(&mut bounds, &scene.evidence_rows, evidence_y);
    CanvasRect {
        x: minus(bounds.x, CANVAS_MARGIN),
        y: minus(bounds.y, CANVAS_MARGIN),
        width: plus(bounds.width, 2 * CANVAS_MARGIN),
        height: plus(bounds.height, 2 * CANVAS_MARGIN),
    }
}

/// One rendered node's world geometry and visible screen hitbox.
#[derive(Debug, Clone)]
pub struct CanvasNodeFrame {
    pub target: PlanNodeTarget,
    pub position: PlanCanvasPoint,
    pub footprint: CanvasRect,
    /// The part of the box that the viewport shows.
    pub screen_rect: Option<Rect>,
}

/// One clipped frame plus the retained geometry needed for direct manipulation.
#[derive(Debug, Clone)]
pub struct CanvasFrame {
    pub lines: Vec<CanvasLine>,
    pub nodes: Vec<CanvasNodeFrame>,
    pub bounds: CanvasRect,
    pub origin: PlanCanvasPoint,
}

/// A rendered node, by contents.
#[verifier::ext_equal]
pub struct NodeShot {
    pub target: TargetView,
    pub position: PlanCanvasPoint,
    pub footprint: CanvasRect,
    pub screen_rect: Option<Rect>,
}

impl View for CanvasNodeFrame {
    type V = NodeShot;

    open spec fn view(&self) -> NodeShot {
        NodeShot {
            target: self.target@,
            position: self.position,
            footprint: self.footprint,
            screen_rect: self.screen_rect,
        }
    }
}

/// A frame, by contents.
#[verifier::ext_equal]
pub struct Shot {
    pub lines: Seq<Seq<CanvasSpanView>>,
    pub nodes: Seq<NodeShot>,
    pub bounds: CanvasRect,
    pub origin: PlanCanvasPoint,
}

impl View for CanvasFrame {
    type V = Shot;

    open spec fn view(&self) -> Shot {
        Shot {
            lines: Seq::new(self.lines.len() as nat, |i: int| self.lines[i]@),
            nodes: Seq::new(self.nodes.len() as nat, |i: int| self.nodes[i]@),
            bounds: self.bounds,
            origin: self.origin,
        }
    }
}

/// How the canvas is looked at.
#[verifier::ext_equal]
pub struct Look {
    pub width: int,
    pub height: int,
    pub selected: Seq<char>,
    pub hovered: Option<TargetView>,
    pub origin: PlanCanvasPoint,
}

/// What is drawn into the viewport, from the back to the front: the intent, the connectors,
/// the boxes, and the evidence.
pub open spec fn picture(
    nodes: Seq<SceneView>,
    links: Seq<LinkView>,
    intent: Seq<Seq<char>>,
    evidence: Seq<Seq<char>>,
    look: Look,
) -> Seq<Seq<Option<CellView>>> {
    let blank = blank_grid(look.width, look.height);
    let headed = lines_typed(blank, intent, 0, DiagramRole::Text, look.origin, intent.len() as int);
    let linked = links_drawn(headed, nodes, links, look.origin, links.len() as int);
    let boxed = boxes_drawn(linked, nodes, look.selected, look.hovered, look.origin, nodes.len() as int);
    lines_typed(
        boxed,
        evidence,
        evidence_row(nodes, intent.len() as int),
        DiagramRole::Evidence,
        look.origin,
        evidence.len() as int,
    )
}

/// The frame of a scene.
pub open spec fn shot_of(
    nodes: Seq<SceneView>,
    links: Seq<LinkView>,
    intent: Seq<Seq<char>>,
    evidence: Seq<Seq<char>>,
    look: Look,
) -> Shot {
    let cells = picture(nodes, links, intent, evidence, look);
    Shot {
        lines: Seq::new(cells.len(), |r: int| row_line(cells[r])),
        nodes: Seq::new(
            nodes.len(),
            |i: int|
                NodeShot {
                    target: nodes[i].target,
                    position: nodes[i].position,
                    footprint: nodes[i].footprint,
                    screen_rect: clipped_rect(nodes[i].area(), look.origin, look.width, look.height),
                },
        ),
        bounds: bounds_of(nodes, links, intent, evidence),
        origin: look.origin,
    }
}

/// The width of a box in a viewport.
pub open spec fn box_width_of(width: int) -> int {
    clamp_int(width, 4, 32)
}

/// The frame of a plan.
pub open spec fn plan_shot(
    plan: VisualizationPlan,
    look: Look,
    a: crate::canvas_scene::Arrangement,
) -> Shot {
    let wrap = max_int(look.width, 40);
    let intent = full_lines(plan.intent@, wrap);
    let scene = scene_of(plan, first_top(intent.len() as int), box_width_of(look.width), a, plan.forms.len() as int);
    shot_of(
        scene.nodes,
        scene.links,
        intent,
        evidence_lines(plan.evidence@, wrap, plan.evidence.len() as int),
        look,
    )
}

fn all_lines(cells: &Vec<Vec<Option<Cell>>>) -> (out: Vec<CanvasLine>)
    ensures
        Seq::new(out.len() as nat, |i: int| out[i]@) == Seq::new(
            cells.len() as nat,
            |r: int| row_line(grid_view(cells@)[r]),
        ),
{
    let mut out: Vec<CanvasLine> = Vec::new();
    while out.len() < cells.len()
        invariant
            out.len() <= cells.len(),
            forall|i: int| #![trigger out@[i]] 0 <= i < out.len() ==> out@[i]@ == row_line(grid_view(cells@)[i]),
        decreases cells.len() - out.len(),
    {
        let line = cells_to_line(&cells[out.len()]);
        out.push(line);
    }
    proof {
        assert(Seq::new(out.len() as nat, |i: int| out[i]@) =~= Seq::new(
            cells.len() as nat,
            |r: int| row_line(grid_view(cells@)[r]),
        ));
    }
    out
}

fn all_nodes<'a>(nodes: &Vec<SceneNode<'a>>, origin: PlanCanvasPoint, width: u16, height: u16) -> (out: Vec<
    CanvasNodeFrame,
>)
    ensures
        out.len() == nodes.len(),
        forall|i: int|
            #![trigger out@[i]]
            0 <= i < out.len() ==> out@[i]@ == (NodeShot {
                target: nodes@[i]@.target,
                position: nodes@[i]@.position,
                footprint: nodes@[i]@.footprint,
                screen_rect: clipped_rect(nodes@[i]@.area(), origin, width as int, height as int),
            }),
{
    let mut out: Vec<CanvasNodeFrame> = Vec::new();
    while out.len() < nodes.len()
        invariant
            out.len() <= nodes.len(),
            forall|i: int|
                #![trigger out@[i]]
                0 <= i < out.len() ==> out@[i]@ == (NodeShot {
                    target: nodes@[i]@.target,
                    position: nodes@[i]@.position,
                    footprint: nodes@[i]@.footprint,
                    screen_rect: clipped_rect(nodes@[i]@.area(), origin, width as int, height as int),
                }),
        decreases nodes.len() - out.len(),
    {
        let b: &SceneNode<'a> = &nodes[out.len()];
        let made = CanvasNodeFrame {
            target: b.target.copied(),
            position: b.position,
            footprint: b.footprint,
            screen_rect: clip_to_screen(b.actual_rect(), origin, width, height),
        };
        out.push(made);
    }
    out
}

fn render_scene<'a>(
    scene: &Scene<'a>,
    width: u16,
    height: u16,
    selected_label: &str,
    hovered: Option<&PlanNodeTarget>,
    origin: PlanCanvasPoint,
) -> (r: CanvasFrame)
    ensures
        r@ == shot_of(
            scene_views(scene.nodes@),
            link_views(scene.edges@),
            texts(scene.intent_rows@),
            texts(scene.evidence_rows@),
            (Look {
                width: width as int,
                height: height as int,
                selected: selected_label@,
                hovered: borrowed_target(hovered),
                origin,
            }),
        ),
{
    let ghost look = Look {
        width: width as int,
        height: height as int,
        selected: selected_label@,
        hovered: borrowed_target(hovered),
        origin,
    };
    proof {
        assert(texts(scene.intent_rows@).len() == scene.intent_rows.len());
        assert(texts(scene.evidence_rows@).len() == scene.evidence_rows.len());
        assert(link_views(scene.edges@).len() == scene.edges.len());
        assert(scene_views(scene.nodes@).len() == scene.nodes.len());
    }
    let evidence_y: i32 = evidence_top(&scene.nodes, scene.intent_rows.len());
    let bounds = scene_bounds(scene, evidence_y);
    let mut cells = blank_cells(width as usize, height as usize);
    put_lines(&mut cells, &scene.intent_rows, 0, DiagramRole::Text, origin);
    draw_edges(&mut cells, &scene.nodes, &scene.edges, origin);
    draw_boxes(&mut cells, &scene.nodes, selected_label, hovered, origin);
    put_lines(&mut cells, &scene.evidence_rows, evidence_y, DiagramRole::Evidence, origin);
    let lines = all_lines(&cells);
    let nodes = all_nodes(&scene.nodes, origin, width, height);
    let r = CanvasFrame { lines, nodes, bounds, origin };
    proof {
        let s = shot_of(
            scene_views(scene.nodes@),
            link_views(scene.edges@),
            texts(scene.intent_rows@),
            texts(scene.evidence_rows@),
            look,
        );
        assert(r@.lines =~= s.lines);
        assert(r@.nodes =~= s.nodes);
    }
    r
}

/// Render a plan into exactly `height` viewport rows. Without a view, nothing was moved and
/// the viewport stands at the origin.
pub fn render_canvas(
    plan: &VisualizationPlan,
    width: u16,
    height: u16,
    selected_label: &str,
    hovered: Option<&PlanNodeTarget>,
    expanded: &Vec<PlanNodeTarget>,
    view: Option<&PlanCanvasView>,
) -> (r: CanvasFrame)
    ensures
        r@ == plan_shot(
            *plan,
            (Look {
                width: width as int,
                height: height as int,
                selected: selected_label@,
                hovered: borrowed_target(hovered),
                origin: match view {
                    Some(v) => v.origin,
                    None => (PlanCanvasPoint { x: 0, y: 0 }),
                },
            }),
            (crate::canvas_scene::Arrangement {
                open: crate::table::held(expanded@),
                moved: match view {
                    Some(v) => v.positions@,
                    None => Map::empty(),
                },
            }),
        ),
{
    let empty = PlanCanvasView::default();
    let view: &PlanCanvasView = match view {
        Some(v) => v,
        None => &empty,
    };
    let box_width: u16 = if width < 4 {
        4
    } else if width > 32 {
        32
    } else {
        width
    };
    let scene = build_scene(plan, max_usize(width as usize, 40), box_width, expanded, view);
    render_scene(&scene, width, height, selected_label, hovered, view.origin)
}

/// A connector meets its boxes from outside: it starts and ends right beside them.
pub proof fn law_connectors_touch_their_boxes(from: CanvasRect, to: CanvasRect)
    requires
        from.width > 0,
        from.height > 0,
        to.width > 0,
        to.height > 0,
        i32::MIN < from.x,
        i32::MIN < from.y,
        i32::MIN < to.x,
        i32::MIN < to.y,
        from.x + from.width <= i32::MAX,
        from.y + from.height <= i32::MAX,
        to.x + to.width <= i32::MAX,
        to.y + to.height <= i32::MAX,
    ensures
        ({
            let e = ends_of(from, to);
            &&& !crosses(e.start, e.start, from)
            &&& !crosses(e.end, e.end, to)
        }),
{
}

/// Every piece of a connector is horizontal or vertical, whatever lies in the way.
pub proof fn law_connectors_are_orthogonal(from: CanvasRect, to: CanvasRect, obstacles: Seq<CanvasRect>, i: int)
    requires
        0 <= i < connector_route(from, to, obstacles).len() - 1,
    ensures
        ({
            let route = connector_route(from, to, obstacles);
            route[i].x == route[i + 1].x || route[i].y == route[i + 1].y
        }),
{
}

/// A frame has exactly as many lines as the viewport has rows.
pub proof fn law_frame_fills_the_viewport(
    plan: VisualizationPlan,
    look: Look,
    a: crate::canvas_scene::Arrangement,
)
    requires
        look.height >= 0,
    ensures
        plan_shot(plan, look, a).lines.len() == look.height,
{
    let wrap = max_int(look.width, 40);
    let intent = full_lines(plan.intent@, wrap);
    let scene = scene_of(plan, first_top(intent.len() as int), box_width_of(look.width), a, plan.forms.len() as int);
    let evidence = evidence_lines(plan.evidence@, wrap, plan.evidence.len() as int);
    let blank = blank_grid(look.width, look.height);
    let headed = lines_typed(blank, intent, 0, DiagramRole::Text, look.origin, intent.len() as int);
    let linked = links_drawn(headed, scene.nodes, scene.links, look.origin, scene.links.len() as int);
    let boxed = boxes_drawn(linked, scene.nodes, look.selected, look.hovered, look.origin, scene.nodes.len() as int);
    lemma_lines_keep_rows(blank, intent, 0, DiagramRole::Text, look.origin, intent.len() as int);
    lemma_links_keep_rows(headed, scene.nodes, scene.links, look.origin, scene.links.len() as int);
    lemma_boxes_keep_rows(linked, scene.nodes, look.selected, look.hovered, look.origin, scene.nodes.len() as int);
    lemma_lines_keep_rows(
        boxed,
        evidence,
        evidence_row(scene.nodes, intent.len() as int),
        DiagramRole::Evidence,
        look.origin,
        evidence.len() as int,
    );
}

proof fn lemma_text_keeps_rows(
    g: Seq<Seq<Option<CellView>>>,
    text: Seq<char>,
    n: int,
    x: int,
    y: int,
    role: DiagramRole,
    target: Option<TargetView>,
    origin: PlanCanvasPoint,
)
    ensures
        text_typed(g, text, n, x, y, role, target, origin).len() == g.len(),
    decreases n,
{
    if n > 0 {
        lemma_text_keeps_rows(g, text, n - 1, x, y, role, target, origin);
        let before = text_typed(g, text, n - 1, x, y, role, target, origin);
        let cursor = crate::canvas_grid::cursor_at(text, x, n - 1);
        crate::canvas_grid::lemma_char_keeps_rows(before, text[n - 1], cursor, y, role, target, origin);
    }
}

proof fn lemma_lines_keep_rows(
    g: Seq<Seq<Option<CellView>>>,
    lines: Seq<Seq<char>>,
    y: int,
    role: DiagramRole,
    origin: PlanCanvasPoint,
    n: int,
)
    ensures
        lines_typed(g, lines, y, role, origin, n).len() == g.len(),
    decreases n,
{
    if n > 0 {
        lemma_lines_keep_rows(g, lines, y, role, origin, n - 1);
        lemma_text_keeps_rows(
            lines_typed(g, lines, y, role, origin, n - 1),
            lines[n - 1],
            lines[n - 1].len() as int,
            0,
            sat32(y + sat32(n - 1)),
            role,
            None,
            origin,
        );
    }
}

proof fn lemma_route_keeps_rows(
    g: Seq<Seq<Option<CellView>>>,
    route: Seq<PlanCanvasPoint>,
    verified: bool,
    origin: PlanCanvasPoint,
    n: int,
)
    ensures
        route_drawn(g, route, verified, origin, n).len() == g.len(),
    decreases n,
{
    if n > 0 {
        lemma_route_keeps_rows(g, route, verified, origin, n - 1);
    }
}

proof fn lemma_edge_keeps_rows(
    g: Seq<Seq<Option<CellView>>>,
    from: CanvasRect,
    to: CanvasRect,
    label: Seq<char>,
    verified: bool,
    origin: PlanCanvasPoint,
    obstacles: Seq<CanvasRect>,
)
    ensures
        edge_drawn(g, from, to, label, verified, origin, obstacles).len() == g.len(),
{
    let e = ends_of(from, to);
    let route = connector_route(from, to, obstacles);
    lemma_route_keeps_rows(g, route, verified, origin, route.len() - 1);
    let lines = route_drawn(g, route, verified, origin, route.len() - 1);
    let headed = filled(
        lines,
        origin,
        e.end.x as int,
        e.end.x as int,
        e.end.y as int,
        e.end.y as int,
        arrow_ink(arrow_of(e.heading, verified)),
    );
    let w = label_written(route, label, from, to);
    lemma_text_keeps_rows(headed, w.text, w.text.len() as int, w.x, w.y, DiagramRole::Arrow, None, origin);
}

proof fn lemma_links_keep_rows(
    g: Seq<Seq<Option<CellView>>>,
    nodes: Seq<SceneView>,
    links: Seq<LinkView>,
    origin: PlanCanvasPoint,
    n: int,
)
    ensures
        links_drawn(g, nodes, links, origin, n).len() == g.len(),
    decreases n,
{
    if n > 0 {
        lemma_links_keep_rows(g, nodes, links, origin, n - 1);
        let before = links_drawn(g, nodes, links, origin, n - 1);
        let link = links[n - 1];
        let a = box_showing(nodes, TargetView { form: link.form, id: link.from }, 0);
        let b = box_showing(nodes, TargetView { form: link.form, id: link.to }, 0);
        if a is Some && b is Some {
            lemma_edge_keeps_rows(
                before,
                nodes[a->0].area(),
                nodes[b->0].area(),
                link.label,
                edge_verifiable(nodes[a->0].node, nodes[b->0].node, link.kind),
                origin,
                areas(nodes),
            );
        }
    }
}

proof fn lemma_box_keeps_rows(
    g: Seq<Seq<Option<CellView>>>,
    b: SceneView,
    hovered: bool,
    selected: bool,
    origin: PlanCanvasPoint,
    n: int,
)
    ensures
        box_drawn(g, b, hovered, selected, origin, n).len() == g.len(),
    decreases n,
{
    if n > 0 {
        lemma_box_keeps_rows(g, b, hovered, selected, origin, n - 1);
        lemma_text_keeps_rows(
            box_drawn(g, b, hovered, selected, origin, n - 1),
            b.lines[n - 1],
            b.lines[n - 1].len() as int,
            b.position.x as int,
            sat32(b.position.y + sat32(n - 1)),
            box_role(hovered, selected, n - 1, b.lines.len() as int),
            Some(b.target),
            origin,
        );
    }
}

proof fn lemma_boxes_keep_rows(
    g: Seq<Seq<Option<CellView>>>,
    nodes: Seq<SceneView>,
    selected: Seq<char>,
    hovered: Option<TargetView>,
    origin: PlanCanvasPoint,
    n: int,
)
    ensures
        boxes_drawn(g, nodes, selected, hovered, origin, n).len() == g.len(),
    decreases n,
{
    if n > 0 {
        lemma_boxes_keep_rows(g, nodes, selected, hovered, origin, n - 1);
        let b = nodes[n - 1];
        lemma_box_keeps_rows(
            boxes_drawn(g, nodes, selected, hovered, origin, n - 1),
            b,
            hovered == Some(b.target),
            stands_out(b.node, selected),
            origin,
            b.lines.len() as int,
        );
    }
}

} // verus!
