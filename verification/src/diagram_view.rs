//! A diagram canvas as styled lines: what the generated pane shows of a finished plan.

use vstd::prelude::*;
use crate::action::{PlanNodeTarget, TargetView};
use crate::app::{app_view, App, AppView};
use crate::canvas::{arrow_char, arrow_of, box_role, node_selected, route_drawn, stands_out, Heading};
use crate::canvas_grid::{
    arrow_ink, blank_cells, blank_grid, borrowed_target, cells_to_line, count32, draw_segment, filled, grid_view, plus,
    put_arrow, put_text, row_line, sat32, text_typed, CanvasLine, CanvasSpanView, Cell, CellView, PlanCanvasPoint,
};
use crate::diagram::{find_node, leading_annotations, node_index, DiagramPosition, DiagramRole, DiagramViewport};
use crate::diagram_canvas::{
    overlay_of, CanvasView, DiagramCanvas, DiagramNode, DiagramOverlay, DiagramRelationship, NodeView, OverlayView,
    RouteView,
};
use crate::geometry::{drawn_plan, max_scroll, plan_warnings, scroll_max, shown_canvas};
use crate::impact_view::{
    diagram_lines, generated_impact_content, known_lines, leading_lines, paint_role, painted_roles, render_diagram_line,
    role_paint,
};
use crate::num::{min_int, min_usize, sat16, sat_u16};
use crate::plan::VisualizationPlan;
use crate::snapshot::UiSnapshot;
use crate::style::{line_views, PaintedLine, PieceView};
use crate::table::Key;
use crate::text::texts;
use crate::wrap::{pad, padded};
use crate::rect::Rect;

verus! {

/// A content cell as a point of the drawing.
pub open spec fn point_at(p: DiagramPosition) -> PlanCanvasPoint {
    PlanCanvasPoint { x: p.x as i32, y: p.y as i32 }
}

fn as_point(p: DiagramPosition) -> (r: PlanCanvasPoint)
    ensures
        r == point_at(p),
{
    PlanCanvasPoint { x: p.x as i32, y: p.y as i32 }
}

/// The corners of a route as points of the drawing.
pub open spec fn points_of(path: Seq<DiagramPosition>) -> Seq<PlanCanvasPoint> {
    Seq::new(path.len(), |i: int| point_at(path[i]))
}

/// Which way a route ends.
pub open spec fn route_heading(path: Seq<DiagramPosition>) -> Heading {
    if path.len() < 2 {
        Heading::Down
    } else {
        let (a, b) = (path[path.len() - 2], path[path.len() - 1]);
        if b.y > a.y {
            Heading::Down
        } else if b.y < a.y {
            Heading::Up
        } else if b.x >= a.x {
            Heading::Right
        } else {
            Heading::Left
        }
    }
}

fn heading_of(path: &Vec<DiagramPosition>) -> (h: Heading)
    ensures
        h == route_heading(path@),
{
    if path.len() < 2 {
        return Heading::Down;
    }
    let a: DiagramPosition = path[path.len() - 2];
    let b: DiagramPosition = path[path.len() - 1];
    if b.y > a.y {
        Heading::Down
    } else if b.y < a.y {
        Heading::Up
    } else if b.x >= a.x {
        Heading::Right
    } else {
        Heading::Left
    }
}

/// A viewport with a relationship drawn: its pieces, its head, and its compact label.
pub open spec fn relation_drawn(g: Seq<Seq<Option<CellView>>>, r: RouteView, origin: PlanCanvasPoint) -> Seq<
    Seq<Option<CellView>>,
> {
    if r.path.len() == 0 {
        g
    } else {
        let points = points_of(r.path);
        let lines = route_drawn(g, points, r.verified, origin, points.len() - 1);
        let end = points[points.len() - 1];
        let headed = filled(
            lines,
            origin,
            end.x as int,
            end.x as int,
            end.y as int,
            end.y as int,
            arrow_ink(arrow_of(route_heading(r.path), r.verified)),
        );
        text_typed(
            headed,
            r.label,
            r.label.len() as int,
            r.label_rect.x as int,
            r.label_rect.y as int,
            DiagramRole::Arrow,
            None,
            origin,
        )
    }
}

/// A viewport with the first `n` relationships drawn.
pub open spec fn relations_drawn(
    g: Seq<Seq<Option<CellView>>>,
    routes: Seq<RouteView>,
    origin: PlanCanvasPoint,
    n: int,
) -> Seq<Seq<Option<CellView>>>
    decreases n,
{
    if n <= 0 {
        g
    } else {
        relation_drawn(relations_drawn(g, routes, origin, n - 1), routes[n - 1], origin)
    }
}

fn draw_relation(cells: &mut Vec<Vec<Option<Cell>>>, r: &DiagramRelationship, origin: PlanCanvasPoint)
    ensures
        grid_view(final(cells)@) == relation_drawn(grid_view(old(cells)@), r@, origin),
{
    if r.path.len() == 0 {
        return;
    }
    let ghost g = grid_view(cells@);
    let ghost points = points_of(r.path@);
    let mut n: usize = 0;
    while n + 1 < r.path.len()
        invariant
            n + 1 <= r.path.len() == points.len(),
            points == points_of(r.path@),
            grid_view(cells@) == route_drawn(g, points, r.verified, origin, n as int),
        decreases r.path.len() - n,
    {
        draw_segment(cells, as_point(r.path[n]), as_point(r.path[n + 1]), r.verified, origin);
        n = n + 1;
    }
    let end: PlanCanvasPoint = as_point(r.path[r.path.len() - 1]);
    put_arrow(cells, end, arrow_char(heading_of(&r.path), r.verified), origin);
    put_text(
        cells,
        r.label_rect.x as i32,
        r.label_rect.y as i32,
        r.label.as_str(),
        DiagramRole::Arrow,
        None,
        origin,
    );
}

/// Whether a box stands out: its node does.
pub open spec fn box_stands_out(plan: VisualizationPlan, t: TargetView, selected: Seq<char>) -> bool {
    0 <= t.form < plan.forms.len() && (match node_index(plan.forms[t.form].nodes@, t.id, 0) {
        Some(k) => stands_out(plan.forms[t.form].nodes[k], selected),
        None => false,
    })
}

fn is_box_selected(plan: &VisualizationPlan, t: &PlanNodeTarget, selected: &str) -> (r: bool)
    ensures
        r == box_stands_out(*plan, t@, selected@),
{
    if t.form >= plan.forms.len() {
        return false;
    }
    match find_node(&plan.forms[t.form].nodes, t.id.as_str()) {
        Some(k) => node_selected(&plan.forms[t.form].nodes[k], selected),
        None => false,
    }
}

/// A viewport with the first `n` rows of a box drawn.
pub open spec fn card_drawn(
    g: Seq<Seq<Option<CellView>>>,
    b: NodeView,
    hovered: bool,
    selected: bool,
    origin: PlanCanvasPoint,
    n: int,
) -> Seq<Seq<Option<CellView>>>
    decreases n,
{
    if n <= 0 {
        g
    } else {
        let row = b.lines[n - 1];
        text_typed(
            card_drawn(g, b, hovered, selected, origin, n - 1),
            row,
            row.len() as int,
            b.rect.x as int,
            sat32(b.rect.y + sat32(n - 1)),
            box_role(hovered, selected, n - 1, b.lines.len() as int),
            Some(b.target),
            origin,
        )
    }
}

/// A viewport with the first `n` boxes drawn, later ones over earlier ones.
pub open spec fn cards_drawn(
    g: Seq<Seq<Option<CellView>>>,
    plan: VisualizationPlan,
    nodes: Seq<NodeView>,
    selected: Seq<char>,
    hovered: Option<TargetView>,
    origin: PlanCanvasPoint,
    n: int,
) -> Seq<Seq<Option<CellView>>>
    decreases n,
{
    if n <= 0 {
        g
    } else {
        let b = nodes[n - 1];
        card_drawn(
            cards_drawn(g, plan, nodes, selected, hovered, origin, n - 1),
            b,
            hovered == Some(b.target),
            box_stands_out(plan, b.target, selected),
            origin,
            b.lines.len() as int,
        )
    }
}

fn draw_card(cells: &mut Vec<Vec<Option<Cell>>>, b: &DiagramNode, hovered: bool, selected: bool, origin: PlanCanvasPoint)
    ensures
        grid_view(final(cells)@) == card_drawn(
            grid_view(old(cells)@),
            b@,
            hovered,
            selected,
            origin,
            b.lines.len() as int,
        ),
{
    let ghost g = grid_view(cells@);
    let mut n: usize = 0;
    while n < b.lines.len()
        invariant
            n <= b.lines.len(),
            grid_view(cells@) == card_drawn(g, b@, hovered, selected, origin, n as int),
        decreases b.lines.len() - n,
    {
        let role: DiagramRole = if hovered {
            DiagramRole::Hovered
        } else if selected {
            DiagramRole::Selected
        } else if n == 0 || n == b.lines.len() - 1 {
            DiagramRole::Border
        } else {
            DiagramRole::Text
        };
        proof {
            assert(b@.lines[n as int] == b.lines@[n as int]@);
            assert(b@.lines.len() == b.lines.len());
        }
        put_text(
            cells,
            b.rect.x as i32,
            plus(b.rect.y as i32, count32(n)),
            b.lines[n].as_str(),
            role,
            Some(&b.target),
            origin,
        );
        n = n + 1;
    }
}

/// A viewport with the first `n` rows above the boxes: warnings, then the intent.
pub open spec fn notes_typed(
    g: Seq<Seq<Option<CellView>>>,
    notes: Seq<Seq<char>>,
    warnings: int,
    origin: PlanCanvasPoint,
    n: int,
) -> Seq<Seq<Option<CellView>>>
    decreases n,
{
    if n <= 0 {
        g
    } else {
        text_typed(
            notes_typed(g, notes, warnings, origin, n - 1),
            notes[n - 1],
            notes[n - 1].len() as int,
            0,
            sat32(n - 1),
            if n - 1 < warnings { DiagramRole::Warning } else { DiagramRole::Text },
            None,
            origin,
        )
    }
}

fn put_notes(cells: &mut Vec<Vec<Option<Cell>>>, notes: &Vec<String>, warnings: usize, origin: PlanCanvasPoint)
    ensures
        grid_view(final(cells)@) == notes_typed(
            grid_view(old(cells)@),
            texts(notes@),
            warnings as int,
            origin,
            notes.len() as int,
        ),
{
    let ghost g = grid_view(cells@);
    let mut n: usize = 0;
    while n < notes.len()
        invariant
            n <= notes.len(),
            grid_view(cells@) == notes_typed(g, texts(notes@), warnings as int, origin, n as int),
        decreases notes.len() - n,
    {
        proof {
            assert(texts(notes@)[n as int] == notes@[n as int]@);
        }
        let role: DiagramRole = if n < warnings { DiagramRole::Warning } else { DiagramRole::Text };
        put_text(cells, 0, count32(n), notes[n].as_str(), role, None, origin);
        n = n + 1;
    }
}

/// A viewport with the first `n` rows of an overlay drawn; each covers the whole width.
pub open spec fn overlay_drawn(
    g: Seq<Seq<Option<CellView>>>,
    o: OverlayView,
    origin: PlanCanvasPoint,
    n: int,
) -> Seq<Seq<Option<CellView>>>
    decreases n,
{
    if n <= 0 {
        g
    } else {
        let row = padded(o.lines[n - 1], o.rect.width as int);
        text_typed(
            overlay_drawn(g, o, origin, n - 1),
            row,
            row.len() as int,
            o.rect.x as int,
            sat32(o.rect.y + sat32(n - 1)),
            DiagramRole::Hovered,
            None,
            origin,
        )
    }
}

fn draw_overlay(cells: &mut Vec<Vec<Option<Cell>>>, o: &DiagramOverlay, origin: PlanCanvasPoint)
    ensures
        grid_view(final(cells)@) == overlay_drawn(grid_view(old(cells)@), o@, origin, o.lines.len() as int),
{
    let ghost g = grid_view(cells@);
    let mut n: usize = 0;
    while n < o.lines.len()
        invariant
            n <= o.lines.len(),
            grid_view(cells@) == overlay_drawn(g, o@, origin, n as int),
        decreases o.lines.len() - n,
    {
        proof {
            assert(o@.lines[n as int] == o.lines@[n as int]@);
        }
        let row = pad(o.lines[n].as_str(), o.rect.width as usize);
        put_text(
            cells,
            o.rect.x as i32,
            plus(o.rect.y as i32, count32(n)),
            row.as_str(),
            DiagramRole::Hovered,
            None,
            origin,
        );
        n = n + 1;
    }
}

/// What a diagram shows in a viewport that starts at row `first`, from the back to the front:
/// the notes, the relationships, the boxes, and the open relationship.
pub open spec fn diagram_picture(
    canvas: CanvasView,
    plan: VisualizationPlan,
    warnings: int,
    overlay: Option<OverlayView>,
    selected: Seq<char>,
    hovered: Option<TargetView>,
    size: DiagramViewport,
    first: int,
) -> Seq<Seq<Option<CellView>>> {
    let origin = PlanCanvasPoint { x: 0, y: sat32(first) as i32 };
    let blank = blank_grid(size.width as int, size.height as int);
    let noted = notes_typed(blank, canvas.annotations, warnings, origin, canvas.annotations.len() as int);
    let related = relations_drawn(noted, canvas.relationships, origin, canvas.relationships.len() as int);
    let boxed = cards_drawn(related, plan, canvas.nodes, selected, hovered, origin, canvas.nodes.len() as int);
    match overlay {
        Some(o) => overlay_drawn(boxed, o, origin, o.lines.len() as int),
        None => boxed,
    }
}

/// A drawn line in its paints.
pub open spec fn painted_spans(line: Seq<CanvasSpanView>) -> Seq<PieceView> {
    Seq::new(line.len(), |i: int| PieceView { text: line[i].text, paint: role_paint(line[i].role) })
}

/// The lines of a viewport in their paints.
pub open spec fn painted_rows(g: Seq<Seq<Option<CellView>>>) -> Seq<Seq<PieceView>> {
    Seq::new(g.len(), |r: int| painted_spans(row_line(g[r])))
}

fn paint_line(line: &CanvasLine) -> (r: PaintedLine)
    ensures
        r@ == painted_spans(line@),
{
    let mut r = PaintedLine::empty();
    let ghost all = painted_spans(line@);
    let mut i: usize = 0;
    proof {
        assert(r@ =~= all.take(0));
    }
    while i < line.spans.len()
        invariant
            i <= line.spans.len() == all.len(),
            all == painted_spans(line@),
            r@ == all.take(i as int),
        decreases line.spans.len() - i,
    {
        r.push(line.spans[i].text.as_str(), paint_role(line.spans[i].role));
        proof {
            assert(line@[i as int] == line.spans@[i as int]@);
            assert(all.take(i + 1) =~= all.take(i as int).push(all[i as int]));
        }
        i = i + 1;
    }
    proof {
        assert(all.take(all.len() as int) =~= all);
    }
    r
}

fn paint_rows(cells: &Vec<Vec<Option<Cell>>>) -> (out: Vec<PaintedLine>)
    ensures
        line_views(out@) == painted_rows(grid_view(cells@)),
{
    let ghost g = grid_view(cells@);
    let mut out: Vec<PaintedLine> = Vec::new();
    while out.len() < cells.len()
        invariant
            out.len() <= cells.len(),
            g == grid_view(cells@),
            forall|r: int| #![trigger out@[r]] 0 <= r < out.len() ==> out@[r]@ == painted_spans(row_line(g[r])),
        decreases cells.len() - out.len(),
    {
        let line = paint_line(&cells_to_line(&cells[out.len()]));
        out.push(line);
    }
    proof {
        assert(line_views(out@) =~= painted_rows(g));
    }
    out
}

/// An optional overlay, by contents.
pub open spec fn optional_overlay(overlay: Option<DiagramOverlay>) -> Option<OverlayView> {
    match overlay {
        Some(o) => Some(o@),
        None => None,
    }
}

/// The lines that a viewport shows of a diagram.
pub fn draw_diagram(
    canvas: &DiagramCanvas,
    plan: &VisualizationPlan,
    warnings: usize,
    overlay: &Option<DiagramOverlay>,
    selected: &str,
    hovered: Option<&PlanNodeTarget>,
    size: DiagramViewport,
    first: usize,
) -> (out: Vec<PaintedLine>)
    ensures
        line_views(out@) == painted_rows(
            diagram_picture(
                canvas@,
                *plan,
                warnings as int,
                optional_overlay(*overlay),
                selected@,
                borrowed_target(hovered),
                size,
                first as int,
            ),
        ),
{
    let origin = PlanCanvasPoint { x: 0, y: count32(first) };
    let mut cells = blank_cells(size.width as usize, size.height as usize);
    put_notes(&mut cells, &canvas.annotations, warnings, origin);
    let ghost noted = grid_view(cells@);
    let ghost routes = canvas@.relationships;
    proof {
        assert(texts(canvas.annotations@).len() == canvas.annotations.len());
    }
    let mut i: usize = 0;
    while i < canvas.relationships.len()
        invariant
            i <= canvas.relationships.len() == routes.len(),
            routes == canvas@.relationships,
            grid_view(cells@) == relations_drawn(noted, routes, origin, i as int),
        decreases canvas.relationships.len() - i,
    {
        proof {
            assert(routes[i as int] == canvas.relationships@[i as int]@);
        }
        draw_relation(&mut cells, &canvas.relationships[i], origin);
        i = i + 1;
    }
    let ghost related = grid_view(cells@);
    let ghost nodes = canvas@.nodes;
    let ghost pointed = borrowed_target(hovered);
    let mut k: usize = 0;
    while k < canvas.nodes.len()
        invariant
            k <= canvas.nodes.len() == nodes.len(),
            nodes == canvas@.nodes,
            pointed == borrowed_target(hovered),
            grid_view(cells@) == cards_drawn(related, *plan, nodes, selected@, pointed, origin, k as int),
        decreases canvas.nodes.len() - k,
    {
        let b: &DiagramNode = &canvas.nodes[k];
        proof {
            assert(nodes[k as int] == b@);
            assert(b@.lines.len() == b.lines.len());
        }
        let is_hovered: bool = match hovered {
            Some(t) => t.same(&b.target),
            None => false,
        };
        let is_selected: bool = is_box_selected(plan, &b.target, selected);
        draw_card(&mut cells, b, is_hovered, is_selected, origin);
        k = k + 1;
    }
    match overlay {
        Some(o) => {
            proof {
                assert(o@.lines.len() == o.lines.len());
            }
            draw_overlay(&mut cells, o, origin);
        },
        None => {},
    }
    paint_rows(&cells)
}

/// The label that boxes are compared with: that of the selected change.
pub open spec fn selected_label(s: UiSnapshot) -> Seq<char> {
    match s.impact.selected_change {
        Some(change) => change.label@,
        None => Seq::empty(),
    }
}

/// The open relationship of a canvas at a scroll offset.
pub open spec fn open_overlay(
    plan: VisualizationPlan,
    canvas: CanvasView,
    height: int,
    first: int,
    v: AppView,
) -> Option<OverlayView> {
    match v.diagram.relationship {
        Some(r) => overlay_of(canvas, plan, r, sat16(first), height, v.diagram.overlay_scroll),
        None => None,
    }
}

/// What the generated pane shows of a generated plan.
pub open spec fn plan_lines(plan: VisualizationPlan, v: AppView, s: UiSnapshot, inside: Rect) -> Seq<Seq<PieceView>> {
    let canvas = shown_canvas(plan, inside, v, s);
    let first = min_int(v.plan_scroll, max_scroll(canvas.size.height as int, inside.height as int));
    painted_rows(
        diagram_picture(
            canvas,
            plan,
            plan_warnings(s).len() as int,
            open_overlay(plan, canvas, inside.height as int, first, v),
            selected_label(s),
            v.hovered,
            DiagramViewport { width: inside.width, height: inside.height },
            first,
        ),
    )
}

/// What the generated pane shows while there is no generated plan.
pub open spec fn status_lines(v: AppView, s: UiSnapshot, inside: Rect) -> Seq<Seq<PieceView>> {
    let all = leading_lines(s, inside.width as int) + known_lines(s.impact, inside.width as int);
    let first = min_int(v.plan_scroll, max_scroll(all.len() as int, inside.height as int));
    let end = min_int(first + inside.height, all.len() as int);
    Seq::new((end - first) as nat, |i: int| painted_roles(all[first + i]))
}

/// What the generated pane shows.
pub open spec fn generated_lines(v: AppView, s: UiSnapshot, inside: Rect) -> Seq<Seq<PieceView>> {
    match drawn_plan(s) {
        Some(plan) => plan_lines(plan, v, s, inside),
        None => status_lines(v, s, inside),
    }
}

fn generated_plan(plan: &VisualizationPlan, app: &App, snap: &UiSnapshot, inside: Rect) -> (out: Vec<PaintedLine>)
    ensures
        line_views(out@) == plan_lines(*plan, app@, *snap, inside),
{
    proof {
        reveal(app_view);
    }
    let size = DiagramViewport { width: inside.width, height: inside.height };
    let warnings = leading_annotations(&snap.semantic.report);
    proof {
        assert(texts(warnings@).len() == warnings.len());
    }
    let canvas = DiagramCanvas::build_with_annotations(
        plan,
        size,
        app.diagram.positions(),
        app.diagram.expanded_nodes(),
        app.diagram.z_order(),
        &warnings,
    );
    let first: usize = min_usize(app.ai_plan_scroll, scroll_max(canvas.size.height as usize, inside.height as usize));
    let overlay: Option<DiagramOverlay> = match app.diagram.expanded_relationship() {
        Some(target) => canvas.relationship_overlay_in_viewport(
            plan,
            target,
            sat_u16(first),
            inside.height,
            app.diagram.overlay_scroll(),
        ),
        None => None,
    };
    let none = String::new();
    let label: &str = match &snap.impact.selected_change {
        Some(change) => change.label.as_str(),
        None => none.as_str(),
    };
    let hovered: Option<&PlanNodeTarget> = match &app.hovered_plan_node {
        Some(t) => Some(t),
        None => None,
    };
    proof {
        assert(borrowed_target(hovered) == app@.hovered);
        assert(label@ =~= selected_label(*snap));
        assert(optional_overlay(overlay) == open_overlay(
            *plan,
            canvas@,
            inside.height as int,
            first as int,
            app@,
        ));
    }
    draw_diagram(&canvas, plan, warnings.len(), &overlay, label, hovered, size, first)
}

fn generated_status(app: &App, snap: &UiSnapshot, inside: Rect) -> (out: Vec<PaintedLine>)
    ensures
        line_views(out@) == status_lines(app@, *snap, inside),
{
    let scroll: usize = app.ai_plan_scroll;
    proof {
        reveal(app_view);
        assert(scroll == app@.plan_scroll);
    }
    let lines = generated_impact_content(snap, inside.width);
    let ghost all = diagram_lines(lines@);
    let ghost wanted = status_lines(app@, *snap, inside);
    let height: usize = inside.height as usize;
    let first: usize = min_usize(scroll, scroll_max(lines.len(), height));
    let end: usize = if height > lines.len() - first { lines.len() } else { first + height };
    let mut out: Vec<PaintedLine> = Vec::new();
    let mut i: usize = first;
    proof {
        assert(all.len() == lines.len());
        assert(line_views(out@) =~= wanted.take(0));
    }
    while i < end
        invariant
            first <= i <= end <= lines.len(),
            all == diagram_lines(lines@),
            all.len() == lines.len(),
            wanted.len() == end - first,
            forall|k: int| #![trigger wanted[k]] 0 <= k < wanted.len() ==> wanted[k] == painted_roles(all[first + k]),
            line_views(out@) == wanted.take(i - first),
        decreases end - i,
    {
        let line = render_diagram_line(&lines[i]);
        let ghost before = line_views(out@);
        proof {
            assert(all[i as int] == lines@[i as int]@);
            assert(line@ == wanted[i - first]);
        }
        out.push(line);
        proof {
            assert(line_views(out@) =~= before.push(line@));
            assert(wanted.take(i + 1 - first) =~= wanted.take(i - first).push(wanted[i - first]));
        }
        i = i + 1;
    }
    proof {
        assert(wanted.take(wanted.len() as int) =~= wanted);
    }
    out
}

/// What the generated pane shows: the diagram of a generated plan, whatever its generator is
/// doing now, or what is known without it.
pub fn generated_view(app: &App, snap: &UiSnapshot, inside: Rect) -> (out: Vec<PaintedLine>)
    ensures
        line_views(out@) == generated_lines(app@, *snap, inside),
{
    if snap.semantic.ai_generated {
        match &snap.semantic.plan {
            Some(plan) => {
                return generated_plan(plan, app, snap, inside);
            },
            None => {},
        }
    }
    generated_status(app, snap, inside)
}

} // verus!
