//! The pointer hits what the user saw: the frame plan that hit-testing reads agrees with what
//! is drawn, row for row and cell for cell.

use vstd::prelude::*;
use crate::action::{RelationshipView, TargetView};
use crate::app::{App, AppView, Pane};
use crate::diagram::DiagramViewport;
use crate::diagram_canvas::CanvasView;
use crate::diagram_view::{diagram_picture, generated_lines, open_overlay, painted_rows, selected_label};
use crate::diff_pane::inset;
use crate::divider::DividerId;
use crate::elide::elided_path;
use crate::file_rows::{
    prefixes_of, projection, shown_directories, summary_of, walk, walk_symbols, RowView, SummaryView, Walk,
};
use crate::files_pane::{
    child_lines, file_bg, file_line, file_lines, flat_before, lists_symbols, note_line, note_of, pane_lines, path_cells,
    paths_of, shown_lines, shown_loc, symbol_line,
};
use crate::geometry::{
    bare_frame, control_rect, diff_pane, drawn_plan, files_pane, frame_of, generated_half, impact_row, pane_handles,
    partial_frame, plan_warnings, screen_nodes, screen_routes, shown_canvas, shown_overlay, shown_plan, shown_rows,
    slot_rect, visible_controls, visible_rows, with_diff, with_files, with_impact, with_relationships, with_status,
    FrameView, PageOnScreen,
};
use crate::layout::{law_impact_halves, tier_of, Tier};
use crate::num::monus;
use crate::plan::VisualizationPlan;
use crate::rect::Rect;
use crate::render::{
    files_faced, generated_drawn, generated_inside, impact_faced, impact_halves, lemma_face_borders, panes_drawn,
    stack_areas, text_in, PaneLook,
};
use crate::scroll::ScrollRegionId;
use crate::snapshot::{FileRow, UiSnapshot};
use crate::split::{body_row, last_row};
use crate::style::{plain_paint, PieceView};
use crate::tree_pane::{tree_line, tree_lines, tree_look};

verus! {

/// Whether the normal layout is shown.
pub open spec fn is_normal(area: Rect, v: AppView) -> bool {
    tier_of(area.width as int, area.height as int, v.zoomed) == Tier::Normal
}

/// The area of the files pane of a frame.
pub open spec fn files_area(area: Rect, v: AppView) -> Rect {
    if is_normal(area, v) { files_pane(area, v) } else { body_row(area) }
}

/// The area of the Impact pane of a frame.
pub open spec fn impact_area(area: Rect, v: AppView) -> Rect {
    if is_normal(area, v) { impact_row(area, v) } else { body_row(area) }
}

/// Whether a pane is on screen.
pub open spec fn is_on_screen(area: Rect, v: AppView, pane: Pane) -> bool {
    &&& tier_of(area.width as int, area.height as int, v.zoomed) != Tier::TooSmall
    &&& is_normal(area, v) || v.focused == pane
}

/// The rows of a frame plan.
proof fn lemma_frame_rows(area: Rect, v: AppView, s: UiSnapshot)
    requires
        is_on_screen(area, v, Pane::Files),
    ensures
        ({
            let g = frame_of(area, v, s);
            let inside = inset(files_area(area, v));
            let rows = projection(v.files, v.collapsed);
            let first = App::first_visible_row(v, inside.height as int);
            &&& g.first_row == first
            &&& g.rows == visible_rows(inside, rows.len() as int, first)
            &&& g.reviews == visible_controls(
                inside,
                rows,
                s.files@,
                first,
                shown_rows(rows.len() as int, first, inside.height as int),
            )
        }),
{
}

/// Each review control stands at the right of the row of what it toggles.
proof fn lemma_controls_stand_on_rows(
    inside: Rect,
    rows: Seq<RowView>,
    files: Seq<FileRow>,
    first: int,
    n: int,
    i: int,
)
    requires
        0 <= i < visible_controls(inside, rows, files, first, n).len(),
    ensures
        ({
            let control = visible_controls(inside, rows, files, first, n)[i];
            exists|k: int|
                0 <= k < n && control.0 == #[trigger] control_rect(inside, k) && summary_of(rows[first + k], files)
                    == Some(control.1)
        }),
    decreases n,
{
    if n > 0 {
        let before = visible_controls(inside, rows, files, first, n - 1);
        if i < before.len() {
            lemma_controls_stand_on_rows(inside, rows, files, first, n - 1, i);
        } else {
            assert(control_rect(inside, n - 1) == visible_controls(inside, rows, files, first, n)[i].0);
        }
    }
}

/// Whether the files pane shows a line for each row that can be hit, in its place.
pub open spec fn rows_match(
    hits: Seq<(Rect, int)>,
    first: int,
    inside: Rect,
    rows: Seq<RowView>,
    lines: Seq<Seq<PieceView>>,
    line_of: spec_fn(RowView) -> Seq<PieceView>,
) -> bool {
    &&& lines.len() == hits.len()
    &&& forall|k: int|
        #![trigger hits[k]]
        0 <= k < lines.len() ==> {
            &&& hits[k] == (slot_rect(inside, k), first + k)
            &&& lines[k] == line_of(rows[first + k])
        }
}

/// Whether each review control stands at the right of the row of what it toggles.
pub open spec fn controls_match(
    controls: Seq<(Rect, SummaryView)>,
    first: int,
    shown: int,
    inside: Rect,
    rows: Seq<RowView>,
    files: Seq<FileRow>,
) -> bool {
    forall|i: int|
        #![trigger controls[i]]
        0 <= i < controls.len() ==> exists|k: int|
            0 <= k < shown && controls[i].0 == #[trigger] control_rect(inside, k) && summary_of(
                rows[first + k],
                files,
            ) == Some(controls[i].1)
}

/// The tree of changed files is hit where it is drawn: every row that can be hit is one line
/// of the pane, and every review control stands on the row of what it toggles.
#[verifier::rlimit(30)]
pub proof fn law_tree_rows_are_hit_where_drawn(
    v: AppView,
    held: UiSnapshot,
    s: UiSnapshot,
    marks: Seq<Seq<(usize, usize)>>,
    area: Rect,
)
    requires
        is_on_screen(area, v, Pane::Files),
        projection(v.files, v.collapsed).len() > 0,
    ensures
        ({
            let g = frame_of(area, v, s);
            let inside = inset(files_area(area, v));
            let rows = projection(v.files, v.collapsed);
            let lines = tree_lines(v, s.files@, inside);
            let look = tree_look(v, s.files@, inside.width as int);
            &&& panes_drawn(v, held, s, marks, PaneLook::Planned, area)[1] == text_in(inside, lines, plain_paint())
            &&& rows_match(g.rows, g.first_row, inside, rows, lines, |row: RowView| tree_line(row, look))
            &&& controls_match(g.reviews, g.first_row, g.rows.len() as int, inside, rows, s.files@)
        }),
{
    lemma_frame_rows(area, v, s);
    lemma_files_text(v, held, s, marks, PaneLook::Planned, area);
    lemma_tree_matches(v, s.files@, inset(files_area(area, v)));
}

proof fn lemma_tree_matches(v: AppView, files: Seq<FileRow>, inside: Rect)
    requires
        projection(v.files, v.collapsed).len() > 0,
    ensures
        ({
            let rows = projection(v.files, v.collapsed);
            let n = rows.len() as int;
            let first = App::first_visible_row(v, inside.height as int);
            let shown = shown_rows(n, first, inside.height as int);
            let look = tree_look(v, files, inside.width as int);
            let hits = visible_rows(inside, n, first);
            &&& rows_match(hits, first, inside, rows, tree_lines(v, files, inside), |row: RowView| tree_line(row, look))
            &&& controls_match(
                visible_controls(inside, rows, files, first, shown),
                first,
                hits.len() as int,
                inside,
                rows,
                files,
            )
        }),
{
    let rows = projection(v.files, v.collapsed);
    let first = App::first_visible_row(v, inside.height as int);
    let shown = shown_rows(rows.len() as int, first, inside.height as int);
    let controls = visible_controls(inside, rows, files, first, shown);
    assert forall|i: int| #![trigger controls[i]] 0 <= i < controls.len() implies exists|k: int|
        0 <= k < shown && controls[i].0 == #[trigger] control_rect(inside, k) && summary_of(rows[first + k], files)
            == Some(controls[i].1) by {
        lemma_controls_stand_on_rows(inside, rows, files, first, shown, i);
    }
}

/// The second drawing of the files pane is its text.
proof fn lemma_files_text(
    v: AppView,
    held: UiSnapshot,
    s: UiSnapshot,
    marks: Seq<Seq<(usize, usize)>>,
    look: PaneLook,
    area: Rect,
)
    requires
        is_on_screen(area, v, Pane::Files),
    ensures
        panes_drawn(v, held, s, marks, look, area)[1] == files_faced(v, s, look, files_area(area, v))[1],
{
    lemma_face_borders(v, s, look, files_area(area, v));
}

/// Whether no changed file stands in a directory.
pub open spec fn has_no_directories(files: Seq<FileRow>) -> bool {
    forall|f: int| #![trigger files[f]] 0 <= f < files.len() ==> prefixes_of(files[f].path@).len() == 0
}

/// The line of a row in the flat list.
pub open spec fn flat_line(row: RowView, files: Seq<FileRow>, sel: int, width: int) -> Seq<PieceView> {
    let budget = path_cells(files, width);
    let active = row.logical() == Some(sel);
    match row {
        RowView::Directory { .. } => Seq::empty(),
        RowView::File { file_index, .. } => file_line(
            files[file_index],
            elided_path(paths_of(files), file_index, budget),
            shown_loc(files, width),
            budget,
            width,
            active,
            file_bg(files, file_index, sel),
        ),
        RowView::Symbol { file_index, symbol_index, .. } => symbol_line(
            files[file_index].symbols[symbol_index],
            active,
            width,
        ),
        RowView::Note { file_index, .. } => note_line(note_of(files[file_index]), width),
    }
}

/// Lines that say row for row what the flat list says.
spec fn are_flat(rows: Seq<RowView>, lines: Seq<Seq<PieceView>>, files: Seq<FileRow>, sel: int, width: int) -> bool {
    rows.len() == lines.len() && forall|i: int|
        #![trigger rows[i]]
        #![trigger lines[i]]
        0 <= i < rows.len() ==> lines[i] == flat_line(rows[i], files, sel, width)
}

proof fn lemma_flat_symbols(w: Walk, f: int, depth: int, files: Seq<FileRow>, sel: int, width: int, k: int)
    requires
        0 <= f < files.len(),
        0 <= k <= files[f].symbols.len(),
    ensures
        ({
            let after = walk_symbols(w, f, depth, k);
            &&& after.logical == w.logical + k
            &&& after.rows.len() == w.rows.len() + k
            &&& forall|i: int| #![trigger after.rows[i]] 0 <= i < w.rows.len() ==> after.rows[i] == w.rows[i]
            &&& forall|i: int|
                #![trigger after.rows[i]]
                w.rows.len() <= i < after.rows.len() ==> flat_line(after.rows[i], files, sel, width) == symbol_line(
                    files[f].symbols[i - w.rows.len()],
                    w.logical + (i - w.rows.len()) == sel,
                    width,
                )
        }),
    decreases k,
{
    if k > 0 {
        lemma_flat_symbols(w, f, depth, files, sel, width, k - 1);
    }
}

/// Without directories the flat list and the rows that can be hit are the same rows.
proof fn lemma_flat_rows(files: Seq<FileRow>, collapsed: Set<Seq<char>>, sel: int, width: int, n: int)
    requires
        0 <= n <= files.len(),
        has_no_directories(files),
    ensures
        walk(files, collapsed, n).logical == flat_before(files, n),
        are_flat(walk(files, collapsed, n).rows, file_lines(files, sel, width, n), files, sel, width),
    decreases n,
{
    if n > 0 {
        lemma_flat_rows(files, collapsed, sel, width, n - 1);
        let w = walk(files, collapsed, n - 1);
        let f = files[n - 1];
        assert(shown_directories(files, f.path@, 0) =~= Seq::empty());
        let row = RowView::File { file_index: n - 1, depth: 0, logical_index: w.logical };
        let with_file = Walk { rows: w.rows.push(row), emitted: w.emitted, logical: w.logical + 1 };
        let lines = file_lines(files, sel, width, n - 1);
        let children = child_lines(files, n - 1, sel, width);
        let after = walk(files, collapsed, n);
        let all = file_lines(files, sel, width, n);
        if f.expanded && lists_symbols(f) {
            lemma_flat_symbols(with_file, n - 1, 1, files, sel, width, f.symbols.len() as int);
            assert(after == walk_symbols(with_file, n - 1, 1, f.symbols.len() as int));
        }
        assert forall|i: int|
            #![trigger after.rows[i]]
            #![trigger all[i]]
            0 <= i < after.rows.len() implies all[i] == flat_line(after.rows[i], files, sel, width) by {
            if i < w.rows.len() {
                assert(after.rows[i] == w.rows[i]);
                assert(all[i] == lines[i]);
            } else if i == w.rows.len() {
                assert(after.rows[i] == row);
            } else {
                assert(all[i] == children[i - w.rows.len() - 1]);
            }
        }
    }
}

/// The flat list is hit where it is drawn, as long as no changed file stands in a directory:
/// every row that can be hit is one line of the pane.
#[verifier::rlimit(30)]
pub proof fn law_flat_rows_are_hit_where_drawn(
    v: AppView,
    held: UiSnapshot,
    s: UiSnapshot,
    marks: Seq<Seq<(usize, usize)>>,
    area: Rect,
)
    requires
        is_on_screen(area, v, Pane::Files),
        v.files == s.files@,
        v.files.len() > 0,
        v.files_scroll >= 0,
        has_no_directories(v.files),
        inset(files_area(area, v)).height > 0,
    ensures
        ({
            let g = frame_of(area, v, s);
            let pane = files_area(area, v);
            let inside = inset(pane);
            let rows = projection(v.files, v.collapsed);
            let lines = shown_lines(s.files@, v, pane.width as int, pane.height as int);
            &&& panes_drawn(v, held, s, marks, PaneLook::Flat, area)[1] == text_in(inside, lines, plain_paint())
            &&& rows_match(
                g.rows,
                g.first_row,
                inside,
                rows,
                lines,
                |row: RowView| flat_line(row, v.files, v.file_sel, inside.width as int),
            )
        }),
{
    let pane = files_area(area, v);
    assert(panes_drawn(v, held, s, marks, PaneLook::Flat, area)[1] == text_in(
        inset(pane),
        shown_lines(s.files@, v, pane.width as int, pane.height as int),
        plain_paint(),
    )) by {
        lemma_files_text(v, held, s, marks, PaneLook::Flat, area);
    }
    lemma_flat_matches(v, pane);
    lemma_frame_rows(area, v, s);
}

proof fn lemma_flat_matches(v: AppView, pane: Rect)
    requires
        v.files.len() > 0,
        v.files_scroll >= 0,
        has_no_directories(v.files),
        inset(pane).height > 0,
    ensures
        ({
            let inside = inset(pane);
            let rows = projection(v.files, v.collapsed);
            let first = App::first_visible_row(v, inside.height as int);
            rows_match(
                visible_rows(inside, rows.len() as int, first),
                first,
                inside,
                rows,
                shown_lines(v.files, v, pane.width as int, pane.height as int),
                |row: RowView| flat_line(row, v.files, v.file_sel, inside.width as int),
            )
        }),
{
    let inside = inset(pane);
    let n = v.files.len() as int;
    lemma_flat_rows(v.files, v.collapsed, v.file_sel, inside.width as int, n);
    reveal(projection);
    let rows = projection(v.files, v.collapsed);
    let all = pane_lines(v.files, v.file_sel, inside.width as int);
    let first = App::first_visible_row(v, inside.height as int);
    let lines = shown_lines(v.files, v, pane.width as int, pane.height as int);
    assert(all == file_lines(v.files, v.file_sel, inside.width as int, n));
    assert(monus(pane.height as int, 2) == inside.height);
    let hits = visible_rows(inside, rows.len() as int, first);
    assert forall|k: int| #![trigger hits[k]] 0 <= k < lines.len() implies hits[k] == (slot_rect(inside, k), first + k)
        && lines[k] == flat_line(rows[first + k], v.files, v.file_sel, inside.width as int) by {
        assert(lines[k] == all[first + k]);
        assert(all[first + k] == flat_line(rows[first + k], v.files, v.file_sel, inside.width as int));
    }
}

/// The inside of the generated view of a frame.
pub open spec fn generated_area(area: Rect, v: AppView, s: UiSnapshot) -> Rect {
    generated_half(inset(impact_area(area, v)), v, s).1
}

/// What of a frame plan belongs to the generated view.
#[verifier::ext_equal]
pub struct GeneratedHits {
    pub content: Option<Rect>,
    pub first: int,
    pub canvas: Option<CanvasView>,
    pub nodes: Seq<(Rect, TargetView)>,
    pub routes: Seq<(Rect, RelationshipView)>,
    pub overlay: Option<PageOnScreen>,
}

/// What of a frame plan belongs to the generated view.
pub open spec fn generated_hits(g: FrameView) -> GeneratedHits {
    GeneratedHits {
        content: g.content,
        first: g.plan_scroll,
        canvas: g.canvas,
        nodes: g.nodes,
        routes: g.routes,
        overlay: g.overlay,
    }
}

/// A frame plan without anything in the generated view.
spec fn has_no_hits(g: FrameView) -> bool {
    g.canvas is None && g.nodes.len() == 0 && g.routes.len() == 0 && g.overlay is None
}

/// Whether the hits of a generated view are those of a drawn diagram: the boxes, routes and
/// the overlay of one canvas, at the offset at which it is drawn.
pub open spec fn diagram_matches(
    h: GeneratedHits,
    lines: Seq<Seq<PieceView>>,
    plan: VisualizationPlan,
    inside: Rect,
    v: AppView,
    s: UiSnapshot,
) -> bool {
    h.canvas matches Some(canvas) && {
        &&& lines == painted_rows(
            diagram_picture(
                canvas,
                plan,
                plan_warnings(s).len() as int,
                open_overlay(plan, canvas, inside.height as int, h.first, v),
                selected_label(s),
                v.hovered,
                DiagramViewport { width: inside.width, height: inside.height },
                h.first,
            ),
        )
        &&& h.nodes == screen_nodes(canvas.nodes, inside, h.first, canvas.nodes.len() as int)
        &&& h.routes == screen_routes(canvas.relationships, inside, h.first, canvas.relationships.len() as int)
        &&& h.overlay == shown_overlay(plan, canvas, inside, h.first, v)
    }
}

proof fn lemma_relationships_keep_hits(g: FrameView, content: Rect, v: AppView, s: UiSnapshot)
    ensures
        generated_hits(with_relationships(g, content, v, s)) == generated_hits(g),
{
}

/// The generated view of an Impact pane in the frame plan.
proof fn lemma_impact_hits(g: FrameView, pane: Rect, v: AppView, s: UiSnapshot)
    requires
        has_no_hits(g),
        inset(pane).width >= 2,
        inset(pane).height > 0,
    ensures
        ({
            let inside = generated_half(inset(pane), v, s).1;
            let h = generated_hits(with_impact(g, pane, v, s));
            &&& h.content == Some(inside)
            &&& match shown_plan(s) {
                Some(plan) => diagram_matches(h, generated_lines(v, s, inside), plan, inside, v, s),
                None => h.canvas is None && h.nodes.len() == 0 && h.routes.len() == 0 && h.overlay is None,
            }
        }),
{
    let content = inset(pane);
    let inside = generated_half(content, v, s).1;
    let g1 = FrameView { impact: Some(pane), ..g };
    lemma_relationships_keep_hits(g1, content, v, s);
    let r = with_impact(g, pane, v, s);
    match shown_plan(s) {
        Some(plan) => {
            let canvas = shown_canvas(plan, inside, v, s);
            let nodes = screen_nodes(canvas.nodes, inside, r.plan_scroll, canvas.nodes.len() as int);
            let routes = screen_routes(
                canvas.relationships,
                inside,
                r.plan_scroll,
                canvas.relationships.len() as int,
            );
            assert(g.nodes + nodes =~= nodes);
            assert(g.routes + routes =~= routes);
            assert(drawn_plan(s) == Some(plan));
        },
        None => {},
    }
}

proof fn lemma_diff_keeps_hits(g: FrameView, pane: Rect, v: AppView, s: UiSnapshot)
    ensures
        generated_hits(with_diff(g, pane, v, s)) == generated_hits(g),
{
}

proof fn lemma_files_keep_hits(g: FrameView, pane: Rect, v: AppView, s: UiSnapshot)
    ensures
        generated_hits(with_files(g, pane, v, s)) == generated_hits(g),
{
}

proof fn lemma_partial_hits(area: Rect, v: AppView, s: UiSnapshot)
    requires
        inset(impact_row(area, v)).width >= 2,
        inset(impact_row(area, v)).height > 0,
    ensures
        ({
            let inside = generated_half(inset(impact_row(area, v)), v, s).1;
            let h = generated_hits(partial_frame(area, v, s));
            &&& h.content == Some(inside)
            &&& match shown_plan(s) {
                Some(plan) => diagram_matches(h, generated_lines(v, s, inside), plan, inside, v, s),
                None => h.canvas is None && h.nodes.len() == 0 && h.routes.len() == 0 && h.overlay is None,
            }
        }),
{
    reveal(partial_frame);
    let g0 = with_status(bare_frame(area, Tier::Normal), last_row(area), v, s);
    lemma_impact_hits(g0, impact_row(area, v), v, s);
    let g1 = with_impact(g0, impact_row(area, v), v, s);
    lemma_diff_keeps_hits(g1, diff_pane(area, v), v, s);
}

/// The generated view of a frame plan.
proof fn lemma_frame_hits(area: Rect, v: AppView, s: UiSnapshot)
    requires
        is_on_screen(area, v, Pane::Impact),
        inset(impact_area(area, v)).width >= 2,
        inset(impact_area(area, v)).height > 0,
    ensures
        ({
            let inside = generated_area(area, v, s);
            let h = generated_hits(frame_of(area, v, s));
            &&& h.content == Some(inside)
            &&& match shown_plan(s) {
                Some(plan) => diagram_matches(h, generated_lines(v, s, inside), plan, inside, v, s),
                None => h.canvas is None && h.nodes.len() == 0 && h.routes.len() == 0 && h.overlay is None,
            }
        }),
{
    if is_normal(area, v) {
        lemma_partial_hits(area, v, s);
        let g = partial_frame(area, v, s);
        let handled = FrameView { dividers: g.dividers + pane_handles(area, v), ..g };
        lemma_files_keep_hits(handled, files_pane(area, v), v, s);
    } else {
        let g = with_status(bare_frame(area, Tier::FocusOnly), last_row(area), v, s);
        lemma_impact_hits(g, body_row(area), v, s);
    }
}

/// The last drawing of the Impact pane is the text of the generated view.
proof fn lemma_generated_text(v: AppView, s: UiSnapshot, look: PaneLook, pane: Rect)
    requires
        look == PaneLook::Planned || s.impact.relationships_spec(),
        inset(pane).width >= 6,
        inset(pane).height > 0,
    ensures
        ({
            let inside = generated_half(inset(pane), v, s).1;
            impact_faced(v, s, look, pane).last() == text_in(inside, generated_lines(v, s, inside), plain_paint())
        }),
        impact_faced(v, s, look, pane).len() > 0,
{
    let content = inset(pane);
    law_impact_halves(v.extents[DividerId::RelationshipsGenerated], content.width as int);
    let right = impact_halves(v, content).1;
    if s.impact.relationships_spec() {
        assert(generated_inside(right) == generated_half(content, v, s).1);
        assert(generated_inside(right).width > 0);
        assert(generated_drawn(v, s, right).len() == 2);
    }
}

proof fn lemma_last_pane(
    v: AppView,
    held: UiSnapshot,
    s: UiSnapshot,
    marks: Seq<Seq<(usize, usize)>>,
    look: PaneLook,
    area: Rect,
)
    requires
        is_on_screen(area, v, Pane::Impact),
        impact_faced(v, s, look, impact_area(area, v)).len() > 0,
    ensures
        panes_drawn(v, held, s, marks, look, area).last() == impact_faced(v, s, look, impact_area(area, v)).last(),
{
}

/// The generated view is hit where it is drawn: its text fills the area that the frame plan
/// has for it, and the boxes, relationships and the overlay that can be hit are those of the
/// drawn diagram at the drawn offset. Nothing of a diagram can be hit while none is finished.
/// The flat look has the two halves of the frame plan where there are relationships.
pub proof fn law_generated_view_is_hit_where_drawn(
    v: AppView,
    held: UiSnapshot,
    s: UiSnapshot,
    marks: Seq<Seq<(usize, usize)>>,
    look: PaneLook,
    area: Rect,
)
    requires
        is_on_screen(area, v, Pane::Impact),
        look == PaneLook::Planned || s.impact.relationships_spec(),
        inset(impact_area(area, v)).width >= 6,
        inset(impact_area(area, v)).height > 0,
    ensures
        ({
            let inside = generated_area(area, v, s);
            let lines = generated_lines(v, s, inside);
            let h = generated_hits(frame_of(area, v, s));
            &&& h.content == Some(inside)
            &&& panes_drawn(v, held, s, marks, look, area).last() == text_in(inside, lines, plain_paint())
            &&& match shown_plan(s) {
                Some(plan) => diagram_matches(h, lines, plan, inside, v, s),
                None => h.canvas is None && h.nodes.len() == 0 && h.routes.len() == 0 && h.overlay is None,
            }
        }),
{
    lemma_frame_hits(area, v, s);
    lemma_generated_text(v, s, look, impact_area(area, v));
    lemma_last_pane(v, held, s, marks, look, area);
}

/// The area that a scroll region stands for.
pub open spec fn region_area(id: ScrollRegionId, area: Rect, v: AppView, s: UiSnapshot) -> Rect {
    let content = inset(impact_area(area, v));
    let stack = stack_areas(v, impact_halves(v, content).0);
    match id {
        ScrollRegionId::Files => files_area(area, v),
        ScrollRegionId::Diff => if is_normal(area, v) { diff_pane(area, v) } else { body_row(area) },
        ScrollRegionId::Callers => stack.0,
        ScrollRegionId::Downstream => stack.1,
        ScrollRegionId::GeneratedImpact => generated_half(content, v, s).0,
    }
}

spec fn regions_match(g: FrameView, area: Rect, v: AppView, s: UiSnapshot) -> bool {
    forall|i: int|
        #![trigger g.regions[i]]
        0 <= i < g.regions.len() ==> g.regions[i].rect == region_area(g.regions[i].id, area, v, s)
}

proof fn lemma_impact_regions(g: FrameView, area: Rect, v: AppView, s: UiSnapshot)
    requires
        regions_match(g, area, v, s),
    ensures
        regions_match(with_impact(g, impact_area(area, v), v, s), area, v, s),
{
    let pane = impact_area(area, v);
    let content = inset(pane);
    let g1 = FrameView { impact: Some(pane), ..g };
    if s.impact.relationships_spec() {
        lemma_stack_regions(g1, area, v, s);
    }
}

proof fn lemma_stack_regions(g: FrameView, area: Rect, v: AppView, s: UiSnapshot)
    requires
        regions_match(g, area, v, s),
    ensures
        regions_match(with_relationships(g, inset(impact_area(area, v)), v, s), area, v, s),
{
}

proof fn lemma_partial_regions(area: Rect, v: AppView, s: UiSnapshot)
    requires
        is_normal(area, v),
    ensures
        regions_match(partial_frame(area, v, s), area, v, s),
{
    reveal(partial_frame);
    let g0 = with_status(bare_frame(area, Tier::Normal), last_row(area), v, s);
    lemma_impact_regions(g0, area, v, s);
}

/// The wheel scrolls what is under the pointer: every scroll region of the frame plan is a
/// pane, a section of the drawn relationship stack, or the generated view.
pub proof fn law_scroll_regions_are_drawn(area: Rect, v: AppView, s: UiSnapshot, i: int)
    requires
        0 <= i < frame_of(area, v, s).regions.len(),
    ensures
        ({
            let region = frame_of(area, v, s).regions[i];
            region.rect == region_area(region.id, area, v, s)
        }),
{
    match tier_of(area.width as int, area.height as int, v.zoomed) {
        Tier::TooSmall => {},
        Tier::Normal => {
            lemma_partial_regions(area, v, s);
        },
        Tier::FocusOnly => {
            let g = with_status(bare_frame(area, Tier::FocusOnly), last_row(area), v, s);
            if v.focused == Pane::Impact {
                lemma_impact_regions(g, area, v, s);
            }
        },
    }
}

} // verus!
