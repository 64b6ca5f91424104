//! Where the panes, the bars and the dialogs stand on the screen, and where they can be hit.

use vstd::prelude::*;
use crate::action::RelationshipView;
use crate::app::{App, AppView, Pane};
use crate::canvas_grid::CanvasSpanView;
use crate::diagram::{DiagramRect, SpanView};
use crate::diagram_canvas::{NodeView, RouteView};
use crate::diagram_view::{generated_lines, painted_spans, status_lines};
use crate::dialog::{base_picker, centered_part, help_lines, highlighted_effort, model_picker};
use crate::diff_pane::inset;
use crate::divider::DividerId;
use crate::file_rows::{projection, summary_of, RowView, SummaryView};
use crate::geometry::{
    bare_frame, canvas_row, control_rect, diff_pane, drawn_plan, failure_banner, files_pane, frame_of, generated_half,
    impact_row, left_width, max_scroll, on_screen, pane_handles, screen_nodes, screen_pieces, screen_routes,
    section_capacity, shown_plan, visible_controls, visible_rows, with_diff, with_files, with_impact, with_lines,
    with_relationships, with_status, FrameView,
};
use crate::impact_view::{known_lines, leading_lines, list_lines, painted_roles, role_paint, selected_lines};
use crate::layout::{tier_of, Tier};
use crate::rect::Rect;
use crate::render::{
    bottom_drawn, dialogs_drawn, files_drawn, frame_drawn, impact_border, impact_title, markers_drawn, panes_drawn,
    planned_drawn, relations_drawn, reviewed_screen_of, screen_of, section_areas, stack_areas, stack_drawn, top_drawn,
    tree_drawn, DrawingView, Edge, PaneLook,
};
use crate::review::{state_of, LedgerView, ReviewState};
use crate::scroll::ScrollRegionId;
use crate::snapshot::{FileRow, StatusLevel, UiSnapshot};
use crate::split::{body_row, last_row, share_end};
use crate::style::{ink, plain_paint, single, Tone};
use crate::text::display_width;
use crate::wrap::decimal_of;

verus! {

/// The files stand left of the diff, the Impact pane below both; the bars are the first and the
/// last row.
pub proof fn law_panes_stand_in_their_places(area: Rect, v: AppView)
    requires
        area.fits(),
        area.width >= 80,
        area.height >= 20,
        0 <= v.extents[DividerId::FilesDiff],
        0 <= v.extents[DividerId::WorkReview],
    ensures
        ({
            let (f, d, i) = (files_pane(area, v), diff_pane(area, v), impact_row(area, v));
            &&& f.x == area.x && f.y == area.y + 1
            &&& d.x == f.x + f.width && d.y == f.y && d.height == f.height
            &&& d.x + d.width == area.x + area.width
            &&& i.x == area.x && i.width == area.width && i.y == f.y + f.height
            &&& i.y + i.height == area.y + area.height - 1
            &&& f.width >= 28 && d.width >= 48 && 5 <= i.height <= 18 && f.height >= 7
        }),
{
}

/// The asked sizes are given where they fit.
pub proof fn law_panes_have_the_asked_sizes(area: Rect, v: AppView)
    requires
        area.fits(),
        area.width >= 80,
        area.height >= 27,
        28 <= v.extents[DividerId::FilesDiff] <= area.width - 48,
        5 <= v.extents[DividerId::WorkReview] <= 18,
    ensures
        files_pane(area, v).width == v.extents[DividerId::FilesDiff],
        impact_row(area, v).height == v.extents[DividerId::WorkReview],
{
}

/// The dividers lie on the borders they move: the last column of the files and the first of the
/// diff, the last row of the work and the first of the Impact pane.
pub proof fn law_dividers_lie_on_the_borders(area: Rect, v: AppView)
    requires
        area.fits(),
        area.width >= 80,
        area.height >= 20,
        0 <= v.extents[DividerId::FilesDiff],
        0 <= v.extents[DividerId::WorkReview],
    ensures
        ({
            let handles = pane_handles(area, v);
            let (f, d, i) = (files_pane(area, v), diff_pane(area, v), impact_row(area, v));
            &&& handles.len() == 2
            &&& handles[0].id == DividerId::FilesDiff && handles[1].id == DividerId::WorkReview
            &&& handles[0].rect.x == d.x - 1 && handles[0].rect.width == 2
            &&& handles[0].rect.y == f.y && handles[0].rect.height == f.height - 1
            &&& handles[1].rect.y == i.y - 1 && handles[1].rect.height == 2
            &&& handles[1].rect.x == area.x && handles[1].rect.width == area.width
            &&& handles[0].effective_extent == f.width
            &&& handles[1].effective_extent == i.height
        }),
{
    law_panes_stand_in_their_places(area, v);
}

/// The relationships stand left of the generated view, callers above what lies downstream, and
/// their dividers lie on the borders between them.
pub proof fn law_relationship_dividers_lie_on_the_borders(g: FrameView, content: Rect, v: AppView, s: UiSnapshot)
    requires
        content.fits(),
        content.width >= 60,
        content.height >= 4,
        content.y > 0,
        0 <= v.extents[DividerId::RelationshipsGenerated],
        0 <= v.extents[DividerId::CallersDownstream],
        g.dividers.len() == 0,
    ensures
        ({
            let after = with_relationships(g, content, v, s);
            let left = left_width(v, content);
            let h = after.dividers;
            &&& h.len() == 2
            &&& h[0].id == DividerId::RelationshipsGenerated && h[1].id == DividerId::CallersDownstream
            &&& h[0].rect.x == content.x + left - 1 && h[0].rect.width == 2 && h[0].rect.y == content.y && h[0].rect.height
                == content.height
            &&& h[0].effective_extent == left
            &&& h[1].rect.x == content.x && h[1].rect.width == left && h[1].rect.height == 2
            &&& h[1].rect.y == content.y + h[1].effective_extent - 1
            &&& 24 <= left <= content.width - 36
            &&& 2 <= h[1].effective_extent <= content.height - 2
        }),
{
}

/// The lists of relationships scroll on their own, each over its own part.
pub proof fn law_lists_scroll_on_their_own(g: FrameView, content: Rect, v: AppView, s: UiSnapshot)
    requires
        content.fits(),
        content.width >= 60,
        content.height >= 4,
        0 <= v.extents[DividerId::RelationshipsGenerated],
        0 <= v.extents[DividerId::CallersDownstream],
        0 <= v.callers_scroll <= usize::MAX,
        0 <= v.downstream_scroll <= usize::MAX,
        g.regions.len() == 0,
    ensures
        ({
            let r = with_relationships(g, content, v, s).regions;
            &&& r.len() == 2
            &&& r[0].id == ScrollRegionId::Callers && r[1].id == ScrollRegionId::Downstream
            &&& r[0].offset == v.callers_scroll && r[1].offset == v.downstream_scroll
            &&& r[0].rect.x == content.x && r[0].rect.y == content.y
            &&& r[1].rect.x == content.x && r[1].rect.y == content.y + r[0].rect.height
            &&& r[0].rect.height + r[1].rect.height == content.height
            &&& r[0].rect.width == left_width(v, content) && r[1].rect.width == r[0].rect.width
        }),
{
}

/// The last place of a list is where its last row is the last shown.
pub proof fn law_lists_end_with_their_last_row(rows: int, height: int)
    requires
        0 <= rows,
        3 <= height,
    ensures
        rows > height - 2 ==> max_scroll(rows, section_capacity(height, true)) + (height - 2) == rows,
        rows > height - 1 ==> max_scroll(rows, section_capacity(height, false)) + (height - 1) == rows,
        rows <= height - 2 ==> max_scroll(rows, section_capacity(height, true)) == 0,
        rows <= height - 1 ==> max_scroll(rows, section_capacity(height, false)) == 0,
{
}

/// In a small or zoomed frame the focused pane alone is there.
#[verifier::rlimit(40)]
pub proof fn law_small_frames_show_the_focus(area: Rect, v: AppView, s: UiSnapshot)
    requires
        tier_of(area.width as int, area.height as int, v.zoomed) == Tier::FocusOnly,
    ensures
        ({
            let g = frame_of(area, v, s);
            &&& g.files is Some <==> v.focused == Pane::Files
            &&& g.diff is Some <==> v.focused == Pane::Diff
            &&& g.impact is Some <==> v.focused == Pane::Impact
            &&& v.focused == Pane::Files ==> g.files == Some(body_row(area))
            &&& v.focused == Pane::Diff ==> g.diff == Some(body_row(area))
            &&& v.focused == Pane::Impact ==> g.impact == Some(body_row(area))
        }),
{
}

/// A frame that is too small has nothing to hit, and says how small it is.
pub proof fn law_too_small_frames_say_so(area: Rect, v: AppView, held: UiSnapshot, s: UiSnapshot, marks: Seq<Seq<(usize, usize)>>)
    requires
        area.width < 30 || area.height < 8,
    ensures
        ({
            let g = frame_of(area, v, s);
            let screen = screen_of(v, held, s, marks, area);
            &&& g.files is None && g.diff is None && g.impact is None && g.status is None
            &&& g.dividers.len() == 0 && g.regions.len() == 0 && g.rows.len() == 0 && g.nodes.len() == 0
            &&& screen.len() == 1
            &&& screen[0] == (DrawingView::Text {
                area,
                lines: seq![
                    single(
                        "terminal too small ("@ + decimal_of(area.width as int) + "x"@ + decimal_of(area.height as int)
                            + ")"@,
                        plain_paint(),
                    ),
                ],
                base: ink(Tone::Muted),
                scroll: 0,
            })
        }),
{
}

/// The rows of the files pane lie below each other, one line each, from the first that is shown.
pub proof fn law_rows_lie_below_each_other(inside: Rect, rows: int, first: int, slot: int)
    requires
        inside.fits(),
        0 <= first <= rows,
        0 <= slot < visible_rows(inside, rows, first).len(),
    ensures
        ({
            let all = visible_rows(inside, rows, first);
            &&& all.len() <= inside.height
            &&& first + all.len() <= rows
            &&& all.len() == inside.height || first + all.len() == rows
            &&& all[slot].1 == first + slot
            &&& all[slot].0.x == inside.x && all[slot].0.width == inside.width
            &&& all[slot].0.y == inside.y + slot && all[slot].0.height == 1
        }),
{
}

/// The review marker of a row stands in the last column of its line.
pub proof fn law_markers_stand_at_the_right(inside: Rect, slot: int)
    requires
        inside.fits(),
        inside.width > 0,
        0 <= slot < inside.height,
    ensures
        control_rect(inside, slot).x == inside.x + inside.width - 1,
        control_rect(inside, slot).y == inside.y + slot,
        control_rect(inside, slot).width == 1,
        control_rect(inside, slot).height == 1,
{
}

/// Every shown row that stands for something has its marker.
pub proof fn law_shown_entities_have_markers(
    inside: Rect,
    rows: Seq<RowView>,
    files: Seq<FileRow>,
    first: int,
    n: int,
    slot: int,
)
    requires
        0 <= slot < n,
        inside.width > 0,
        summary_of(rows[first + slot], files) is Some,
    ensures
        visible_controls(inside, rows, files, first, n).contains(
            (control_rect(inside, slot), summary_of(rows[first + slot], files)->0),
        ),
    decreases n,
{
    let all = visible_controls(inside, rows, files, first, n);
    let before = visible_controls(inside, rows, files, first, n - 1);
    let item = (control_rect(inside, slot), summary_of(rows[first + slot], files)->0);
    if slot < n - 1 {
        law_shown_entities_have_markers(inside, rows, files, first, n - 1, slot);
        let k = choose|k: int| 0 <= k < before.len() && before[k] == item;
        assert(all[k] == item);
    } else {
        assert(all[before.len() as int] == item);
    }
}

/// The files pane scrolls as a whole, from its first shown row to where its last row is shown.
pub proof fn law_files_scroll_as_a_whole(g: FrameView, pane: Rect, v: AppView, s: UiSnapshot)
    requires
        pane.fits(),
        pane.width > 2,
        pane.height > 2,
        projection(v.files, v.collapsed).len() <= usize::MAX,
        0 <= App::first_visible_row(v, pane.height - 2) <= usize::MAX,
    ensures
        ({
            let after = with_files(g, pane, v, s);
            let r = after.regions.last();
            let n = projection(v.files, v.collapsed).len() as int;
            &&& after.files == Some(pane)
            &&& after.regions.len() == g.regions.len() + 1
            &&& r.id == ScrollRegionId::Files && r.rect == pane
            &&& r.offset == App::first_visible_row(v, pane.height - 2)
            &&& after.first_row == App::first_visible_row(v, pane.height - 2)
            &&& n > pane.height - 2 ==> r.max_offset == n - (pane.height - 2)
            &&& n <= pane.height - 2 ==> r.max_offset == 0
            &&& after.diff == g.diff && after.impact == g.impact
        }),
{
}

/// The diff scrolls from its first row to its last.
pub proof fn law_diff_scrolls_to_its_last_row(g: FrameView, pane: Rect, v: AppView, s: UiSnapshot)
    requires
        pane.width > 0,
        pane.height > 0,
        0 <= v.diff_scroll < s.diff.rows.len(),
    ensures
        ({
            let after = with_diff(g, pane, v, s);
            let r = after.regions.last();
            &&& after.diff == Some(pane)
            &&& after.regions.len() == g.regions.len() + 1
            &&& r.id == ScrollRegionId::Diff && r.rect == pane
            &&& r.offset == v.diff_scroll
            &&& r.max_offset == s.diff.rows.len() - 1
            &&& after.files == g.files && after.impact == g.impact
        }),
{
}

/// A status message can be hit over the left of the bottom bar, and only while there is one.
pub proof fn law_messages_can_be_hit(area: Rect, v: AppView, s: UiSnapshot)
    requires
        area.fits(),
        area.height >= 2,
    ensures
        ({
            let g = with_status(bare_frame(area, Tier::Normal), last_row(area), v, s);
            &&& s.status.text@.len() == 0 ==> g.status is None
            &&& s.status.text@.len() > 0 ==> g.status is Some && (g.status->0).x == area.x && (g.status->0).y == area.y
                + area.height - 1 && (g.status->0).height == 1
        }),
{
}

/// A part of the diagram is on the screen where it lies between the first and the last shown
/// row: at its column, at its row less the scroll, cut where the viewport ends.
pub proof fn law_diagram_parts_are_shown_in_place(r: DiagramRect, viewport: Rect, scroll: int)
    requires
        viewport.fits(),
        0 <= scroll,
        r.width > 0,
        r.height > 0,
        viewport.height > 0,
    ensures
        ({
            let shown = on_screen(r, viewport, scroll);
            let visible = r.y < scroll + viewport.height && scroll < r.y + r.height && r.x < viewport.width;
            &&& shown is Some <==> visible
            &&& visible ==> {
                let q = shown->0;
                &&& q.x == viewport.x + r.x
                &&& r.x + r.width <= viewport.width ==> q.width == r.width
                &&& r.x + r.width > viewport.width ==> q.x + q.width == viewport.x + viewport.width
                &&& r.y >= scroll ==> q.y == viewport.y + r.y - scroll
                &&& r.y < scroll ==> q.y == viewport.y
                &&& r.y + r.height <= scroll + viewport.height ==> q.y + q.height == viewport.y + r.y + r.height - scroll
                &&& r.y + r.height > scroll + viewport.height ==> q.y + q.height == viewport.y + viewport.height
            }
        }),
{
}

/// Every box on the screen can be hit, and stands for its node.
pub proof fn law_shown_boxes_can_be_hit(nodes: Seq<NodeView>, viewport: Rect, scroll: int, n: int, i: int)
    requires
        0 <= i < n <= nodes.len(),
        on_screen(nodes[i].rect, viewport, scroll) is Some,
    ensures
        screen_nodes(nodes, viewport, scroll, n).contains((on_screen(nodes[i].rect, viewport, scroll)->0, nodes[i].target)),
    decreases n,
{
    let all = screen_nodes(nodes, viewport, scroll, n);
    let before = screen_nodes(nodes, viewport, scroll, n - 1);
    let item = (on_screen(nodes[i].rect, viewport, scroll)->0, nodes[i].target);
    if i < n - 1 {
        law_shown_boxes_can_be_hit(nodes, viewport, scroll, n - 1, i);
        let k = choose|k: int| 0 <= k < before.len() && before[k] == item;
        assert(all[k] == item);
    } else {
        assert(all[before.len() as int] == item);
    }
}

/// Of a connector every piece can be hit.
pub proof fn law_shown_pieces_can_be_hit(
    rects: Seq<DiagramRect>,
    target: RelationshipView,
    viewport: Rect,
    scroll: int,
    n: int,
    i: int,
)
    requires
        0 <= i < n <= rects.len(),
        on_screen(rects[i], viewport, scroll) is Some,
    ensures
        screen_pieces(rects, target, viewport, scroll, n).contains((on_screen(rects[i], viewport, scroll)->0, target)),
    decreases n,
{
    let all = screen_pieces(rects, target, viewport, scroll, n);
    let before = screen_pieces(rects, target, viewport, scroll, n - 1);
    let item = (on_screen(rects[i], viewport, scroll)->0, target);
    if i < n - 1 {
        law_shown_pieces_can_be_hit(rects, target, viewport, scroll, n - 1, i);
        let k = choose|k: int| 0 <= k < before.len() && before[k] == item;
        assert(all[k] == item);
    } else {
        assert(all[before.len() as int] == item);
    }
}

/// A generated plan is drawn whatever its state is, and answers the pointer while it is ready.
pub proof fn law_plans_are_drawn_and_answer(s: UiSnapshot)
    ensures
        s.semantic.ai_generated ==> drawn_plan(s) == s.semantic.plan,
        !s.semantic.ai_generated ==> drawn_plan(s) is None && shown_plan(s) is None,
        s.semantic.ai_generated && s.ai is Ready ==> shown_plan(s) == s.semantic.plan,
        !(s.ai is Ready) ==> shown_plan(s) is None,
{
}

/// Without relationships the generated view has the whole pane; with them it stands right of
/// them, two columns in.
pub proof fn law_generated_view_takes_its_half(content: Rect, v: AppView, s: UiSnapshot)
    requires
        content.fits(),
        content.width >= 60,
        0 <= v.extents[DividerId::RelationshipsGenerated],
    ensures
        ({
            let (outer, inside) = generated_half(content, v, s);
            let related = s.impact.callers.rows.len() > 0 || s.impact.downstream.rows.len() > 0 || s.impact.callers.state
                == crate::snapshot::ImpactLoadState::Loading || s.impact.downstream.state
                == crate::snapshot::ImpactLoadState::Loading;
            &&& !related ==> outer == content && inside == content
            &&& related ==> outer.x == content.x + left_width(v, content) && outer.x + outer.width == content.x
                + content.width && inside.x == outer.x + 2 && inside.width == outer.width - 2 && inside.y == content.y
                && inside.height == content.height && outer.y == content.y && outer.height == content.height
        }),
{
}

/// The focused pane, and only it, has a border in the accent.
pub proof fn law_focus_is_seen_on_the_border(v: AppView, held: UiSnapshot, s: UiSnapshot, marks: Seq<Seq<(usize, usize)>>, pane: Rect)
    ensures
        files_drawn(v, s, pane)[0]->Border_tone == (if v.focused == Pane::Files { Tone::Accent } else { Tone::Border }),
        crate::render::diff_drawn(v, held, s, marks, pane)[0]->Border_tone == (if v.focused == Pane::Diff {
            Tone::Accent
        } else {
            Tone::Border
        }),
        impact_border(v, pane)->Border_tone == (if v.focused == Pane::Impact { Tone::Accent } else { Tone::Border }),
        files_drawn(v, s, pane)[0]->Border_area == pane && files_drawn(v, s, pane)[0]->Border_edge == Edge::All,
        files_drawn(v, s, pane)[1]->Text_area == inset(pane),
        crate::render::diff_drawn(v, held, s, marks, pane)[1]->Text_area == inset(pane),
        tree_drawn(v, s, pane)[0] == files_drawn(v, s, pane)[0],
{
}

/// The stack of relationships: callers with their own rows above what lies downstream with its
/// own, and a line between them.
pub proof fn law_callers_stand_above_downstream(v: AppView, s: UiSnapshot, stack: Rect)
    requires
        stack.fits(),
        stack.height >= 4,
        stack.width >= 2,
        0 <= v.extents[DividerId::CallersDownstream],
    ensures
        ({
            let drawn = stack_drawn(v, s, stack);
            let (a, b) = stack_areas(v, stack);
            let x = drawn[1]->Text_area;
            let y = drawn[2]->Text_area;
            &&& drawn.len() == 3
            &&& a.y == stack.y && b.y == a.y + a.height && a.height + b.height == stack.height
            &&& drawn[0]->Border_area == a && drawn[0]->Border_edge == Edge::Bottom
            &&& x.x == stack.x + 1 && x.width == stack.width - 2 && x.y == a.y && x.height == a.height - 1
            &&& y.x == stack.x + 1 && y.width == stack.width - 2 && y.y == b.y && y.height == b.height
            &&& drawn[1]->Text_lines == list_lines("CALLERS"@, s.impact.callers, v.callers_scroll, x.height as int)
            &&& drawn[2]->Text_lines == list_lines("DOWNSTREAM"@, s.impact.downstream, v.downstream_scroll, y.height as int)
        }),
{
}

/// Of the three sections the selected change stands first, then the callers, then what lies
/// downstream.
pub proof fn law_sections_stand_below_each_other(v: AppView, area: Rect)
    requires
        area.fits(),
        area.height >= 7,
        0 <= v.extents[DividerId::SelectedCallers],
        0 <= v.extents[DividerId::CallersDownstream],
    ensures
        ({
            let (a, b, c) = section_areas(v, area);
            &&& a.y == area.y && b.y == a.y + a.height && c.y == b.y + b.height && c.y + c.height == area.y + area.height
            &&& a.x == area.x && b.x == area.x && c.x == area.x
            &&& a.width == area.width && b.width == area.width && c.width == area.width
            &&& a.height >= 3 && b.height >= 2 && c.height >= 2
        }),
{
}

/// Dialogs are drawn over everything, each while it is open: help, the pickers and the status
/// message last.
pub proof fn law_open_dialogs_are_drawn_last(v: AppView, held: UiSnapshot, s: UiSnapshot, area: Rect)
    ensures
        ({
            let drawn = dialogs_drawn(v, held, s, area);
            let n = drawn.len() as int;
            let count = (if v.show_help { 3int } else { 0 }) + (if v.show_model_picker { 3int } else { 0 }) + (
            if v.show_base_picker { 3int } else { 0 }) + (if v.status_detail is Some { 3int } else { 0 });
            &&& n == count
            &&& v.status_detail is Some ==> drawn[n - 2]->Border_tone == (match (v.status_detail->0).level {
                StatusLevel::Error => Tone::Error,
                StatusLevel::Warning => Tone::Warn,
                StatusLevel::Info => Tone::Accent,
            })
            &&& v.status_detail is Some && (v.status_detail->0).detail is Some ==> drawn[n - 1]->Prose_text == (v.status_detail->0).detail->0
            &&& v.status_detail is Some && (v.status_detail->0).detail is None ==> drawn[n - 1]->Prose_text == (
            v.status_detail->0).text
            &&& v.show_help ==> drawn[0] == (DrawingView::Clear { area: centered_part(area, 70, 70) })
            &&& v.show_model_picker && !v.show_help ==> drawn[0] == (DrawingView::Clear {
                area: centered_part(area, 50, 50),
            }) && drawn[2]->Menu_lines == model_picker(v, s, highlighted_effort(v, held)).lines && drawn[2]->Menu_selected
                == model_picker(v, s, highlighted_effort(v, held)).selected
            &&& v.show_base_picker && !v.show_help && !v.show_model_picker ==> drawn[2]->Menu_lines == base_picker(
                v,
                s,
            ).lines && drawn[2]->Menu_selected == base_picker(v, s).selected
        }),
{
}

/// What is drawn in a frame: the top bar first, the panes, and the bottom bar last; over them
/// the dialogs.
pub proof fn law_frames_are_drawn_from_the_top(
    v: AppView,
    held: UiSnapshot,
    s: UiSnapshot,
    marks: Seq<Seq<(usize, usize)>>,
    look: PaneLook,
    area: Rect,
)
    requires
        area.fits(),
        area.width >= 30,
        area.height >= 8,
    ensures
        ({
            let drawn = frame_drawn(v, held, s, marks, look, area);
            let n = drawn.len() as int;
            let top = top_drawn(s, Rect { height: 1, ..area });
            let bottom = bottom_drawn(v, s, last_row(area));
            &&& n >= 4
            &&& drawn[0] == top[0] && drawn[1] == top[1]
            &&& drawn[n - 2] == bottom[0] && drawn[n - 1] == bottom[1]
            &&& drawn.subrange(2, n - 2) == panes_drawn(v, held, s, marks, look, area)
            &&& drawn[0]->Text_area.y == area.y && drawn[n - 1]->Aside_area.y == area.y + area.height - 1
        }),
{
    let drawn = frame_drawn(v, held, s, marks, look, area);
    let n = drawn.len() as int;
    assert(drawn.subrange(2, n - 2) =~= panes_drawn(v, held, s, marks, look, area));
}

/// Every reviewed entity that is shown carries its marker, in the warning color where it is
/// reviewed in part; an unreviewed one carries none.
pub proof fn law_reviewed_entities_are_marked(controls: Seq<(Rect, SummaryView)>, ledger: LedgerView, n: int, i: int)
    requires
        0 <= i < n <= controls.len(),
        state_of(ledger, controls[i].1) != ReviewState::Unreviewed,
    ensures
        ({
            let state = state_of(ledger, controls[i].1);
            let tone = if state == ReviewState::Partial { Tone::Warn } else { Tone::AddFg };
            markers_drawn(controls, ledger, n).contains(
                DrawingView::Text {
                    area: controls[i].0,
                    lines: seq![single(state.marker_spec(), ink(tone))],
                    base: plain_paint(),
                    scroll: 0,
                },
            )
        }),
    decreases n,
{
    let state = state_of(ledger, controls[i].1);
    let tone = if state == ReviewState::Partial { Tone::Warn } else { Tone::AddFg };
    let item = DrawingView::Text {
        area: controls[i].0,
        lines: seq![single(state.marker_spec(), ink(tone))],
        base: plain_paint(),
        scroll: 0,
    };
    let all = markers_drawn(controls, ledger, n);
    let before = markers_drawn(controls, ledger, n - 1);
    if i < n - 1 {
        law_reviewed_entities_are_marked(controls, ledger, n - 1, i);
        let k = choose|k: int| 0 <= k < before.len() && before[k] == item;
        assert(all[k] == item);
    } else {
        assert(all[before.len() as int] == item);
    }
}

/// Nothing is marked where nothing was reviewed.
pub proof fn law_unreviewed_entities_are_unmarked(controls: Seq<(Rect, SummaryView)>, ledger: LedgerView, n: int)
    requires
        0 <= n <= controls.len(),
        forall|i: int| 0 <= i < n ==> state_of(ledger, (#[trigger] controls[i]).1) == ReviewState::Unreviewed,
    ensures
        markers_drawn(controls, ledger, n).len() == 0,
    decreases n,
{
    if n > 0 {
        law_unreviewed_entities_are_unmarked(controls, ledger, n - 1);
        assert(state_of(ledger, controls[n - 1].1) == ReviewState::Unreviewed);
    }
}

/// Without relationships the Impact pane is the generated view alone.
pub proof fn law_lone_generated_view_fills_the_pane(v: AppView, s: UiSnapshot, pane: Rect)
    requires
        pane.width >= 4,
        pane.height >= 3,
        s.impact.callers.rows.len() == 0,
        s.impact.downstream.rows.len() == 0,
        s.impact.callers.state != crate::snapshot::ImpactLoadState::Loading,
        s.impact.downstream.state != crate::snapshot::ImpactLoadState::Loading,
    ensures
        ({
            let drawn = planned_drawn(v, s, pane);
            drawn.len() == 2 && drawn[0] == impact_border(v, pane) && drawn[1] == (DrawingView::Text {
                area: inset(pane),
                lines: generated_lines(v, s, inset(pane)),
                base: plain_paint(),
                scroll: 0,
            })
        }),
{
}

/// The selected change, the callers and what lies downstream are drawn in their sections, each
/// with its own rows.
pub proof fn law_sections_show_their_own(v: AppView, s: UiSnapshot, area: Rect)
    ensures
        ({
            let drawn = relations_drawn(v, s, area);
            let (a, b, c) = section_areas(v, area);
            let (x, y, z) = (drawn[1]->Text_area, drawn[3]->Text_area, drawn[4]->Text_area);
            &&& drawn.len() == 5
            &&& drawn[0]->Border_area == a && drawn[2]->Border_area == b
            &&& x.y == a.y && y.y == b.y && z.y == c.y
            &&& drawn[1]->Text_lines == selected_lines(s.impact, x.width as int, x.height as int)
            &&& drawn[3]->Text_lines == list_lines("CALLERS"@, s.impact.callers, v.callers_scroll, y.height as int)
            &&& drawn[4]->Text_lines == list_lines("DOWNSTREAM"@, s.impact.downstream, v.downstream_scroll, z.height as int)
        }),
{
}

/// A zoomed Impact pane says so.
pub proof fn law_zoomed_impact_says_so(v: AppView)
    ensures
        v.zoomed && v.focused == Pane::Impact ==> impact_title(v) is Some && (impact_title(v)->0)[0].text == " ZOOM "@,
        !v.zoomed || v.focused != Pane::Impact ==> impact_title(v) is None,
{
}

/// The notice of a failed generation can be hit over its text, in the first line of the view.
pub proof fn law_failure_notice_can_be_hit(line: Seq<char>, inside: Rect)
    requires
        inside.width > 0,
        display_width(line) > 0,
    ensures
        ({
            let r = failure_banner(line, inside);
            &&& r is Some
            &&& r->0.x == inside.x && r->0.y == inside.y && r->0.height == 1
            &&& display_width(line) <= inside.width ==> r->0.width == display_width(line)
            &&& display_width(line) > inside.width ==> r->0.width == inside.width
        }),
{
}

/// Without a plan the generated view answers a failure only, and only while its first line is
/// shown; it scrolls from its first to where its last line is shown.
#[verifier::rlimit(40)]
pub proof fn law_status_view_answers_failures(g: FrameView, outer: Rect, inside: Rect, v: AppView, s: UiSnapshot)
    requires
        0 <= v.plan_scroll <= usize::MAX,
    ensures
        ({
            let after = with_lines(g, outer, inside, v, s);
            &&& after.nodes == g.nodes && after.routes == g.routes && after.overlay == g.overlay && after.canvas == g.canvas
            &&& !(s.ai is Failed) ==> after.failure == g.failure
            &&& after.plan_scroll > 0 ==> after.failure == g.failure
            &&& after.plan_scroll <= v.plan_scroll
            &&& outer.width > 0 && outer.height > 0 ==> after.regions.len() == g.regions.len() + 1 && after.regions.last().id
                == ScrollRegionId::GeneratedImpact && after.regions.last().rect == outer
        }),
{
}

/// A row of the screen is the row of the canvas that is scrolled there.
pub proof fn law_canvas_rows_are_scrolled(g: FrameView, content: Rect, y: int)
    requires
        content.y <= y,
        0 <= g.plan_scroll,
        y - content.y + g.plan_scroll <= 65535,
    ensures
        canvas_row(g, content, y) == y - content.y + g.plan_scroll,
{
}

/// On a reviewed screen the markers are drawn over the panes, and the dialogs over both.
#[verifier::rlimit(40)]
pub proof fn law_markers_lie_between_panes_and_dialogs(
    v: AppView,
    held: UiSnapshot,
    s: UiSnapshot,
    marks: Seq<Seq<(usize, usize)>>,
    ledger: LedgerView,
    area: Rect,
)
    requires
        area.width >= 30,
        area.height >= 8,
    ensures
        ({
            let all = reviewed_screen_of(v, held, s, marks, ledger, area);
            let panes = frame_drawn(v, held, s, marks, PaneLook::Planned, area);
            let controls = frame_of(area, v, s).reviews;
            let over = markers_drawn(controls, ledger, controls.len() as int);
            &&& all.take(panes.len() as int) == panes
            &&& all.skip(panes.len() as int).take(over.len() as int) == over
            &&& all.skip((panes.len() + over.len()) as int) == dialogs_drawn(v, held, s, area)
        }),
{
    let panes = frame_drawn(v, held, s, marks, PaneLook::Planned, area);
    let controls = frame_of(area, v, s).reviews;
    let over = markers_drawn(controls, ledger, controls.len() as int);
    lemma_three_parts(panes, over, dialogs_drawn(v, held, s, area));
}

proof fn lemma_three_parts(a: Seq<DrawingView>, b: Seq<DrawingView>, c: Seq<DrawingView>)
    ensures
        (a + b + c).take(a.len() as int) == a,
        (a + b + c).skip(a.len() as int).take(b.len() as int) == b,
        (a + b + c).skip((a.len() + b.len()) as int) == c,
{
    let all = a + b + c;
    assert(all.take(a.len() as int) =~= a);
    assert(all.skip(a.len() as int).take(b.len() as int) =~= b);
    assert(all.skip((a.len() + b.len()) as int) =~= c);
}

/// A diagram is painted piece by piece, each in the paint of its role.
pub proof fn law_diagrams_are_painted_by_role(spans: Seq<SpanView>, cells: Seq<CanvasSpanView>, i: int)
    ensures
        painted_roles(spans).len() == spans.len(),
        painted_spans(cells).len() == cells.len(),
        0 <= i < spans.len() ==> painted_roles(spans)[i].text == spans[i].text && painted_roles(spans)[i].paint == role_paint(
            spans[i].role,
        ),
        0 <= i < cells.len() ==> painted_spans(cells)[i].text == cells[i].text && painted_spans(cells)[i].paint == role_paint(
            cells[i].role,
        ),
{
}

/// Without a plan the view shows the state and the known relationships, from the scroll on, as
/// many lines as fit.
pub proof fn law_known_relationships_are_scrolled(v: AppView, s: UiSnapshot, inside: Rect, i: int)
    requires
        0 <= v.plan_scroll,
        inside.height > 0,
    ensures
        ({
            let all = leading_lines(s, inside.width as int) + known_lines(s.impact, inside.width as int);
            let lines = status_lines(v, s, inside);
            let n = all.len() as int;
            let first = if n <= inside.height { 0 } else if v.plan_scroll + inside.height <= n { v.plan_scroll } else {
                n - inside.height
            };
            &&& n <= inside.height ==> lines.len() == n
            &&& n > inside.height ==> lines.len() == inside.height
            &&& 0 <= i < lines.len() ==> lines[i] == painted_roles(all[first + i])
        }),
{
}

/// The help names the keys of the application.
pub proof fn law_help_names_the_keys()
    ensures
        ({
            let lines = help_lines();
            &&& lines.len() == 22
            &&& lines[2][0].text == "  q / Q / Ctrl-C  quit"@
            &&& lines[4][0].text == "  g               refresh repository state"@
            &&& lines[6][0].text == "  1 / 2 / 3       focus files / diff / impact"@
            &&& lines[8][0].text == "  Ctrl-d/u · Pg   half / full page in diff"@
            &&& lines[9][0].text == "  s / u / B / w   staged / unstaged / branch / working scope"@
            &&& lines[18][0].text == "  n / N           next / previous diff hunk"@
            &&& lines[19][0].text == "  z               zoom the focused pane (Tab still switches)"@
        }),
{
}

/// A centred dialog leaves the same share at both sides, and above and below.
#[verifier::rlimit(40)]
pub proof fn law_dialogs_are_centred_by_share(area: Rect, w: int, h: int)
    requires
        area.fits(),
        0 <= w <= 50,
        0 <= h <= 50,
    ensures
        ({
            let r = centered_part(area, 2 * w, 2 * h);
            &&& r.x == share_end(area.x as int, area.width as int, 50 - w)
            &&& r.x + r.width == share_end(area.x as int, area.width as int, 50 + w)
            &&& r.y == share_end(area.y as int, area.height as int, 50 - h)
            &&& r.y + r.height == share_end(area.y as int, area.height as int, 50 + h)
        }),
{
    crate::text_laws::lemma_share_grows(area.y as int, area.height as int, 50 - h, 50 + h);
    crate::text_laws::lemma_share_grows(area.x as int, area.width as int, 50 - w, 50 + w);
}

/// A connector with a hidden label can be hit where its label would stand; one whose label is
/// shown whole cannot be hit.
#[verifier::rlimit(40)]
pub proof fn law_hidden_labels_can_be_hit(routes: Seq<RouteView>, viewport: Rect, scroll: int, n: int, i: int)
    requires
        0 <= i < n <= routes.len(),
        on_screen(routes[i].label_rect, viewport, scroll) is Some,
    ensures
        routes[i].has_hidden_label ==> screen_routes(routes, viewport, scroll, n).contains(
            (on_screen(routes[i].label_rect, viewport, scroll)->0, routes[i].target),
        ),
        (forall|j: int| 0 <= j < n ==> !(#[trigger] routes[j]).has_hidden_label) ==> screen_routes(
            routes,
            viewport,
            scroll,
            n,
        ).len() == 0,
    decreases n,
{
    let all = screen_routes(routes, viewport, scroll, n);
    let before = screen_routes(routes, viewport, scroll, n - 1);
    let item = (on_screen(routes[i].label_rect, viewport, scroll)->0, routes[i].target);
    lemma_nothing_hidden(routes, viewport, scroll, n);
    if routes[i].has_hidden_label {
        if i < n - 1 {
            law_hidden_labels_can_be_hit(routes, viewport, scroll, n - 1, i);
            let k = choose|k: int| 0 <= k < before.len() && before[k] == item;
            assert(all[k] == item);
        } else {
            let rects = crate::geometry::route_rects(routes[i]);
            let own = screen_pieces(rects, routes[i].target, viewport, scroll, rects.len() as int);
            assert(rects[0] == routes[i].label_rect);
            law_shown_pieces_can_be_hit(rects, routes[i].target, viewport, scroll, rects.len() as int, 0);
            let k = choose|k: int| 0 <= k < own.len() && own[k] == item;
            assert(all[before.len() + k] == item);
        }
    }
}

proof fn lemma_nothing_hidden(routes: Seq<RouteView>, viewport: Rect, scroll: int, n: int)
    requires
        0 <= n <= routes.len(),
    ensures
        (forall|j: int| 0 <= j < n ==> !(#[trigger] routes[j]).has_hidden_label) ==> screen_routes(
            routes,
            viewport,
            scroll,
            n,
        ).len() == 0,
    decreases n,
{
    if n > 0 {
        lemma_nothing_hidden(routes, viewport, scroll, n - 1);
    }
}

/// The Impact pane is as wide as its border leaves it, from two columns on.
#[verifier::rlimit(40)]
pub proof fn law_impact_content_is_inside(g: FrameView, pane: Rect, v: AppView, s: UiSnapshot)
    requires
        pane.fits(),
        pane.width >= 4,
        pane.height >= 3,
    ensures
        ({
            let after = with_impact(g, pane, v, s);
            &&& after.impact == Some(pane)
            &&& after.content == Some(generated_half(inset(pane), v, s).1)
            &&& after.files == g.files && after.diff == g.diff && after.status == g.status
        }),
{
}

} // verus!
