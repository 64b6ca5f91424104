//! The renderer: what a frame shows of a [`UiSnapshot`] and the [`App`] state, as a list of
//! drawings from the back to the front.
//!
//! Layout is recomputed from the frame area every pass (resize needs no stored state). The
//! arrangement is one normal tier (top, files+diff, full-width Impact, bottom), a focus-only
//! fallback below 80x20 or when zoomed, and a message where even that has no room.

use vstd::prelude::*;
use crate::action::StatusView;
use crate::app::{app_view, App, AppView, Pane};
use crate::chrome::{
    bar_left, bar_path, bar_sides, bottom_bar_chunks, bottom_left_line, bottom_right, bottom_right_text, shown_path,
    top_bar, top_left, top_right, top_sides,
};
use crate::dialog::{
    base_picker, centered, centered_part, detail_rect, help_dialog, help_lines, highlighted_effort, model_picker, raw,
    render_base_picker, render_model_picker, status_detail_rect, Picker, PickerView,
};
use crate::diagram_view::{generated_lines, generated_view};
use crate::diff_pane::{diff_face, diff_frame, inner, inset, is_marking, law_marking_is_unique};
use crate::diff_view::span_views;
use crate::divider::DividerId;
use crate::file_rows::SummaryView;
use crate::files_pane::{files_title, files_titles, shown_lines, visible_files};
use crate::geometry::{
    bare_frame, control_rects, diff_pane, files_pane, frame_of, impact_row, normal_panes, pane_handles, partial_frame,
    with_diff, with_files, with_impact, with_status, FrameView, UiGeometry,
};
use crate::impact_view::{list_lines, render_impact_list, render_selected_change, selected_lines};
use crate::intraline::{ints, is_row_spans, row_spans};
use crate::layout::{
    callers_height_spec, choose_tier, impact_left_width, impact_left_width_spec, impact_section_heights,
    law_frame_minimums, law_impact_halves, law_work_row_minimums, relationship_callers_spec,
    relationship_section_heights, selected_height_spec, tier_of, Tier,
};
use crate::num::{monus, sat16};
use crate::rect::Rect;
use crate::review::{state_of, LedgerView, ReviewLedger, ReviewState, ReviewTarget};
use crate::snapshot::{StatusLevel, UiSnapshot};
use crate::split::{
    body_row, focus_rows, last_row, lemma_length_then_rest, lemma_two_lengths, split_two, three_rows, Axis, Share,
};
use crate::style::{bold_paint, ink, line_views, plain_paint, single, Paint, PaintedLine, PieceView, Tone};
use crate::text::joined;
use crate::tree_pane::{tree_lines, visible_tree};
use crate::wrap::{decimal, decimal_of};

verus! {

/// Which sides of a frame have a border.
#[derive(Debug, Clone, Copy, PartialEq, Eq, Structural)]
pub enum Edge {
    All,
    Bottom,
    Left,
}

/// One thing to draw.
#[derive(Debug, Clone)]
pub enum Drawing {
    /// Remove what is drawn in an area.
    Clear { area: Rect },
    /// A border with titles on its upper side.
    Border { area: Rect, edge: Edge, tone: Tone, left: PaintedLine, right: Option<PaintedLine> },
    /// Lines of text from the upper left of an area on.
    Text { area: Rect, lines: Vec<PaintedLine>, base: Paint, scroll: u16 },
    /// One line at the right of an area.
    Aside { area: Rect, line: PaintedLine, base: Paint },
    /// A text that is wrapped between words.
    Prose { area: Rect, text: String, base: Paint },
    /// A list with a highlighted row that is kept in view.
    Menu { area: Rect, lines: Vec<PaintedLine>, selected: Option<usize> },
}

/// How the files pane and the Impact pane are drawn.
#[derive(Debug, Clone, Copy, PartialEq, Eq, Structural)]
pub enum PaneLook {
    /// The files as a flat list, and Impact always in two halves.
    Flat,
    /// The files as a tree, and Impact in the sections that the frame plan has.
    Planned,
}

/// One thing to draw, by contents.
#[verifier::ext_equal]
pub enum DrawingView {
    Clear { area: Rect },
    Border { area: Rect, edge: Edge, tone: Tone, left: Seq<PieceView>, right: Option<Seq<PieceView>> },
    Text { area: Rect, lines: Seq<Seq<PieceView>>, base: Paint, scroll: int },
    Aside { area: Rect, line: Seq<PieceView>, base: Paint },
    Prose { area: Rect, text: Seq<char>, base: Paint },
    Menu { area: Rect, lines: Seq<Seq<PieceView>>, selected: Option<int> },
}

/// An optional line, by contents.
pub open spec fn optional_line(line: Option<PaintedLine>) -> Option<Seq<PieceView>> {
    match line {
        Some(l) => Some(l@),
        None => None,
    }
}

impl View for Drawing {
    type V = DrawingView;

    open spec fn view(&self) -> DrawingView {
        match *self {
            Drawing::Clear { area } => DrawingView::Clear { area },
            Drawing::Border { area, edge, tone, left, right } => DrawingView::Border {
                area,
                edge,
                tone,
                left: left@,
                right: optional_line(right),
            },
            Drawing::Text { area, lines, base, scroll } => DrawingView::Text {
                area,
                lines: line_views(lines@),
                base,
                scroll: scroll as int,
            },
            Drawing::Aside { area, line, base } => DrawingView::Aside { area, line: line@, base },
            Drawing::Prose { area, text, base } => DrawingView::Prose { area, text: text@, base },
            Drawing::Menu { area, lines, selected } => DrawingView::Menu {
                area,
                lines: line_views(lines@),
                selected: match selected {
                    Some(i) => Some(i as int),
                    None => None,
                },
            },
        }
    }
}

/// Drawings, by contents.
pub open spec fn drawing_views(drawings: Seq<Drawing>) -> Seq<DrawingView> {
    Seq::new(drawings.len(), |i: int| drawings[i]@)
}

fn put(out: &mut Vec<Drawing>, drawing: Drawing)
    ensures
        drawing_views(final(out)@) == drawing_views(old(out)@).push(drawing@),
{
    let ghost before = drawing_views(out@);
    out.push(drawing);
    proof {
        assert(drawing_views(out@) =~= before.push(drawing@));
    }
}

fn one(line: PaintedLine) -> (lines: Vec<PaintedLine>)
    ensures
        line_views(lines@) == seq![line@],
{
    let mut lines: Vec<PaintedLine> = Vec::new();
    lines.push(line);
    proof {
        assert(line_views(lines@) =~= seq![line@]);
    }
    lines
}

/// A background alone.
pub open spec fn backdrop(tone: Tone) -> Paint {
    Paint { fg: None, bg: Some(tone), bold: false, underlined: false }
}

/// The color of a pane's border.
pub open spec fn border_tone(v: AppView, pane: Pane) -> Tone {
    if v.focused == pane { Tone::Accent } else { Tone::Border }
}

fn border_color(app: &App, pane: Pane) -> (tone: Tone)
    ensures
        tone == border_tone(app@, pane),
{
    proof {
        reveal(app_view);
    }
    if app.focused == pane { Tone::Accent } else { Tone::Border }
}

/// Text in an area without scrolling.
pub open spec fn text_in(area: Rect, lines: Seq<Seq<PieceView>>, base: Paint) -> DrawingView {
    DrawingView::Text { area, lines, base, scroll: 0 }
}

/// The top bar.
pub open spec fn top_drawn(s: UiSnapshot, bar: Rect) -> Seq<DrawingView> {
    let (left, right) = top_sides(s, bar);
    seq![
        text_in(left, seq![top_left(s, left.width as int)], backdrop(Tone::Surface)),
        text_in(right, seq![top_right(s, bar.width as int)], backdrop(Tone::Surface)),
    ]
}

fn render_top_bar(out: &mut Vec<Drawing>, bar: Rect, snap: &UiSnapshot)
    requires
        bar.fits(),
        bar.width >= 1,
    ensures
        drawing_views(final(out)@) == drawing_views(old(out)@) + top_drawn(*snap, bar),
{
    let ghost before = drawing_views(out@);
    let top = top_bar(bar, snap);
    let base = Paint { fg: None, bg: Some(Tone::Surface), bold: false, underlined: false };
    put(out, Drawing::Text { area: top.left_area, lines: one(top.left), base, scroll: 0 });
    put(out, Drawing::Text { area: top.right_area, lines: one(top.right), base, scroll: 0 });
    proof {
        assert(drawing_views(out@) =~= before + top_drawn(*snap, bar));
    }
}

/// The bottom bar.
pub open spec fn bottom_drawn(v: AppView, s: UiSnapshot, bar: Rect) -> Seq<DrawingView> {
    let (left, right) = bar_sides(v, s.ai_tokens, bar);
    seq![
        text_in(left, seq![bar_left(s, left.width as int)], backdrop(Tone::Surface)),
        DrawingView::Aside {
            area: right,
            line: single(bottom_right(shown_path(v), s.ai_tokens, right.width as int), ink(Tone::Muted)),
            base: backdrop(Tone::Surface),
        },
    ]
}

fn render_bottom_bar(out: &mut Vec<Drawing>, bar: Rect, app: &App, snap: &UiSnapshot)
    requires
        bar.fits(),
    ensures
        drawing_views(final(out)@) == drawing_views(old(out)@) + bottom_drawn(app@, *snap, bar),
{
    let ghost before = drawing_views(out@);
    let (left, right) = bottom_bar_chunks(bar, app, snap);
    let base = Paint { fg: None, bg: Some(Tone::Surface), bold: false, underlined: false };
    let text = bottom_right_text(bar_path(app), snap.ai_tokens, right.width as usize);
    put(
        out,
        Drawing::Text { area: left, lines: one(bottom_left_line(snap, left.width)), base, scroll: 0 },
    );
    put(
        out,
        Drawing::Aside { area: right, line: PaintedLine::single(text.as_str(), Paint::ink(Tone::Muted)), base },
    );
    proof {
        assert(drawing_views(out@) =~= before + bottom_drawn(app@, *snap, bar));
    }
}

/// The files pane.
pub open spec fn files_drawn(v: AppView, s: UiSnapshot, pane: Rect) -> Seq<DrawingView> {
    let (left, right) = files_titles(s.files.len() as int, v);
    seq![
        DrawingView::Border {
            area: pane,
            edge: Edge::All,
            tone: border_tone(v, Pane::Files),
            left,
            right: Some(right),
        },
        text_in(
            inset(pane),
            shown_lines(s.files@, v, pane.width as int, pane.height as int),
            plain_paint(),
        ),
    ]
}

fn render_files(out: &mut Vec<Drawing>, pane: Rect, app: &App, snap: &UiSnapshot)
    ensures
        drawing_views(final(out)@) == drawing_views(old(out)@) + files_drawn(app@, *snap, pane),
{
    let ghost before = drawing_views(out@);
    let (left, right) = files_title(app, snap.files.len());
    put(
        out,
        Drawing::Border {
            area: pane,
            edge: Edge::All,
            tone: border_color(app, Pane::Files),
            left,
            right: Some(right),
        },
    );
    let lines = visible_files(app, &snap.files, pane.width, pane.height);
    put(out, Drawing::Text { area: inner(pane), lines, base: Paint::plain(), scroll: 0 });
    proof {
        assert(drawing_views(out@) =~= before + files_drawn(app@, *snap, pane));
    }
}

/// The diff pane.
pub open spec fn diff_drawn(
    v: AppView,
    held: UiSnapshot,
    s: UiSnapshot,
    marks: Seq<Seq<(usize, usize)>>,
    pane: Rect,
) -> Seq<DrawingView> {
    let face = diff_face(v, held, s, marks, pane.width as int);
    seq![
        DrawingView::Border {
            area: pane,
            edge: Edge::All,
            tone: border_tone(v, Pane::Diff),
            left: single(face.left, bold_paint(ink(Tone::Text))),
            right: Some(single(face.right, ink(Tone::Muted))),
        },
        DrawingView::Text { area: inset(pane), lines: face.lines, base: plain_paint(), scroll: face.scroll },
    ]
}

fn render_diff(
    out: &mut Vec<Drawing>,
    pane: Rect,
    app: &App,
    snap: &UiSnapshot,
    spans: &Vec<Vec<(usize, usize)>>,
)
    requires
        spans.len() == snap.diff.rows.len(),
    ensures
        drawing_views(final(out)@) == drawing_views(old(out)@) + diff_drawn(
            app@,
            app.snapshot,
            *snap,
            span_views(spans@),
            pane,
        ),
{
    let ghost before = drawing_views(out@);
    let face = diff_frame(app, snap, spans, pane.width);
    let ghost shown = face@;
    put(
        out,
        Drawing::Border {
            area: pane,
            edge: Edge::All,
            tone: border_color(app, Pane::Diff),
            left: PaintedLine::single(face.left.as_str(), Paint::ink(Tone::Text).bold()),
            right: Some(PaintedLine::single(face.right.as_str(), Paint::ink(Tone::Muted))),
        },
    );
    put(
        out,
        Drawing::Text { area: inner(pane), lines: face.lines, base: Paint::plain(), scroll: face.scroll },
    );
    proof {
        assert(drawing_views(out@) =~= before + diff_drawn(app@, app.snapshot, *snap, span_views(spans@), pane));
    }
}

/// The content of a relationship section: a cell free at both sides, and the row above its
/// divider where it has one.
pub open spec fn section_inside(area: Rect, divider: bool) -> Rect {
    Rect {
        x: sat16(area.x + 1) as u16,
        y: area.y,
        width: monus(area.width as int, 2) as u16,
        height: monus(area.height as int, if divider { 1 } else { 0 }) as u16,
    }
}

fn inside_section(area: Rect, divider: bool) -> (r: Rect)
    ensures
        r == section_inside(area, divider),
{
    Rect {
        x: area.x.saturating_add(1),
        y: area.y,
        width: area.width.saturating_sub(2),
        height: area.height.saturating_sub(if divider { 1 } else { 0 }),
    }
}

/// The divider below a section.
pub open spec fn section_border(area: Rect) -> DrawingView {
    DrawingView::Border { area, edge: Edge::Bottom, tone: Tone::Border, left: Seq::empty(), right: None }
}

/// The three relationship sections of an area.
pub open spec fn section_areas(v: AppView, area: Rect) -> (Rect, Rect, Rect) {
    let total = area.height as int;
    let upper = selected_height_spec(v.extents[DividerId::SelectedCallers], total);
    let middle = callers_height_spec(
        v.extents[DividerId::SelectedCallers],
        v.extents[DividerId::CallersDownstream],
        total,
    );
    (
        Rect { height: upper as u16, ..area },
        Rect { y: (area.y + upper) as u16, height: middle as u16, ..area },
        Rect { y: (area.y + upper + middle) as u16, height: (total - upper - middle) as u16, ..area },
    )
}

/// The deterministic half of Impact: selected change above callers above downstream.
pub open spec fn relations_drawn(v: AppView, s: UiSnapshot, area: Rect) -> Seq<DrawingView> {
    let (a, b, c) = section_areas(v, area);
    let (x, y, z) = (section_inside(a, true), section_inside(b, true), section_inside(c, false));
    seq![
        section_border(a),
        text_in(x, selected_lines(s.impact, x.width as int, x.height as int), plain_paint()),
        section_border(b),
        text_in(y, list_lines("CALLERS"@, s.impact.callers, v.callers_scroll, y.height as int), plain_paint()),
        text_in(
            z,
            list_lines("DOWNSTREAM"@, s.impact.downstream, v.downstream_scroll, z.height as int),
            plain_paint(),
        ),
    ]
}

fn render_impact_body(out: &mut Vec<Drawing>, area: Rect, app: &App, snap: &UiSnapshot)
    requires
        area.fits(),
    ensures
        drawing_views(final(out)@) == drawing_views(old(out)@) + relations_drawn(app@, *snap, area),
{
    let ghost before = drawing_views(out@);
    proof {
        reveal(app_view);
    }
    let heights: [u16; 3] = impact_section_heights(
        app.dividers.get(DividerId::SelectedCallers),
        app.dividers.get(DividerId::CallersDownstream),
        area.height,
    );
    let (a, b, c) = three_rows(area, heights[0], heights[1], heights[2]);
    let (x, y, z) = (inside_section(a, true), inside_section(b, true), inside_section(c, false));
    let callers: usize = app.callers_scroll;
    let downstream: usize = app.downstream_scroll;
    proof {
        assert((a, b, c) == section_areas(app@, area));
        assert(callers == app@.callers_scroll && downstream == app@.downstream_scroll);
    }
    put(
        out,
        Drawing::Border { area: a, edge: Edge::Bottom, tone: Tone::Border, left: PaintedLine::empty(), right: None },
    );
    let selected = render_selected_change(&snap.impact, x.width, x.height);
    put(out, Drawing::Text { area: x, lines: selected, base: Paint::plain(), scroll: 0 });
    put(
        out,
        Drawing::Border { area: b, edge: Edge::Bottom, tone: Tone::Border, left: PaintedLine::empty(), right: None },
    );
    let upper = render_impact_list("CALLERS", &snap.impact.callers, callers, y.height);
    put(out, Drawing::Text { area: y, lines: upper, base: Paint::plain(), scroll: 0 });
    let lower = render_impact_list("DOWNSTREAM", &snap.impact.downstream, downstream, z.height);
    put(out, Drawing::Text { area: z, lines: lower, base: Paint::plain(), scroll: 0 });
    proof {
        assert(drawing_views(out@) =~= before + relations_drawn(app@, *snap, area));
    }
}

/// The two halves of an Impact pane's content.
pub open spec fn impact_halves(v: AppView, content: Rect) -> (Rect, Rect) {
    let left = impact_left_width_spec(v.extents[DividerId::RelationshipsGenerated], content.width as int);
    (
        Rect { width: left as u16, ..content },
        Rect { x: (content.x + left) as u16, width: (content.width - left) as u16, ..content },
    )
}

/// What is inside the generated half: behind its left border and one free cell.
pub open spec fn generated_inside(outer: Rect) -> Rect {
    Rect { x: sat16(outer.x + 2) as u16, width: monus(outer.width as int, 2) as u16, ..outer }
}

/// The zoom title of the Impact pane.
pub open spec fn impact_title(v: AppView) -> Option<Seq<PieceView>> {
    if v.zoomed && v.focused == Pane::Impact {
        Some(single(" ZOOM "@, bold_paint(ink(Tone::Text))))
    } else {
        None
    }
}

/// The generated half.
pub open spec fn generated_drawn(v: AppView, s: UiSnapshot, outer: Rect) -> Seq<DrawingView> {
    let inside = generated_inside(outer);
    let edge = DrawingView::Border {
        area: outer,
        edge: Edge::Left,
        tone: Tone::Border,
        left: Seq::empty(),
        right: None,
    };
    if inside.width > 0 && inside.height > 0 {
        seq![edge, text_in(inside, generated_lines(v, s, inside), plain_paint())]
    } else {
        seq![edge]
    }
}

/// The border of the Impact pane.
pub open spec fn impact_border(v: AppView, pane: Rect) -> DrawingView {
    DrawingView::Border {
        area: pane,
        edge: Edge::All,
        tone: border_tone(v, Pane::Impact),
        left: Seq::empty(),
        right: impact_title(v),
    }
}

fn render_impact_border(out: &mut Vec<Drawing>, pane: Rect, app: &App)
    ensures
        drawing_views(final(out)@) == drawing_views(old(out)@).push(impact_border(app@, pane)),
{
    proof {
        reveal(app_view);
    }
    let right: Option<PaintedLine> = if app.zoomed && app.focused == Pane::Impact {
        Some(PaintedLine::single(" ZOOM ", Paint::ink(Tone::Text).bold()))
    } else {
        None
    };
    proof {
        assert(optional_line(right) == impact_title(app@));
    }
    put(
        out,
        Drawing::Border {
            area: pane,
            edge: Edge::All,
            tone: border_color(app, Pane::Impact),
            left: PaintedLine::empty(),
            right,
        },
    );
}

/// The Impact pane. Its contents already identify the selected change and the generated
/// explanation, so only a zoom is named.
pub open spec fn impact_drawn(v: AppView, s: UiSnapshot, pane: Rect) -> Seq<DrawingView> {
    let content = inset(pane);
    let border = impact_border(v, pane);
    if content.width < 6 || content.height == 0 {
        seq![border]
    } else {
        let (left, right) = impact_halves(v, content);
        seq![border] + relations_drawn(v, s, left) + generated_drawn(v, s, right)
    }
}

fn render_generated_impact(out: &mut Vec<Drawing>, outer: Rect, app: &App, snap: &UiSnapshot)
    ensures
        drawing_views(final(out)@) == drawing_views(old(out)@) + generated_drawn(app@, *snap, outer),
{
    let ghost before = drawing_views(out@);
    put(
        out,
        Drawing::Border { area: outer, edge: Edge::Left, tone: Tone::Border, left: PaintedLine::empty(), right: None },
    );
    let inside = Rect {
        x: outer.x.saturating_add(2),
        y: outer.y,
        width: outer.width.saturating_sub(2),
        height: outer.height,
    };
    if inside.width > 0 && inside.height > 0 {
        let lines = generated_view(app, snap, inside);
        put(out, Drawing::Text { area: inside, lines, base: Paint::plain(), scroll: 0 });
    }
    proof {
        assert(drawing_views(out@) =~= before + generated_drawn(app@, *snap, outer));
    }
}

fn render_impact(out: &mut Vec<Drawing>, pane: Rect, app: &App, snap: &UiSnapshot)
    requires
        pane.fits(),
        pane.x < 65535,
        pane.y < 65535,
    ensures
        drawing_views(final(out)@) == drawing_views(old(out)@) + impact_drawn(app@, *snap, pane),
{
    let ghost before = drawing_views(out@);
    proof {
        reveal(app_view);
    }
    render_impact_border(out, pane, app);
    let content: Rect = inner(pane);
    if content.width < 6 || content.height == 0 {
        proof {
            assert(drawing_views(out@) =~= before + impact_drawn(app@, *snap, pane));
        }
        return;
    }
    proof {
        law_impact_halves(app@.extents[DividerId::RelationshipsGenerated], content.width as int);
    }
    let width: u16 = impact_left_width(app.dividers.get(DividerId::RelationshipsGenerated), content.width);
    proof {
        lemma_length_then_rest(Axis::Horizontal, width, 0, content);
    }
    let (left, rest) = split_two(Axis::Horizontal, Share::Length(width), Share::Min(0), content);
    proof {
        assert((left, rest) == impact_halves(app@, content));
    }
    render_impact_body(out, left, app, snap);
    render_generated_impact(out, rest, app, snap);
    proof {
        assert(drawing_views(out@) =~= before + impact_drawn(app@, *snap, pane));
    }
}

/// The files pane as a tree.
pub open spec fn tree_drawn(v: AppView, s: UiSnapshot, pane: Rect) -> Seq<DrawingView> {
    seq![files_drawn(v, s, pane)[0], text_in(inset(pane), tree_lines(v, s.files@, inset(pane)), plain_paint())]
}

fn render_tree(out: &mut Vec<Drawing>, pane: Rect, app: &App, snap: &UiSnapshot)
    ensures
        drawing_views(final(out)@) == drawing_views(old(out)@) + tree_drawn(app@, *snap, pane),
{
    let ghost before = drawing_views(out@);
    let (left, right) = files_title(app, snap.files.len());
    put(
        out,
        Drawing::Border {
            area: pane,
            edge: Edge::All,
            tone: border_color(app, Pane::Files),
            left,
            right: Some(right),
        },
    );
    let lines = visible_tree(app, &snap.files, inner(pane));
    put(out, Drawing::Text { area: inner(pane), lines, base: Paint::plain(), scroll: 0 });
    proof {
        assert(drawing_views(out@) =~= before + tree_drawn(app@, *snap, pane));
    }
}

/// The two sections of a relationship stack.
pub open spec fn stack_areas(v: AppView, stack: Rect) -> (Rect, Rect) {
    let upper = relationship_callers_spec(v.extents[DividerId::CallersDownstream], stack.height as int);
    (
        Rect { height: upper as u16, ..stack },
        Rect { y: (stack.y + upper) as u16, height: (stack.height - upper) as u16, ..stack },
    )
}

/// The relationship stack: callers above downstream.
pub open spec fn stack_drawn(v: AppView, s: UiSnapshot, stack: Rect) -> Seq<DrawingView> {
    let (a, b) = stack_areas(v, stack);
    let (x, y) = (section_inside(a, true), section_inside(b, false));
    seq![
        section_border(a),
        text_in(x, list_lines("CALLERS"@, s.impact.callers, v.callers_scroll, x.height as int), plain_paint()),
        text_in(y, list_lines("DOWNSTREAM"@, s.impact.downstream, v.downstream_scroll, y.height as int), plain_paint()),
    ]
}

fn render_stack(out: &mut Vec<Drawing>, stack: Rect, app: &App, snap: &UiSnapshot)
    requires
        stack.fits(),
    ensures
        drawing_views(final(out)@) == drawing_views(old(out)@) + stack_drawn(app@, *snap, stack),
{
    let ghost before = drawing_views(out@);
    proof {
        reveal(app_view);
    }
    let heights = relationship_section_heights(app.dividers.get(DividerId::CallersDownstream), stack.height);
    proof {
        lemma_two_lengths(Axis::Vertical, heights[0], heights[1], stack);
    }
    let (a, b) = split_two(Axis::Vertical, Share::Length(heights[0]), Share::Length(heights[1]), stack);
    let (x, y) = (inside_section(a, true), inside_section(b, false));
    let callers: usize = app.callers_scroll;
    let downstream: usize = app.downstream_scroll;
    proof {
        assert((a, b) == stack_areas(app@, stack));
        assert(callers == app@.callers_scroll && downstream == app@.downstream_scroll);
    }
    put(
        out,
        Drawing::Border { area: a, edge: Edge::Bottom, tone: Tone::Border, left: PaintedLine::empty(), right: None },
    );
    let upper = render_impact_list("CALLERS", &snap.impact.callers, callers, x.height);
    put(out, Drawing::Text { area: x, lines: upper, base: Paint::plain(), scroll: 0 });
    let lower = render_impact_list("DOWNSTREAM", &snap.impact.downstream, downstream, y.height);
    put(out, Drawing::Text { area: y, lines: lower, base: Paint::plain(), scroll: 0 });
    proof {
        assert(drawing_views(out@) =~= before + stack_drawn(app@, *snap, stack));
    }
}

/// The Impact pane as the frame plan has it: the relationship stack beside the generated half,
/// or without relationships the generated view alone.
pub open spec fn planned_drawn(v: AppView, s: UiSnapshot, pane: Rect) -> Seq<DrawingView> {
    let content = inset(pane);
    let border = seq![impact_drawn(v, s, pane)[0]];
    if content.width < 2 || content.height == 0 {
        border
    } else if !s.impact.relationships_spec() {
        border + seq![text_in(content, generated_lines(v, s, content), plain_paint())]
    } else {
        let (left, right) = impact_halves(v, content);
        border + stack_drawn(v, s, left) + generated_drawn(v, s, right)
    }
}

fn render_planned(out: &mut Vec<Drawing>, pane: Rect, app: &App, snap: &UiSnapshot)
    requires
        pane.fits(),
        pane.x < 65535,
        pane.y < 65535,
    ensures
        drawing_views(final(out)@) == drawing_views(old(out)@) + planned_drawn(app@, *snap, pane),
{
    let ghost before = drawing_views(out@);
    render_impact_border(out, pane, app);
    proof {
        assert(impact_drawn(app@, *snap, pane)[0] == impact_border(app@, pane));
        reveal(app_view);
    }
    let content: Rect = inner(pane);
    if content.width < 2 || content.height == 0 {
        proof {
            assert(drawing_views(out@) =~= before + planned_drawn(app@, *snap, pane));
        }
        return;
    }
    if !snap.impact.has_relationships() {
        let lines = generated_view(app, snap, content);
        put(out, Drawing::Text { area: content, lines, base: Paint::plain(), scroll: 0 });
        proof {
            assert(drawing_views(out@) =~= before + planned_drawn(app@, *snap, pane));
        }
        return;
    }
    proof {
        law_impact_halves(app@.extents[DividerId::RelationshipsGenerated], content.width as int);
    }
    let width: u16 = impact_left_width(app.dividers.get(DividerId::RelationshipsGenerated), content.width);
    proof {
        lemma_length_then_rest(Axis::Horizontal, width, 0, content);
    }
    let (left, rest) = split_two(Axis::Horizontal, Share::Length(width), Share::Min(0), content);
    proof {
        assert((left, rest) == impact_halves(app@, content));
    }
    render_stack(out, left, app, snap);
    render_generated_impact(out, rest, app, snap);
    proof {
        assert(drawing_views(out@) =~= before + planned_drawn(app@, *snap, pane));
    }
}

/// A dialog with a list.
pub open spec fn picker_drawn(p: PickerView, popup: Rect) -> Seq<DrawingView> {
    seq![
        DrawingView::Clear { area: popup },
        DrawingView::Border {
            area: popup,
            edge: Edge::All,
            tone: Tone::Accent,
            left: raw(p.title),
            right: None,
        },
        DrawingView::Menu { area: inset(popup), lines: p.lines, selected: p.selected },
    ]
}

fn draw_picker(out: &mut Vec<Drawing>, picker: Picker, popup: Rect)
    ensures
        drawing_views(final(out)@) == drawing_views(old(out)@) + picker_drawn(picker@, popup),
{
    let ghost before = drawing_views(out@);
    put(out, Drawing::Clear { area: popup });
    put(
        out,
        Drawing::Border {
            area: popup,
            edge: Edge::All,
            tone: Tone::Accent,
            left: PaintedLine::single(picker.title.as_str(), Paint::plain()),
            right: None,
        },
    );
    put(out, Drawing::Menu { area: inner(popup), lines: picker.lines, selected: picker.selected });
    proof {
        assert(drawing_views(out@) =~= before + picker_drawn(picker@, popup));
    }
}

/// The color of a status dialog.
pub open spec fn detail_tone(level: StatusLevel) -> Tone {
    match level {
        StatusLevel::Error => Tone::Error,
        StatusLevel::Warning => Tone::Warn,
        StatusLevel::Info => Tone::Accent,
    }
}

/// The full text of a status message.
pub open spec fn detail_text(status: StatusView) -> Seq<char> {
    match status.detail {
        Some(detail) => detail,
        None => status.text,
    }
}

/// The dialog with the full text of a status message.
pub open spec fn detail_drawn(status: StatusView, area: Rect) -> Seq<DrawingView> {
    let popup = detail_rect(area, detail_text(status));
    seq![
        DrawingView::Clear { area: popup },
        DrawingView::Border {
            area: popup,
            edge: Edge::All,
            tone: detail_tone(status.level),
            left: raw(" status details · click or Esc to close "@),
            right: None,
        },
        DrawingView::Prose { area: inset(popup), text: detail_text(status), base: ink(Tone::Text) },
    ]
}

fn render_status_detail(out: &mut Vec<Drawing>, status: &crate::snapshot::StatusMessage, area: Rect)
    ensures
        drawing_views(final(out)@) == drawing_views(old(out)@) + detail_drawn(status@, area),
{
    let ghost before = drawing_views(out@);
    let tone: Tone = match status.level {
        StatusLevel::Error => Tone::Error,
        StatusLevel::Warning => Tone::Warn,
        StatusLevel::Info => Tone::Accent,
    };
    let text: &str = match &status.detail {
        Some(detail) => detail.as_str(),
        None => status.text.as_str(),
    };
    let popup: Rect = status_detail_rect(area, text);
    put(out, Drawing::Clear { area: popup });
    put(
        out,
        Drawing::Border {
            area: popup,
            edge: Edge::All,
            tone,
            left: PaintedLine::single(" status details · click or Esc to close ", Paint::plain()),
            right: None,
        },
    );
    put(out, Drawing::Prose { area: inner(popup), text: text.to_owned(), base: Paint::ink(Tone::Text) });
    proof {
        assert(drawing_views(out@) =~= before + detail_drawn(status@, area));
    }
}

/// The help dialog.
pub open spec fn help_drawn(area: Rect) -> Seq<DrawingView> {
    let popup = centered_part(area, 70, 70);
    seq![
        DrawingView::Clear { area: popup },
        DrawingView::Border {
            area: popup,
            edge: Edge::All,
            tone: Tone::Warn,
            left: raw(" help "@),
            right: None,
        },
        text_in(inset(popup), help_lines(), plain_paint()),
    ]
}

fn render_help(out: &mut Vec<Drawing>, area: Rect)
    requires
        area.fits(),
    ensures
        drawing_views(final(out)@) == drawing_views(old(out)@) + help_drawn(area),
{
    let ghost before = drawing_views(out@);
    let popup: Rect = centered(area, 70, 70);
    put(out, Drawing::Clear { area: popup });
    put(
        out,
        Drawing::Border {
            area: popup,
            edge: Edge::All,
            tone: Tone::Warn,
            left: PaintedLine::single(" help ", Paint::plain()),
            right: None,
        },
    );
    put(out, Drawing::Text { area: inner(popup), lines: help_dialog(), base: Paint::plain(), scroll: 0 });
    proof {
        assert(drawing_views(out@) =~= before + help_drawn(area));
    }
}

/// The dialogs above the panes, as far as they are open.
pub open spec fn dialogs_drawn(v: AppView, held: UiSnapshot, s: UiSnapshot, area: Rect) -> Seq<DrawingView> {
    (if v.show_help { help_drawn(area) } else { Seq::empty() }) + (if v.show_model_picker {
        picker_drawn(model_picker(v, s, highlighted_effort(v, held)), centered_part(area, 50, 50))
    } else {
        Seq::empty()
    }) + (if v.show_base_picker { picker_drawn(base_picker(v, s), centered_part(area, 50, 50)) } else { Seq::empty() })
        + (match v.status_detail {
        Some(status) => detail_drawn(status, area),
        None => Seq::empty(),
    })
}

fn draw_dialogs(out: &mut Vec<Drawing>, area: Rect, app: &App, snap: &UiSnapshot)
    requires
        area.fits(),
    ensures
        drawing_views(final(out)@) == drawing_views(old(out)@) + dialogs_drawn(app@, app.snapshot, *snap, area),
{
    let ghost before = drawing_views(out@);
    proof {
        reveal(app_view);
    }
    if app.show_help {
        render_help(out, area);
    }
    if app.show_model_picker {
        draw_picker(out, render_model_picker(app, snap), centered(area, 50, 50));
    }
    if app.show_base_picker {
        draw_picker(out, render_base_picker(app, snap), centered(area, 50, 50));
    }
    match &app.status_detail {
        Some(status) => render_status_detail(out, status, area),
        None => {},
    }
    proof {
        assert(drawing_views(out@) =~= before + dialogs_drawn(app@, app.snapshot, *snap, area));
    }
}

/// The message of a frame without room.
pub open spec fn too_small(area: Rect) -> Seq<DrawingView> {
    let text = "terminal too small ("@ + decimal_of(area.width as int) + "x"@ + decimal_of(area.height as int) + ")"@;
    seq![text_in(area, seq![raw(text)], ink(Tone::Muted))]
}

fn render_too_small(out: &mut Vec<Drawing>, area: Rect)
    ensures
        drawing_views(final(out)@) == drawing_views(old(out)@) + too_small(area),
{
    let ghost before = drawing_views(out@);
    let mut text = joined("terminal too small (", decimal(area.width as u64).as_str());
    text.append("x");
    text.append(decimal(area.height as u64).as_str());
    text.append(")");
    let line = PaintedLine::single(text.as_str(), Paint::plain());
    put(out, Drawing::Text { area, lines: one(line), base: Paint::ink(Tone::Muted), scroll: 0 });
    proof {
        assert(drawing_views(out@) =~= before + too_small(area));
    }
}

/// The panes of a frame: all of them, or the focused one alone.
pub open spec fn panes_drawn(
    v: AppView,
    held: UiSnapshot,
    s: UiSnapshot,
    marks: Seq<Seq<(usize, usize)>>,
    look: PaneLook,
    area: Rect,
) -> Seq<DrawingView> {
    if tier_of(area.width as int, area.height as int, v.zoomed) == Tier::Normal {
        files_faced(v, s, look, files_pane(area, v)) + diff_drawn(v, held, s, marks, diff_pane(area, v))
            + impact_faced(v, s, look, impact_row(area, v))
    } else {
        match v.focused {
            Pane::Files => files_faced(v, s, look, body_row(area)),
            Pane::Diff => diff_drawn(v, held, s, marks, body_row(area)),
            Pane::Impact => impact_faced(v, s, look, body_row(area)),
        }
    }
}

/// The files pane in one of its looks.
pub open spec fn files_faced(v: AppView, s: UiSnapshot, look: PaneLook, pane: Rect) -> Seq<DrawingView> {
    match look {
        PaneLook::Flat => files_drawn(v, s, pane),
        PaneLook::Planned => tree_drawn(v, s, pane),
    }
}

/// The Impact pane in one of its looks.
pub open spec fn impact_faced(v: AppView, s: UiSnapshot, look: PaneLook, pane: Rect) -> Seq<DrawingView> {
    match look {
        PaneLook::Flat => impact_drawn(v, s, pane),
        PaneLook::Planned => planned_drawn(v, s, pane),
    }
}

fn face_files(out: &mut Vec<Drawing>, look: PaneLook, pane: Rect, app: &App, snap: &UiSnapshot)
    ensures
        drawing_views(final(out)@) == drawing_views(old(out)@) + files_faced(app@, *snap, look, pane),
{
    match look {
        PaneLook::Flat => render_files(out, pane, app, snap),
        PaneLook::Planned => render_tree(out, pane, app, snap),
    }
}

fn face_impact(out: &mut Vec<Drawing>, look: PaneLook, pane: Rect, app: &App, snap: &UiSnapshot)
    requires
        pane.fits(),
        pane.x < 65535,
        pane.y < 65535,
    ensures
        drawing_views(final(out)@) == drawing_views(old(out)@) + impact_faced(app@, *snap, look, pane),
{
    match look {
        PaneLook::Flat => render_impact(out, pane, app, snap),
        PaneLook::Planned => render_planned(out, pane, app, snap),
    }
}

/// What a frame shows: the bars, the panes between them, and the dialogs above.
pub open spec fn screen_of(
    v: AppView,
    held: UiSnapshot,
    s: UiSnapshot,
    marks: Seq<Seq<(usize, usize)>>,
    area: Rect,
) -> Seq<DrawingView> {
    if tier_of(area.width as int, area.height as int, v.zoomed) == Tier::TooSmall {
        too_small(area)
    } else {
        frame_drawn(v, held, s, marks, PaneLook::Flat, area) + dialogs_drawn(v, held, s, area)
    }
}

#[verifier::rlimit(30)]
fn draw_normal(
    out: &mut Vec<Drawing>,
    area: Rect,
    app: &App,
    snap: &UiSnapshot,
    spans: &Vec<Vec<(usize, usize)>>,
    look: PaneLook,
)
    requires
        area.fits(),
        tier_of(area.width as int, area.height as int, app@.zoomed) == Tier::Normal,
        spans.len() == snap.diff.rows.len(),
    ensures
        drawing_views(final(out)@) == drawing_views(old(out)@) + top_drawn(*snap, Rect { height: 1, ..area })
            + panes_drawn(app@, app.snapshot, *snap, span_views(spans@), look, area) + bottom_drawn(
            app@,
            *snap,
            last_row(area),
        ),
{
    let ghost before = drawing_views(out@);
    let top: Rect = Rect { height: 1, ..area };
    let (bar, _, impact, files, diff) = normal_panes(area, app);
    render_top_bar(out, top, snap);
    face_files(out, look, files, app, snap);
    render_diff(out, diff, app, snap, spans);
    face_impact(out, look, impact, app, snap);
    render_bottom_bar(out, bar, app, snap);
    proof {
        assert(drawing_views(out@) =~= before + top_drawn(*snap, Rect { height: 1, ..area }) + panes_drawn(
            app@,
            app.snapshot,
            *snap,
            span_views(spans@),
            look,
            area,
        ) + bottom_drawn(app@, *snap, last_row(area)));
    }
}

fn render_focused(
    out: &mut Vec<Drawing>,
    area: Rect,
    app: &App,
    snap: &UiSnapshot,
    spans: &Vec<Vec<(usize, usize)>>,
    look: PaneLook,
)
    requires
        area.fits(),
        tier_of(area.width as int, area.height as int, app@.zoomed) == Tier::FocusOnly,
        spans.len() == snap.diff.rows.len(),
    ensures
        drawing_views(final(out)@) == drawing_views(old(out)@) + top_drawn(*snap, Rect { height: 1, ..area })
            + panes_drawn(app@, app.snapshot, *snap, span_views(spans@), look, area) + bottom_drawn(
            app@,
            *snap,
            last_row(area),
        ),
{
    let ghost before = drawing_views(out@);
    proof {
        reveal(app_view);
    }
    let (top, body, bar) = focus_rows(area);
    render_top_bar(out, top, snap);
    match app.focused {
        Pane::Files => face_files(out, look, body, app, snap),
        Pane::Diff => render_diff(out, body, app, snap, spans),
        Pane::Impact => face_impact(out, look, body, app, snap),
    }
    render_bottom_bar(out, bar, app, snap);
    proof {
        assert(drawing_views(out@) =~= before + top_drawn(*snap, Rect { height: 1, ..area }) + panes_drawn(
            app@,
            app.snapshot,
            *snap,
            span_views(spans@),
            look,
            area,
        ) + bottom_drawn(app@, *snap, last_row(area)));
    }
}

/// The bars and the panes of a frame; a message where it has no room for them.
pub open spec fn frame_drawn(
    v: AppView,
    held: UiSnapshot,
    s: UiSnapshot,
    marks: Seq<Seq<(usize, usize)>>,
    look: PaneLook,
    area: Rect,
) -> Seq<DrawingView> {
    if tier_of(area.width as int, area.height as int, v.zoomed) == Tier::TooSmall {
        too_small(area)
    } else {
        top_drawn(s, Rect { height: 1, ..area }) + panes_drawn(v, held, s, marks, look, area) + bottom_drawn(
            v,
            s,
            last_row(area),
        )
    }
}

fn draw_frame(
    area: Rect,
    app: &App,
    snap: &UiSnapshot,
    spans: &Vec<Vec<(usize, usize)>>,
    look: PaneLook,
) -> (out: Vec<Drawing>)
    requires
        area.fits(),
        spans.len() == snap.diff.rows.len(),
    ensures
        drawing_views(out@) == frame_drawn(app@, app.snapshot, *snap, span_views(spans@), look, area),
{
    let mut out: Vec<Drawing> = Vec::new();
    let zoomed: bool = app.zoomed;
    proof {
        reveal(app_view);
        assert(zoomed == app@.zoomed);
        assert(drawing_views(out@) =~= Seq::empty());
    }
    match choose_tier(area, zoomed) {
        Tier::TooSmall => render_too_small(&mut out, area),
        Tier::Normal => draw_normal(&mut out, area, app, snap, spans, look),
        Tier::FocusOnly => render_focused(&mut out, area, app, snap, spans, look),
    }
    proof {
        assert(drawing_views(out@) =~= frame_drawn(app@, app.snapshot, *snap, span_views(spans@), look, area));
    }
    out
}

/// One render pass with the changed words of the diff given: the arrangement is a pure
/// function of frame area and zoom.
pub fn render_marked(area: Rect, app: &App, snap: &UiSnapshot, spans: &Vec<Vec<(usize, usize)>>) -> (out: Vec<Drawing>)
    requires
        area.fits(),
        spans.len() == snap.diff.rows.len(),
    ensures
        drawing_views(out@) == screen_of(app@, app.snapshot, *snap, span_views(spans@), area),
{
    let mut out = draw_frame(area, app, snap, spans, PaneLook::Flat);
    let ghost screen = screen_of(app@, app.snapshot, *snap, span_views(spans@), area);
    if has_room(area, app) {
        draw_dialogs(&mut out, area, app, snap);
    }
    proof {
        assert(drawing_views(out@) =~= screen);
    }
    out
}

fn has_room(area: Rect, app: &App) -> (r: bool)
    ensures
        r == (tier_of(area.width as int, area.height as int, app@.zoomed) != Tier::TooSmall),
{
    proof {
        reveal(app_view);
    }
    match choose_tier(area, app.zoomed) {
        Tier::TooSmall => false,
        _ => true,
    }
}

/// The changed words of every row of a diff.
fn marked_rows(snap: &UiSnapshot) -> (spans: Vec<Vec<(usize, usize)>>)
    ensures
        spans.len() == snap.diff.rows.len(),
        is_marking(snap.diff.rows@, span_views(spans@)),
{
    let spans = row_spans(snap.diff.rows.as_slice());
    let ghost found = span_views(spans@);
    proof {
        assert forall|i: int| #![trigger found[i]] 0 <= i < snap.diff.rows.len() implies is_row_spans(
            snap.diff.rows@,
            i,
            ints(found[i]),
        ) by {
            assert(found[i] == spans@[i]@);
        }
    }
    spans
}

/// One render pass. The changed words of the diff are determined by its rows.
pub fn render(area: Rect, app: &App, snap: &UiSnapshot) -> (out: Vec<Drawing>)
    requires
        area.fits(),
    ensures
        exists|marks: Seq<Seq<(usize, usize)>>| #[trigger] is_marking(snap.diff.rows@, marks),
        forall|marks: Seq<Seq<(usize, usize)>>| #[trigger]
            is_marking(snap.diff.rows@, marks) ==> drawing_views(out@) == screen_of(
                app@,
                app.snapshot,
                *snap,
                marks,
                area,
            ),
{
    let spans = marked_rows(snap);
    let ghost found = span_views(spans@);
    let out = render_marked(area, app, snap, &spans);
    proof {
        assert forall|marks: Seq<Seq<(usize, usize)>>| #[trigger]
            is_marking(snap.diff.rows@, marks) implies drawing_views(out@) == screen_of(
            app@,
            app.snapshot,
            *snap,
            marks,
            area,
        ) by {
            law_marking_is_unique(snap.diff.rows@, marks, found);
        }
    }
    out
}

/// The color of a review marker.
pub open spec fn marker_tone(state: ReviewState) -> Tone {
    if state == ReviewState::Partial { Tone::Warn } else { Tone::AddFg }
}

/// The marker of one review control: what its target's state is, in the cell that toggles it.
pub open spec fn control_drawn(control: (Rect, SummaryView), ledger: LedgerView) -> DrawingView {
    let state = state_of(ledger, control.1);
    text_in(control.0, seq![single(state.marker_spec(), ink(marker_tone(state)))], plain_paint())
}

/// The markers of the first `n` review controls; a row that nobody reviewed has none.
pub open spec fn markers_drawn(controls: Seq<(Rect, SummaryView)>, ledger: LedgerView, n: int) -> Seq<DrawingView>
    decreases n,
{
    if n <= 0 {
        Seq::empty()
    } else {
        let before = markers_drawn(controls, ledger, n - 1);
        if state_of(ledger, controls[n - 1].1) == ReviewState::Unreviewed {
            before
        } else {
            before.push(control_drawn(controls[n - 1], ledger))
        }
    }
}

/// What a frame shows of a review: the bars, the panes as the frame plan has them, the review
/// markers, and the dialogs above.
pub open spec fn reviewed_screen_of(
    v: AppView,
    held: UiSnapshot,
    s: UiSnapshot,
    marks: Seq<Seq<(usize, usize)>>,
    ledger: LedgerView,
    area: Rect,
) -> Seq<DrawingView> {
    let controls = frame_of(area, v, s).reviews;
    if tier_of(area.width as int, area.height as int, v.zoomed) == Tier::TooSmall {
        too_small(area)
    } else {
        frame_drawn(v, held, s, marks, PaneLook::Planned, area) + markers_drawn(controls, ledger, controls.len() as int) + dialogs_drawn(
            v,
            held,
            s,
            area,
        )
    }
}

/// The review markers of a frame plan.
pub fn render_review_markers(geometry: &UiGeometry, ledger: &ReviewLedger) -> (out: Vec<Drawing>)
    ensures
        drawing_views(out@) == markers_drawn(geometry@.reviews, ledger@, geometry@.reviews.len() as int),
{
    let mut out: Vec<Drawing> = Vec::new();
    let ghost controls = geometry@.reviews;
    let mut n: usize = 0;
    proof {
        assert(drawing_views(out@) =~= Seq::empty());
    }
    while n < geometry.review_rects.len()
        invariant
            n <= geometry.review_rects.len() == controls.len(),
            controls == control_rects(geometry.review_rects@),
            drawing_views(out@) == markers_drawn(controls, ledger@, n as int),
        decreases geometry.review_rects.len() - n,
    {
        let control: &(Rect, ReviewTarget) = &geometry.review_rects[n];
        let state: ReviewState = ledger.state(&control.1);
        proof {
            assert(controls[n as int] == (control.0, control.1@));
        }
        if state != ReviewState::Unreviewed {
            let tone: Tone = if state == ReviewState::Partial { Tone::Warn } else { Tone::AddFg };
            let lines = one(PaintedLine::single(state.marker(), Paint::ink(tone)));
            put(&mut out, Drawing::Text { area: control.0, lines, base: Paint::plain(), scroll: 0 });
        }
        n = n + 1;
    }
    out
}

fn draw_markers(out: &mut Vec<Drawing>, area: Rect, app: &App, snap: &UiSnapshot, ledger: &ReviewLedger)
    requires
        area.fits(),
    ensures
        ({
            let controls = frame_of(area, app@, *snap).reviews;
            drawing_views(final(out)@) == drawing_views(old(out)@) + markers_drawn(
                controls,
                ledger@,
                controls.len() as int,
            )
        }),
{
    let geometry = UiGeometry::build(area, app, snap);
    let ghost below = drawing_views(out@);
    let mut markers = render_review_markers(&geometry, ledger);
    let ghost shown = drawing_views(markers@);
    out.append(&mut markers);
    proof {
        assert(drawing_views(out@) =~= below + shown);
    }
}

/// One render pass with the changed words of the diff and the review markers given.
fn draw_reviewed(
    area: Rect,
    app: &App,
    snap: &UiSnapshot,
    spans: &Vec<Vec<(usize, usize)>>,
    ledger: &ReviewLedger,
) -> (out: Vec<Drawing>)
    requires
        area.fits(),
        spans.len() == snap.diff.rows.len(),
    ensures
        drawing_views(out@) == reviewed_screen_of(app@, app.snapshot, *snap, span_views(spans@), ledger@, area),
{
    let mut out = draw_frame(area, app, snap, spans, PaneLook::Planned);
    if has_room(area, app) {
        draw_markers(&mut out, area, app, snap, ledger);
        draw_dialogs(&mut out, area, app, snap);
    }
    out
}

/// One render pass with the review markers of a ledger.
pub fn render_reviewed(area: Rect, app: &App, snap: &UiSnapshot, ledger: &ReviewLedger) -> (out: Vec<Drawing>)
    requires
        area.fits(),
    ensures
        exists|marks: Seq<Seq<(usize, usize)>>| #[trigger] is_marking(snap.diff.rows@, marks),
        forall|marks: Seq<Seq<(usize, usize)>>| #[trigger]
            is_marking(snap.diff.rows@, marks) ==> drawing_views(out@) == reviewed_screen_of(
                app@,
                app.snapshot,
                *snap,
                marks,
                ledger@,
                area,
            ),
{
    let spans = marked_rows(snap);
    let ghost found = span_views(spans@);
    let out = draw_reviewed(area, app, snap, &spans, ledger);
    proof {
        assert forall|marks: Seq<Seq<(usize, usize)>>| #[trigger]
            is_marking(snap.diff.rows@, marks) implies marks == found by {
            law_marking_is_unique(snap.diff.rows@, marks, found);
        }
    }
    out
}

/// A marker stands in the cell that toggles what it is about, and every control whose target
/// is reviewed, in part or as a whole, has one.
pub proof fn law_markers_stand_on_their_controls(controls: Seq<(Rect, SummaryView)>, ledger: LedgerView, n: int)
    requires
        0 <= n <= controls.len(),
    ensures
        forall|d: DrawingView| #[trigger]
            markers_drawn(controls, ledger, n).contains(d) ==> exists|i: int|
                0 <= i < n && state_of(ledger, controls[i].1) != ReviewState::Unreviewed && d == #[trigger] control_drawn(
                    controls[i],
                    ledger,
                ),
        forall|i: int|
            0 <= i < n && state_of(ledger, #[trigger] controls[i].1) != ReviewState::Unreviewed ==> markers_drawn(
                controls,
                ledger,
                n,
            ).contains(control_drawn(controls[i], ledger)),
    decreases n,
{
    if n > 0 {
        law_markers_stand_on_their_controls(controls, ledger, n - 1);
        let before = markers_drawn(controls, ledger, n - 1);
        let all = markers_drawn(controls, ledger, n);
        let last = control_drawn(controls[n - 1], ledger);
        assert forall|d: DrawingView| #[trigger] all.contains(d) implies exists|i: int|
            0 <= i < n && state_of(ledger, controls[i].1) != ReviewState::Unreviewed && d == #[trigger] control_drawn(
                controls[i],
                ledger,
            ) by {
            let j = choose|j: int| 0 <= j < all.len() && all[j] == d;
            if j < before.len() {
                assert(before[j] == d);
                assert(before.contains(d));
            } else {
                assert(d == last);
            }
        }
        assert forall|i: int|
            0 <= i < n && state_of(ledger, #[trigger] controls[i].1)
                != ReviewState::Unreviewed implies all.contains(control_drawn(controls[i], ledger)) by {
            let d = control_drawn(controls[i], ledger);
            if i < n - 1 {
                assert(before.contains(d));
                let j = choose|j: int| 0 <= j < before.len() && before[j] == d;
                assert(all[j] == d);
            } else {
                assert(all[all.len() - 1] == d);
            }
        }
    }
}

/// Zooming a pane keeps both bars.
pub proof fn law_zoom_keeps_the_bars(
    v: AppView,
    w: AppView,
    held: UiSnapshot,
    s: UiSnapshot,
    marks: Seq<Seq<(usize, usize)>>,
    area: Rect,
)
    requires
        w == (AppView { zoomed: !v.zoomed, ..v }),
        tier_of(area.width as int, area.height as int, v.zoomed) != Tier::TooSmall,
        tier_of(area.width as int, area.height as int, w.zoomed) != Tier::TooSmall,
    ensures
        ({
            let bar = top_drawn(s, Rect { height: 1, ..area });
            let (a, b) = (screen_of(v, held, s, marks, area), screen_of(w, held, s, marks, area));
            &&& a.take(2) == bar
            &&& b.take(2) == bar
            &&& bottom_drawn(v, s, last_row(area)) == bottom_drawn(w, s, last_row(area))
        }),
{
    let bar = top_drawn(s, Rect { height: 1, ..area });
    assert(screen_of(v, held, s, marks, area).take(2) =~= bar);
    assert(screen_of(w, held, s, marks, area).take(2) =~= bar);
}

/// In the normal arrangement the bars and panes cover the frame without a gap or an overlap.
pub proof fn law_panes_tile_the_frame(v: AppView, area: Rect)
    requires
        area.fits(),
        tier_of(area.width as int, area.height as int, v.zoomed) == Tier::Normal,
    ensures
        ({
            let (files, diff, impact) = (files_pane(area, v), diff_pane(area, v), impact_row(area, v));
            &&& files.x == area.x
            &&& diff.x == files.x + files.width
            &&& files.width + diff.width == area.width
            &&& files.y == area.y + 1
            &&& diff.y == files.y
            &&& diff.height == files.height
            &&& impact.y == files.y + files.height
            &&& impact.x == area.x
            &&& impact.width == area.width
            &&& last_row(area).y == impact.y + impact.height
        }),
{
    law_frame_minimums(v.extents[DividerId::WorkReview], area.width as int, area.height as int);
    law_work_row_minimums(v.extents[DividerId::FilesDiff], area.width as int, area.height as int);
}

/// The pointer hits the panes where they are drawn: the frame plan that hit-testing reads has
/// the same pane areas as the borders on screen, and the clickable status is the left side of
/// the bottom bar.
#[verifier::rlimit(30)]
pub proof fn law_hit_areas_are_drawn(
    v: AppView,
    held: UiSnapshot,
    s: UiSnapshot,
    marks: Seq<Seq<(usize, usize)>>,
    look: PaneLook,
    area: Rect,
)
    requires
        area.fits(),
        tier_of(area.width as int, area.height as int, v.zoomed) != Tier::TooSmall,
    ensures
        ({
            let g = frame_of(area, v, s);
            let panes = panes_drawn(v, held, s, marks, look, area);
            let normal = tier_of(area.width as int, area.height as int, v.zoomed) == Tier::Normal;
            &&& normal ==> g.files == border_area(panes[0]) && g.diff == border_area(panes[2]) && g.impact
                == border_area(panes[4])
            &&& !normal && v.focused == Pane::Files ==> g.files == border_area(panes[0]) && g.diff is None
                && g.impact is None
            &&& !normal && v.focused == Pane::Diff ==> g.diff == border_area(panes[0]) && g.files is None
                && g.impact is None
            &&& !normal && v.focused == Pane::Impact ==> g.impact == border_area(panes[0]) && g.files is None
                && g.diff is None
            &&& s.status.text@.len() > 0 ==> g.status == Some(bar_sides(v, s.ai_tokens, last_row(area)).0)
        }),
{
    lemma_pane_areas(area, v, s);
    lemma_border_areas(v, held, s, marks, look, area);
}

/// The borders of the panes on screen.
#[verifier::rlimit(30)]
proof fn lemma_border_areas(
    v: AppView,
    held: UiSnapshot,
    s: UiSnapshot,
    marks: Seq<Seq<(usize, usize)>>,
    look: PaneLook,
    area: Rect,
)
    ensures
        ({
            let panes = panes_drawn(v, held, s, marks, look, area);
            let normal = tier_of(area.width as int, area.height as int, v.zoomed) == Tier::Normal;
            &&& normal ==> border_area(panes[0]) == Some(files_pane(area, v)) && border_area(panes[2]) == Some(
                diff_pane(area, v),
            ) && border_area(panes[4]) == Some(impact_row(area, v))
            &&& !normal ==> border_area(panes[0]) == Some(body_row(area))
        }),
{
    if tier_of(area.width as int, area.height as int, v.zoomed) == Tier::Normal {
        lemma_face_borders(v, s, look, files_pane(area, v));
        lemma_face_borders(v, s, look, impact_row(area, v));
        let files = files_faced(v, s, look, files_pane(area, v));
        let diff = diff_drawn(v, held, s, marks, diff_pane(area, v));
        let impact = impact_faced(v, s, look, impact_row(area, v));
        let panes = panes_drawn(v, held, s, marks, look, area);
        assert(files.len() == 2 && diff.len() == 2);
        assert(panes[0] == files[0] && panes[2] == diff[0] && panes[4] == impact[0]);
    } else {
        lemma_face_borders(v, s, look, body_row(area));
    }
}

/// Every pane begins with its border, and the files pane goes on with its text.
pub proof fn lemma_face_borders(v: AppView, s: UiSnapshot, look: PaneLook, pane: Rect)
    ensures
        files_faced(v, s, look, pane).len() == 2,
        border_area(files_faced(v, s, look, pane)[0]) == Some(pane),
        impact_faced(v, s, look, pane).len() > 0,
        border_area(impact_faced(v, s, look, pane)[0]) == Some(pane),
{
}

proof fn lemma_impact_area(g: FrameView, pane: Rect, v: AppView, s: UiSnapshot)
    ensures
        ({
            let r = with_impact(g, pane, v, s);
            r.impact == Some(pane) && r.files == g.files && r.diff == g.diff && r.status == g.status
        }),
{
}

proof fn lemma_diff_area(g: FrameView, pane: Rect, v: AppView, s: UiSnapshot)
    ensures
        ({
            let r = with_diff(g, pane, v, s);
            r.diff == Some(pane) && r.files == g.files && r.impact == g.impact && r.status == g.status
        }),
{
}

proof fn lemma_files_area(g: FrameView, pane: Rect, v: AppView, s: UiSnapshot)
    ensures
        ({
            let r = with_files(g, pane, v, s);
            r.files == Some(pane) && r.diff == g.diff && r.impact == g.impact && r.status == g.status
        }),
{
}

proof fn lemma_partial_areas(area: Rect, v: AppView, s: UiSnapshot)
    ensures
        ({
            let g = partial_frame(area, v, s);
            &&& g.diff == Some(diff_pane(area, v))
            &&& g.impact == Some(impact_row(area, v))
            &&& s.status.text@.len() > 0 ==> g.status == Some(bar_sides(v, s.ai_tokens, last_row(area)).0)
        }),
{
    reveal(partial_frame);
    let g0 = with_status(bare_frame(area, Tier::Normal), last_row(area), v, s);
    lemma_impact_area(g0, impact_row(area, v), v, s);
    let g1 = with_impact(g0, impact_row(area, v), v, s);
    lemma_diff_area(g1, diff_pane(area, v), v, s);
}

/// The pane areas of a frame plan.
proof fn lemma_pane_areas(area: Rect, v: AppView, s: UiSnapshot)
    requires
        tier_of(area.width as int, area.height as int, v.zoomed) != Tier::TooSmall,
    ensures
        ({
            let g = frame_of(area, v, s);
            let normal = tier_of(area.width as int, area.height as int, v.zoomed) == Tier::Normal;
            &&& normal ==> g.files == Some(files_pane(area, v)) && g.diff == Some(diff_pane(area, v)) && g.impact
                == Some(impact_row(area, v))
            &&& !normal ==> match v.focused {
                Pane::Files => g.files == Some(body_row(area)) && g.diff is None && g.impact is None,
                Pane::Diff => g.diff == Some(body_row(area)) && g.files is None && g.impact is None,
                Pane::Impact => g.impact == Some(body_row(area)) && g.files is None && g.diff is None,
            }
            &&& s.status.text@.len() > 0 ==> g.status == Some(bar_sides(v, s.ai_tokens, last_row(area)).0)
        }),
{
    if tier_of(area.width as int, area.height as int, v.zoomed) == Tier::Normal {
        lemma_partial_areas(area, v, s);
        let g = partial_frame(area, v, s);
        let handled = FrameView { dividers: g.dividers + pane_handles(area, v), ..g };
        lemma_files_area(handled, files_pane(area, v), v, s);
    } else {
        let g = with_status(bare_frame(area, Tier::FocusOnly), last_row(area), v, s);
        lemma_files_area(g, body_row(area), v, s);
        lemma_diff_area(g, body_row(area), v, s);
        lemma_impact_area(g, body_row(area), v, s);
    }
}

/// The area of a border.
pub open spec fn border_area(drawing: DrawingView) -> Option<Rect> {
    match drawing {
        DrawingView::Border { area, .. } => Some(area),
        _ => None,
    }
}

} // verus!
