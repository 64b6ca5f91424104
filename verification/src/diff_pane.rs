//! The diff pane: its title, the rows linked to the box under the pointer, and the text that
//! a pointer selection copies.

use vstd::prelude::*;
use crate::app::{
    app_view, headers, hunk_of, is_linked, plan_node_of, row_is_linked, selected_symbol, App, AppView, Pane,
};
use crate::chrome::{basename, basename_of, zoom_suffix, zoom_tag};
use crate::diff_view::{
    build_raw, build_wrapped, clipped, gutter_cells, gutter_width, ln_width, number_width, raw_lines, shown_x,
    span_views, truncate_cells, wrapped_height, wrapped_rows, BuiltDiff,
};
use crate::intraline::{aligned, ints, is_row_spans};
use crate::num::{low16, max_int, max_usize, monus, sat16, sat_u16};
use crate::plan::PlanNode;
use crate::rect::Rect;
use crate::snapshot::{DiffPane, DiffRow, UiSnapshot};
use crate::style::{flat, line_views, Paint, PaintedLine, PieceView, Tone};
use crate::text::{display_width, join_texts, join_with, joined, str_width, texts};
use crate::wrap::{decimal, decimal_of};

verus! {

/// Which rows a node links to.
pub open spec fn linked_flags(diff: DiffPane, node: Option<PlanNode>) -> Seq<bool> {
    Seq::new(
        diff.rows.len() as nat,
        |i: int| match node {
            Some(n) => is_linked(diff, n.code_refs@, i),
            None => false,
        },
    )
}

/// An optional node.
pub open spec fn optional_node(node: Option<&PlanNode>) -> Option<PlanNode> {
    match node {
        Some(n) => Some(*n),
        None => None,
    }
}

/// The rows that the node under the pointer links to, by file, hunk, side and line.
pub fn linked_diff_rows(diff: &DiffPane, node: Option<&PlanNode>) -> (linked: Vec<bool>)
    ensures
        linked@ == linked_flags(*diff, optional_node(node)),
{
    let mut linked: Vec<bool> = Vec::new();
    let mut hunk: Option<u32> = None;
    let mut i: usize = 0;
    while i < diff.rows.len()
        invariant
            i <= diff.rows.len(),
            linked.len() == i,
            0 <= headers(diff.rows@, i as int),
            match hunk {
                Some(h) => hunk_of(diff.rows@, i as int) == h,
                None => hunk_of(diff.rows@, i as int) == -1,
            },
            forall|k: int| 0 <= k < i ==> #[trigger] linked@[k] == linked_flags(*diff, optional_node(node))[k],
        decreases diff.rows.len() - i,
    {
        match &diff.rows[i] {
            DiffRow::HunkHeader(_) => {
                hunk = match hunk {
                    Some(h) => Some(h.saturating_add(1)),
                    None => Some(0),
                };
                linked.push(false);
            },
            _ => {
                let here: bool = match node {
                    Some(n) => row_is_linked(diff, &n.code_refs, i, hunk),
                    None => false,
                };
                linked.push(here);
            },
        }
        i = i + 1;
    }
    proof {
        assert(linked@ =~= linked_flags(*diff, optional_node(node)));
    }
    linked
}

/// A piece of a linked row: underlined and bold, on the link background where it has none of
/// its own.
pub open spec fn linked_piece(p: PieceView) -> PieceView {
    PieceView {
        text: p.text,
        paint: Paint {
            fg: p.paint.fg,
            bg: if p.paint.bg is None { Some(Tone::CodeLinkBg) } else { p.paint.bg },
            bold: true,
            underlined: true,
        },
    }
}

/// A linked line.
pub open spec fn linked_line(line: Seq<PieceView>) -> Seq<PieceView> {
    Seq::new(line.len(), |i: int| linked_piece(line[i]))
}

/// The first line after those of row `i`.
pub open spec fn row_end(first_visual: Seq<u16>, lines: int, i: int) -> int {
    if i + 1 < first_visual.len() { first_visual[i + 1] as int } else { sat16(lines) }
}

/// Whether line `j` belongs to a linked row.
pub open spec fn line_is_linked(first_visual: Seq<u16>, linked: Seq<bool>, lines: int, j: int) -> bool {
    exists|i: int|
        0 <= i < linked.len() && i < first_visual.len() && #[trigger] linked[i] && first_visual[i] <= j < row_end(
            first_visual,
            lines,
            i,
        )
}

/// The lines with those of linked rows marked.
pub open spec fn with_links(lines: Seq<Seq<PieceView>>, first_visual: Seq<u16>, linked: Seq<bool>) -> Seq<
    Seq<PieceView>,
> {
    Seq::new(
        lines.len(),
        |j: int| if line_is_linked(first_visual, linked, lines.len() as int, j) {
            linked_line(lines[j])
        } else {
            lines[j]
        },
    )
}

fn mark_line(line: &PaintedLine) -> (r: PaintedLine)
    ensures
        r@ == linked_line(line@),
{
    let mut r = PaintedLine::empty();
    let mut i: usize = 0;
    proof {
        assert(r@ =~= linked_line(line@).take(0));
    }
    while i < line.pieces.len()
        invariant
            i <= line.pieces.len(),
            r@ == linked_line(line@).take(i as int),
        decreases line.pieces.len() - i,
    {
        let p: Paint = line.pieces[i].paint;
        let bg: Option<Tone> = if p.bg.is_none() { Some(Tone::CodeLinkBg) } else { p.bg };
        r.push(line.pieces[i].text.as_str(), Paint { fg: p.fg, bg, bold: true, underlined: true });
        proof {
            assert(linked_line(line@).take(i + 1) =~= linked_line(line@).take(i as int).push(
                linked_piece(line@[i as int]),
            ));
        }
        i = i + 1;
    }
    proof {
        assert(linked_line(line@).take(line.pieces.len() as int) =~= linked_line(line@));
    }
    r
}

fn in_linked_row(first_visual: &Vec<u16>, linked: &Vec<bool>, lines: usize, j: usize) -> (r: bool)
    ensures
        r == line_is_linked(first_visual@, linked@, lines as int, j as int),
{
    let mut i: usize = 0;
    while i < linked.len() && i < first_visual.len()
        invariant
            i <= linked.len(),
            i <= first_visual.len(),
            forall|k: int| 0 <= k < i ==> !(#[trigger] linked@[k] && first_visual@[k] <= j < row_end(
                first_visual@,
                lines as int,
                k,
            )),
        decreases linked.len() - i,
    {
        if linked[i] {
            let end: u16 = if i < first_visual.len() - 1 { first_visual[i + 1] } else { sat_u16(lines) };
            if first_visual[i] as usize <= j && j < end as usize {
                proof {
                    assert(linked@[i as int]);
                }
                return true;
            }
        }
        i = i + 1;
    }
    false
}

/// Mark the lines of linked rows. Existing backgrounds of added, deleted and changed text
/// stay; underline and bold are the cue that does not rest on color.
pub fn apply_linked_diff_style(built: &mut BuiltDiff, linked: &Vec<bool>)
    ensures
        line_views(final(built).lines@) == with_links(
            line_views(old(built).lines@),
            old(built).first_visual@,
            linked@,
        ),
        final(built).first_visual == old(built).first_visual,
        final(built).effective_x == old(built).effective_x,
{
    let ghost start = line_views(built.lines@);
    let ghost wanted = with_links(start, built.first_visual@, linked@);
    let n: usize = built.lines.len();
    let mut out: Vec<PaintedLine> = Vec::new();
    let mut j: usize = 0;
    proof {
        assert(line_views(out@) =~= wanted.take(0));
    }
    while j < n
        invariant
            j <= n == built.lines.len(),
            *built == *old(built),
            start == line_views(built.lines@),
            wanted == with_links(start, built.first_visual@, linked@),
            line_views(out@) == wanted.take(j as int),
        decreases n - j,
    {
        let ghost before = line_views(out@);
        let line = if in_linked_row(&built.first_visual, linked, n, j) {
            mark_line(&built.lines[j])
        } else {
            copy_line(&built.lines[j])
        };
        let ghost shown = line@;
        out.push(line);
        proof {
            assert(start[j as int] == built.lines@[j as int]@);
            assert(shown == wanted[j as int]);
            assert(line_views(out@) =~= before.push(shown));
            assert(wanted.take(j + 1) =~= wanted.take(j as int).push(wanted[j as int]));
        }
        j = j + 1;
    }
    proof {
        assert(wanted.take(n as int) =~= wanted);
    }
    built.lines = out;
}

fn copy_line(line: &PaintedLine) -> (r: PaintedLine)
    ensures
        r@ == line@,
{
    let mut r = PaintedLine::empty();
    let mut i: usize = 0;
    proof {
        assert(r@ =~= line@.take(0));
    }
    while i < line.pieces.len()
        invariant
            i <= line.pieces.len(),
            r@ == line@.take(i as int),
        decreases line.pieces.len() - i,
    {
        r.push(line.pieces[i].text.as_str(), line.pieces[i].paint);
        proof {
            assert(line@.take(i + 1) =~= line@.take(i as int).push(line@[i as int]));
        }
        i = i + 1;
    }
    proof {
        assert(line@.take(line.pieces.len() as int) =~= line@);
    }
    r
}

/// Marking links changes no text.
pub proof fn law_links_keep_text(line: Seq<PieceView>)
    ensures
        flat(linked_line(line)) == flat(line),
    decreases line.len(),
{
    if line.len() > 0 {
        law_links_keep_text(line.drop_last());
        assert(linked_line(line).drop_last() =~= linked_line(line.drop_last()));
    }
}

/// The cells inside the borders of a pane.
pub open spec fn inside_width(width: int) -> int {
    monus(width, 2)
}

/// The cells of a diff body in a pane.
pub open spec fn body_width(rows: Seq<DiffRow>, width: int) -> int {
    max_int(monus(inside_width(width), gutter_cells(number_width(rows))), 1)
}

/// The lines of a diff before links are marked: wrapped, or cut at a horizontal offset.
pub open spec fn base_lines(
    rows: Seq<DiffRow>,
    spans: Seq<Seq<(usize, usize)>>,
    wrap: bool,
    hscroll: int,
    width: int,
) -> Seq<Seq<PieceView>> {
    let ln_w = number_width(rows);
    let body = body_width(rows, width);
    if wrap {
        wrapped_rows(rows, spans, ln_w, body, rows.len() as int)
    } else {
        raw_lines(rows, spans, ln_w, shown_x(rows, hscroll, body), body, inside_width(width))
    }
}

/// The first line of row `i`.
pub open spec fn first_line(
    rows: Seq<DiffRow>,
    spans: Seq<Seq<(usize, usize)>>,
    wrap: bool,
    width: int,
    i: int,
) -> int {
    if wrap {
        low16(wrapped_rows(rows, spans, number_width(rows), body_width(rows, width), i).len() as int)
    } else {
        low16(i)
    }
}

/// The lines of a diff for a pane, with the words that changed marked.
pub fn build_diff(rows: &Vec<DiffRow>, spans: &Vec<Vec<(usize, usize)>>, wrap: bool, hscroll: u16, width: u16) -> (built:
    BuiltDiff)
    requires
        spans.len() == rows.len(),
    ensures
        line_views(built.lines@) == base_lines(rows@, span_views(spans@), wrap, hscroll as int, width as int),
        built.first_visual.len() == rows.len(),
        forall|i: int| 0 <= i < rows.len() ==> #[trigger] built.first_visual@[i] == first_line(
            rows@,
            span_views(spans@),
            wrap,
            width as int,
            i,
        ),
        built.effective_x == (if wrap {
            0
        } else {
            shown_x(rows@, hscroll as int, body_width(rows@, width as int))
        }),
{
    let ln_w: usize = ln_width(rows);
    let inner: usize = (width as usize).saturating_sub(2);
    let body: usize = max_usize(inner.saturating_sub(gutter_width(ln_w)), 1);
    if wrap {
        build_wrapped(rows, spans, ln_w, body)
    } else {
        build_raw(rows, spans, ln_w, hscroll as usize, body, inner)
    }
}

/// Exact laid-out diff text behind mouse selection and clipboard extraction.
#[derive(Debug, Clone, PartialEq, Eq)]
pub struct DiffCopyFrame {
    /// The text area inside the pane's borders.
    pub rect: Rect,
    /// The text of every display line.
    pub lines: Vec<String>,
    /// The first body column of each display line; `None` for a hunk header.
    pub code_starts: Vec<Option<usize>>,
    /// The first display line on screen.
    pub first_visible: usize,
    /// The first logical row on screen.
    pub first_visible_logical: usize,
}

/// An area without its border cells.
pub open spec fn inset(r: Rect) -> Rect {
    Rect {
        x: sat16(r.x + 1) as u16,
        y: sat16(r.y + 1) as u16,
        width: monus(r.width as int, 2) as u16,
        height: monus(r.height as int, 2) as u16,
    }
}

/// A pane block's inner rect: all four borders shrink by one cell.
pub fn inner(r: Rect) -> (out: Rect)
    ensures
        out == inset(r),
{
    Rect {
        x: r.x.saturating_add(1),
        y: r.y.saturating_add(1),
        width: r.width.saturating_sub(2),
        height: r.height.saturating_sub(2),
    }
}

/// No marks in any of `n` rows.
pub open spec fn no_marks(n: int) -> Seq<Seq<(usize, usize)>> {
    Seq::new(n as nat, |i: int| Seq::empty())
}

/// How many display lines row `i` takes.
pub open spec fn row_height(row: DiffRow, rows: Seq<DiffRow>, wrap: bool, width: int) -> int {
    if wrap {
        crate::diff_view::row_ranges(row, number_width(rows), body_width(rows, width)).len() as int
    } else {
        1
    }
}

/// The first body column of every display line of the first `n` rows.
pub open spec fn code_columns(rows: Seq<DiffRow>, wrap: bool, width: int, n: int) -> Seq<Option<int>>
    decreases n,
{
    if n <= 0 {
        Seq::empty()
    } else {
        let row = rows[n - 1];
        let start = if row is HunkHeader { None } else { Some(gutter_cells(number_width(rows))) };
        code_columns(rows, wrap, width, n - 1) + Seq::new(
            row_height(row, rows, wrap, width) as nat,
            |k: int| start,
        )
    }
}

/// Optional columns as numbers.
pub open spec fn optional_columns(columns: Seq<Option<usize>>) -> Seq<Option<int>> {
    Seq::new(
        columns.len(),
        |i: int| match columns[i] {
            Some(c) => Some(c as int),
            None => None,
        },
    )
}

/// The text of every line.
pub open spec fn flat_lines(lines: Seq<Seq<PieceView>>) -> Seq<Seq<char>> {
    Seq::new(lines.len(), |i: int| flat(lines[i]))
}

/// The first row on screen: the scroll anchor, where there is such a row.
pub open spec fn anchor_row(v: AppView, rows: int) -> int {
    if v.diff_scroll < rows { v.diff_scroll } else { 0 }
}

/// A copy frame, by contents.
#[verifier::ext_equal]
pub struct CopyView {
    pub rect: Rect,
    pub lines: Seq<Seq<char>>,
    pub code_starts: Seq<Option<int>>,
    pub first_visible: int,
    pub first_logical: int,
}

impl View for DiffCopyFrame {
    type V = CopyView;

    open spec fn view(&self) -> CopyView {
        CopyView {
            rect: self.rect,
            lines: texts(self.lines@),
            code_starts: optional_columns(self.code_starts@),
            first_visible: self.first_visible as int,
            first_logical: self.first_visible_logical as int,
        }
    }
}

/// The copy frame of a diff in a pane.
pub open spec fn copy_of(v: AppView, rows: Seq<DiffRow>, area: Rect) -> CopyView {
    let width = area.width as int;
    let none = no_marks(rows.len() as int);
    CopyView {
        rect: inset(area),
        lines: flat_lines(base_lines(rows, none, v.diff_wrap, v.diff_hscroll, width)),
        code_starts: code_columns(rows, v.diff_wrap, width, rows.len() as int),
        first_visible: if v.diff_scroll < rows.len() {
            first_line(rows, none, v.diff_wrap, width, v.diff_scroll)
        } else {
            0
        },
        first_logical: anchor_row(v, rows.len() as int),
    }
}

/// Every display line has its own entry of body columns.
pub proof fn law_columns_match_lines(v: AppView, rows: Seq<DiffRow>, area: Rect)
    ensures
        copy_of(v, rows, area).lines.len() == copy_of(v, rows, area).code_starts.len(),
{
    let width = area.width as int;
    lemma_column_count(rows, no_marks(rows.len() as int), v.diff_wrap, width, rows.len() as int);
}

proof fn lemma_column_count(
    rows: Seq<DiffRow>,
    spans: Seq<Seq<(usize, usize)>>,
    wrap: bool,
    width: int,
    n: int,
)
    requires
        0 <= n,
    ensures
        code_columns(rows, wrap, width, n).len() == (if wrap {
            wrapped_rows(rows, spans, number_width(rows), body_width(rows, width), n).len() as int
        } else {
            n
        }),
    decreases n,
{
    if n > 0 {
        lemma_column_count(rows, spans, wrap, width, n - 1);
    }
}

fn empty_spans(n: usize) -> (spans: Vec<Vec<(usize, usize)>>)
    ensures
        spans.len() == n,
        span_views(spans@) == no_marks(n as int),
{
    let mut spans: Vec<Vec<(usize, usize)>> = Vec::new();
    while spans.len() < n
        invariant
            spans.len() <= n,
            forall|i: int| 0 <= i < spans.len() ==> #[trigger] spans@[i]@ == Seq::<(usize, usize)>::empty(),
        decreases n - spans.len(),
    {
        let none: Vec<(usize, usize)> = Vec::new();
        proof {
            assert(none@ =~= Seq::<(usize, usize)>::empty());
        }
        spans.push(none);
    }
    proof {
        assert(span_views(spans@) =~= no_marks(n as int));
    }
    spans
}

fn line_texts(lines: &Vec<PaintedLine>) -> (out: Vec<String>)
    ensures
        texts(out@) == flat_lines(line_views(lines@)),
{
    let mut out: Vec<String> = Vec::new();
    while out.len() < lines.len()
        invariant
            out.len() <= lines.len(),
            forall|i: int| 0 <= i < out.len() ==> #[trigger] out@[i]@ == flat(lines@[i]@),
        decreases lines.len() - out.len(),
    {
        let i: usize = out.len();
        out.push(lines[i].text());
    }
    proof {
        assert(texts(out@) =~= flat_lines(line_views(lines@)));
    }
    out
}

/// The heights of all rows.
fn heights(rows: &Vec<DiffRow>, wrap: bool, width: u16) -> (out: Vec<usize>)
    ensures
        out.len() == rows.len(),
        forall|i: int| 0 <= i < rows.len() ==> #[trigger] out@[i] == row_height(rows@[i], rows@, wrap, width as int),
{
    let ln_w: usize = ln_width(rows);
    let inner: usize = (width as usize).saturating_sub(2);
    let body: usize = max_usize(inner.saturating_sub(gutter_width(ln_w)), 1);
    let mut out: Vec<usize> = Vec::new();
    while out.len() < rows.len()
        invariant
            out.len() <= rows.len(),
            ln_w == number_width(rows@),
            4 <= ln_w <= 6,
            body == body_width(rows@, width as int),
            body <= 65536,
            forall|i: int| 0 <= i < out.len() ==> #[trigger] out@[i] == row_height(
                rows@[i],
                rows@,
                wrap,
                width as int,
            ),
        decreases rows.len() - out.len(),
    {
        let i: usize = out.len();
        let h: usize = if wrap { wrapped_height(&rows[i], ln_w, body) } else { 1 };
        out.push(h);
    }
    out
}

fn push_columns(out: &mut Vec<Option<usize>>, start: Option<usize>, n: usize)
    ensures
        optional_columns(final(out)@) == optional_columns(old(out)@) + Seq::new(
            n as nat,
            |k: int| match start {
                Some(c) => Some(c as int),
                None => None,
            },
        ),
{
    let ghost first = optional_columns(out@);
    let ghost wanted = match start {
        Some(c) => Some(c as int),
        None => None,
    };
    let mut k: usize = 0;
    proof {
        assert(optional_columns(out@) =~= first + Seq::new(0, |k: int| wanted));
    }
    while k < n
        invariant
            k <= n,
            wanted == (match start {
                Some(c) => Some(c as int),
                None => None,
            }),
            optional_columns(out@) == first + Seq::new(k as nat, |k: int| wanted),
        decreases n - k,
    {
        let ghost before = optional_columns(out@);
        out.push(start);
        proof {
            assert(optional_columns(out@) =~= before.push(wanted));
            assert(Seq::new((k + 1) as nat, |k: int| wanted) =~= Seq::new(k as nat, |k: int| wanted).push(wanted));
            assert(optional_columns(out@) =~= first + Seq::new((k + 1) as nat, |k: int| wanted));
        }
        k = k + 1;
    }
}

fn body_columns(rows: &Vec<DiffRow>, wrap: bool, width: u16) -> (out: Vec<Option<usize>>)
    ensures
        optional_columns(out@) == code_columns(rows@, wrap, width as int, rows.len() as int),
{
    let tall = heights(rows, wrap, width);
    let start: usize = gutter_width(ln_width(rows));
    let mut out: Vec<Option<usize>> = Vec::new();
    let mut i: usize = 0;
    proof {
        assert(optional_columns(out@) =~= code_columns(rows@, wrap, width as int, 0));
    }
    while i < rows.len()
        invariant
            i <= rows.len() == tall.len(),
            start == gutter_cells(number_width(rows@)),
            forall|k: int| 0 <= k < rows.len() ==> #[trigger] tall@[k] == row_height(
                rows@[k],
                rows@,
                wrap,
                width as int,
            ),
            optional_columns(out@) == code_columns(rows@, wrap, width as int, i as int),
        decreases rows.len() - i,
    {
        let ghost before = optional_columns(out@);
        let here: Option<usize> = match &rows[i] {
            DiffRow::HunkHeader(_) => None,
            _ => Some(start),
        };
        push_columns(&mut out, here, tall[i]);
        proof {
            let wanted: Option<int> = if rows@[i as int] is HunkHeader {
                None
            } else {
                Some(gutter_cells(number_width(rows@)))
            };
            assert(optional_columns(out@) =~= before + Seq::new(tall@[i as int] as nat, |k: int| wanted));
            assert(code_columns(rows@, wrap, width as int, i + 1) =~= before + Seq::new(
                tall@[i as int] as nat,
                |k: int| wanted,
            ));
        }
        i = i + 1;
    }
    out
}

/// The laid-out diff text of a pane. What the rows say does not depend on what is marked in
/// them.
pub fn diff_copy_frame(app: &App, snap: &UiSnapshot, area: Rect) -> (frame: DiffCopyFrame)
    ensures
        frame@ == copy_of(app@, snap.diff.rows@, area),
{
    proof {
        reveal(app_view);
    }
    let rows = &snap.diff.rows;
    let spans = empty_spans(rows.len());
    let built = build_diff(rows, &spans, app.diff_wrap, app.diff_hscroll, area.width);
    let code_starts = body_columns(rows, app.diff_wrap, area.width);
    let anchor: usize = app.diff_scroll as usize;
    let (first_visible, first_visible_logical): (usize, usize) = if anchor < rows.len() {
        (built.first_visual[anchor] as usize, anchor)
    } else {
        (0, 0)
    };
    DiffCopyFrame {
        rect: inner(area),
        lines: line_texts(&built.lines),
        code_starts,
        first_visible,
        first_visible_logical,
    }
}

/// Marks that are the changed words of every row.
pub open spec fn is_marking(rows: Seq<DiffRow>, spans: Seq<Seq<(usize, usize)>>) -> bool {
    &&& spans.len() == rows.len()
    &&& forall|i: int| #![trigger spans[i]] 0 <= i < rows.len() ==> is_row_spans(rows, i, ints(spans[i]))
}

/// The changed words of a diff are determined by its rows.
pub proof fn law_marking_is_unique(rows: Seq<DiffRow>, a: Seq<Seq<(usize, usize)>>, b: Seq<Seq<(usize, usize)>>)
    requires
        is_marking(rows, a),
        is_marking(rows, b),
    ensures
        a == b,
{
    assert forall|i: int| 0 <= i < rows.len() implies #[trigger] a[i] == b[i] by {
        let (x, y) = (ints(a[i]), ints(b[i]));
        assert(is_row_spans(rows, i, x) && is_row_spans(rows, i, y));
        if exists|j: int| #![trigger aligned(rows, i, j)] i < j < rows.len() && aligned(rows, i, j) {
            let j = choose|j: int| #![trigger aligned(rows, i, j)] i < j < rows.len() && aligned(rows, i, j);
            assert(x == y);
        } else if exists|j: int| #![trigger aligned(rows, j, i)] 0 <= j < i && aligned(rows, j, i) {
            let j = choose|j: int| #![trigger aligned(rows, j, i)] 0 <= j < i && aligned(rows, j, i);
            assert(x == y);
        } else {
            assert(x.len() == 0 && y.len() == 0);
        }
        assert(a[i].len() == x.len() && b[i].len() == y.len());
        assert forall|k: int| 0 <= k < a[i].len() implies #[trigger] a[i][k] == b[i][k] by {
            assert(x[k] == y[k]);
        }
        assert(a[i] =~= b[i]);
    }
    assert(a =~= b);
}

/// How many of the first `n` flags are set.
pub open spec fn count_set(flags: Seq<bool>, n: int) -> int
    decreases n,
{
    if n <= 0 {
        0
    } else {
        count_set(flags, n - 1) + (if flags[n - 1] { 1int } else { 0int })
    }
}

fn count_flags(flags: &Vec<bool>) -> (count: usize)
    ensures
        count == count_set(flags@, flags.len() as int),
{
    let mut count: usize = 0;
    let mut n: usize = 0;
    while n < flags.len()
        invariant
            n <= flags.len(),
            count <= n,
            count == count_set(flags@, n as int),
        decreases flags.len() - n,
    {
        if flags[n] {
            count = count + 1;
        }
        n = n + 1;
    }
    count
}

/// A number in at least two digits.
pub open spec fn two_digits(n: int) -> Seq<char> {
    if n < 10 { seq!['0'] + decimal_of(n) } else { decimal_of(n) }
}

/// The symbol that the diff is about: what the picture says, else the selected symbol row.
pub open spec fn focused_name(v: AppView, s: UiSnapshot) -> Option<Seq<char>> {
    match s.diff.focused_symbol {
        Some(name) => Some(name@),
        None => match selected_symbol(v) {
            Some((f, k)) => Some(v.files[f].symbols[k].name@),
            None => None,
        },
    }
}

/// The parts of a diff title that are always kept: hunk, wrapping, and horizontal offset.
pub open spec fn state_parts(v: AppView, s: UiSnapshot, x: int) -> Seq<Seq<char>> {
    (if s.diff.total_hunks > 0 {
        seq!["hunk "@ + decimal_of(v.current_hunk) + "/"@ + decimal_of(s.diff.total_hunks as int)]
    } else {
        Seq::empty()
    }) + seq![if v.diff_wrap { "wrap on"@ } else { "wrap off"@ }] + (if !v.diff_wrap && x > 0 {
        seq!["x+"@ + two_digits(x)]
    } else {
        Seq::empty()
    })
}

/// All parts of a diff title: first the symbol and the linked lines.
pub open spec fn title_parts(v: AppView, s: UiSnapshot, linked: int, x: int) -> Seq<Seq<char>> {
    (match focused_name(v, s) {
        Some(name) => seq![name],
        None => Seq::empty(),
    }) + (if linked > 0 { seq!["↔ "@ + decimal_of(linked) + " code lines"@] } else { Seq::empty() }) + state_parts(
        v,
        s,
        x,
    )
}

/// The right title of a diff from its parts.
pub open spec fn title_text(v: AppView, parts: Seq<Seq<char>>) -> Seq<char> {
    " "@ + join_with(parts, " · "@) + zoom_suffix(v, Pane::Diff) + " "@
}

/// The right title of the diff pane. Where it would leave too little room, symbol and linked
/// lines are dropped before the name on the left.
pub open spec fn diff_right(v: AppView, s: UiSnapshot, linked: int, x: int, inner_w: int) -> Seq<char> {
    let full = title_text(v, title_parts(v, s, linked, x));
    if display_width(full) + 6 > inner_w && focused_name(v, s) is Some {
        title_text(v, state_parts(v, s, x))
    } else {
        full
    }
}

/// The left title of the diff pane beside a right one.
pub open spec fn diff_left(s: UiSnapshot, right: Seq<char>, inner_w: int) -> Seq<char> {
    let budget = max_int(monus(inner_w, display_width(right) as int + 1), 1);
    " "@ + (if s.diff.title@.len() == 0 {
        Seq::empty()
    } else {
        clipped(basename_of(s.diff.title@), budget)
    }) + " "@
}

fn hunk_text(current: usize, total: usize) -> (out: String)
    ensures
        out@ == "hunk "@ + decimal_of(current as int) + "/"@ + decimal_of(total as int),
{
    let mut out = joined("hunk ", decimal(current as u64).as_str());
    out.append("/");
    out.append(decimal(total as u64).as_str());
    out
}

fn push_state(parts: &mut Vec<String>, app: &App, snap: &UiSnapshot, x: usize)
    ensures
        texts(final(parts)@) == texts(old(parts)@) + state_parts(app@, *snap, x as int),
{
    let ghost before = texts(parts@);
    proof {
        reveal(app_view);
    }
    if snap.diff.total_hunks > 0 {
        parts.push(hunk_text(app.current_hunk, snap.diff.total_hunks));
    }
    parts.push(if app.diff_wrap { "wrap on".to_owned() } else { "wrap off".to_owned() });
    if !app.diff_wrap && x > 0 {
        let mut text = "x+".to_owned();
        if x < 10 {
            text.push('0');
        }
        text.append(decimal(x as u64).as_str());
        proof {
            assert(text@ =~= "x+"@ + two_digits(x as int));
        }
        parts.push(text);
    }
    proof {
        assert(texts(parts@) =~= before + state_parts(app@, *snap, x as int));
    }
}

fn title_of(app: &App, parts: &Vec<String>) -> (out: String)
    ensures
        out@ == title_text(app@, texts(parts@)),
{
    let mut out = joined(" ", join_texts(parts, " · ").as_str());
    out.append(zoom_tag(app, Pane::Diff));
    out.append(" ");
    out
}

fn focused_symbol<'a>(app: &'a App, snap: &'a UiSnapshot) -> (r: Option<&'a str>)
    ensures
        match r {
            Some(name) => focused_name(app@, *snap) == Some(name@),
            None => focused_name(app@, *snap) is None,
        },
{
    match &snap.diff.focused_symbol {
        Some(name) => Some(name.as_str()),
        None => app.selected_symbol_name(),
    }
}

/// The titles of the diff pane: the name of the file, and what is shown of it.
pub fn diff_titles(app: &App, snap: &UiSnapshot, linked: usize, x: usize, inner_w: usize) -> (r: (String, String))
    requires
        inner_w <= u16::MAX,
    ensures
        r.1@ == diff_right(app@, *snap, linked as int, x as int, inner_w as int),
        r.0@ == diff_left(*snap, r.1@, inner_w as int),
{
    let name = focused_symbol(app, snap);
    let mut parts: Vec<String> = Vec::new();
    match name {
        Some(n) => {
            parts.push(n.to_owned());
        },
        None => {},
    }
    if linked > 0 {
        let mut text = joined("↔ ", decimal(linked as u64).as_str());
        text.append(" code lines");
        parts.push(text);
    }
    let ghost start = texts(parts@);
    push_state(&mut parts, app, snap, x);
    proof {
        assert(texts(parts@) =~= title_parts(app@, *snap, linked as int, x as int));
    }
    let full = title_of(app, &parts);
    let full_w: usize = str_width(full.as_str());
    let right: String = if (full_w > inner_w || inner_w - full_w < 6) && name.is_some() {
        let mut short: Vec<String> = Vec::new();
        push_state(&mut short, app, snap, x);
        proof {
            assert(texts(short@) =~= state_parts(app@, *snap, x as int));
        }
        title_of(app, &short)
    } else {
        full
    };
    let budget: usize = max_usize(
        inner_w.saturating_sub(str_width(right.as_str())).saturating_sub(1),
        1,
    );
    let base: String = if snap.diff.title.as_str().is_empty() {
        String::new()
    } else {
        truncate_cells(basename(snap.diff.title.as_str()).as_str(), budget)
    };
    let mut left = joined(" ", base.as_str());
    left.append(" ");
    proof {
        assert(left@ =~= diff_left(*snap, right@, inner_w as int));
    }
    (left, right)
}

/// The node that the pointer is on, where the plan has it.
pub open spec fn pointed_node(v: AppView, plan_side: UiSnapshot) -> Option<PlanNode> {
    match v.hovered {
        Some(t) => plan_node_of(plan_side, t),
        None => None,
    }
}

/// The first display line of every row.
pub open spec fn first_lines(rows: Seq<DiffRow>, marks: Seq<Seq<(usize, usize)>>, wrap: bool, width: int) -> Seq<u16> {
    Seq::new(rows.len(), |i: int| first_line(rows, marks, wrap, width, i) as u16)
}

/// What the diff pane shows: its lines, where they start, and its titles.
#[verifier::ext_equal]
pub struct DiffFace {
    pub lines: Seq<Seq<PieceView>>,
    pub scroll: int,
    pub left: Seq<char>,
    pub right: Seq<char>,
}

/// What the diff pane shows in a width, with the changed words marked. `held` is the picture
/// that the node under the pointer belongs to.
pub open spec fn diff_face(
    v: AppView,
    held: UiSnapshot,
    s: UiSnapshot,
    marks: Seq<Seq<(usize, usize)>>,
    width: int,
) -> DiffFace {
    let rows = s.diff.rows@;
    let linked = linked_flags(s.diff, pointed_node(v, held));
    let inner_w = monus(width, 2);
    let x = if v.diff_wrap { 0 } else { shown_x(rows, v.diff_hscroll, body_width(rows, width)) };
    let right = diff_right(v, s, count_set(linked, linked.len() as int), x, inner_w);
    DiffFace {
        lines: with_links(
            base_lines(rows, marks, v.diff_wrap, v.diff_hscroll, width),
            first_lines(rows, marks, v.diff_wrap, width),
            linked,
        ),
        scroll: if v.diff_scroll < rows.len() {
            first_line(rows, marks, v.diff_wrap, width, v.diff_scroll)
        } else {
            0
        },
        left: diff_left(s, right, inner_w),
        right,
    }
}

/// The diff pane ready to be drawn.
#[derive(Debug, Clone)]
pub struct DiffFrame {
    pub lines: Vec<PaintedLine>,
    /// The first display line on screen.
    pub scroll: u16,
    pub left: String,
    pub right: String,
}

impl View for DiffFrame {
    type V = DiffFace;

    open spec fn view(&self) -> DiffFace {
        DiffFace {
            lines: line_views(self.lines@),
            scroll: self.scroll as int,
            left: self.left@,
            right: self.right@,
        }
    }
}

/// What the diff pane shows in a width, with the given words marked.
pub fn diff_frame(app: &App, snap: &UiSnapshot, spans: &Vec<Vec<(usize, usize)>>, width: u16) -> (r: DiffFrame)
    requires
        spans.len() == snap.diff.rows.len(),
    ensures
        r@ == diff_face(app@, app.snapshot, *snap, span_views(spans@), width as int),
{
    let ghost v = app@;
    let ghost marks = span_views(spans@);
    let ghost rows = snap.diff.rows@;
    let wrap: bool = app.diff_wrap;
    let hscroll: u16 = app.diff_hscroll;
    let scroll: usize = app.diff_scroll as usize;
    proof {
        reveal(app_view);
        assert(wrap == v.diff_wrap && hscroll == v.diff_hscroll && scroll == v.diff_scroll);
    }
    let node = app.active_code_node();
    proof {
        assert(optional_node(node) == pointed_node(v, app.snapshot));
    }
    let linked = linked_diff_rows(&snap.diff, node);
    let mut built = build_diff(&snap.diff.rows, spans, wrap, hscroll, width);
    proof {
        assert(built.first_visual@ =~= first_lines(rows, marks, wrap, width as int));
    }
    let x: usize = built.effective_x;
    let first: u16 = if scroll < built.first_visual.len() { built.first_visual[scroll] } else { 0 };
    apply_linked_diff_style(&mut built, &linked);
    let inner_w: usize = (width as usize).saturating_sub(2);
    let (left, right) = diff_titles(app, snap, count_flags(&linked), x, inner_w);
    DiffFrame { lines: built.lines, scroll: first, left, right }
}

/// Marking the rows that a node links to takes nothing from the text of the diff.
pub proof fn law_hover_keeps_the_diff(
    v: AppView,
    held: UiSnapshot,
    s: UiSnapshot,
    marks: Seq<Seq<(usize, usize)>>,
    width: int,
    i: int,
)
    requires
        0 <= i < base_lines(s.diff.rows@, marks, v.diff_wrap, v.diff_hscroll, width).len(),
    ensures
        ({
            let face = diff_face(v, held, s, marks, width);
            let plain = base_lines(s.diff.rows@, marks, v.diff_wrap, v.diff_hscroll, width);
            face.lines.len() == plain.len() && flat(face.lines[i]) == flat(plain[i])
        }),
{
    law_links_keep_text(base_lines(s.diff.rows@, marks, v.diff_wrap, v.diff_hscroll, width)[i]);
}

} // verus!
