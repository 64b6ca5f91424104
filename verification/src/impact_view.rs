//! The Impact pane as lines: the selected change, its callers and what lies downstream, and
//! the generated half while no finished diagram is there.

use vstd::prelude::*;
use crate::chrome::{basename, basename_of};
use crate::diagram::{is_sanitized, sanitized_warning, DiagramLine, DiagramRole, SpanView};
use crate::diff_view::{clipped, truncate_cells};
use crate::num::{min_int, min_usize, monus};
use crate::snapshot::{AiStatus, ImpactList, ImpactLoadState, ImpactPane, ImpactRow, UiSnapshot};
use crate::style::{bold_paint, ink, line_views, single, Paint, PaintedLine, PieceView, Tone};
use crate::text::{joined, same_text, texts};
use crate::wrap::{decimal, decimal_of, wrap_all, wrapped};

verus! {

/// What the generated half says about the generator while it shows no generated plan.
pub open spec fn status_note(ai: AiStatus) -> Option<(Seq<char>, DiagramRole)> {
    match ai {
        AiStatus::WaitingForSymbols { .. } => Some(("Waiting for symbol analysis…"@, DiagramRole::Warning)),
        AiStatus::WaitingForRelations { .. } => Some(
            ("Waiting for symbol relationships…"@, DiagramRole::Warning),
        ),
        AiStatus::Queued { position, .. } => Some(
            ("Waiting for AI capacity · priority #"@ + decimal_of(position as int), DiagramRole::Warning),
        ),
        AiStatus::Loading { .. } => Some(("Generating a deeper explanation…"@, DiagramRole::Warning)),
        AiStatus::Failed { .. } => Some(("AI failed; showing known relationships"@, DiagramRole::Warning)),
        AiStatus::Stale { .. } => Some(
            ("Repository changed; showing known relationships"@, DiagramRole::Warning),
        ),
        AiStatus::Disabled => Some(("Known relationships · AI not configured"@, DiagramRole::Muted)),
        AiStatus::Idle => Some(
            ("Known relationships · AI generation is automatic"@, DiagramRole::Muted),
        ),
        AiStatus::Debouncing { .. } => None,
        AiStatus::Ready { .. } => None,
    }
}

/// A diagram line of one span.
pub open spec fn diagram_line(text: Seq<char>, role: DiagramRole) -> Seq<SpanView> {
    seq![SpanView { text, role }]
}

/// Diagram lines, by contents.
pub open spec fn diagram_lines(lines: Seq<DiagramLine>) -> Seq<Seq<SpanView>> {
    Seq::new(lines.len(), |i: int| lines[i]@)
}

fn status_line(ai: &AiStatus) -> (r: Option<DiagramLine>)
    ensures
        match (status_note(*ai), r) {
            (Some((text, role)), Some(line)) => line@ == diagram_line(text, role),
            (None, None) => true,
            _ => false,
        },
{
    let (text, role): (String, DiagramRole) = match ai {
        AiStatus::WaitingForSymbols { .. } => (
            "Waiting for symbol analysis…".to_owned(),
            DiagramRole::Warning,
        ),
        AiStatus::WaitingForRelations { .. } => (
            "Waiting for symbol relationships…".to_owned(),
            DiagramRole::Warning,
        ),
        AiStatus::Queued { position, .. } => (
            joined("Waiting for AI capacity · priority #", decimal(*position as u64).as_str()),
            DiagramRole::Warning,
        ),
        AiStatus::Loading { .. } => ("Generating a deeper explanation…".to_owned(), DiagramRole::Warning),
        AiStatus::Failed { .. } => (
            "AI failed; showing known relationships".to_owned(),
            DiagramRole::Warning,
        ),
        AiStatus::Stale { .. } => (
            "Repository changed; showing known relationships".to_owned(),
            DiagramRole::Warning,
        ),
        AiStatus::Disabled => ("Known relationships · AI not configured".to_owned(), DiagramRole::Muted),
        AiStatus::Idle => (
            "Known relationships · AI generation is automatic".to_owned(),
            DiagramRole::Muted,
        ),
        AiStatus::Debouncing { .. } => {
            return None;
        },
        AiStatus::Ready { .. } => {
            return None;
        },
    };
    Some(DiagramLine::plain(text.as_str(), role))
}

/// A relationship in one line.
pub open spec fn relation_text(arrow: Seq<char>, row: ImpactRow) -> Seq<char> {
    arrow + row.label@ + (if row.relation@.len() == 0 { Seq::empty() } else { "  "@ + row.relation@ })
}

/// The first `n` relationships, one line each.
pub open spec fn relation_lines(arrow: Seq<char>, rows: Seq<ImpactRow>, width: int, n: int) -> Seq<Seq<SpanView>>
    decreases n,
{
    if n <= 0 {
        Seq::empty()
    } else {
        relation_lines(arrow, rows, width, n - 1).push(
            diagram_line(clipped(relation_text(arrow, rows[n - 1]), width), DiagramRole::Arrow),
        )
    }
}

/// Texts as lines of one role.
pub open spec fn role_lines(items: Seq<Seq<char>>, role: DiagramRole) -> Seq<Seq<SpanView>> {
    Seq::new(items.len(), |i: int| diagram_line(items[i], role))
}

/// The known relationships of a selection: what it is, what is said of it, who calls it and
/// what it leads to; guidance without a selection.
pub open spec fn known_lines(impact: ImpactPane, width: int) -> Seq<Seq<SpanView>> {
    match impact.selected_change {
        Some(selected) => seq![diagram_line(clipped(selected.label@, width), DiagramRole::Title)] + role_lines(
            wrapped(selected.interpretation@, crate::num::max_int(width, 1)),
            DiagramRole::Text,
        ) + relation_lines("← "@, impact.callers.rows@, width, impact.callers.rows.len() as int) + relation_lines(
            "→ "@,
            impact.downstream.rows@,
            width,
            impact.downstream.rows.len() as int,
        ),
        None => seq![diagram_line(clipped("Select a changed file or symbol"@, width), DiagramRole::Muted)],
    }
}

fn push_relations(out: &mut Vec<DiagramLine>, arrow: &str, rows: &Vec<ImpactRow>, width: usize)
    ensures
        diagram_lines(final(out)@) == diagram_lines(old(out)@) + relation_lines(
            arrow@,
            rows@,
            width as int,
            rows.len() as int,
        ),
{
    let ghost start = diagram_lines(out@);
    let mut i: usize = 0;
    proof {
        assert(diagram_lines(out@) =~= start + relation_lines(arrow@, rows@, width as int, 0));
    }
    while i < rows.len()
        invariant
            i <= rows.len(),
            diagram_lines(out@) == start + relation_lines(arrow@, rows@, width as int, i as int),
        decreases rows.len() - i,
    {
        let ghost before = diagram_lines(out@);
        let mut text = joined(arrow, rows[i].label.as_str());
        if !rows[i].relation.is_empty() {
            text.append("  ");
            text.append(rows[i].relation);
        }
        proof {
            assert(text@ =~= relation_text(arrow@, rows@[i as int]));
        }
        let line = DiagramLine::plain(truncate_cells(text.as_str(), width).as_str(), DiagramRole::Arrow);
        let ghost shown = line@;
        out.push(line);
        proof {
            assert(diagram_lines(out@) =~= before.push(shown));
            assert(diagram_lines(out@) =~= start + relation_lines(arrow@, rows@, width as int, i + 1));
        }
        i = i + 1;
    }
}

fn push_texts(out: &mut Vec<DiagramLine>, items: &Vec<String>, role: DiagramRole)
    ensures
        diagram_lines(final(out)@) == diagram_lines(old(out)@) + role_lines(texts(items@), role),
{
    let ghost start = diagram_lines(out@);
    let ghost all = role_lines(texts(items@), role);
    let mut i: usize = 0;
    proof {
        assert(diagram_lines(out@) =~= start + all.take(0));
    }
    while i < items.len()
        invariant
            i <= items.len() == all.len(),
            all == role_lines(texts(items@), role),
            diagram_lines(out@) == start + all.take(i as int),
        decreases items.len() - i,
    {
        let ghost before = diagram_lines(out@);
        let line = DiagramLine::plain(items[i].as_str(), role);
        let ghost shown = line@;
        out.push(line);
        proof {
            assert(shown == all[i as int]);
            assert(diagram_lines(out@) =~= before.push(shown));
            assert(diagram_lines(out@) =~= start + all.take(i + 1));
        }
        i = i + 1;
    }
    proof {
        assert(all.take(all.len() as int) =~= all);
    }
}

/// Add the known relationships of a selection.
fn push_known(out: &mut Vec<DiagramLine>, impact: &ImpactPane, width: usize)
    ensures
        diagram_lines(final(out)@) == diagram_lines(old(out)@) + known_lines(*impact, width as int),
{
    let ghost start = diagram_lines(out@);
    match &impact.selected_change {
        Some(selected) => {
            let title = DiagramLine::plain(
                truncate_cells(selected.label.as_str(), width).as_str(),
                DiagramRole::Title,
            );
            let ghost shown = title@;
            out.push(title);
            proof {
                assert(diagram_lines(out@) =~= start.push(shown));
            }
            let said = wrap_all(selected.interpretation.as_str(), crate::num::max_usize(width, 1));
            push_texts(out, &said, DiagramRole::Text);
            push_relations(out, "← ", &impact.callers.rows, width);
            push_relations(out, "→ ", &impact.downstream.rows, width);
            proof {
                assert(diagram_lines(out@) =~= start + known_lines(*impact, width as int));
            }
        },
        None => {
            let line = DiagramLine::plain(
                truncate_cells("Select a changed file or symbol", width).as_str(),
                DiagramRole::Muted,
            );
            let ghost shown = line@;
            out.push(line);
            proof {
                assert(diagram_lines(out@) =~= start.push(shown));
                assert(diagram_lines(out@) =~= start + known_lines(*impact, width as int));
            }
        },
    }
}

/// The lines before the known relationships: what the generator is doing, or a warning that
/// validation took something out of its plan.
pub open spec fn leading_lines(s: UiSnapshot, width: int) -> Seq<Seq<SpanView>> {
    if !s.semantic.ai_generated {
        match status_note(s.ai) {
            Some((text, role)) => seq![diagram_line(text, role)],
            None => Seq::empty(),
        }
    } else if is_sanitized(s.semantic.report) {
        seq![
            diagram_line(
                clipped(sanitized_warning(s.semantic.report->0.dropped.len() as int), width),
                DiagramRole::Warning,
            ),
        ]
    } else {
        Seq::empty()
    }
}

/// The generated pane's lines while no generated diagram is shown.
pub fn generated_impact_content(snap: &UiSnapshot, width: u16) -> (lines: Vec<DiagramLine>)
    ensures
        diagram_lines(lines@) == leading_lines(*snap, width as int) + known_lines(snap.impact, width as int),
{
    let mut lines: Vec<DiagramLine> = Vec::new();
    if !snap.semantic.ai_generated {
        match status_line(&snap.ai) {
            Some(line) => lines.push(line),
            None => {},
        }
    } else {
        let warnings = crate::diagram::leading_annotations(&snap.semantic.report);
        if warnings.len() > 0 {
            proof {
                assert(texts(warnings@)[0] == warnings@[0]@);
            }
            // A sanitized plan gets one concise line; the full reasons stay out of this pane.
            lines.push(
                DiagramLine::plain(
                    truncate_cells(warnings[0].as_str(), width as usize).as_str(),
                    DiagramRole::Warning,
                ),
            );
        } else {
            proof {
                assert(texts(warnings@).len() == 0);
            }
        }
    }
    proof {
        assert(diagram_lines(lines@) =~= leading_lines(*snap, width as int));
    }
    push_known(&mut lines, &snap.impact, width as usize);
    lines
}

/// How a diagram role is painted.
pub open spec fn role_paint(role: DiagramRole) -> Paint {
    match role {
        DiagramRole::Title => bold_paint(ink(Tone::Text)),
        DiagramRole::Text => ink(Tone::Text),
        DiagramRole::Border => ink(Tone::Muted),
        DiagramRole::Muted => ink(Tone::Muted),
        DiagramRole::Selected => bold_paint(ink(Tone::Accent)),
        DiagramRole::Hovered => bold_paint(crate::style::ink_on(Tone::Text, Some(Tone::SelectedBg))),
        DiagramRole::Arrow => ink(Tone::HunkFg),
        DiagramRole::Evidence => ink(Tone::HunkFg),
        DiagramRole::Warning => ink(Tone::Warn),
    }
}

/// How a diagram role is painted.
pub fn paint_role(role: DiagramRole) -> (p: Paint)
    ensures
        p == role_paint(role),
{
    match role {
        DiagramRole::Title => Paint::ink(Tone::Text).bold(),
        DiagramRole::Text => Paint::ink(Tone::Text),
        DiagramRole::Border => Paint::ink(Tone::Muted),
        DiagramRole::Muted => Paint::ink(Tone::Muted),
        DiagramRole::Selected => Paint::ink(Tone::Accent).bold(),
        DiagramRole::Hovered => Paint::ink_on(Tone::Text, Some(Tone::SelectedBg)).bold(),
        DiagramRole::Arrow => Paint::ink(Tone::HunkFg),
        DiagramRole::Evidence => Paint::ink(Tone::HunkFg),
        DiagramRole::Warning => Paint::ink(Tone::Warn),
    }
}

/// A diagram line in paint.
pub open spec fn painted_roles(line: Seq<SpanView>) -> Seq<PieceView> {
    Seq::new(line.len(), |i: int| PieceView { text: line[i].text, paint: role_paint(line[i].role) })
}

/// A diagram line in paint.
pub fn render_diagram_line(line: &DiagramLine) -> (r: PaintedLine)
    ensures
        r@ == painted_roles(line@),
{
    let ghost all = painted_roles(line@);
    let mut r = PaintedLine::empty();
    let mut i: usize = 0;
    proof {
        assert(r@ =~= all.take(0));
    }
    while i < line.spans.len()
        invariant
            i <= line.spans.len() == all.len(),
            all == painted_roles(line@),
            r@ == all.take(i as int),
        decreases line.spans.len() - i,
    {
        r.push(line.spans[i].text.as_str(), paint_role(line.spans[i].role));
        proof {
            assert(all.take(i + 1) =~= all.take(i as int).push(all[i as int]));
        }
        i = i + 1;
    }
    proof {
        assert(all.take(all.len() as int) =~= all);
    }
    r
}

/// A column header.
pub open spec fn header(text: Seq<char>) -> Seq<PieceView> {
    single(text, bold_paint(ink(Tone::Muted)))
}

fn header_line(text: &str) -> (line: PaintedLine)
    ensures
        line@ == header(text@),
{
    PaintedLine::single(text, Paint::ink(Tone::Muted).bold())
}

/// The color of a change.
pub open spec fn change_tone(change: Seq<char>) -> Tone {
    if change == "added"@ { Tone::AddFg } else if change == "removed"@ { Tone::DelFg } else { Tone::Warn }
}

/// The selected-change section: what is selected with its badge, what is said of it, and the
/// pane's note where there is a row for it.
pub open spec fn selected_lines(impact: ImpactPane, width: int, height: int) -> Seq<Seq<PieceView>> {
    match impact.selected_change {
        Some(sel) => {
            let first = seq![
                header("SELECTED CHANGE"@),
                seq![
                    PieceView { text: basename_of(sel.label@), paint: bold_paint(ink(Tone::Accent)) },
                    PieceView {
                        text: if sel.change@.len() == 0 { Seq::empty() } else { "  "@ + sel.change@ },
                        paint: ink(change_tone(sel.change@)),
                    },
                ],
                single(clipped(sel.interpretation@, width), ink(Tone::Muted)),
            ];
            if impact.note@.len() > 0 && height >= 4 {
                first.push(single(clipped(impact.note@, width), ink(Tone::Muted)))
            } else {
                first
            }
        },
        None => seq![header("SELECTED CHANGE"@), single("select a changed file or symbol"@, ink(Tone::Muted))],
    }
}

/// The selected-change section of an area of `width` by `height` cells.
pub fn render_selected_change(impact: &ImpactPane, width: u16, height: u16) -> (lines: Vec<PaintedLine>)
    ensures
        line_views(lines@) == selected_lines(*impact, width as int, height as int),
{
    let mut lines: Vec<PaintedLine> = Vec::new();
    lines.push(header_line("SELECTED CHANGE"));
    match &impact.selected_change {
        Some(sel) => {
            let tone: Tone = if same_text(sel.change, "added") {
                Tone::AddFg
            } else if same_text(sel.change, "removed") {
                Tone::DelFg
            } else {
                Tone::Warn
            };
            let badge = if sel.change.is_empty() { String::new() } else { joined("  ", sel.change) };
            let mut label = PaintedLine::empty();
            label.push(basename(sel.label.as_str()).as_str(), Paint::ink(Tone::Accent).bold());
            label.push(badge.as_str(), Paint::ink(tone));
            proof {
                assert(badge@ =~= if sel.change@.len() == 0 { Seq::empty() } else { "  "@ + sel.change@ });
                assert(label@ =~= seq![
                    PieceView { text: basename_of(sel.label@), paint: bold_paint(ink(Tone::Accent)) },
                    PieceView {
                        text: if sel.change@.len() == 0 { Seq::empty() } else { "  "@ + sel.change@ },
                        paint: ink(change_tone(sel.change@)),
                    },
                ]);
            }
            lines.push(label);
            lines.push(
                PaintedLine::single(
                    truncate_cells(sel.interpretation.as_str(), width as usize).as_str(),
                    Paint::ink(Tone::Muted),
                ),
            );
            if !impact.note.as_str().is_empty() && height >= 4 {
                lines.push(
                    PaintedLine::single(
                        truncate_cells(impact.note.as_str(), width as usize).as_str(),
                        Paint::ink(Tone::Muted),
                    ),
                );
            }
        },
        None => {
            lines.push(PaintedLine::single("select a changed file or symbol", Paint::ink(Tone::Muted)));
        },
    }
    proof {
        assert(line_views(lines@) =~= selected_lines(*impact, width as int, height as int));
    }
    lines
}

/// The first row of a list that is shown: the requested one, but not past the last page.
pub open spec fn list_offset(list: ImpactList, requested: int, room: int) -> int {
    min_int(requested, if room == 0 { 0 } else { monus(list.rows.len() as int, room) })
}

/// The heading of a list: its live count, or an ellipsis while it loads, and how many rows are
/// above the first.
pub open spec fn list_heading(name: Seq<char>, list: ImpactList, offset: int) -> Seq<char> {
    name + " · "@ + (if list.state == ImpactLoadState::Loading {
        "…"@
    } else {
        decimal_of(list.rows.len() as int)
    }) + (if offset > 0 { " · ↑"@ + decimal_of(offset) } else { Seq::empty() })
}

/// One relationship of a list.
pub open spec fn list_row(row: ImpactRow) -> Seq<PieceView> {
    seq![PieceView { text: row.label@, paint: ink(if row.changed { Tone::Warn } else { Tone::Text }) }] + (
    if row.relation@.len() == 0 {
        Seq::empty()
    } else {
        seq![PieceView { text: "  "@ + row.relation@, paint: ink(Tone::Muted) }]
    }) + (if row.has_diagnostic {
        seq![PieceView { text: " !"@, paint: ink(Tone::Error) }]
    } else {
        Seq::empty()
    })
}

/// What an empty list says.
pub open spec fn empty_note(state: ImpactLoadState) -> Seq<char> {
    match state {
        ImpactLoadState::Loading => "loading…"@,
        ImpactLoadState::Unavailable => "unavailable"@,
        ImpactLoadState::Idle => "select a symbol"@,
        ImpactLoadState::Ready => "none"@,
    }
}

/// Rows `from..to` of a list.
pub open spec fn list_rows(rows: Seq<ImpactRow>, from: int, to: int) -> Seq<Seq<PieceView>> {
    Seq::new((to - from) as nat, |i: int| list_row(rows[from + i]))
}

/// A callers or downstream section: its heading, then as many rows as there is room for from
/// the offset on; where rows remain, the last line counts them instead.
pub open spec fn list_lines(name: Seq<char>, list: ImpactList, requested: int, height: int) -> Seq<Seq<PieceView>> {
    let room = monus(height, 1);
    let offset = list_offset(list, requested, room);
    let left = list.rows.len() - offset;
    let first = seq![header(list_heading(name, list, offset))];
    if list.rows.len() == 0 {
        first.push(single(empty_note(list.state), ink(Tone::Muted)))
    } else if left > room && room > 0 {
        (first + list_rows(list.rows@, offset, offset + room - 1)).push(
            single("… +"@ + decimal_of(left - (room - 1)) + " more"@, ink(Tone::Muted)),
        )
    } else {
        first + list_rows(list.rows@, offset, offset + min_int(left, room))
    }
}

fn row_line(row: &ImpactRow) -> (line: PaintedLine)
    ensures
        line@ == list_row(*row),
{
    let mut line = PaintedLine::empty();
    line.push(row.label.as_str(), Paint::ink(if row.changed { Tone::Warn } else { Tone::Text }));
    if !row.relation.is_empty() {
        line.push(joined("  ", row.relation).as_str(), Paint::ink(Tone::Muted));
    }
    if row.has_diagnostic {
        line.push(" !", Paint::ink(Tone::Error));
    }
    proof {
        assert(line@ =~= list_row(*row));
    }
    line
}

/// A callers or downstream section of an area of `height` rows.
pub fn render_impact_list(name: &str, list: &ImpactList, requested_offset: usize, height: u16) -> (lines: Vec<
    PaintedLine,
>)
    ensures
        line_views(lines@) == list_lines(name@, *list, requested_offset as int, height as int),
{
    let room: usize = (height as usize).saturating_sub(1);
    let total: usize = list.rows.len();
    let max_offset: usize = if room == 0 { 0 } else { total.saturating_sub(room) };
    let offset: usize = min_usize(requested_offset, max_offset);
    let mut text = joined(name, " · ");
    if list.state == ImpactLoadState::Loading {
        text.append("…");
    } else {
        text.append(decimal(total as u64).as_str());
    }
    if offset > 0 {
        text.append(" · ↑");
        text.append(decimal(offset as u64).as_str());
    }
    proof {
        assert(text@ =~= list_heading(name@, *list, offset as int));
    }
    let mut lines: Vec<PaintedLine> = Vec::new();
    lines.push(header_line(text.as_str()));
    let ghost first = seq![header(list_heading(name@, *list, offset as int))];
    proof {
        assert(line_views(lines@) =~= first);
    }
    if total == 0 {
        let note: &str = match list.state {
            ImpactLoadState::Loading => "loading…",
            ImpactLoadState::Unavailable => "unavailable",
            ImpactLoadState::Idle => "select a symbol",
            ImpactLoadState::Ready => "none",
        };
        lines.push(PaintedLine::single(note, Paint::ink(Tone::Muted)));
        proof {
            assert(line_views(lines@) =~= list_lines(name@, *list, requested_offset as int, height as int));
        }
        return lines;
    }
    let left: usize = total - offset;
    let more: bool = left > room && room > 0;
    let shown: usize = if more { room - 1 } else { min_usize(left, room) };
    let mut i: usize = 0;
    proof {
        assert(line_views(lines@) =~= first + list_rows(list.rows@, offset as int, offset as int));
    }
    while i < shown
        invariant
            i <= shown,
            offset + shown <= total == list.rows.len(),
            line_views(lines@) == first + list_rows(list.rows@, offset as int, offset + i),
        decreases shown - i,
    {
        let ghost before = line_views(lines@);
        let line = row_line(&list.rows[offset + i]);
        let ghost added = line@;
        lines.push(line);
        proof {
            assert(line_views(lines@) =~= before.push(added));
            assert(list_rows(list.rows@, offset as int, offset + i + 1) =~= list_rows(
                list.rows@,
                offset as int,
                offset + i,
            ).push(added));
            assert(line_views(lines@) =~= first + list_rows(list.rows@, offset as int, offset + i + 1));
        }
        i = i + 1;
    }
    if more {
        let mut rest = joined("… +", decimal((left - (room - 1)) as u64).as_str());
        rest.append(" more");
        lines.push(PaintedLine::single(rest.as_str(), Paint::ink(Tone::Muted)));
        proof {
            assert(rest@ =~= "… +"@ + decimal_of(left - (room - 1)) + " more"@);
        }
    }
    proof {
        assert(line_views(lines@) =~= list_lines(name@, *list, requested_offset as int, height as int));
    }
    lines
}

/// A section is never taller than its area, beyond its heading.
pub proof fn law_sections_fit(name: Seq<char>, list: ImpactList, requested: int, height: int)
    requires
        0 <= requested,
        2 <= height,
    ensures
        list_lines(name, list, requested, height).len() <= height,
{
}

} // verus!
