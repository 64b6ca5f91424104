//! The changed-files pane: one row per file, and under an open file its changed symbols.

use vstd::prelude::*;
use crate::app::{app_view, App, AppView, Pane};
use crate::chrome::{piece, zoom_suffix, zoom_tag};
use crate::diff_view::{clipped, truncate_cells};
use crate::elide::{elide_paths, elided_path};
use crate::num::{max_int, max_usize, min_int, min_usize, monus};
use crate::snapshot::{FileRow, FileSemanticLoad, SymbolRow};
use crate::style::{bold_paint, ink, ink_on, line_views, plain_paint, single, Paint, PaintedLine, PieceView, Tone};
use crate::text::{chars_of, display_width, joined, same_text, slices, str_width, text_of};
use crate::wrap::{decimal, decimal_of, repeat_of, repeated};

verus! {

/// The directory part of a path, with its last slash, ends before this index.
pub open spec fn name_start(path: Seq<char>, n: int) -> int
    decreases n,
{
    if n <= 0 {
        0
    } else if path[n - 1] == '/' {
        n
    } else {
        name_start(path, n - 1)
    }
}

/// Split a display path into its directory prefix (with trailing `/`) and basename.
pub fn split_dir_basename(display: &str) -> (r: (String, String))
    ensures
        r.0@ == display@.take(name_start(display@, display@.len() as int)),
        r.1@ == display@.skip(name_start(display@, display@.len() as int)),
{
    let chars = chars_of(display);
    let mut n: usize = chars.len();
    while n > 0 && chars[n - 1] != '/'
        invariant
            n <= chars.len(),
            chars@ == display@,
            name_start(display@, display@.len() as int) == name_start(display@, n as int),
        decreases n,
    {
        n = n - 1;
    }
    let r = (text_of(&chars, 0, n), text_of(&chars, n, chars.len()));
    proof {
        assert(r.0@ =~= display@.take(n as int));
        assert(r.1@ =~= display@.skip(n as int));
    }
    r
}

/// The color of a file status: `A`/`?` added, `D` removed, `R` renamed, `U` in conflict,
/// anything else modified.
pub open spec fn status_tone(status: Seq<char>) -> Tone {
    if status == "A"@ || status == "?"@ {
        Tone::AddFg
    } else if status == "D"@ {
        Tone::DelFg
    } else if status == "R"@ {
        Tone::Accent
    } else if status == "U"@ {
        Tone::Error
    } else {
        Tone::Warn
    }
}

/// The color of a file status.
pub fn status_color(status: &str) -> (tone: Tone)
    ensures
        tone == status_tone(status@),
{
    if same_text(status, "A") || same_text(status, "?") {
        Tone::AddFg
    } else if same_text(status, "D") {
        Tone::DelFg
    } else if same_text(status, "R") {
        Tone::Accent
    } else if same_text(status, "U") {
        Tone::Error
    } else {
        Tone::Warn
    }
}

/// The glyph of a symbol change: `+` added, `-` removed, `~` anything else.
pub open spec fn glyph_of(change: Seq<char>) -> Seq<char> {
    if change == "added"@ {
        "+"@
    } else if change == "removed"@ {
        "-"@
    } else {
        "~"@
    }
}

/// The glyph of a symbol change.
pub fn change_glyph(change: &str) -> (glyph: &'static str)
    ensures
        glyph@ == glyph_of(change@),
{
    if same_text(change, "added") {
        "+"
    } else if same_text(change, "removed") {
        "-"
    } else {
        "~"
    }
}

/// Added and removed lines of a file.
pub open spec fn loc_text(f: FileRow) -> Seq<char> {
    "+"@ + decimal_of(f.added_lines as int) + " -"@ + decimal_of(f.removed_lines as int)
}

/// Whether a file has line counts.
pub open spec fn has_loc(f: FileRow) -> bool {
    f.added_lines > 0 || f.removed_lines > 0
}

/// The cells of the widest line counts of the first `n` files.
pub open spec fn loc_cells(files: Seq<FileRow>, n: int) -> int
    decreases n,
{
    if n <= 0 {
        0
    } else if has_loc(files[n - 1]) {
        max_int(loc_cells(files, n - 1), display_width(loc_text(files[n - 1])) as int)
    } else {
        loc_cells(files, n - 1)
    }
}

/// The cells of the line-count column: none where they would leave fewer than ten cells for
/// a path behind the four cells in front and the gap.
pub open spec fn shown_loc(files: Seq<FileRow>, inner_w: int) -> int {
    let cells = loc_cells(files, files.len() as int);
    if inner_w >= 15 + cells {
        cells
    } else {
        0
    }
}

/// The cells of a path.
pub open spec fn path_cells(files: Seq<FileRow>, inner_w: int) -> int {
    let loc = shown_loc(files, inner_w);
    if loc > 0 {
        monus(inner_w, 5 + loc)
    } else {
        monus(inner_w, 4)
    }
}

fn widest_loc(files: &Vec<FileRow>) -> (cells: usize)
    ensures
        cells == loc_cells(files@, files.len() as int),
{
    let mut cells: usize = 0;
    let mut n: usize = 0;
    while n < files.len()
        invariant
            n <= files.len(),
            cells == loc_cells(files@, n as int),
        decreases files.len() - n,
    {
        let f: &FileRow = &files[n];
        if f.added_lines > 0 || f.removed_lines > 0 {
            let mut text = joined("+", decimal(f.added_lines as u64).as_str());
            text.append(" -");
            text.append(decimal(f.removed_lines as u64).as_str());
            cells = max_usize(cells, str_width(text.as_str()));
        }
        n = n + 1;
    }
    cells
}

/// The cells of the line-count column and of a path in a row of some width.
pub(crate) fn path_columns(files: &Vec<FileRow>, inner_w: usize) -> (r: (usize, usize))
    requires
        inner_w <= u16::MAX,
    ensures
        r.0 == shown_loc(files@, inner_w as int),
        r.1 == path_cells(files@, inner_w as int),
{
    let widest: usize = widest_loc(files);
    let loc: usize = if inner_w >= 15 && widest <= inner_w - 15 { widest } else { 0 };
    let budget: usize = if loc > 0 {
        inner_w.saturating_sub(5 + loc)
    } else {
        inner_w.saturating_sub(4)
    };
    (loc, budget)
}

/// One file row: status + disclosure + path (directories muted, basename bright, bold when
/// active) padded to its column, then optional right-aligned line counts.
pub open spec fn file_line(
    f: FileRow,
    display: Seq<char>,
    loc: int,
    budget: int,
    inner_w: int,
    active: bool,
    bg: Option<Tone>,
) -> Seq<PieceView> {
    let base = ink_on(Tone::Text, bg);
    let start = name_start(display, display.len() as int);
    let cells = display_width(display) as int;
    let pad = monus(budget, cells);
    let used = 4 + cells + pad + (if loc > 0 { 1 + loc } else { 0 });
    seq![
        piece(f.status@, ink_on(status_tone(f.status@), bg)),
        piece(" "@, base),
        piece(if f.expanded { "▾"@ } else { "▸"@ }, ink_on(Tone::Muted, bg)),
        piece(" "@, base),
        piece(display.take(start), ink_on(Tone::Muted, bg)),
        piece(display.skip(start), if active { bold_paint(base) } else { base }),
        piece(repeat_of(' ', pad), base),
    ] + loc_pieces(f, loc, base, bg) + seq![piece(repeat_of(' ', monus(inner_w, used)), base)]
}

/// The line-count column of a file row.
pub open spec fn loc_pieces(f: FileRow, loc: int, base: Paint, bg: Option<Tone>) -> Seq<PieceView> {
    let added = "+"@ + decimal_of(f.added_lines as int);
    let removed = "-"@ + decimal_of(f.removed_lines as int);
    if loc <= 0 {
        Seq::empty()
    } else if has_loc(f) {
        seq![
            piece(" "@, base),
            piece(repeat_of(' ', monus(loc, (display_width(added) + 1 + display_width(removed)) as int)), base),
            piece(added, ink_on(Tone::AddFg, bg)),
            piece(" "@, base),
            piece(removed, ink_on(Tone::DelFg, bg)),
        ]
    } else {
        seq![piece(" "@, base), piece(repeat_of(' ', loc), base)]
    }
}

fn push_loc(line: &mut PaintedLine, f: &FileRow, loc: usize, base: Paint, bg: Option<Tone>)
    ensures
        final(line)@ == old(line)@ + loc_pieces(*f, loc as int, base, bg),
{
    let ghost before = line@;
    if loc > 0 {
        line.push(" ", base);
        if f.added_lines > 0 || f.removed_lines > 0 {
            let added = joined("+", decimal(f.added_lines as u64).as_str());
            let removed = joined("-", decimal(f.removed_lines as u64).as_str());
            let pad: usize = loc.saturating_sub(str_width(added.as_str())).saturating_sub(1).saturating_sub(
                str_width(removed.as_str()),
            );
            line.push(repeated(' ', pad).as_str(), base);
            line.push(added.as_str(), Paint::ink_on(Tone::AddFg, bg));
            line.push(" ", base);
            line.push(removed.as_str(), Paint::ink_on(Tone::DelFg, bg));
        } else {
            line.push(repeated(' ', loc).as_str(), base);
        }
    }
    proof {
        assert(line@ =~= before + loc_pieces(*f, loc as int, base, bg));
    }
}

/// One file row.
pub fn file_row_line(
    f: &FileRow,
    display: &str,
    loc_width: usize,
    path_budget: usize,
    inner_w: usize,
    active: bool,
    bg: Option<Tone>,
) -> (line: PaintedLine)
    ensures
        line@ == file_line(*f, display@, loc_width as int, path_budget as int, inner_w as int, active, bg),
{
    let base: Paint = Paint::ink_on(Tone::Text, bg);
    let (dirs, name) = split_dir_basename(display);
    let cells: usize = str_width(display);
    let pad: usize = path_budget.saturating_sub(cells);
    let before_loc: usize = inner_w.saturating_sub(4).saturating_sub(cells).saturating_sub(pad);
    let trailing: usize = if loc_width > 0 {
        before_loc.saturating_sub(1).saturating_sub(loc_width)
    } else {
        before_loc
    };
    let mut line = PaintedLine::empty();
    line.push(f.status, Paint::ink_on(status_color(f.status), bg));
    line.push(" ", base);
    line.push(if f.expanded { "▾" } else { "▸" }, Paint::ink_on(Tone::Muted, bg));
    line.push(" ", base);
    line.push(dirs.as_str(), Paint::ink_on(Tone::Muted, bg));
    line.push(name.as_str(), if active { base.bold() } else { base });
    line.push(repeated(' ', pad).as_str(), base);
    push_loc(&mut line, f, loc_width, base, bg);
    line.push(repeated(' ', trailing).as_str(), base);
    proof {
        assert(line@ =~= file_line(
            *f,
            display@,
            loc_width as int,
            path_budget as int,
            inner_w as int,
            active,
            bg,
        ));
    }
    line
}

/// An indented muted note row under an expanded file.
pub open spec fn note_line(text: Seq<char>, inner_w: int) -> Seq<PieceView> {
    let shown = clipped(text, monus(inner_w, 6));
    let start = seq![piece(repeat_of(' ', 6), plain_paint()), piece(shown, ink(Tone::Muted))];
    if 6 + display_width(shown) < inner_w {
        start.push(piece(repeat_of(' ', inner_w - 6 - display_width(shown)), plain_paint()))
    } else {
        start
    }
}

/// An indented muted note row under an expanded file (loading / unsupported / failed /
/// analyzed-but-empty states; never selectable).
pub fn semantic_note_line(text: &str, inner_w: usize) -> (line: PaintedLine)
    ensures
        line@ == note_line(text@, inner_w as int),
{
    let shown = truncate_cells(text, inner_w.saturating_sub(6));
    let cells: usize = str_width(shown.as_str());
    let mut line = PaintedLine::empty();
    line.push(repeated(' ', 6).as_str(), Paint::plain());
    line.push(shown.as_str(), Paint::ink(Tone::Muted));
    if inner_w > 6 && cells < inner_w - 6 {
        line.push(repeated(' ', inner_w - 6 - cells).as_str(), Paint::plain());
    }
    proof {
        assert(line@ =~= note_line(text@, inner_w as int));
    }
    line
}

/// The markers at the right of a symbol row.
pub open spec fn symbol_markers(s: SymbolRow) -> Seq<char> {
    s.confidence@ + (if s.has_diagnostic { "!"@ } else { Seq::empty() })
}

/// The markers of a symbol row as pieces.
pub open spec fn marker_pieces(s: SymbolRow, bg: Option<Tone>) -> Seq<PieceView> {
    (if s.confidence@.len() > 0 {
        seq![piece(s.confidence@, ink_on(Tone::Muted, bg))]
    } else {
        Seq::empty()
    }) + (if s.has_diagnostic { seq![piece("!"@, ink_on(Tone::Error, bg))] } else { Seq::empty() })
}

/// One expanded symbol row: 4-cell indent, change glyph, name; confidence and diagnostic
/// markers at the right when they fit.
pub open spec fn symbol_line(s: SymbolRow, active: bool, inner_w: int) -> Seq<PieceView> {
    let bg = if active { Some(Tone::SelectedBg) } else { None };
    let base = ink_on(Tone::Text, bg);
    let start = seq![
        piece("    "@, base),
        piece(glyph_of(s.change@), ink_on(status_tone(glyph_of(s.change@)), bg)),
        piece(" "@, base),
        piece(s.name@, if active { bold_paint(base) } else { base }),
    ];
    let used = 6 + display_width(s.name@);
    let right = symbol_markers(s);
    if right.len() > 0 && used + display_width(right) < inner_w {
        start + seq![piece(repeat_of(' ', inner_w - used - display_width(right)), base)] + marker_pieces(s, bg) + seq![
            piece(Seq::empty(), base),
        ]
    } else {
        start + seq![piece(repeat_of(' ', monus(inner_w, used as int)), base)]
    }
}

/// One expanded symbol row.
pub fn symbol_row_line(s: &SymbolRow, active: bool, inner_w: usize) -> (line: PaintedLine)
    requires
        inner_w <= u16::MAX,
    ensures
        line@ == symbol_line(*s, active, inner_w as int),
{
    let bg: Option<Tone> = if active { Some(Tone::SelectedBg) } else { None };
    let base: Paint = Paint::ink_on(Tone::Text, bg);
    let glyph: &str = change_glyph(s.change);
    let mut line = PaintedLine::empty();
    line.push("    ", base);
    line.push(glyph, Paint::ink_on(status_color(glyph), bg));
    line.push(" ", base);
    line.push(s.name.as_str(), if active { base.bold() } else { base });
    let mut right = s.confidence.to_owned();
    if s.has_diagnostic {
        right.append("!");
    }
    proof {
        assert(right@ =~= symbol_markers(*s));
    }
    let used: u128 = 6 + str_width(s.name.as_str()) as u128;
    let right_w: usize = str_width(right.as_str());
    if !right.as_str().is_empty() && used + (right_w as u128) < inner_w as u128 {
        let pad: usize = (inner_w as u128 - used - right_w as u128) as usize;
        line.push(repeated(' ', pad).as_str(), base);
        if !s.confidence.is_empty() {
            line.push(s.confidence, Paint::ink_on(Tone::Muted, bg));
        }
        if s.has_diagnostic {
            line.push("!", Paint::ink_on(Tone::Error, bg));
        }
        line.push("", base);
        proof {
            reveal_strlit("");
            assert(""@ =~= Seq::<char>::empty());
        }
    } else {
        let rest: usize = inner_w.saturating_sub(6).saturating_sub(str_width(s.name.as_str()));
        line.push(repeated(' ', rest).as_str(), base);
    }
    proof {
        assert(line@ =~= symbol_line(*s, active, inner_w as int));
    }
    line
}

/// Whether a file shows symbol rows.
pub open spec fn lists_symbols(f: FileRow) -> bool {
    f.expanded && f.semantic == FileSemanticLoad::Ready && f.symbols.len() > 0
}

/// What an open file says where it shows no symbols.
pub open spec fn note_of(f: FileRow) -> Seq<char> {
    match f.semantic {
        FileSemanticLoad::Loading | FileSemanticLoad::Unloaded => "… analyzing symbols"@,
        FileSemanticLoad::Unsupported => "semantic analysis unavailable"@,
        FileSemanticLoad::Failed => "analysis failed — retries after file change"@,
        FileSemanticLoad::Ready => "no changed symbols mapped"@,
    }
}

/// The selectable rows before file `n`: one per file and one per listed symbol. Notes are
/// not selectable.
pub open spec fn flat_before(files: Seq<FileRow>, n: int) -> int
    decreases n,
{
    if n <= 0 {
        0
    } else {
        flat_before(files, n - 1) + 1 + (if lists_symbols(files[n - 1]) {
            files[n - 1].symbols.len() as int
        } else {
            0
        })
    }
}

/// Whether the selected row is file `i`.
pub open spec fn is_active(files: Seq<FileRow>, i: int, sel: int) -> bool {
    flat_before(files, i) == sel
}

/// Whether the selected row is a symbol of file `i`.
pub open spec fn owns_selection(files: Seq<FileRow>, i: int, sel: int) -> bool {
    flat_before(files, i) < sel < flat_before(files, i + 1)
}

/// The background of a file row: the selection, or the file that owns it.
pub open spec fn file_bg(files: Seq<FileRow>, i: int, sel: int) -> Option<Tone> {
    if is_active(files, i, sel) {
        Some(Tone::SelectedBg)
    } else if owns_selection(files, i, sel) {
        Some(Tone::OwnerBg)
    } else {
        None
    }
}

/// The rows under an open file.
pub open spec fn child_lines(files: Seq<FileRow>, i: int, sel: int, inner_w: int) -> Seq<Seq<PieceView>> {
    let f = files[i];
    if !f.expanded {
        Seq::empty()
    } else if lists_symbols(f) {
        Seq::new(
            f.symbols.len() as nat,
            |k: int| symbol_line(f.symbols[k], flat_before(files, i) + 1 + k == sel, inner_w),
        )
    } else {
        seq![note_line(note_of(f), inner_w)]
    }
}

/// The paths of files.
pub open spec fn paths_of(files: Seq<FileRow>) -> Seq<Seq<char>> {
    Seq::new(files.len(), |i: int| files[i].path@)
}

/// The rows of the first `n` files.
pub open spec fn file_lines(files: Seq<FileRow>, sel: int, inner_w: int, n: int) -> Seq<Seq<PieceView>>
    decreases n,
{
    if n <= 0 {
        Seq::empty()
    } else {
        let i = n - 1;
        let budget = path_cells(files, inner_w);
        file_lines(files, sel, inner_w, i) + seq![
            file_line(
                files[i],
                elided_path(paths_of(files), i, budget),
                shown_loc(files, inner_w),
                budget,
                inner_w,
                is_active(files, i, sel),
                file_bg(files, i, sel),
            ),
        ] + child_lines(files, i, sel, inner_w)
    }
}

/// All rows of the pane; a note where no file changed.
pub open spec fn pane_lines(files: Seq<FileRow>, sel: int, inner_w: int) -> Seq<Seq<PieceView>> {
    if files.len() == 0 {
        seq![single("  no changes in this scope"@, ink(Tone::Muted))]
    } else {
        file_lines(files, sel, inner_w, files.len() as int)
    }
}

fn push_line(out: &mut Vec<PaintedLine>, line: PaintedLine)
    ensures
        line_views(final(out)@) == line_views(old(out)@).push(line@),
        final(out).len() == old(out).len() + 1,
{
    let ghost before = line_views(out@);
    out.push(line);
    proof {
        assert(line_views(out@) =~= before.push(line@));
    }
}

pub(crate) fn note_text(f: &FileRow) -> (text: &'static str)
    ensures
        text@ == note_of(*f),
{
    match f.semantic {
        FileSemanticLoad::Loading | FileSemanticLoad::Unloaded => "… analyzing symbols",
        FileSemanticLoad::Unsupported => "semantic analysis unavailable",
        FileSemanticLoad::Failed => "analysis failed — retries after file change",
        FileSemanticLoad::Ready => "no changed symbols mapped",
    }
}

/// How far the selected row is behind row `flat`; nothing where it is before it.
pub open spec fn is_distance(rest: Option<usize>, flat: int, sel: int) -> bool {
    match rest {
        Some(r) => r == sel - flat,
        None => sel < flat,
    }
}

fn push_children(out: &mut Vec<PaintedLine>, files: &Vec<FileRow>, i: usize, rest: Option<usize>, sel: usize, inner_w: usize)
    requires
        i < files.len(),
        is_distance(rest, flat_before(files@, i as int), sel as int),
        inner_w <= u16::MAX,
    ensures
        line_views(final(out)@) == line_views(old(out)@) + child_lines(files@, i as int, sel as int, inner_w as int),
{
    let ghost start = line_views(out@);
    let ghost rows = child_lines(files@, i as int, sel as int, inner_w as int);
    let f: &FileRow = &files[i];
    if !f.expanded {
        proof {
            assert(start + rows =~= start);
        }
        return;
    }
    if f.semantic == FileSemanticLoad::Ready && f.symbols.len() > 0 {
        let mut k: usize = 0;
        proof {
            assert(start + rows.take(0) =~= start);
        }
        while k < f.symbols.len()
            invariant
                k <= f.symbols.len() == rows.len(),
                i < files.len(),
                *f == files@[i as int],
                lists_symbols(*f),
                is_distance(rest, flat_before(files@, i as int), sel as int),
                inner_w <= u16::MAX,
                rows == child_lines(files@, i as int, sel as int, inner_w as int),
                line_views(out@) == start + rows.take(k as int),
            decreases f.symbols.len() - k,
        {
            let active: bool = match rest {
                Some(r) => r > 0 && r - 1 == k,
                None => false,
            };
            let line = symbol_row_line(&f.symbols[k], active, inner_w);
            proof {
                assert(line@ == rows[k as int]);
                assert(rows.take(k + 1) =~= rows.take(k as int).push(rows[k as int]));
            }
            push_line(out, line);
            proof {
                assert(line_views(out@) =~= start + rows.take(k + 1));
            }
            k = k + 1;
        }
        proof {
            assert(rows.take(rows.len() as int) =~= rows);
        }
    } else {
        push_line(out, semantic_note_line(note_text(f), inner_w));
        proof {
            assert(line_views(out@) =~= start + rows);
        }
    }
}

fn display_paths(files: &Vec<FileRow>, budget: usize) -> (out: Vec<String>)
    ensures
        out.len() == files.len(),
        forall|i: int| #![trigger out@[i]] 0 <= i < out.len() ==> out@[i]@ == elided_path(
            paths_of(files@),
            i,
            budget as int,
        ),
{
    let mut paths: Vec<&str> = Vec::new();
    while paths.len() < files.len()
        invariant
            paths.len() <= files.len(),
            forall|i: int| #![trigger paths@[i]] 0 <= i < paths.len() ==> paths@[i]@ == files@[i].path@,
        decreases files.len() - paths.len(),
    {
        let path: &str = files[paths.len()].path.as_str();
        paths.push(path);
    }
    proof {
        assert(slices(paths@) =~= paths_of(files@));
    }
    elide_paths(paths.as_slice(), budget)
}

/// The rows of the files pane for a selected row, in a pane of some width.
pub fn files_lines(files: &Vec<FileRow>, sel: usize, width: u16) -> (out: Vec<PaintedLine>)
    ensures
        line_views(out@) == pane_lines(files@, sel as int, monus(width as int, 2)),
{
    let inner_w: usize = (width as usize).saturating_sub(2);
    let mut out: Vec<PaintedLine> = Vec::new();
    if files.len() == 0 {
        push_line(&mut out, PaintedLine::single("  no changes in this scope", Paint::ink(Tone::Muted)));
        proof {
            assert(line_views(out@) =~= seq![single("  no changes in this scope"@, ink(Tone::Muted))]);
        }
        return out;
    }
    let (loc, budget) = path_columns(files, inner_w);
    let display = display_paths(files, budget);
    let mut rest: Option<usize> = Some(sel);
    let mut i: usize = 0;
    proof {
        assert(line_views(out@) =~= Seq::empty());
    }
    while i < files.len()
        invariant
            i <= files.len() == display.len(),
            inner_w <= u16::MAX,
            loc == shown_loc(files@, inner_w as int),
            budget == path_cells(files@, inner_w as int),
            is_distance(rest, flat_before(files@, i as int), sel as int),
            forall|k: int| #![trigger display@[k]] 0 <= k < display.len() ==> display@[k]@ == elided_path(
                paths_of(files@),
                k,
                budget as int,
            ),
            line_views(out@) == file_lines(files@, sel as int, inner_w as int, i as int),
        decreases files.len() - i,
    {
        let f: &FileRow = &files[i];
        let children: usize = if f.expanded && f.semantic == FileSemanticLoad::Ready && f.symbols.len() > 0 {
            f.symbols.len()
        } else {
            0
        };
        let (active, owner, next): (bool, bool, Option<usize>) = match rest {
            Some(r) => (r == 0, 0 < r && r <= children, if r > children { Some(r - 1 - children) } else { None }),
            None => (false, false, None),
        };
        let bg: Option<Tone> = if active {
            Some(Tone::SelectedBg)
        } else if owner {
            Some(Tone::OwnerBg)
        } else {
            None
        };
        let ghost before = line_views(out@);
        let line = file_row_line(f, display[i].as_str(), loc, budget, inner_w, active, bg);
        let ghost shown = line@;
        push_line(&mut out, line);
        push_children(&mut out, files, i, rest, sel, inner_w);
        proof {
            assert(before.push(shown) =~= before + seq![shown]);
        }
        rest = next;
        i = i + 1;
    }
    out
}

/// The rows of the files pane that its viewport shows.
pub open spec fn shown_lines(files: Seq<FileRow>, v: AppView, width: int, height: int) -> Seq<Seq<PieceView>> {
    let all = pane_lines(files, v.file_sel, monus(width, 2));
    let capacity = monus(height, 2);
    let first = min_int(App::first_visible_row(v, capacity), all.len() as int);
    all.subrange(first, min_int(first + max_int(capacity, 1), all.len() as int))
}

/// The title of the pane, and how many files it lists.
pub open spec fn files_titles(files: int, v: AppView) -> (Seq<PieceView>, Seq<PieceView>) {
    (
        single(" Changed files"@ + zoom_suffix(v, Pane::Files) + " "@, ink(Tone::Text)),
        single(decimal_of(files) + " "@, ink(Tone::Muted)),
    )
}

/// The title of the pane, and how many files it lists.
pub fn files_title(app: &App, files: usize) -> (r: (PaintedLine, PaintedLine))
    ensures
        (r.0@, r.1@) == files_titles(files as int, app@),
{
    let mut left = joined(" Changed files", zoom_tag(app, Pane::Files));
    left.append(" ");
    let right = joined(decimal(files as u64).as_str(), " ");
    (
        PaintedLine::single(left.as_str(), Paint::ink(Tone::Text)),
        PaintedLine::single(right.as_str(), Paint::ink(Tone::Muted)),
    )
}

/// The rows of the files pane that its viewport shows.
pub fn visible_files(app: &App, files: &Vec<FileRow>, width: u16, height: u16) -> (out: Vec<PaintedLine>)
    ensures
        line_views(out@) == shown_lines(files@, app@, width as int, height as int),
{
    let sel: usize = app.file_sel;
    proof {
        reveal(app_view);
        assert(sel == app@.file_sel);
    }
    let mut all = files_lines(files, sel, width);
    let ghost views = line_views(all@);
    let capacity: usize = (height as usize).saturating_sub(2);
    let first: usize = min_usize(app.files_first_visible(capacity), all.len());
    let shown: usize = max_usize(capacity, 1);
    proof {
        assert(views.len() == all.len());
    }
    let end: usize = if shown > all.len() - first { all.len() } else { first + shown };
    let mut out = all.split_off(first);
    let ghost tail = out@;
    out.truncate(end - first);
    proof {
        assert(line_views(out@) =~= views.subrange(first as int, end as int));
    }
    out
}

/// Selection: at most one row of the pane is the selected one, and it is drawn as such.
pub proof fn law_selected_row_is_unique(files: Seq<FileRow>, i: int, j: int, sel: int)
    requires
        0 <= i < j < files.len(),
    ensures
        !(is_active(files, i, sel) && is_active(files, j, sel)),
        !(is_active(files, i, sel) && owns_selection(files, j, sel)),
        !(owns_selection(files, i, sel) && is_active(files, j, sel)),
        !(owns_selection(files, i, sel) && owns_selection(files, j, sel)),
{
    lemma_flat_grows(files, i + 1, j);
}

proof fn lemma_flat_grows(files: Seq<FileRow>, a: int, b: int)
    requires
        0 <= a <= b <= files.len(),
    ensures
        flat_before(files, a) <= flat_before(files, b),
    decreases b - a,
{
    if b > a {
        lemma_flat_grows(files, a, b - 1);
    }
}

/// The first file from `i` on whose row or symbol row is the selected one.
pub open spec fn highlighted_file(files: Seq<FileRow>, sel: int, i: int) -> Option<int>
    decreases files.len() - i,
{
    if 0 <= i < files.len() {
        if is_active(files, i, sel) || owns_selection(files, i, sel) {
            Some(i)
        } else {
            highlighted_file(files, sel, i + 1)
        }
    } else {
        None
    }
}

/// The file that the pane highlights.
pub fn find_highlighted(files: &Vec<FileRow>, sel: usize) -> (r: Option<usize>)
    ensures
        match r {
            Some(i) => highlighted_file(files@, sel as int, 0) == Some(i as int) && i < files.len(),
            None => highlighted_file(files@, sel as int, 0) is None,
        },
{
    let mut rest: Option<usize> = Some(sel);
    let mut i: usize = 0;
    while i < files.len()
        invariant
            i <= files.len(),
            is_distance(rest, flat_before(files@, i as int), sel as int),
            highlighted_file(files@, sel as int, 0) == highlighted_file(files@, sel as int, i as int),
        decreases files.len() - i,
    {
        let f: &FileRow = &files[i];
        let children: usize = if f.expanded && f.semantic == FileSemanticLoad::Ready && f.symbols.len() > 0 {
            f.symbols.len()
        } else {
            0
        };
        match rest {
            Some(r) => {
                if r <= children {
                    return Some(i);
                }
                rest = Some(r - 1 - children);
            },
            None => {},
        }
        i = i + 1;
    }
    None
}

} // verus!
