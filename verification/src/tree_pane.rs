//! The changed-files pane as a tree of directories, files and language-server objects: one
//! line for each row that can be hit, with room for a review marker at its right.

use vstd::prelude::*;
use crate::app::{app_view, selected_symbol, App, AppView};
use crate::chrome::{basename, basename_of, piece};
use crate::diff_view::{clipped, truncate_cells};
use crate::elide::{elide_paths, elided_path};
use crate::file_rows::{projection, row_views, ProjectedRow, RowView};
use crate::files_pane::{
    file_line, file_row_line, note_line, note_of, note_text, path_cells, path_columns, semantic_note_line, shown_loc,
    symbol_line, symbol_row_line,
};
use crate::geometry::shown_rows;
use crate::num::{min_int, min_usize, monus};
use crate::rect::Rect;
use crate::snapshot::{FileRow, SymbolRow};
use crate::style::{bold_paint, ink, ink_on, line_views, single, Paint, PaintedLine, PieceView, Tone};
use crate::table::KeySet;
use crate::text::{display_width, slices, str_width};
use crate::wrap::{repeat_of, repeated};

verus! {

/// The cells at the right of a row that its review marker needs.
pub const MARKER_CELLS: u16 = 2;

/// The cells before a row of some depth: two for each level, at most half the row.
pub open spec fn indent_of(depth: int, width: int) -> int {
    min_int(2 * depth, width / 2)
}

fn indent(depth: usize, width: usize) -> (cells: usize)
    requires
        width <= u16::MAX,
    ensures
        cells == indent_of(depth as int, width as int),
{
    if depth >= width {
        width / 2
    } else {
        min_usize(2 * depth, width / 2)
    }
}

/// The background of a row: the selection, or the file that owns it.
pub open spec fn row_bg(active: bool, owner: bool) -> Option<Tone> {
    if active {
        Some(Tone::SelectedBg)
    } else if owner {
        Some(Tone::OwnerBg)
    } else {
        None
    }
}

/// A line behind free cells.
pub open spec fn indented(cells: int, bg: Option<Tone>, line: Seq<PieceView>) -> Seq<PieceView> {
    seq![piece(repeat_of(' ', cells), ink_on(Tone::Text, bg))] + line
}

fn indent_line(cells: usize, bg: Option<Tone>, line: PaintedLine) -> (out: PaintedLine)
    ensures
        out@ == indented(cells as int, bg, line@),
{
    let mut line = line;
    let ghost rest = line@;
    let mut out = PaintedLine::empty();
    out.push(repeated(' ', cells).as_str(), Paint::ink_on(Tone::Text, bg));
    let ghost start = out@;
    out.pieces.append(&mut line.pieces);
    proof {
        assert(out@ =~= start + rest);
        assert(out@ =~= indented(cells as int, bg, rest));
    }
    out
}

/// A directory row: its disclosure and its label.
pub open spec fn directory_line(label: Seq<char>, collapsed: bool, active: bool, width: int) -> Seq<PieceView> {
    let bg = row_bg(active, false);
    let base = ink_on(Tone::Text, bg);
    let shown = clipped(label, monus(width, 2));
    seq![
        piece(if collapsed { "▸ "@ } else { "▾ "@ }, ink_on(Tone::Muted, bg)),
        piece(shown, if active { bold_paint(base) } else { base }),
        piece(repeat_of(' ', monus(width, 2 + display_width(shown) as int)), base),
    ]
}

fn directory_row_line(label: &str, collapsed: bool, active: bool, width: usize) -> (line: PaintedLine)
    ensures
        line@ == directory_line(label@, collapsed, active, width as int),
{
    let bg: Option<Tone> = if active { Some(Tone::SelectedBg) } else { None };
    let base: Paint = Paint::ink_on(Tone::Text, bg);
    let shown = truncate_cells(label, width.saturating_sub(2));
    let rest: usize = width.saturating_sub(2).saturating_sub(str_width(shown.as_str()));
    let mut line = PaintedLine::empty();
    line.push(if collapsed { "▸ " } else { "▾ " }, Paint::ink_on(Tone::Muted, bg));
    line.push(shown.as_str(), if active { base.bold() } else { base });
    line.push(repeated(' ', rest).as_str(), base);
    proof {
        assert(line@ =~= directory_line(label@, collapsed, active, width as int));
    }
    line
}

/// A file row by its basename, in a row of some width.
pub open spec fn leaf_line(files: Seq<FileRow>, f: FileRow, width: int, active: bool, owner: bool) -> Seq<PieceView> {
    let budget = path_cells(files, width);
    file_line(
        f,
        elided_path(seq![basename_of(f.path@)], 0, budget),
        shown_loc(files, width),
        budget,
        width,
        active,
        row_bg(active, owner),
    )
}

fn leaf_row_line(files: &Vec<FileRow>, f: &FileRow, width: usize, active: bool, owner: bool) -> (line: PaintedLine)
    requires
        width <= u16::MAX,
    ensures
        line@ == leaf_line(files@, *f, width as int, active, owner),
{
    let (loc, budget) = path_columns(files, width);
    let name = basename(f.path.as_str());
    let mut names: Vec<&str> = Vec::new();
    names.push(name.as_str());
    proof {
        assert(slices(names@) =~= seq![basename_of(f.path@)]);
    }
    let display = elide_paths(names.as_slice(), budget);
    let bg: Option<Tone> = if active {
        Some(Tone::SelectedBg)
    } else if owner {
        Some(Tone::OwnerBg)
    } else {
        None
    };
    file_row_line(f, display[0].as_str(), loc, budget, width, active, bg)
}

/// What the rows of the tree are drawn from.
#[verifier::ext_equal]
pub struct TreeLook {
    pub files: Seq<FileRow>,
    pub collapsed: Set<Seq<char>>,
    /// The selected logical row.
    pub selected: int,
    /// The file of a selected object.
    pub owner: Option<int>,
    pub width: int,
}

/// The line of one row of the tree.
pub open spec fn tree_line(row: RowView, look: TreeLook) -> Seq<PieceView> {
    let active = row.logical() == Some(look.selected);
    let w = look.width;
    match row {
        RowView::Directory { path, label, depth, .. } => {
            let cells = indent_of(depth, w);
            indented(
                cells,
                row_bg(active, false),
                directory_line(label, look.collapsed.contains(path), active, w - cells),
            )
        },
        RowView::File { file_index, depth, .. } => {
            let cells = indent_of(depth, w);
            let owner = look.owner == Some(file_index);
            if file_index < look.files.len() {
                indented(
                    cells,
                    row_bg(active, owner),
                    leaf_line(look.files, look.files[file_index], w - cells, active, owner),
                )
            } else {
                Seq::empty()
            }
        },
        RowView::Symbol { file_index, symbol_index, depth, .. } => {
            let cells = indent_of(monus(depth, 1), w);
            if file_index < look.files.len() && symbol_index < look.files[file_index].symbols.len() {
                indented(
                    cells,
                    row_bg(active, false),
                    symbol_line(look.files[file_index].symbols[symbol_index], active, w - cells),
                )
            } else {
                Seq::empty()
            }
        },
        RowView::Note { file_index, depth } => {
            let cells = indent_of(monus(depth, 1), w);
            if file_index < look.files.len() {
                indented(cells, None, note_line(note_of(look.files[file_index]), w - cells))
            } else {
                Seq::empty()
            }
        },
    }
}

fn tree_row_line(
    row: &ProjectedRow,
    files: &Vec<FileRow>,
    collapsed: &KeySet<String>,
    selected: usize,
    owner: Option<usize>,
    width: usize,
) -> (line: PaintedLine)
    requires
        width <= u16::MAX,
    ensures
        line@ == tree_line(
            row@,
            (TreeLook {
                files: files@,
                collapsed: collapsed@,
                selected: selected as int,
                owner: owner_view(owner),
                width: width as int,
            }),
        ),
{
    let active: bool = match row.logical_index() {
        Some(i) => i == selected,
        None => false,
    };
    match row {
        ProjectedRow::Directory { path, label, depth, .. } => {
            let cells: usize = indent(*depth, width);
            let bg: Option<Tone> = if active { Some(Tone::SelectedBg) } else { None };
            indent_line(
                cells,
                bg,
                directory_row_line(label.as_str(), collapsed.contains(path), active, width - cells),
            )
        },
        ProjectedRow::File { file_index, depth, .. } => {
            if *file_index >= files.len() {
                return PaintedLine::empty();
            }
            let cells: usize = indent(*depth, width);
            let owns: bool = match owner {
                Some(i) => i == *file_index,
                None => false,
            };
            let bg: Option<Tone> = if active {
                Some(Tone::SelectedBg)
            } else if owns {
                Some(Tone::OwnerBg)
            } else {
                None
            };
            indent_line(cells, bg, leaf_row_line(files, &files[*file_index], width - cells, active, owns))
        },
        ProjectedRow::Symbol { file_index, symbol_index, depth, .. } => {
            if *file_index >= files.len() || *symbol_index >= files[*file_index].symbols.len() {
                return PaintedLine::empty();
            }
            let cells: usize = indent(depth.saturating_sub(1), width);
            let bg: Option<Tone> = if active { Some(Tone::SelectedBg) } else { None };
            let symbol: &SymbolRow = &files[*file_index].symbols[*symbol_index];
            indent_line(cells, bg, symbol_row_line(symbol, active, width - cells))
        },
        ProjectedRow::Note { file_index, depth } => {
            if *file_index >= files.len() {
                return PaintedLine::empty();
            }
            let cells: usize = indent(depth.saturating_sub(1), width);
            indent_line(cells, None, semantic_note_line(note_text(&files[*file_index]), width - cells))
        },
    }
}

/// An optional file index as a number.
pub open spec fn owner_view(owner: Option<usize>) -> Option<int> {
    match owner {
        Some(i) => Some(i as int),
        None => None,
    }
}

/// What the rows of the tree are drawn from, in a pane of some inner width.
pub open spec fn tree_look(v: AppView, files: Seq<FileRow>, inner_w: int) -> TreeLook {
    TreeLook {
        files,
        collapsed: v.collapsed,
        selected: v.file_sel,
        owner: match selected_symbol(v) {
            Some((f, _)) => Some(f),
            None => None,
        },
        width: monus(inner_w, MARKER_CELLS as int),
    }
}

/// The rows of the tree that the inside of its pane shows; a note where no file changed.
pub open spec fn tree_lines(v: AppView, files: Seq<FileRow>, inside: Rect) -> Seq<Seq<PieceView>> {
    let rows = projection(v.files, v.collapsed);
    let first = App::first_visible_row(v, inside.height as int);
    let look = tree_look(v, files, inside.width as int);
    if rows.len() == 0 {
        seq![single("  no changes in this scope"@, ink(Tone::Muted))]
    } else {
        Seq::new(
            shown_rows(rows.len() as int, first, inside.height as int) as nat,
            |k: int| tree_line(rows[first + k], look),
        )
    }
}

/// The rows of the tree that the inside of its pane shows.
pub fn visible_tree(app: &App, files: &Vec<FileRow>, inside: Rect) -> (out: Vec<PaintedLine>)
    ensures
        line_views(out@) == tree_lines(app@, files@, inside),
{
    let ghost wanted = tree_lines(app@, files@, inside);
    let rows = app.projected_file_rows();
    let ghost all = row_views(rows@);
    let mut out: Vec<PaintedLine> = Vec::new();
    proof {
        assert(all.len() == rows.len());
    }
    if rows.len() == 0 {
        out.push(PaintedLine::single("  no changes in this scope", Paint::ink(Tone::Muted)));
        proof {
            assert(line_views(out@) =~= wanted);
        }
        return out;
    }
    let capacity: usize = inside.height as usize;
    let first: usize = app.files_first_visible(capacity);
    let n: usize = min_usize(rows.len().saturating_sub(first), capacity);
    let owner: Option<usize> = if app.selected_symbol_name().is_some() { app.selected_file_index() } else { None };
    let width: usize = inside.width.saturating_sub(MARKER_CELLS) as usize;
    let selected: usize = app.file_sel;
    let ghost look = tree_look(app@, files@, inside.width as int);
    proof {
        reveal(app_view);
        assert(owner_view(owner) == look.owner);
        assert(line_views(out@) =~= wanted.take(0));
    }
    let mut k: usize = 0;
    while k < n
        invariant
            k <= n,
            first + n <= rows.len() == all.len(),
            all == row_views(rows@),
            width <= u16::MAX,
            look == (TreeLook {
                files: files@,
                collapsed: app.collapsed_directories@,
                selected: selected as int,
                owner: owner_view(owner),
                width: width as int,
            }),
            wanted == Seq::new(n as nat, |k: int| tree_line(all[first + k], look)),
            line_views(out@) == wanted.take(k as int),
        decreases n - k,
    {
        let line = tree_row_line(&rows[first + k], files, &app.collapsed_directories, selected, owner, width);
        let ghost before = line_views(out@);
        proof {
            assert(all[first + k] == rows@[first + k]@);
            assert(line@ == wanted[k as int]);
        }
        out.push(line);
        proof {
            assert(line_views(out@) =~= before.push(line@));
            assert(wanted.take(k + 1) =~= wanted.take(k as int).push(wanted[k as int]));
        }
        k = k + 1;
    }
    proof {
        assert(wanted.take(wanted.len() as int) =~= wanted);
    }
    out
}

} // verus!
