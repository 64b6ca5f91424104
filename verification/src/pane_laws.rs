//! What the files pane and the Impact pane show of a file, a symbol and a relationship.

use vstd::prelude::*;
use crate::app::{AppView, Pane};
use crate::diagram::{sanitized_warning, DiagramRole, SpanView};
use crate::diff_view::clipped;
use crate::elide::elided_path;
use crate::file_rows::{
    chain_end, chain_label, is_child, only_child, path_prefix, prefixes_of, shown_directories, step_child, step_parent,
    summary_of, walk_directories, walk_leaf, walk_symbols, DirectoryChild, RowView, SummaryView, Walk,
};
use crate::files_pane::{
    child_lines, file_bg, file_line, file_lines, files_titles, flat_before, glyph_of, highlighted_file, lists_symbols,
    loc_cells, loc_text, name_start, note_line, note_of, pane_lines, path_cells, paths_of, shown_loc, status_tone,
    symbol_line,
};
use crate::impact_view::{
    known_lines, leading_lines, list_heading, list_lines, list_offset, list_row, relation_lines, role_paint,
    selected_lines, status_note,
};
use crate::snapshot::{
    AiStatus, FileRow, FileSemanticLoad, ImpactList, ImpactLoadState, ImpactPane, ImpactRow, SymbolRow, UiSnapshot,
};
use crate::style::{flat, PieceView, Tone};
use crate::text::{display_width, split_on};
use crate::tree_pane::{tree_line, TreeLook};
use crate::wrap::{decimal_of, repeat_of, wrapped};

verus! {

proof fn lemma_letters()
    ensures
        "A"@ == seq!['A'],
        "?"@ == seq!['?'],
        "D"@ == seq!['D'],
        "R"@ == seq!['R'],
        "U"@ == seq!['U'],
        "+"@ == seq!['+'],
        "-"@ == seq!['-'],
        "~"@ == seq!['~'],
{
    reveal_strlit("A");
    reveal_strlit("?");
    reveal_strlit("D");
    reveal_strlit("R");
    reveal_strlit("U");
    reveal_strlit("+");
    reveal_strlit("-");
    reveal_strlit("~");
    assert("A"@ =~= seq!['A']);
    assert("?"@ =~= seq!['?']);
    assert("D"@ =~= seq!['D']);
    assert("R"@ =~= seq!['R']);
    assert("U"@ =~= seq!['U']);
    assert("+"@ =~= seq!['+']);
    assert("-"@ =~= seq!['-']);
    assert("~"@ =~= seq!['~']);
}

/// Added and untracked files are shown as added, deleted ones as removed, renamed ones in the
/// accent, unmerged ones as an error and every other as a change.
pub proof fn law_file_states_have_their_color(status: Seq<char>)
    ensures
        status == seq!['A'] || status == seq!['?'] ==> status_tone(status) == Tone::AddFg,
        status == seq!['D'] ==> status_tone(status) == Tone::DelFg,
        status == seq!['R'] ==> status_tone(status) == Tone::Accent,
        status == seq!['U'] ==> status_tone(status) == Tone::Error,
        status != seq!['A'] && status != seq!['?'] && status != seq!['D'] && status != seq!['R'] && status != seq!['U']
            ==> status_tone(status) == Tone::Warn,
{
    lemma_letters();
    assert(seq!['A'][0] == 'A' && seq!['?'][0] == '?' && seq!['D'][0] == 'D' && seq!['R'][0] == 'R' && seq!['U'][0] == 'U');
    assert(status.len() > 0 ==> status[0] == status[0]);
}

/// A symbol that was added carries a plus, one that was removed a minus, any other a tilde.
pub proof fn law_symbol_changes_have_their_sign(change: Seq<char>)
    ensures
        change == "added"@ ==> glyph_of(change) == seq!['+'],
        change == "removed"@ ==> glyph_of(change) == seq!['-'],
        change != "added"@ && change != "removed"@ ==> glyph_of(change) == seq!['~'],
{
    lemma_letters();
    reveal_strlit("added");
    reveal_strlit("removed");
    assert("added"@.len() == 5);
    assert("removed"@.len() == 7);
}

/// The line of a file: its status in its color, whether it is open, its path with the name
/// apart from the directories, and its added and removed lines in their colors.
pub proof fn law_file_rows_show_the_file(
    f: FileRow,
    display: Seq<char>,
    loc: int,
    budget: int,
    inner_w: int,
    active: bool,
    bg: Option<Tone>,
)
    ensures
        ({
            let line = file_line(f, display, loc, budget, inner_w, active, bg);
            let start = name_start(display, display.len() as int);
            &&& line[0].text == f.status@ && line[0].paint.fg == Some(status_tone(f.status@))
            &&& line[1].text == " "@
            &&& f.expanded ==> line[2].text == "▾"@
            &&& !f.expanded ==> line[2].text == "▸"@
            &&& line[3].text == " "@
            &&& line[4].text == display.take(start) && line[4].paint.fg == Some(Tone::Muted)
            &&& line[5].text == display.skip(start) && line[5].paint.fg == Some(Tone::Text) && line[5].paint.bold == active
            &&& display_width(display) <= budget ==> line[6].text.len() == budget - display_width(display)
            &&& forall|k: int| 0 <= k < line.len() ==> (#[trigger] line[k]).paint.bg == bg
            &&& loc <= 0 ==> line.len() == 8
            &&& loc > 0 && (f.added_lines > 0 || f.removed_lines > 0) ==> {
                &&& line.len() == 13
                &&& line[9].text == "+"@ + decimal_of(f.added_lines as int) && line[9].paint.fg == Some(Tone::AddFg)
                &&& line[11].text == "-"@ + decimal_of(f.removed_lines as int) && line[11].paint.fg == Some(Tone::DelFg)
            }
            &&& loc > 0 && f.added_lines == 0 && f.removed_lines == 0 ==> line.len() == 10 && line[8].text.len() == loc
        }),
{
    let line = file_line(f, display, loc, budget, inner_w, active, bg);
    assert(loc > 0 ==> repeat_of(' ', loc).len() == loc);
}

/// The name of a path begins after its last slash.
pub proof fn law_names_begin_after_the_last_slash(path: Seq<char>, n: int)
    requires
        0 <= n <= path.len(),
    ensures
        ({
            let start = name_start(path, n);
            &&& 0 <= start <= n
            &&& start > 0 ==> path[start - 1] == '/'
            &&& forall|k: int| start <= k < n ==> #[trigger] path[k] != '/'
        }),
    decreases n,
{
    if n > 0 && path[n - 1] != '/' {
        law_names_begin_after_the_last_slash(path, n - 1);
    }
}

/// The column of line counts is as wide as its widest entry and is left out where it would leave
/// the path under fifteen cells; the path gets what is left.
pub proof fn law_line_counts_yield_to_the_path(files: Seq<FileRow>, inner_w: int, i: int)
    requires
        0 <= i < files.len(),
        0 <= inner_w,
    ensures
        ({
            let all = loc_cells(files, files.len() as int);
            let loc = shown_loc(files, inner_w);
            &&& files[i].added_lines > 0 || files[i].removed_lines > 0 ==> display_width(loc_text(files[i])) <= all
            &&& inner_w >= 15 + all ==> loc == all
            &&& inner_w < 15 + all ==> loc == 0
            &&& loc > 0 ==> path_cells(files, inner_w) == inner_w - 5 - loc && path_cells(files, inner_w) >= 10
            &&& loc == 0 && inner_w >= 4 ==> path_cells(files, inner_w) == inner_w - 4
            &&& loc_text(files[i]) == "+"@ + decimal_of(files[i].added_lines as int) + " -"@ + decimal_of(
                files[i].removed_lines as int,
            )
        }),
{
    lemma_loc(files, files.len() as int, i);
}

proof fn lemma_loc(files: Seq<FileRow>, n: int, i: int)
    requires
        0 <= i < n <= files.len(),
    ensures
        0 <= loc_cells(files, n - 1),
        0 <= loc_cells(files, n),
        files[i].added_lines > 0 || files[i].removed_lines > 0 ==> display_width(loc_text(files[i])) <= loc_cells(files, n),
    decreases n,
{
    if n > 1 {
        lemma_loc(files, n - 1, if i < n - 1 { i } else { 0 });
    }
}

/// The line of a symbol: its sign in its color, its name, and its confidence and diagnostic at
/// the right where there is room.
pub proof fn law_symbol_rows_show_the_symbol(s: SymbolRow, active: bool, inner_w: int)
    ensures
        ({
            let line = symbol_line(s, active, inner_w);
            let bg = if active { Some(Tone::SelectedBg) } else { None };
            let right = s.confidence@ + (if s.has_diagnostic { "!"@ } else { Seq::empty() });
            let room = 6 + display_width(s.name@) + display_width(right) < inner_w;
            &&& line[0].text == "    "@
            &&& line[1].text == glyph_of(s.change@) && line[1].paint.fg == Some(status_tone(glyph_of(s.change@)))
            &&& line[2].text == " "@
            &&& line[3].text == s.name@ && line[3].paint.bold == active
            &&& forall|k: int| 0 <= k < line.len() ==> (#[trigger] line[k]).paint.bg == bg
            &&& right.len() > 0 && room && s.confidence@.len() > 0 ==> line[5].text == s.confidence@ && line[5].paint.fg
                == Some(Tone::Muted)
            &&& right.len() > 0 && room && s.has_diagnostic ==> line[line.len() - 2].text == "!"@ && line[line.len()
                - 2].paint.fg == Some(Tone::Error)
            &&& right.len() > 0 && room ==> line[4].text.len() == inner_w - 6 - display_width(s.name@) - display_width(
                right,
            )
            &&& right.len() == 0 || !room ==> line.len() == 5
        }),
{
    reveal_strlit("!");
}

/// What stands below an open file: its symbols, or why there are none.
pub proof fn law_open_files_list_their_symbols(files: Seq<FileRow>, i: int, sel: int, inner_w: int)
    requires
        0 <= i < files.len(),
    ensures
        ({
            let f = files[i];
            let lines = child_lines(files, i, sel, inner_w);
            &&& !f.expanded ==> lines.len() == 0
            &&& f.expanded && f.semantic == FileSemanticLoad::Ready && f.symbols.len() > 0 ==> lines.len()
                == f.symbols.len() && forall|k: int|
                0 <= k < lines.len() ==> #[trigger] lines[k] == symbol_line(
                    f.symbols[k],
                    flat_before(files, i) + 1 + k == sel,
                    inner_w,
                )
            &&& f.expanded && (f.semantic != FileSemanticLoad::Ready || f.symbols.len() == 0) ==> lines == seq![
                note_line(note_of(f), inner_w),
            ]
            &&& f.semantic == FileSemanticLoad::Loading || f.semantic == FileSemanticLoad::Unloaded ==> note_of(f)
                == "… analyzing symbols"@
            &&& f.semantic == FileSemanticLoad::Unsupported ==> note_of(f) == "semantic analysis unavailable"@
            &&& f.semantic == FileSemanticLoad::Failed ==> note_of(f) == "analysis failed — retries after file change"@
            &&& f.semantic == FileSemanticLoad::Ready ==> note_of(f) == "no changed symbols mapped"@
        }),
{
}

/// The selected file, and the file that owns the selected symbol, stand out in their own ways.
pub proof fn law_selection_stands_out(files: Seq<FileRow>, i: int, sel: int)
    requires
        0 <= i < files.len(),
    ensures
        flat_before(files, i) == sel ==> file_bg(files, i, sel) == Some(Tone::SelectedBg),
        lists_symbols(files[i]) && flat_before(files, i) < sel <= flat_before(files, i) + files[i].symbols.len()
            ==> file_bg(files, i, sel) == Some(Tone::OwnerBg),
        sel < flat_before(files, i) ==> file_bg(files, i, sel) is None,
        sel > flat_before(files, i) + (if lists_symbols(files[i]) { files[i].symbols.len() as int } else { 0 })
            ==> file_bg(files, i, sel) is None,
        flat_before(files, 0) == 0,
        flat_before(files, i + 1) == flat_before(files, i) + 1 + (if lists_symbols(files[i]) {
            files[i].symbols.len() as int
        } else {
            0
        }),
{
}

/// The rows of a file follow those of the files before it: the file, then what stands below it.
pub proof fn law_files_are_listed_in_order(files: Seq<FileRow>, sel: int, inner_w: int, n: int, i: int)
    requires
        0 <= i < n <= files.len(),
    ensures
        ({
            let all = file_lines(files, sel, inner_w, n);
            let first = file_lines(files, sel, inner_w, i).len() as int;
            let below = child_lines(files, i, sel, inner_w);
            &&& first + 1 + below.len() <= all.len()
            &&& all[first][0].text == files[i].status@
            &&& all[first][4].text + all[first][5].text == elided_path(paths_of(files), i, path_cells(files, inner_w))
            &&& all.subrange(first + 1, first + 1 + below.len()) == below
        }),
    decreases n,
{
    let all = file_lines(files, sel, inner_w, n);
    let first = file_lines(files, sel, inner_w, i).len() as int;
    let below = child_lines(files, i, sel, inner_w);
    if i < n - 1 {
        law_files_are_listed_in_order(files, sel, inner_w, n - 1, i);
        let before = file_lines(files, sel, inner_w, n - 1);
        assert(all.subrange(first + 1, first + 1 + below.len()) =~= before.subrange(first + 1, first + 1 + below.len()));
        assert(all[first] == before[first]);
    } else {
        let display = elided_path(paths_of(files), i, path_cells(files, inner_w));
        law_names_begin_after_the_last_slash(display, display.len() as int);
        let start = name_start(display, display.len() as int);
        assert(display.take(start) + display.skip(start) =~= display);
        assert(all.subrange(first + 1, first + 1 + below.len()) =~= below);
    }
}

/// A scope without changes says so.
pub proof fn law_empty_scopes_say_so(sel: int, inner_w: int)
    ensures
        flat(pane_lines(Seq::empty(), sel, inner_w)[0]) == "  no changes in this scope"@,
        pane_lines(Seq::empty(), sel, inner_w).len() == 1,
{
    let line = pane_lines(Seq::empty(), sel, inner_w)[0];
    crate::style::lemma_flat_push(Seq::empty(), line[0]);
    assert(Seq::<PieceView>::empty().push(line[0]) =~= line);
    assert(flat(line) =~= "  no changes in this scope"@);
}

/// A row of the tree is indented two cells for each level, by half of the pane at most, and then
/// shows what it stands for.
pub proof fn law_tree_rows_are_indented(row: RowView, look: TreeLook)
    requires
        row is Directory || row is File,
        row is File ==> 0 <= row->File_file_index < look.files.len(),
        0 <= look.width,
        row is Directory ==> 0 <= row->Directory_depth,
        row is File ==> 0 <= row->File_depth,
    ensures
        ({
            let line = tree_line(row, look);
            let depth = if row is Directory { row->Directory_depth } else { row->File_depth };
            let cells = if 2 * depth <= look.width / 2 { 2 * depth } else { look.width / 2 };
            &&& line[0].text.len() == cells
            &&& forall|k: int| 0 <= k < cells ==> #[trigger] line[0].text[k] == ' '
            &&& row is Directory && look.collapsed.contains(row->Directory_path) ==> line[1].text == "▸ "@
            &&& row is Directory && !look.collapsed.contains(row->Directory_path) ==> line[1].text == "▾ "@
            &&& row is Directory ==> line[2].text == clipped(
                row->Directory_label,
                if look.width - cells < 2 { 0 } else { look.width - cells - 2 },
            )
            &&& row is Directory && row->Directory_logical_index == look.selected ==> line[0].paint.bg == Some(
                Tone::SelectedBg,
            ) && line[2].paint.bold
            &&& row is Directory && row->Directory_logical_index != look.selected ==> line[0].paint.bg is None
                && !line[2].paint.bold
            &&& row is File ==> line[1].text == look.files[row->File_file_index].status@
            &&& row is File && row->File_logical_index == look.selected ==> line[0].paint.bg == Some(Tone::SelectedBg)
            &&& row is File && row->File_logical_index != look.selected && look.owner == Some(row->File_file_index)
                ==> line[0].paint.bg == Some(Tone::OwnerBg)
            &&& row is File && row->File_logical_index != look.selected && look.owner != Some(row->File_file_index)
                ==> line[0].paint.bg is None
        }),
{
}

/// A row stands for its directory, its file or its symbol; a note stands for nothing.
pub proof fn law_rows_stand_for_their_entity(row: RowView, files: Seq<FileRow>)
    ensures
        row is Directory ==> summary_of(row, files) == Some(SummaryView::Directory(row->Directory_path)),
        row is File && row->File_file_index < files.len() ==> summary_of(row, files) == Some(
            SummaryView::File(files[row->File_file_index].path@),
        ),
        row is Symbol && row->Symbol_file_index < files.len() && row->Symbol_symbol_index
            < files[row->Symbol_file_index].symbols.len() ==> summary_of(row, files) == Some(
            SummaryView::Symbol {
                file: files[row->Symbol_file_index].path@,
                name: files[row->Symbol_file_index].symbols[row->Symbol_symbol_index].name@,
                position: files[row->Symbol_file_index].symbols[row->Symbol_symbol_index].position,
            },
        ),
        row is Note ==> summary_of(row, files) is None,
{
}

/// The rows of a file: the file itself, then below it each of its symbols in order, or one note
/// that cannot be selected, or nothing while it is closed.
pub proof fn law_leaves_list_their_symbols(w: Walk, file: FileRow, i: int, depth: int)
    ensures
        ({
            let rows = walk_leaf(w, file, i, depth).rows;
            let n = w.rows.len() as int;
            let lists = file.expanded && file.semantic == FileSemanticLoad::Ready && file.symbols.len() > 0;
            &&& rows.len() == n + 1 + (if lists { file.symbols.len() as int } else if file.expanded { 1 } else { 0 })
            &&& rows.take(n) == w.rows
            &&& rows[n] == (RowView::File { file_index: i, depth, logical_index: w.logical })
            &&& lists ==> forall|k: int|
                0 <= k < file.symbols.len() ==> #[trigger] rows[n + 1 + k] == (RowView::Symbol {
                    file_index: i,
                    symbol_index: k,
                    depth: depth + 1,
                    logical_index: w.logical + 1 + k,
                })
            &&& file.expanded && !lists ==> rows[n + 1] == (RowView::Note { file_index: i, depth: depth + 1 })
        }),
{
    let with_file = Walk {
        rows: w.rows.push(RowView::File { file_index: i, depth, logical_index: w.logical }),
        emitted: w.emitted,
        logical: w.logical + 1,
    };
    lemma_symbols(with_file, i, depth + 1, file.symbols.len() as int);
    let rows = walk_leaf(w, file, i, depth).rows;
    let n = w.rows.len() as int;
    assert(rows.take(n) =~= w.rows);
    if file.expanded && file.semantic == FileSemanticLoad::Ready && file.symbols.len() > 0 {
        assert forall|k: int| 0 <= k < file.symbols.len() implies #[trigger] rows[n + 1 + k] == (RowView::Symbol {
            file_index: i,
            symbol_index: k,
            depth: depth + 1,
            logical_index: w.logical + 1 + k,
        }) by {
            assert(rows[with_file.rows.len() + k] == rows[n + 1 + k]);
        }
    }
}

proof fn lemma_symbols(w: Walk, i: int, depth: int, n: int)
    requires
        0 <= n,
    ensures
        ({
            let after = walk_symbols(w, i, depth, n);
            &&& after.rows.len() == w.rows.len() + n
            &&& after.logical == w.logical + n
            &&& forall|k: int| 0 <= k < w.rows.len() ==> #[trigger] after.rows[k] == w.rows[k]
            &&& forall|k: int|
                0 <= k < n ==> #[trigger] after.rows[w.rows.len() + k] == (RowView::Symbol {
                    file_index: i,
                    symbol_index: k,
                    depth,
                    logical_index: w.logical + k,
                })
        }),
    decreases n,
{
    if n > 0 {
        lemma_symbols(w, i, depth, n - 1);
    }
}

/// Below a collapsed directory nothing is walked; an open one is entered one level deeper.
pub proof fn law_collapsed_directories_hide_what_is_below(
    w: Walk,
    dirs: Seq<(Seq<char>, Seq<char>)>,
    d: int,
    collapsed: Set<Seq<char>>,
)
    requires
        0 <= d < dirs.len(),
    ensures
        ({
            let (after, hidden) = walk_directories(w, dirs, d, collapsed);
            let n = w.rows.len() as int;
            &&& collapsed.contains(dirs[d].0) ==> hidden && after.rows.len() <= n + 1
            &&& !w.emitted.contains(dirs[d].0) ==> after.rows.len() > n && after.rows[n] == (RowView::Directory {
                path: dirs[d].0,
                label: dirs[d].1,
                depth: d,
                logical_index: w.logical,
            })
            &&& hidden <==> exists|e: int| d <= e < dirs.len() && collapsed.contains((#[trigger] dirs[e]).0)
        }),
    decreases dirs.len() - d,
{
    let (path, label) = dirs[d];
    let next = if w.emitted.contains(path) {
        w
    } else {
        Walk {
            rows: w.rows.push(RowView::Directory { path, label, depth: d, logical_index: w.logical }),
            emitted: w.emitted.insert(path),
            logical: w.logical + 1,
        }
    };
    lemma_walk_grows(next, dirs, d + 1, collapsed);
    if d + 1 < dirs.len() {
        law_collapsed_directories_hide_what_is_below(next, dirs, d + 1, collapsed);
    }
    if !collapsed.contains(path) {
        if walk_directories(w, dirs, d, collapsed).1 {
            assert(d + 1 < dirs.len());
            let e = choose|e: int| d + 1 <= e < dirs.len() && collapsed.contains((#[trigger] dirs[e]).0);
            assert(collapsed.contains(dirs[e].0));
        }
        if exists|e: int| d <= e < dirs.len() && collapsed.contains((#[trigger] dirs[e]).0) {
            let e = choose|e: int| d <= e < dirs.len() && collapsed.contains((#[trigger] dirs[e]).0);
            assert(e != d);
            assert(d + 1 <= e < dirs.len() && collapsed.contains(dirs[e].0));
        }
    } else {
        assert(collapsed.contains(dirs[d].0));
    }
}

proof fn lemma_walk_grows(w: Walk, dirs: Seq<(Seq<char>, Seq<char>)>, d: int, collapsed: Set<Seq<char>>)
    ensures
        ({
            let after = walk_directories(w, dirs, d, collapsed).0;
            &&& after.rows.len() >= w.rows.len()
            &&& forall|k: int| 0 <= k < w.rows.len() ==> #[trigger] after.rows[k] == w.rows[k]
        }),
    decreases dirs.len() - d,
{
    if 0 <= d < dirs.len() {
        let (path, label) = dirs[d];
        let next = if w.emitted.contains(path) {
            w
        } else {
            Walk {
                rows: w.rows.push(RowView::Directory { path, label, depth: d, logical_index: w.logical }),
                emitted: w.emitted.insert(path),
                logical: w.logical + 1,
            }
        };
        if !collapsed.contains(path) {
            lemma_walk_grows(next, dirs, d + 1, collapsed);
        }
    }
}

/// The directories above a path are its beginnings, from the first one down.
pub proof fn law_directories_above_a_path(path: Seq<char>, k: int)
    requires
        0 <= k < split_on(path, '/').len() - 1,
    ensures
        prefixes_of(path).len() == split_on(path, '/').len() - 1,
        prefixes_of(path)[0] == split_on(path, '/')[0],
        k > 0 ==> prefixes_of(path)[k] == prefixes_of(path)[k - 1] + seq!['/'] + split_on(path, '/')[k],
{
    let parts = split_on(path, '/');
    assert(parts.take(1) =~= seq![parts[0]]);
    if k > 0 {
        assert(parts.take(k + 1).drop_last() =~= parts.take(k));
        assert(path_prefix(path, k + 1) == path_prefix(path, k) + seq!['/'] + parts[k]);
    }
}

/// The label of a directory ends in a slash, and one alone is its name.
pub proof fn law_directory_labels_end_in_a_slash(path: Seq<char>, from: int, to: int)
    requires
        0 <= from <= to < split_on(path, '/').len(),
    ensures
        chain_label(path, from, to).last() == '/',
        from == to ==> chain_label(path, from, to) == split_on(path, '/')[from] + seq!['/'],
        from < to ==> chain_label(path, from, to) == chain_label(path, from, to - 1) + split_on(path, '/')[to] + seq!['/'],
{
    let parts = split_on(path, '/');
    if from == to {
        assert(parts.subrange(from, to + 1) =~= seq![parts[from]]);
    } else {
        assert(parts.subrange(from, to + 1).drop_last() =~= parts.subrange(from, to));
        assert(chain_label(path, from, to) =~= chain_label(path, from, to - 1) + parts[to] + seq!['/']);
    }
}

/// The list of relationships: callers point at the change, what lies downstream is pointed at.
pub proof fn law_relationships_point_their_way(impact: ImpactPane, width: int, i: int)
    requires
        impact.selected_change is Some,
        0 < width,
    ensures
        ({
            let lines = known_lines(impact, width);
            let change = impact.selected_change->0;
            let notes = wrapped(change.interpretation@, width).len() as int;
            let callers = impact.callers.rows.len() as int;
            &&& lines.len() == 1 + notes + callers + impact.downstream.rows.len()
            &&& lines[0][0].text == clipped(change.label@, width) && lines[0][0].role == DiagramRole::Title
            &&& 0 <= i < notes ==> lines[1 + i][0].text == wrapped(change.interpretation@, width)[i] && lines[1 + i][0].role
                == DiagramRole::Text
            &&& 0 <= i < callers && impact.callers.rows[i].relation@.len() == 0 ==> lines[1 + notes + i][0].text == clipped(
                "← "@ + impact.callers.rows[i].label@,
                width,
            )
            &&& 0 <= i < callers && impact.callers.rows[i].relation@.len() > 0 ==> lines[1 + notes + i][0].text == clipped(
                "← "@ + impact.callers.rows[i].label@ + ("  "@ + impact.callers.rows[i].relation@),
                width,
            )
            &&& 0 <= i < impact.downstream.rows.len() && impact.downstream.rows[i].relation@.len() == 0 ==> lines[1 + notes
                + callers + i][0].text == clipped("→ "@ + impact.downstream.rows[i].label@, width)
            &&& 0 <= i < impact.downstream.rows.len() && impact.downstream.rows[i].relation@.len() > 0 ==> lines[1 + notes
                + callers + i][0].text == clipped(
                "→ "@ + impact.downstream.rows[i].label@ + ("  "@ + impact.downstream.rows[i].relation@),
                width,
            )
        }),
{
    let callers = impact.callers.rows.len() as int;
    let below = impact.downstream.rows.len() as int;
    lemma_relations("← "@, impact.callers.rows@, width, callers, i);
    lemma_relations("→ "@, impact.downstream.rows@, width, below, i);
    lemma_relations_len("← "@, impact.callers.rows@, width, callers);
    lemma_relations_len("→ "@, impact.downstream.rows@, width, below);
}

proof fn lemma_relations_len(arrow: Seq<char>, rows: Seq<ImpactRow>, width: int, n: int)
    requires
        0 <= n,
    ensures
        relation_lines(arrow, rows, width, n).len() == n,
    decreases n,
{
    if n > 0 {
        lemma_relations_len(arrow, rows, width, n - 1);
    }
}

proof fn lemma_relations(arrow: Seq<char>, rows: Seq<ImpactRow>, width: int, n: int, i: int)
    requires
        0 <= n <= rows.len(),
    ensures
        0 <= i < n && rows[i].relation@.len() == 0 ==> relation_lines(arrow, rows, width, n)[i] == seq![
            SpanView { text: clipped(arrow + rows[i].label@, width), role: DiagramRole::Arrow },
        ],
        0 <= i < n && rows[i].relation@.len() > 0 ==> relation_lines(arrow, rows, width, n)[i] == seq![
            SpanView {
                text: clipped(arrow + rows[i].label@ + ("  "@ + rows[i].relation@), width),
                role: DiagramRole::Arrow,
            },
        ],
    decreases n,
{
    lemma_relations_len(arrow, rows, width, n);
    if n > 0 {
        lemma_relations_len(arrow, rows, width, n - 1);
        lemma_relations(arrow, rows, width, n - 1, i);
        if i == n - 1 && rows[i].relation@.len() == 0 {
            assert(arrow + rows[i].label@ + Seq::<char>::empty() =~= arrow + rows[i].label@);
        }
    }
}

/// Why there is no generated view is told in words of its own for each state; a finished one
/// needs none.
pub proof fn law_states_of_generation_are_told(ai: AiStatus)
    ensures
        ai is WaitingForSymbols ==> status_note(ai) == Some(("Waiting for symbol analysis…"@, DiagramRole::Warning)),
        ai is WaitingForRelations ==> status_note(ai) == Some(
            ("Waiting for symbol relationships…"@, DiagramRole::Warning),
        ),
        ai is Queued ==> status_note(ai) == Some(
            ("Waiting for AI capacity · priority #"@ + decimal_of(ai->Queued_position as int), DiagramRole::Warning),
        ),
        ai is Loading ==> status_note(ai) == Some(("Generating a deeper explanation…"@, DiagramRole::Warning)),
        ai is Failed ==> status_note(ai) == Some(("AI failed; showing known relationships"@, DiagramRole::Warning)),
        ai is Stale ==> status_note(ai) == Some(
            ("Repository changed; showing known relationships"@, DiagramRole::Warning),
        ),
        ai is Disabled ==> status_note(ai) == Some(("Known relationships · AI not configured"@, DiagramRole::Muted)),
        ai is Idle ==> status_note(ai) == Some(("Known relationships · AI generation is automatic"@, DiagramRole::Muted)),
        ai is Ready || ai is Debouncing ==> status_note(ai) is None,
{
}

/// A generated view is led by a warning where something was taken out of it, and by nothing
/// else; without one the state of generation leads.
pub proof fn law_generated_views_are_led_by_their_warning(s: UiSnapshot, width: int)
    ensures
        s.semantic.ai_generated && s.semantic.report is Some && (s.semantic.report->0).dropped.len() > 0 ==> leading_lines(
            s,
            width,
        ).len() == 1 && leading_lines(s, width)[0][0].text == clipped(
            sanitized_warning((s.semantic.report->0).dropped.len() as int),
            width,
        ) && leading_lines(s, width)[0][0].role == DiagramRole::Warning,
        s.semantic.ai_generated && s.semantic.report is None ==> leading_lines(s, width).len() == 0,
        !s.semantic.ai_generated && status_note(s.ai) is Some ==> leading_lines(s, width).len() == 1 && leading_lines(
            s,
            width,
        )[0][0].text == (status_note(s.ai)->0).0,
        !s.semantic.ai_generated && status_note(s.ai) is None ==> leading_lines(s, width).len() == 0,
{
}

/// The paints of a diagram: titles, the selected and the hovered stand out, arrows and warnings
/// have colors of their own, borders are muted.
pub proof fn law_roles_have_their_paint(role: DiagramRole)
    ensures
        role_paint(role).bold <==> (role == DiagramRole::Title || role == DiagramRole::Selected || role
            == DiagramRole::Hovered),
        role == DiagramRole::Hovered <==> role_paint(role).bg == Some(Tone::SelectedBg),
        role != DiagramRole::Hovered ==> role_paint(role).bg is None,
        role == DiagramRole::Title || role == DiagramRole::Text || role == DiagramRole::Hovered <==> role_paint(role).fg
            == Some(Tone::Text),
        role == DiagramRole::Border || role == DiagramRole::Muted <==> role_paint(role).fg == Some(Tone::Muted),
        role == DiagramRole::Selected <==> role_paint(role).fg == Some(Tone::Accent),
        role == DiagramRole::Arrow || role == DiagramRole::Evidence <==> role_paint(role).fg == Some(Tone::HunkFg),
        role == DiagramRole::Warning <==> role_paint(role).fg == Some(Tone::Warn),
{
}

/// The selected change: its name, what happened to it in its color, what it means, and a note
/// where there is room for four lines.
pub proof fn law_selected_change_is_described(impact: ImpactPane, width: int, height: int)
    ensures
        ({
            let lines = selected_lines(impact, width, height);
            &&& lines[0][0].text == "SELECTED CHANGE"@ && lines[0][0].paint.bold
            &&& impact.selected_change is None ==> lines.len() == 2 && lines[1][0].text
                == "select a changed file or symbol"@
            &&& impact.selected_change is Some ==> {
                let sel = impact.selected_change->0;
                &&& lines[1][0].text == split_on(sel.label@, '/').last() && lines[1][0].paint.fg == Some(Tone::Accent)
                &&& sel.change@.len() > 0 ==> lines[1][1].text == "  "@ + sel.change@
                &&& sel.change@ == "added"@ ==> lines[1][1].paint.fg == Some(Tone::AddFg)
                &&& sel.change@ == "removed"@ ==> lines[1][1].paint.fg == Some(Tone::DelFg)
                &&& sel.change@ != "added"@ && sel.change@ != "removed"@ ==> lines[1][1].paint.fg == Some(Tone::Warn)
                &&& lines[2][0].text == clipped(sel.interpretation@, width)
                &&& impact.note@.len() > 0 && height >= 4 ==> lines.len() == 4 && lines[3][0].text == clipped(
                    impact.note@,
                    width,
                )
                &&& impact.note@.len() == 0 || height < 4 ==> lines.len() == 3
            }
        }),
{
    reveal_strlit("added");
    reveal_strlit("removed");
    assert("added"@.len() == 5);
    assert("removed"@.len() == 7);
}

/// The heading of a list tells how many rows it has, or that it is loading, and how far it is
/// scrolled.
pub proof fn law_list_headings_count(name: Seq<char>, list: ImpactList, offset: int)
    ensures
        list.state != ImpactLoadState::Loading && offset == 0 ==> list_heading(name, list, offset) == name + " · "@
            + decimal_of(list.rows.len() as int),
        list.state == ImpactLoadState::Loading && offset == 0 ==> list_heading(name, list, offset) == name + " · "@ + "…"@,
        list.state != ImpactLoadState::Loading && offset > 0 ==> list_heading(name, list, offset) == name + " · "@
            + decimal_of(list.rows.len() as int) + (" · ↑"@ + decimal_of(offset)),
{
    let plain = name + " · "@ + decimal_of(list.rows.len() as int);
    assert(plain + Seq::<char>::empty() =~= plain);
    assert(name + " · "@ + "…"@ + Seq::<char>::empty() =~= name + " · "@ + "…"@);
}

/// A list shows its rows from the scroll on; where more are left than fit, its last line tells
/// how many are not shown. It never scrolls past its end.
pub proof fn law_lists_show_what_fits(name: Seq<char>, list: ImpactList, requested: int, height: int, i: int)
    requires
        height >= 2,
        0 <= requested,
        list.rows.len() > 0,
    ensures
        ({
            let lines = list_lines(name, list, requested, height);
            let n = list.rows.len() as int;
            let room = height - 1;
            let first = if n <= room { 0 } else if requested + room <= n { requested } else { n - room };
            &&& list_offset(list, requested, room) == first
            &&& n - first <= room ==> lines.len() == 1 + n - first
            &&& n - first > room ==> lines.len() == height && lines.last()[0].text == "… +"@ + decimal_of(
                n - first - (room - 1),
            ) + " more"@
            &&& 0 <= i < room - 1 && first + i < n ==> lines[1 + i] == list_row(list.rows[first + i])
            &&& n - first <= room && i == room - 1 && first + i < n ==> lines[1 + i] == list_row(list.rows[first + i])
        }),
{
}

/// An empty list tells why it is empty.
pub proof fn law_empty_lists_tell_why(name: Seq<char>, list: ImpactList, requested: int, height: int)
    requires
        list.rows.len() == 0,
        0 <= requested,
    ensures
        ({
            let lines = list_lines(name, list, requested, height);
            &&& lines.len() == 2
            &&& list.state == ImpactLoadState::Loading ==> lines[1][0].text == "loading…"@
            &&& list.state == ImpactLoadState::Unavailable ==> lines[1][0].text == "unavailable"@
            &&& list.state == ImpactLoadState::Idle ==> lines[1][0].text == "select a symbol"@
            &&& list.state == ImpactLoadState::Ready ==> lines[1][0].text == "none"@
        }),
{
}

/// A row of a list: its label, marked where it changed too, how it is related, and a sign where
/// it has a diagnostic.
pub proof fn law_list_rows_show_the_relation(row: ImpactRow)
    ensures
        ({
            let line = list_row(row);
            &&& line[0].text == row.label@
            &&& row.changed <==> line[0].paint.fg == Some(Tone::Warn)
            &&& !row.changed ==> line[0].paint.fg == Some(Tone::Text)
            &&& row.relation@.len() > 0 ==> line[1].text == "  "@ + row.relation@
            &&& row.has_diagnostic ==> line.last().text == " !"@ && line.last().paint.fg == Some(Tone::Error)
            &&& line.len() == 1 + (if row.relation@.len() > 0 { 1int } else { 0 }) + (if row.has_diagnostic { 1int } else {
                0
            })
        }),
{
}

/// The files pane is titled with what it lists and how much of it there is.
pub proof fn law_files_pane_is_titled(n: int, v: AppView)
    ensures
        ({
            let (left, right) = files_titles(n, v);
            &&& !(v.zoomed && v.focused == Pane::Files) ==> left[0].text == " Changed files"@ + " "@
            &&& v.zoomed && v.focused == Pane::Files ==> left[0].text == " Changed files"@ + " · ZOOM"@ + " "@
            &&& right[0].text == decimal_of(n) + " "@
            &&& left[0].paint.fg == Some(Tone::Text) && right[0].paint.fg == Some(Tone::Muted)
        }),
{
    assert(" Changed files"@ + Seq::<char>::empty() =~= " Changed files"@);
}

/// A note stands six cells in, muted, and is cut to the pane.
pub proof fn law_notes_stand_six_cells_in(text: Seq<char>, inner_w: int)
    requires
        inner_w >= 6,
    ensures
        ({
            let line = note_line(text, inner_w);
            &&& line[0].text == repeat_of(' ', 6)
            &&& line[1].text == clipped(text, inner_w - 6) && line[1].paint.fg == Some(Tone::Muted)
            &&& line[0].paint.bg is None && line[1].paint.bg is None
        }),
{
}

/// The file that is highlighted is the one that is selected or owns what is selected.
pub proof fn law_highlighted_file_is_the_selected_one(files: Seq<FileRow>, sel: int, i: int, k: int)
    requires
        0 <= i <= k < files.len(),
        flat_before(files, k) <= sel < flat_before(files, k + 1),
        forall|j: int|
            i <= j < k ==> !(#[trigger] flat_before(files, j) <= sel && sel < flat_before(files, j + 1)),
    ensures
        highlighted_file(files, sel, i) == Some(k),
    decreases k - i,
{
    if i < k {
        assert(!(flat_before(files, i) <= sel && sel < flat_before(files, i + 1)));
        law_highlighted_file_is_the_selected_one(files, sel, i + 1, k);
    }
}

/// Directories that hold one directory and nothing else are joined with it into one row, as far
/// down as that goes; the next row begins below.
pub proof fn law_lone_directories_are_joined(files: Seq<FileRow>, path: Seq<char>, k: int)
    requires
        0 <= k < prefixes_of(path).len(),
    ensures
        ({
            let dirs = prefixes_of(path);
            let end = chain_end(files, dirs, k);
            let rows = shown_directories(files, path, k);
            &&& k <= end < dirs.len()
            &&& forall|j: int| k <= j < end ==> #[trigger] only_child(files, dirs[j], dirs[j + 1])
            &&& end + 1 < dirs.len() ==> !only_child(files, dirs[end], dirs[end + 1])
            &&& rows.len() > 0 && rows[0].0 == dirs[end] && rows[0].1 == chain_label(path, k, end)
            &&& rows.skip(1) == shown_directories(files, path, end + 1)
        }),
{
    let dirs = prefixes_of(path);
    lemma_chain(files, dirs, k);
    let end = chain_end(files, dirs, k);
    let rows = shown_directories(files, path, k);
    assert(rows.skip(1) =~= shown_directories(files, path, end + 1));
}

proof fn lemma_chain(files: Seq<FileRow>, dirs: Seq<Seq<char>>, k: int)
    requires
        0 <= k < dirs.len(),
    ensures
        ({
            let end = chain_end(files, dirs, k);
            &&& k <= end < dirs.len()
            &&& forall|j: int| k <= j < end ==> #[trigger] only_child(files, dirs[j], dirs[j + 1])
            &&& end + 1 < dirs.len() ==> !only_child(files, dirs[end], dirs[end + 1])
        }),
    decreases dirs.len() - k,
{
    if k + 1 < dirs.len() && only_child(files, dirs[k], dirs[k + 1]) {
        lemma_chain(files, dirs, k + 1);
    }
}

/// A directory that holds a file of its own, or two directories, is not joined with any.
pub proof fn law_shared_directories_stand_apart(files: Seq<FileRow>, f: int, g: int, j: int, next: Seq<char>)
    requires
        0 <= f < files.len(),
        0 <= g < files.len(),
        0 < prefixes_of(files[f].path@).len(),
        0 < j < prefixes_of(files[f].path@).len(),
        j < prefixes_of(files[g].path@).len(),
        prefixes_of(files[f].path@)[j - 1] == prefixes_of(files[g].path@)[j - 1],
        prefixes_of(files[f].path@)[j] != prefixes_of(files[g].path@)[j],
    ensures
        !only_child(files, prefixes_of(files[f].path@).last(), next),
        !only_child(files, prefixes_of(files[f].path@)[j - 1], next),
{
    let (p, q) = (files[f].path@, files[g].path@);
    let n = prefixes_of(p).len() as int;
    assert(step_parent(p, n) == prefixes_of(p).last() && step_child(p, n) == DirectoryChild::File(p));
    assert(is_child(files, prefixes_of(p).last(), DirectoryChild::File(p)));
    let d = prefixes_of(p)[j - 1];
    assert(step_parent(p, j) == d && step_child(p, j) == DirectoryChild::Directory(prefixes_of(p)[j]));
    assert(step_parent(q, j) == d && step_child(q, j) == DirectoryChild::Directory(prefixes_of(q)[j]));
    assert(is_child(files, d, DirectoryChild::Directory(prefixes_of(p)[j])));
    assert(is_child(files, d, DirectoryChild::Directory(prefixes_of(q)[j])));
}

} // verus!
