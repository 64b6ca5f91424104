//! What is copied out of the diff: every code row of a selection, from its first selected cell
//! to its last.

use vstd::prelude::*;
use crate::action::{DiffTextPoint, DiffTextSelection};
use crate::diff_pane::CopyView;
use crate::geometry::{cell_slice, cells_between, selected_part, selected_parts, selected_text, text_point, FrameView};
use crate::text::{cells_of_char, display_width, join_with};

verus! {

/// A line whose characters all take one cell, as the terminal measures it.
pub open spec fn is_narrow(line: Seq<char>) -> bool {
    display_width(line) == line.len() && line.len() <= usize::MAX && forall|i: int|
        0 <= i < line.len() ==> cells_of_char(#[trigger] line[i]) == 1
}

/// The column of a character: the cells of those before it.
pub open spec fn column_of(line: Seq<char>, i: int) -> int
    decreases i,
{
    if i <= 0 { 0 } else { column_of(line, i - 1) + cells_of_char(line[i - 1]) }
}

proof fn lemma_columns_grow(line: Seq<char>, a: int, b: int)
    requires
        0 <= a <= b <= line.len(),
    ensures
        0 <= column_of(line, a) <= column_of(line, b),
    decreases b,
{
    if a < b {
        lemma_columns_grow(line, a, b - 1);
    } else if b > 0 {
        lemma_columns_grow(line, b - 1, b - 1);
    }
}

proof fn lemma_cells_between(line: Seq<char>, from: int, to: int, n: int, i: int)
    requires
        0 <= n <= line.len(),
        0 <= i < n,
        column_of(line, line.len() as int) <= usize::MAX,
    ensures
        cells_between(line, from, to, n).1 == column_of(line, n),
        column_of(line, i) < to && column_of(line, i + 1) > from ==> cells_between(line, from, to, n).0.contains(line[i]),
    decreases n,
{
    lemma_columns_grow(line, n, line.len() as int);
    lemma_columns_grow(line, n - 1, n);
    lemma_columns_at(line, from, to, n - 1);
    let (before, column) = cells_between(line, from, to, n - 1);
    let after = cells_between(line, from, to, n).0;
    if i < n - 1 {
        lemma_cells_between(line, from, to, n - 1, i);
        if column_of(line, i) < to && column_of(line, i + 1) > from {
            let j = choose|j: int| 0 <= j < before.len() && before[j] == line[i];
            assert(after[j] == line[i]);
        }
    } else if column_of(line, i) < to && column_of(line, i + 1) > from {
        assert(after == before.push(line[i]));
        assert(after[before.len() as int] == line[i]);
    }
}

proof fn lemma_columns_at(line: Seq<char>, from: int, to: int, n: int)
    requires
        0 <= n <= line.len(),
        column_of(line, line.len() as int) <= usize::MAX,
    ensures
        cells_between(line, from, to, n).1 == column_of(line, n),
    decreases n,
{
    if n > 0 {
        lemma_columns_at(line, from, to, n - 1);
        lemma_columns_grow(line, n, line.len() as int);
    }
}

/// Every character that shows in one of the columns `from..to` is part of the slice.
pub proof fn law_slices_miss_no_character(line: Seq<char>, from: int, to: int, i: int)
    requires
        0 <= i < line.len(),
        column_of(line, line.len() as int) <= usize::MAX,
        from < to,
        column_of(line, i) < to,
        from < column_of(line, i + 1),
    ensures
        cell_slice(line, from, to).contains(line[i]),
{
    lemma_cells_between(line, from, to, line.len() as int, i);
}

/// A slice takes the characters that show in its columns, in order, and no others.
pub proof fn law_slices_take_the_characters_they_show(line: Seq<char>, from: int, to: int, n: int)
    requires
        0 <= n < line.len(),
        column_of(line, line.len() as int) <= usize::MAX,
    ensures
        ({
            let before = cells_between(line, from, to, n).0;
            let after = cells_between(line, from, to, n + 1).0;
            let shows = column_of(line, n) < to && from < column_of(line, n + 1);
            &&& shows ==> after == before.push(line[n])
            &&& !shows ==> after == before
            &&& cells_between(line, from, to, 0).0.len() == 0
            &&& from < to ==> cell_slice(line, from, to) == cells_between(line, from, to, line.len() as int).0
            &&& from >= to ==> cell_slice(line, from, to).len() == 0
        }),
{
    lemma_columns_at(line, from, to, n);
    lemma_columns_grow(line, n + 1, line.len() as int);
}

proof fn lemma_narrow_cells(line: Seq<char>, from: int, to: int, n: int)
    requires
        0 <= n <= line.len() <= usize::MAX,
        forall|i: int| 0 <= i < line.len() ==> cells_of_char(#[trigger] line[i]) == 1,
        0 <= from < to,
    ensures
        cells_between(line, from, to, n).1 == n,
        cells_between(line, from, to, n).0 == if n <= from {
            Seq::empty()
        } else if n <= to {
            line.subrange(from, n)
        } else {
            line.subrange(from, to)
        },
    decreases n,
{
    if n > 0 {
        lemma_narrow_cells(line, from, to, n - 1);
        let before = cells_between(line, from, to, n - 1).0;
        assert(cells_of_char(line[n - 1]) == 1);
        if n > from && n <= to {
            assert(before.push(line[n - 1]) =~= line.subrange(from, n));
        }
    }
}

/// In a line of narrow characters a slice is the characters of its columns.
pub proof fn law_narrow_slices_are_the_columns(line: Seq<char>, from: int, to: int)
    requires
        is_narrow(line),
        0 <= from <= to <= line.len(),
    ensures
        cell_slice(line, from, to) == line.subrange(from, to),
{
    if from < to {
        lemma_narrow_cells(line, from, to, line.len() as int);
    } else {
        assert(line.subrange(from, to) =~= Seq::empty());
    }
}

/// Whether a row of a copy frame is code that a selection of rows `from..=to` covers.
pub open spec fn is_copied(f: CopyView, from: int, to: int, row: int) -> bool {
    from <= row <= to && 0 <= row < f.lines.len() && row < f.code_starts.len() && f.code_starts[row] is Some
}

/// How many code rows of a selection stand before row `n`.
pub open spec fn copied_before(f: CopyView, from: int, to: int, n: int) -> int {
    Seq::new(n as nat, |row: int| row).filter(|row: int| is_copied(f, from, to, row)).len() as int
}

proof fn lemma_copied_step(f: CopyView, from: int, to: int, n: int)
    requires
        0 <= n,
    ensures
        copied_before(f, from, to, n + 1) == copied_before(f, from, to, n) + if is_copied(f, from, to, n) {
            1int
        } else {
            0int
        },
{
    reveal(Seq::filter);
    let all = Seq::new((n + 1) as nat, |row: int| row);
    assert(all.drop_last() =~= Seq::new(n as nat, |row: int| row));
    assert(all.last() == n);
}

proof fn lemma_parts_by_row(f: CopyView, start: DiffTextPoint, end: DiffTextPoint, n: int)
    requires
        0 <= n <= f.lines.len(),
    ensures
        selected_parts(f, start, end, n).len() == copied_before(f, start.row as int, end.row as int, n),
        forall|row: int|
            0 <= row < n && #[trigger] is_copied(f, start.row as int, end.row as int, row) ==> {
                let k = copied_before(f, start.row as int, end.row as int, row);
                0 <= k < selected_parts(f, start, end, n).len() && selected_parts(f, start, end, n)[k] == selected_part(
                    f,
                    start,
                    end,
                    row,
                )
            },
    decreases n,
{
    let (from, to) = (start.row as int, end.row as int);
    if n == 0 {
        reveal(Seq::filter);
    } else {
        lemma_parts_by_row(f, start, end, n - 1);
        lemma_copied_step(f, from, to, n - 1);
        let before = selected_parts(f, start, end, n - 1);
        let after = selected_parts(f, start, end, n);
        assert forall|row: int| 0 <= row < n && #[trigger] is_copied(f, from, to, row) implies {
            let k = copied_before(f, from, to, row);
            0 <= k < after.len() && after[k] == selected_part(f, start, end, row)
        } by {
            if row < n - 1 {
                assert(after[copied_before(f, from, to, row)] == before[copied_before(f, from, to, row)]);
            }
        }
    }
}

/// A selection copies one line for every code row from its first to its last row, in order: a
/// row between them from its code start to its end, the first row from the selected column on,
/// and the last row up to the selected column.
pub proof fn law_selections_copy_every_code_row(f: CopyView, start: DiffTextPoint, end: DiffTextPoint, row: int)
    requires
        start.row <= end.row,
        is_copied(f, start.row as int, end.row as int, row),
        is_narrow(f.lines[row]),
        0 <= f.code_starts[row]->0 <= f.lines[row].len(),
        row == start.row ==> start.column <= f.lines[row].len(),
        row == end.row ==> f.code_starts[row]->0 <= end.column + 1,
        row == start.row == end.row ==> start.column <= end.column,
    ensures
        ({
            let parts = selected_parts(f, start, end, f.lines.len() as int);
            let line = f.lines[row];
            let body = f.code_starts[row]->0;
            let from = if start.column < body { body } else { start.column as int };
            let to = if end.column < line.len() { end.column + 1 } else { line.len() as int };
            let k = copied_before(f, start.row as int, end.row as int, row);
            &&& parts.len() == copied_before(f, start.row as int, end.row as int, f.lines.len() as int)
            &&& 0 <= k < parts.len()
            &&& start.row < row < end.row ==> parts[k] == line.skip(body)
            &&& start.row == row < end.row ==> parts[k] == line.skip(from)
            &&& start.row < row == end.row ==> parts[k] == line.subrange(body, to)
            &&& start.row == row == end.row ==> parts[k] == line.subrange(from, to)
        }),
{
    lemma_parts_by_row(f, start, end, f.lines.len() as int);
    let line = f.lines[row];
    let body = f.code_starts[row]->0;
    let from = if start.column < body { body } else { start.column as int };
    let to = if end.column < line.len() { end.column + 1 } else { line.len() as int };
    law_narrow_slices_are_the_columns(line, body, line.len() as int);
    assert(line.subrange(body, line.len() as int) =~= line.skip(body));
    if row == start.row {
        law_narrow_slices_are_the_columns(line, from, line.len() as int);
        assert(line.subrange(from, line.len() as int) =~= line.skip(from));
    }
    if row == end.row {
        law_narrow_slices_are_the_columns(line, body, to);
        if row == start.row {
            law_narrow_slices_are_the_columns(line, from, to);
        }
    }
}

/// Of a row between the first and the last every character of the code is copied, whatever its
/// width.
pub proof fn law_rows_between_are_copied_whole(f: CopyView, start: DiffTextPoint, end: DiffTextPoint, row: int, i: int)
    requires
        start.row < row < end.row,
        is_copied(f, start.row as int, end.row as int, row),
        0 <= i < f.lines[row].len(),
        column_of(f.lines[row], f.lines[row].len() as int) <= display_width(f.lines[row]) <= usize::MAX,
        cells_of_char(f.lines[row][i]) > 0,
        f.code_starts[row]->0 < column_of(f.lines[row], i + 1),
        0 <= f.code_starts[row]->0,
    ensures
        ({
            let k = copied_before(f, start.row as int, end.row as int, row);
            let parts = selected_parts(f, start, end, f.lines.len() as int);
            0 <= k < parts.len() && parts[k].contains(f.lines[row][i])
        }),
{
    let line = f.lines[row];
    lemma_parts_by_row(f, start, end, f.lines.len() as int);
    lemma_columns_grow(line, i + 1, line.len() as int);
    law_slices_miss_no_character(line, f.code_starts[row]->0, display_width(line) as int, i);
}

/// The copied text is those lines with a line feed between each two; a selection without a
/// code row copies nothing.
pub proof fn law_copied_lines_are_joined(f: CopyView, a: DiffTextPoint, b: DiffTextPoint)
    requires
        a.row < b.row || (a.row == b.row && a.column <= b.column),
    ensures
        ({
            let parts = selected_parts(f, a, b, f.lines.len() as int);
            let text = selected_text(f, DiffTextSelection { start: a, end: b });
            &&& parts.len() == 0 ==> text.len() == 0
            &&& parts.len() == 1 ==> text == parts[0]
            &&& parts.len() == 2 ==> text == parts[0] + seq!['\n'] + parts[1]
            &&& parts.len() > 1 ==> text == join_with(parts.drop_last(), seq!['\n']) + seq!['\n'] + parts.last()
        }),
{
    let parts = selected_parts(f, a, b, f.lines.len() as int);
    if parts.len() == 2 {
        assert(parts.drop_last().len() == 1);
        assert(join_with(parts.drop_last(), seq!['\n']) == parts[0]);
    }
}

/// A point of the diff is the cell under the pointer: its row counts from the first visible
/// line, its column from the left of the pane, held inside the code of the line. Gutters and
/// headers have no point.
pub proof fn law_text_points_are_under_the_pointer(g: FrameView, x: int, y: int)
    requires
        g.copy is Some,
        ({
            let f = g.copy->0;
            0 <= f.first_visible && f.first_visible + u16::MAX <= usize::MAX && f.rect.x <= x && f.rect.y <= y && f.rect.fits()
        }),
    ensures
        ({
            let f = g.copy->0;
            let row = f.first_visible + (y - f.rect.y);
            let column = x - f.rect.x;
            let over = x < f.rect.x + f.rect.width && y < f.rect.y + f.rect.height;
            &&& !over ==> text_point(g, x, y) is None
            &&& over && is_copied(f, row, row, row) ==> {
                &&& text_point(g, x, y) is Some
                &&& (text_point(g, x, y)->0).0 == row
                &&& f.code_starts[row]->0 <= column <= display_width(f.lines[row]) ==> (text_point(g, x, y)->0).1 == column
                &&& column < f.code_starts[row]->0 <= display_width(f.lines[row]) ==> (text_point(g, x, y)->0).1
                    == f.code_starts[row]->0
                &&& f.code_starts[row]->0 <= display_width(f.lines[row]) < column ==> (text_point(g, x, y)->0).1
                    == display_width(f.lines[row])
            }
            &&& over && !is_copied(f, row, row, row) ==> text_point(g, x, y) is None
        }),
{
}

} // verus!
