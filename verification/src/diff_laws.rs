//! What the diff pane shows: where its lines break, what stands in the gutter, and which part of
//! a body is in the window.

use vstd::prelude::*;
use crate::diff_view::{
    body_paint, body_text, break_before, breaks_after, bytes_before, cells_at, clipped, column_at, drawn, expanded,
    gutter_cells, is_marked, is_punctuation, largest_line, law_highlights_keep_text, line_end, marks, measured,
    number_cell, number_width, overflow_at, overlaps, painted, put, raw_line, raw_lines, row_marks, row_ranges, shown_x,
    widest_body, window_at, wrapped_line, wrapped_ranges, wrapped_row, wrapped_rows,
};
use crate::snapshot::DiffRow;
use crate::style::{flat, lemma_flat_push, Paint, PieceView, Tone};
use crate::text::{byte_len, concat, display_width, graphemes_of, space_char};
use crate::wrap::{decimal_of, digit};

verus! {

/// A place after which a line may break: whitespace or one of the printable ASCII characters
/// that are neither letters, digits nor the space.
pub open spec fn is_gap(c: char) -> bool {
    space_char(c) || (32 < c as int && c as int <= 126 && !('0' <= c && c <= '9') && !('a' <= c && c <= 'z') && !('A'
        <= c && c <= 'Z'))
}

/// A grapheme is a soft break exactly where it holds a gap.
pub proof fn law_gaps_are_soft_breaks(g: Seq<char>)
    ensures
        breaks_after(g) <==> exists|i: int| 0 <= i < g.len() && is_gap(#[trigger] g[i]),
{
    if breaks_after(g) {
        let i = choose|i: int| 0 <= i < g.len() && (space_char(#[trigger] g[i]) || is_punctuation(g[i]));
        assert(is_gap(g[i]));
    }
    if exists|i: int| 0 <= i < g.len() && is_gap(#[trigger] g[i]) {
        let i = choose|i: int| 0 <= i < g.len() && is_gap(#[trigger] g[i]);
        assert(space_char(g[i]) || is_punctuation(g[i]));
    }
}

/// Whether a grapheme holds a gap.
pub open spec fn holds_gap(g: Seq<char>) -> bool {
    exists|i: int| 0 <= i < g.len() && is_gap(#[trigger] g[i])
}

/// Whether the line from `start` is full before grapheme `i`: everything up to it fits the
/// budget, and it does not.
pub open spec fn fills_up_at(gs: Seq<Seq<char>>, budget: int, start: int, i: int) -> bool {
    &&& 0 <= start < i < gs.len()
    &&& column_at(gs, start, i) + cells_at(gs[i], column_at(gs, start, i)) > budget
    &&& forall|k: int|
        start < k < i ==> (#[trigger] column_at(gs, start, k)) + cells_at(gs[k], column_at(gs, start, k)) <= budget
}

proof fn lemma_overflow_is_first(gs: Seq<Seq<char>>, budget: int, start: int, i: int, j: int)
    requires
        fills_up_at(gs, budget, start, i),
        start <= j <= i,
    ensures
        overflow_at(gs, budget, start, j) == i,
    decreases i - j,
{
    if j < i {
        if j > start {
            assert(column_at(gs, start, j) + cells_at(gs[j], column_at(gs, start, j)) <= budget);
        }
        lemma_overflow_is_first(gs, budget, start, i, j + 1);
    }
}

proof fn lemma_last_gap(gs: Seq<Seq<char>>, low: int, i: int, j: int)
    requires
        0 <= low <= j <= i <= gs.len(),
        forall|k: int| j <= k < i ==> !holds_gap(#[trigger] gs[k]),
    ensures
        ({
            let end = break_before(gs, low, i, j);
            &&& (exists|k: int| low <= k < j && holds_gap(#[trigger] gs[k])) ==> low < end <= i && holds_gap(gs[end - 1])
                && forall|k: int| end <= k < i ==> !holds_gap(#[trigger] gs[k])
            &&& !(exists|k: int| low <= k < j && holds_gap(#[trigger] gs[k])) ==> end == i
        }),
    decreases j - low,
{
    if j > low {
        law_gaps_are_soft_breaks(gs[j - 1]);
        if !holds_gap(gs[j - 1]) {
            lemma_last_gap(gs, low, i, j - 1);
        }
    }
}

/// A full line ends after the last whitespace or punctuation of its second half. Where its
/// second half has none it is filled to the edge.
pub proof fn law_full_lines_end_after_a_gap(gs: Seq<Seq<char>>, budget: int, start: int, i: int)
    requires
        fills_up_at(gs, budget, start, i),
    ensures
        ({
            let end = line_end(gs, budget, start);
            let half = start + (i - start) / 2;
            let gap = exists|k: int| half <= k < i && holds_gap(#[trigger] gs[k]);
            &&& wrapped_ranges(gs, budget, start)[0] == (start, end)
            &&& wrapped_ranges(gs, budget, start).len() > 1
            &&& gap ==> half < end <= i && holds_gap(gs[end - 1]) && forall|k: int|
                end <= k < i ==> !holds_gap(#[trigger] gs[k])
            &&& !gap ==> end == i
        }),
{
    lemma_overflow_is_first(gs, budget, start, i, start);
    lemma_last_gap(gs, start + (i - start) / 2, i, i);
    let end = line_end(gs, budget, start);
    assert(start < end <= i);
    assert(wrapped_ranges(gs, budget, end).len() > 0);
}

proof fn lemma_no_overflow(gs: Seq<Seq<char>>, budget: int, start: int, j: int)
    requires
        0 <= start <= j <= gs.len(),
        forall|k: int|
            start < k < gs.len() ==> (#[trigger] column_at(gs, start, k)) + cells_at(gs[k], column_at(gs, start, k))
                <= budget,
    ensures
        overflow_at(gs, budget, start, j) == gs.len(),
    decreases gs.len() - j,
{
    if j < gs.len() {
        if j > start {
            assert(column_at(gs, start, j) + cells_at(gs[j], column_at(gs, start, j)) <= budget);
        }
        lemma_no_overflow(gs, budget, start, j + 1);
    }
}

/// What fits is not broken.
pub proof fn law_what_fits_is_one_line(gs: Seq<Seq<char>>, budget: int, start: int)
    requires
        0 <= start <= gs.len(),
        forall|k: int|
            start < k < gs.len() ==> (#[trigger] column_at(gs, start, k)) + cells_at(gs[k], column_at(gs, start, k))
                <= budget,
    ensures
        wrapped_ranges(gs, budget, start) == seq![(start, gs.len() as int)],
{
    lemma_no_overflow(gs, budget, start, start);
}

/// A tab reaches the next column that is a multiple of four and shows as spaces; every other
/// grapheme takes its own width and shows as itself.
pub proof fn law_tabs_stop_at_every_fourth_column(g: Seq<char>, col: int)
    requires
        0 <= col,
    ensures
        g == seq!['\t'] ==> {
            &&& 1 <= cells_at(g, col) <= 4
            &&& (col + cells_at(g, col)) % 4 == 0
            &&& drawn(g, col).len() == cells_at(g, col)
            &&& forall|i: int| 0 <= i < drawn(g, col).len() ==> drawn(g, col)[i] == ' '
        },
        g != seq!['\t'] ==> cells_at(g, col) == display_width(g) && drawn(g, col) == g,
{
}

/// A line's columns are the cells of its graphemes, one after the other.
pub proof fn law_columns_add_up(gs: Seq<Seq<char>>, from: int, to: int)
    requires
        from <= to,
        column_at(gs, from, to) + cells_at(gs[to], column_at(gs, from, to)) <= usize::MAX,
    ensures
        column_at(gs, from, from) == 0,
        column_at(gs, from, to + 1) - column_at(gs, from, to) == cells_at(gs[to], column_at(gs, from, to)),
{
}

/// A number read from its digits.
pub open spec fn read_number(s: Seq<char>) -> int
    decreases s.len(),
{
    if s.len() == 0 { 0 } else { 10 * read_number(s.drop_last()) + (s.last() as int - 48) }
}

/// A number in digits reads back as itself, in digits only and without a leading zero.
pub proof fn law_numbers_read_back(n: int)
    requires
        0 <= n,
    ensures
        read_number(decimal_of(n)) == n,
        decimal_of(n).len() > 0,
        n > 0 ==> decimal_of(n)[0] != '0',
        forall|i: int| 0 <= i < decimal_of(n).len() ==> '0' <= #[trigger] decimal_of(n)[i] && decimal_of(n)[i] <= '9',
    decreases n,
{
    if n < 10 {
        assert(decimal_of(n).drop_last() =~= Seq::empty());
        assert(read_number(Seq::<char>::empty()) == 0);
        assert(digit(n) as int == 48 + n);
    } else {
        law_numbers_read_back(n / 10);
        assert(decimal_of(n).drop_last() =~= decimal_of(n / 10));
        assert(digit(n % 10) as int == 48 + n % 10);
    }
}

/// A line number stands at the right of its column; a missing one leaves it blank.
pub proof fn law_line_numbers_stand_at_the_right(n: int, w: int)
    requires
        0 <= n,
        0 <= w,
    ensures
        ({
            let cell = number_cell(Some(n), w);
            let digits = decimal_of(n).len() as int;
            &&& digits <= w ==> cell.len() == w
            &&& cell.skip(cell.len() - digits) == decimal_of(n)
            &&& forall|i: int| 0 <= i < cell.len() - digits ==> cell[i] == ' '
        }),
        number_cell(None, w).len() == w,
        forall|i: int| 0 <= i < w ==> number_cell(None, w)[i] == ' ',
{
    law_numbers_read_back(n);
    let cell = number_cell(Some(n), w);
    assert(cell.skip(cell.len() - decimal_of(n).len()) =~= decimal_of(n));
}

/// The gutter of a row is its old number, its new number and its sign: an added line has only
/// a new number and `+`, a removed line only an old number and `-`, context has both.
pub proof fn law_rows_show_their_numbers_and_sign(
    row: DiffRow,
    spans: Seq<(usize, usize)>,
    w: int,
    x: int,
    body_w: int,
    inner_w: int,
)
    ensures
        ({
            let line = raw_line(row, spans, w, x, body_w, inner_w);
            &&& !(row is HunkHeader) ==> {
                &&& line.len() >= 5
                &&& line[1].text == " │ "@ && line[3].text == " "@
                &&& forall|i: int| 0 <= i < 4 ==> (#[trigger] line[i]).paint.fg == Some(Tone::Muted) && line[i].paint.bg
                    is None
                &&& line[0].text == (if row is Add { number_cell(None, w) } else if row is Del {
                    number_cell(Some(row->Del_old_ln as int), w)
                } else {
                    number_cell(Some(row->Context_old_ln as int), w)
                })
                &&& line[2].text == (if row is Del { number_cell(None, w) } else if row is Add {
                    number_cell(Some(row->Add_new_ln as int), w)
                } else {
                    number_cell(Some(row->Context_new_ln as int), w)
                })
                &&& line[4].text == (if row is Add { "+"@ } else if row is Del { "-"@ } else { " "@ })
                &&& line[4].paint.bg == (if row is Add { Some(Tone::AddBg) } else if row is Del {
                    Some(Tone::DelBg)
                } else {
                    None
                })
                &&& line[4].paint.fg == (if row is Context { Some(Tone::Muted) } else { Some(Tone::Text) })
            }
            &&& row is HunkHeader ==> {
                &&& line.len() == 1
                &&& line[0].paint == (Paint {
                    fg: Some(Tone::HunkFg),
                    bg: Some(Tone::SurfaceAlt),
                    bold: true,
                    underlined: false,
                })
                &&& row->HunkHeader_0@.len() > 0 && display_width(row->HunkHeader_0@) <= inner_w
                    ==> line[0].text.take(row->HunkHeader_0@.len() as int) == row->HunkHeader_0@ && line[0].text.len()
                    == row->HunkHeader_0@.len() + (inner_w - display_width(row->HunkHeader_0@))
            }
        }),
{
    let line = raw_line(row, spans, w, x, body_w, inner_w);
    if row is HunkHeader && display_width(row->HunkHeader_0@) <= inner_w {
        assert(line[0].text.take(row->HunkHeader_0@.len() as int) =~= row->HunkHeader_0@);
    }
}

/// The first line of a wrapped row carries the gutter of the row; the others have blank numbers
/// and an arrow. The text of every line is its part of the body.
pub proof fn law_wrapped_rows_continue_with_an_arrow(row: DiffRow, spans: Seq<(usize, usize)>, w: int, body_w: int, k: int)
    requires
        !(row is HunkHeader),
        0 <= k < wrapped_row(row, spans, w, body_w).len(),
    ensures
        ({
            let lines = wrapped_row(row, spans, w, body_w);
            let ranges = row_ranges(row, w, body_w);
            let gs = graphemes_of(body_text(row));
            let whole = raw_line(row, spans, w, 0, body_w, 0);
            &&& lines.len() == ranges.len()
            &&& lines[k].len() >= 5
            &&& k == 0 ==> lines[0].take(5) == whole.take(5)
            &&& k > 0 ==> lines[k][0].text == number_cell(None, w) && lines[k][1].text == " │ "@ && lines[k][2].text
                == number_cell(None, w) && lines[k][3].text == " "@ && lines[k][4].text == "↪"@
            &&& flat(lines[k].skip(5)) == expanded(gs, ranges[k].0, ranges[k].1)
        }),
{
    let lines = wrapped_row(row, spans, w, body_w);
    let ranges = row_ranges(row, w, body_w);
    let gs = graphemes_of(body_text(row));
    let (base, hi) = body_paint(row);
    let flags = row_marks(row, spans);
    let body = painted(gs, flags, base, hi, ranges[k].0, ranges[k].1);
    assert(lines[k] == wrapped_line(row, spans, w, body_w, ranges[k], k == 0));
    assert(lines[k].skip(5) =~= body);
    law_highlights_keep_text(gs, flags, base, hi, ranges[k].0, ranges[k].1);
    if k == 0 {
        assert(lines[0].take(5) =~= raw_line(row, spans, w, 0, body_w, 0).take(5));
    }
}

/// Text without tabs shows as it is.
pub proof fn law_plain_text_is_shown_as_it_is(gs: Seq<Seq<char>>, from: int, to: int)
    requires
        0 <= from <= to <= gs.len(),
        forall|i: int| from <= i < to ==> #[trigger] gs[i] != seq!['\t'],
    ensures
        expanded(gs, from, to) == concat(gs.subrange(from, to)),
    decreases to - from,
{
    if from < to {
        law_plain_text_is_shown_as_it_is(gs, from, to - 1);
        assert(gs.subrange(from, to).drop_last() =~= gs.subrange(from, to - 1));
        assert(gs[to - 1] != seq!['\t']);
    } else {
        assert(gs.subrange(from, to) =~= Seq::empty());
    }
}

/// Whether a byte stands in a span.
pub open spec fn is_inside(span: (usize, usize), b: int) -> bool {
    span.0 <= b < span.1
}

/// A byte of a grapheme inside a span marks the grapheme, and nothing else does.
pub proof fn law_marked_graphemes_hold_a_changed_byte(gs: Seq<Seq<char>>, spans: Seq<(usize, usize)>, i: int)
    requires
        0 <= i < gs.len(),
        bytes_before(gs, i) < bytes_before(gs, i + 1),
        forall|k: int| 0 <= k < spans.len() ==> (#[trigger] spans[k]).0 < spans[k].1,
    ensures
        marks(gs, spans).len() == gs.len(),
        marks(gs, spans)[i] <==> exists|k: int, b: int|
            0 <= k < spans.len() && #[trigger] is_inside(spans[k], b) && bytes_before(gs, i) <= b < bytes_before(
                gs,
                i + 1,
            ),
{
    let (from, to) = (bytes_before(gs, i), bytes_before(gs, i + 1));
    if is_marked(gs, spans, i) {
        let k = choose|k: int| 0 <= k < spans.len() && overlaps(#[trigger] spans[k], from, to);
        let b = if from < spans[k].0 { spans[k].0 as int } else { from };
        assert(is_inside(spans[k], b));
    }
    if exists|k: int, b: int|
        0 <= k < spans.len() && #[trigger] is_inside(spans[k], b) && from <= b < to {
        let (k, b) = choose|k: int, b: int|
            0 <= k < spans.len() && #[trigger] is_inside(spans[k], b) && from <= b < to;
        assert(overlaps(spans[k], from, to));
    }
}

/// A grapheme stands after the bytes of those before it.
pub proof fn law_graphemes_stand_after_each_other(gs: Seq<Seq<char>>, i: int)
    requires
        0 <= i < gs.len(),
        bytes_before(gs, i) + byte_len(gs[i]) <= usize::MAX,
    ensures
        bytes_before(gs, 0) == 0,
        bytes_before(gs, i + 1) - bytes_before(gs, i) == byte_len(gs[i]),
{
}

/// The paint of character `k` of a line.
pub open spec fn paint_at(line: Seq<PieceView>, k: int) -> Option<Paint>
    decreases line.len(),
{
    if line.len() == 0 || k < 0 {
        None
    } else if k >= flat(line.drop_last()).len() {
        if k < flat(line).len() { Some(line.last().paint) } else { None }
    } else {
        paint_at(line.drop_last(), k)
    }
}

proof fn lemma_paint_put(line: Seq<PieceView>, text: Seq<char>, paint: Paint, k: int)
    requires
        0 <= k,
    ensures
        flat(put(line, text, paint)) == flat(line) + text,
        k < flat(line).len() ==> paint_at(put(line, text, paint), k) == paint_at(line, k),
        flat(line).len() <= k < flat(line).len() + text.len() ==> paint_at(put(line, text, paint), k) == Some(paint),
{
    let out = put(line, text, paint);
    if line.len() > 0 && line.last().paint == paint {
        let piece = PieceView { text: line.last().text + text, paint };
        lemma_flat_push(line.drop_last(), piece);
        assert(out.drop_last() =~= line.drop_last());
        assert(flat(line.drop_last()) + (line.last().text + text) =~= flat(line) + text);
    } else {
        lemma_flat_push(line, PieceView { text, paint });
        assert(out.drop_last() =~= line);
    }
}

/// Changed graphemes, and only they, are drawn in the highlight.
pub proof fn law_highlights_are_the_changed_graphemes(
    gs: Seq<Seq<char>>,
    flags: Seq<bool>,
    base: Paint,
    hi: Paint,
    from: int,
    to: int,
    i: int,
    k: int,
)
    requires
        0 <= from <= i < to <= gs.len(),
        expanded(gs, from, i).len() <= k < expanded(gs, from, i + 1).len(),
    ensures
        flat(painted(gs, flags, base, hi, from, to)) == expanded(gs, from, to),
        paint_at(painted(gs, flags, base, hi, from, to), k) == Some(if flags[i] { hi } else { base }),
    decreases to - from,
{
    let before = painted(gs, flags, base, hi, from, to - 1);
    let text = drawn(gs[to - 1], column_at(gs, from, to - 1));
    let paint = if flags[to - 1] { hi } else { base };
    law_highlights_keep_text(gs, flags, base, hi, from, to);
    law_highlights_keep_text(gs, flags, base, hi, from, to - 1);
    lemma_paint_put(before, text, paint, k);
    if i < to - 1 {
        law_highlights_are_the_changed_graphemes(gs, flags, base, hi, from, to - 1, i, k);
        lemma_expanded_grows(gs, from, i + 1, to - 1);
    }
}

proof fn lemma_expanded_grows(gs: Seq<Seq<char>>, from: int, a: int, b: int)
    requires
        from <= a <= b,
    ensures
        expanded(gs, from, a).len() <= expanded(gs, from, b).len(),
    decreases b - a,
{
    if a < b {
        lemma_expanded_grows(gs, from, a, b - 1);
    }
}

/// The graphemes of a body that take one cell each.
pub open spec fn one_cell_each(gs: Seq<Seq<char>>) -> bool {
    gs.len() <= usize::MAX && forall|i: int|
        0 <= i < gs.len() ==> #[trigger] gs[i] != seq!['\t'] && display_width(gs[i]) == 1
}

/// A window at column `x` shows the graphemes from column `x` on, as many as fit.
pub proof fn law_windows_show_their_columns(
    gs: Seq<Seq<char>>,
    flags: Seq<bool>,
    x: int,
    budget: int,
    base: Paint,
    hi: Paint,
    n: int,
)
    requires
        one_cell_each(gs),
        0 <= x,
        0 <= budget,
        0 <= n <= gs.len(),
    ensures
        ({
            let end = if n <= x + budget { n } else { x + budget };
            let shown = flat(window_at(gs, flags, x, budget, base, hi, n).line);
            &&& n <= x ==> shown.len() == 0
            &&& x < n ==> shown == concat(gs.subrange(x, end))
        }),
{
    lemma_window(gs, flags, x, budget, base, hi, n);
}

proof fn lemma_window(gs: Seq<Seq<char>>, flags: Seq<bool>, x: int, budget: int, base: Paint, hi: Paint, n: int)
    requires
        one_cell_each(gs),
        0 <= x,
        0 <= budget,
        0 <= n <= gs.len(),
    ensures
        ({
            let w = window_at(gs, flags, x, budget, base, hi, n);
            let end = if n <= x + budget { n } else { x + budget };
            &&& n <= x ==> w.line.len() == 0 && w.col == n && w.taken == 0 && !w.full
            &&& x < n ==> flat(w.line) == concat(gs.subrange(x, end)) && w.full == (n > x + budget) && w.col == end
                && w.taken == end - x
        }),
    decreases n,
{
    if n > 0 {
        lemma_window(gs, flags, x, budget, base, hi, n - 1);
        let w = window_at(gs, flags, x, budget, base, hi, n - 1);
        let g = gs[n - 1];
        assert(g != seq!['\t'] && display_width(g) == 1);
        lemma_paint_put(w.line, drawn(g, w.col), if flags[n - 1] { hi } else { base }, 0);
        if x < n {
            if n - 1 == x {
                assert(gs.subrange(x, x) =~= Seq::empty());
                assert(flat(w.line) =~= Seq::empty());
            }
            if n <= x + budget {
                assert(gs.subrange(x, n).drop_last() =~= gs.subrange(x, n - 1));
                assert(gs.subrange(x, n).last() == g);
                assert(concat(gs.subrange(x, n)) =~= concat(gs.subrange(x, n - 1)) + g);
            }
        }
    }
}

/// The number column is made for the largest line number of the file: no number is above it,
/// and it is one of them. It has four to six cells.
pub proof fn law_number_column_holds_the_numbers(rows: Seq<DiffRow>, i: int)
    requires
        0 <= i < rows.len(),
    ensures
        ({
            let most = largest_line(rows, rows.len() as int);
            let w = number_width(rows);
            &&& rows[i] is Add ==> rows[i]->Add_new_ln <= most
            &&& rows[i] is Del ==> rows[i]->Del_old_ln <= most
            &&& rows[i] is Context ==> rows[i]->Context_new_ln <= most && rows[i]->Context_old_ln <= most
            &&& 4 <= w <= 6
            &&& decimal_of(most).len() <= 6 ==> decimal_of(most).len() <= w
            &&& 4 < w ==> w <= decimal_of(most).len()
        }),
{
    lemma_largest(rows, rows.len() as int, i);
}

proof fn lemma_largest(rows: Seq<DiffRow>, n: int, i: int)
    requires
        0 <= i < n <= rows.len(),
    ensures
        rows[i] is Add ==> rows[i]->Add_new_ln <= largest_line(rows, n),
        rows[i] is Del ==> rows[i]->Del_old_ln <= largest_line(rows, n),
        rows[i] is Context ==> rows[i]->Context_new_ln <= largest_line(rows, n) && rows[i]->Context_old_ln
            <= largest_line(rows, n),
    decreases n,
{
    if i < n - 1 {
        lemma_largest(rows, n - 1, i);
    }
}

/// The largest line number belongs to a row; without one it is zero.
pub proof fn law_largest_line_is_a_line(rows: Seq<DiffRow>, n: int)
    requires
        0 <= n <= rows.len(),
    ensures
        largest_line(rows, n) == 0 || exists|i: int|
            0 <= i < n && {
                let row = #[trigger] rows[i];
                ||| row is Add && row->Add_new_ln == largest_line(rows, n)
                ||| row is Del && row->Del_old_ln == largest_line(rows, n)
                ||| row is Context && row->Context_new_ln == largest_line(rows, n)
                ||| row is Context && row->Context_old_ln == largest_line(rows, n)
            },
    decreases n,
{
    if n > 0 {
        law_largest_line_is_a_line(rows, n - 1);
        let row = rows[n - 1];
        assert(row is Add || row is Del || row is Context || row is HunkHeader);
    }
}

/// The gutter takes both number columns and five cells.
pub proof fn law_gutter_takes_its_cells(w: int)
    ensures
        gutter_cells(w) == w + 3 + w + 1 + 1,
{
}

/// A body scrolls sideways until the end of the widest one is shown, and not further.
pub proof fn law_sideways_scrolling_ends_with_the_widest_body(rows: Seq<DiffRow>, x: int, body_w: int, i: int)
    requires
        0 <= x,
        0 <= body_w,
        0 <= i < rows.len(),
    ensures
        ({
            let shown = shown_x(rows, x, body_w);
            let most = widest_body(rows, rows.len() as int);
            &&& 0 <= shown <= x
            &&& !(rows[i] is HunkHeader) ==> measured(body_text(rows[i])) <= most
            &&& x + body_w <= most ==> shown == x
            &&& most < x + body_w ==> shown == 0 || shown + body_w == most
        }),
{
    lemma_widest(rows, rows.len() as int, i);
}

proof fn lemma_widest(rows: Seq<DiffRow>, n: int, i: int)
    requires
        0 <= i < n <= rows.len(),
    ensures
        !(rows[i] is HunkHeader) ==> measured(body_text(rows[i])) <= widest_body(rows, n),
    decreases n,
{
    if i < n - 1 {
        lemma_widest(rows, n - 1, i);
    }
}

/// Unwrapped rows are one line each, in order.
pub proof fn law_raw_rows_are_one_line_each(
    rows: Seq<DiffRow>,
    spans: Seq<Seq<(usize, usize)>>,
    w: int,
    x: int,
    body_w: int,
    inner_w: int,
    i: int,
)
    requires
        0 <= i < rows.len() == spans.len(),
    ensures
        raw_lines(rows, spans, w, x, body_w, inner_w).len() == rows.len(),
        raw_lines(rows, spans, w, x, body_w, inner_w)[i] == raw_line(rows[i], spans[i], w, x, body_w, inner_w),
{
}

/// Wrapped rows follow each other: a row begins after all lines of the rows before it.
pub proof fn law_wrapped_rows_follow_each_other(
    rows: Seq<DiffRow>,
    spans: Seq<Seq<(usize, usize)>>,
    w: int,
    body_w: int,
    n: int,
    i: int,
)
    requires
        0 <= i < n <= rows.len() == spans.len(),
    ensures
        ({
            let all = wrapped_rows(rows, spans, w, body_w, n);
            let first = wrapped_rows(rows, spans, w, body_w, i).len() as int;
            let own = wrapped_row(rows[i], spans[i], w, body_w);
            first + own.len() <= all.len() && all.subrange(first, first + own.len()) == own
        }),
    decreases n,
{
    let all = wrapped_rows(rows, spans, w, body_w, n);
    let first = wrapped_rows(rows, spans, w, body_w, i).len() as int;
    let own = wrapped_row(rows[i], spans[i], w, body_w);
    if i < n - 1 {
        law_wrapped_rows_follow_each_other(rows, spans, w, body_w, n - 1, i);
        let before = wrapped_rows(rows, spans, w, body_w, n - 1);
        assert(all.subrange(first, first + own.len()) =~= before.subrange(first, first + own.len()));
    } else {
        assert(all.subrange(first, first + own.len()) =~= own);
    }
}

/// A text that fits is not cut; one that does not ends in an ellipsis after a beginning of it.
pub proof fn law_cut_texts_end_in_an_ellipsis(s: Seq<char>, budget: int)
    ensures
        display_width(s) <= budget ==> clipped(s, budget) == s,
        display_width(s) > budget && budget > 0 ==> {
            let n = clipped(s, budget).len() - 1;
            n >= 0 && clipped(s, budget).last() == '…'
        },
        display_width(s) > budget && budget <= 0 ==> clipped(s, budget).len() == 0,
{
    reveal_strlit("…");
}

/// A wrapped header is a band of its own: each line says its part of the header, filled to the
/// whole width, without a gutter.
pub proof fn law_wrapped_headers_are_bands(row: DiffRow, spans: Seq<(usize, usize)>, w: int, body_w: int, k: int)
    requires
        row is HunkHeader,
        0 <= k < wrapped_row(row, spans, w, body_w).len(),
    ensures
        ({
            let line = wrapped_row(row, spans, w, body_w)[k];
            let range = row_ranges(row, w, body_w)[k];
            let text = expanded(graphemes_of(row->HunkHeader_0@), range.0, range.1);
            let width = 2 * w + 5 + body_w;
            &&& line.len() == 1
            &&& line[0].text.take(text.len() as int) == text
            &&& forall|i: int| text.len() <= i < line[0].text.len() ==> #[trigger] line[0].text[i] == ' '
            &&& measured(text) <= width ==> line[0].text.len() == text.len() + (width - measured(text))
            &&& line[0].paint.fg == Some(Tone::HunkFg) && line[0].paint.bg == Some(Tone::SurfaceAlt) && line[0].paint.bold
        }),
{
    let line = wrapped_row(row, spans, w, body_w)[k];
    let range = row_ranges(row, w, body_w)[k];
    let text = expanded(graphemes_of(row->HunkHeader_0@), range.0, range.1);
    assert(line == wrapped_line(row, spans, w, body_w, range, k == 0));
    assert(line[0].text.take(text.len() as int) =~= text);
}

proof fn lemma_window_column(
    gs: Seq<Seq<char>>,
    flags: Seq<bool>,
    x: int,
    budget: int,
    base: Paint,
    hi: Paint,
    n: int,
)
    requires
        0 <= n <= gs.len(),
        !window_at(gs, flags, x, budget, base, hi, n).full,
    ensures
        window_at(gs, flags, x, budget, base, hi, n).col == column_at(gs, 0, n),
    decreases n,
{
    if n > 0 {
        lemma_window_column(gs, flags, x, budget, base, hi, n - 1);
    }
}

/// A grapheme is in the window where it begins at or after the window's column: one that begins
/// left of it is dropped whole, the first that does not fit ends the window, and every one
/// before that follows the last.
pub proof fn law_windows_take_whole_graphemes(
    gs: Seq<Seq<char>>,
    flags: Seq<bool>,
    x: int,
    budget: int,
    base: Paint,
    hi: Paint,
    n: int,
)
    requires
        0 <= n < gs.len(),
        0 <= x,
        column_at(gs, 0, n) + cells_at(gs[n], column_at(gs, 0, n)) <= usize::MAX,
    ensures
        ({
            let before = window_at(gs, flags, x, budget, base, hi, n);
            let after = window_at(gs, flags, x, budget, base, hi, n + 1);
            let at = column_at(gs, 0, n);
            let cells = cells_at(gs[n], at);
            &&& before.full ==> after == before
            &&& !before.full && at < x ==> after.line == before.line && after.taken == before.taken && !after.full
            &&& !before.full && at >= x && cells > 0 && before.taken + cells <= budget ==> flat(after.line) == flat(before.line)
                + drawn(gs[n], at) && after.taken == before.taken + cells && !after.full
            &&& !before.full && at >= x && cells > 0 && before.taken + cells > budget ==> after.line == before.line
                && after.full
        }),
{
    let before = window_at(gs, flags, x, budget, base, hi, n);
    if !before.full {
        lemma_window_column(gs, flags, x, budget, base, hi, n);
        lemma_paint_put(before.line, drawn(gs[n], before.col), if flags[n] { hi } else { base }, 0);
    }
}

} // verus!
