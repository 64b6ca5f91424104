//! Which lines of a diff are compared with each other, what is marked in them, and what the diff
//! pane says around them.

use vstd::prelude::*;
use crate::app::{AppView, Pane};
use crate::diff_pane::{
    anchor_row, base_lines, body_width, code_columns, copy_of, count_set, diff_left, diff_right, focused_name, inset,
    line_is_linked, linked_line, row_end, state_parts, title_parts, title_text, two_digits, with_links,
};
use crate::diff_view::{clipped, number_width, raw_lines, shown_x, wrapped_rows};
use crate::intraline::{
    aligned, aligned_in, changed_spans_spec, class_of, deleted_spans, group_start, inserted_spans, is_block,
    is_row_spans, keeps_word, keeps_word_at, kind_of_row, new_count, old_count, pairable, partner, replaces,
    replaces_at, row_kinds, run_end, run_start, spans_of_edits, text_of_row, token_edits, tokens_of, Block, Class, Edit,
    RowKind,
};
use crate::rect::Rect;
use crate::snapshot::{DiffRow, UiSnapshot};
use crate::style::{PieceView, Tone};
use crate::text::{alphanumeric_char, display_width, join_with, space_char, split_on};
use crate::wrap::decimal_of;

verus! {

/// A row is of the kind it is, and its text is its own.
pub proof fn law_rows_are_of_their_kind(row: DiffRow)
    ensures
        row is HunkHeader <==> kind_of_row(row) == RowKind::Header,
        row is Context <==> kind_of_row(row) == RowKind::Context,
        row is Del <==> kind_of_row(row) == RowKind::Del,
        row is Add <==> kind_of_row(row) == RowKind::Add,
        row is HunkHeader ==> text_of_row(row) == row->HunkHeader_0@,
        row is Context ==> text_of_row(row) == row->Context_text@,
        row is Del ==> text_of_row(row) == row->Del_text@,
        row is Add ==> text_of_row(row) == row->Add_text@,
{
}

proof fn lemma_start(kinds: Seq<RowKind>, i: int, kind: RowKind)
    requires
        0 <= i <= kinds.len(),
    ensures
        0 <= run_start(kinds, i, kind) <= i,
        forall|k: int| run_start(kinds, i, kind) <= k < i ==> #[trigger] kinds[k] == kind,
        run_start(kinds, i, kind) > 0 ==> kinds[run_start(kinds, i, kind) - 1] != kind,
    decreases i,
{
    if i > 0 && kinds[i - 1] == kind {
        lemma_start(kinds, i - 1, kind);
    }
}

proof fn lemma_end(kinds: Seq<RowKind>, i: int, kind: RowKind)
    requires
        0 <= i <= kinds.len(),
    ensures
        i <= run_end(kinds, i, kind) <= kinds.len(),
        forall|k: int| i <= k < run_end(kinds, i, kind) ==> #[trigger] kinds[k] == kind,
        run_end(kinds, i, kind) < kinds.len() ==> kinds[run_end(kinds, i, kind)] != kind,
    decreases kinds.len() - i,
{
    if i < kinds.len() && kinds[i] == kind {
        lemma_end(kinds, i + 1, kind);
    }
}

/// A block is a run of removed lines and the run of added lines after it, both as long as they
/// go.
pub proof fn law_blocks_are_removed_then_added_lines(kinds: Seq<RowKind>, b: Block)
    requires
        is_block(kinds, b),
    ensures
        b.start < b.split < b.end <= kinds.len(),
        forall|k: int| b.start <= k < b.split ==> #[trigger] kinds[k] == RowKind::Del,
        forall|k: int| b.split <= k < b.end ==> #[trigger] kinds[k] == RowKind::Add,
        b.start > 0 ==> kinds[b.start - 1] != RowKind::Del,
        b.end < kinds.len() ==> kinds[b.end as int] != RowKind::Add,
        pairable(b) <==> b.end - b.start <= 40,
{
    lemma_start(kinds, b.split as int, RowKind::Del);
    lemma_end(kinds, b.split as int, RowKind::Add);
}

proof fn lemma_start_is(kinds: Seq<RowKind>, s: int, i: int, kind: RowKind)
    requires
        0 <= s <= i <= kinds.len(),
        forall|k: int| s <= k < i ==> #[trigger] kinds[k] == kind,
        s > 0 ==> kinds[s - 1] != kind,
    ensures
        run_start(kinds, i, kind) == s,
    decreases i - s,
{
    if s < i {
        lemma_start_is(kinds, s, i - 1, kind);
    }
}

proof fn lemma_end_is(kinds: Seq<RowKind>, i: int, e: int, kind: RowKind)
    requires
        0 <= i <= e <= kinds.len(),
        forall|k: int| i <= k < e ==> #[trigger] kinds[k] == kind,
        e < kinds.len() ==> kinds[e] != kind,
    ensures
        run_end(kinds, i, kind) == e,
    decreases e - i,
{
    if i < e {
        lemma_end_is(kinds, i + 1, e, kind);
    }
}

/// In a block of at most forty lines the first removed line goes with the first added one, the
/// second with the second, and so on; what is left over goes with none. Larger blocks are not
/// compared.
pub proof fn law_lines_are_paired_in_order(kinds: Seq<RowKind>, b: Block, k: int)
    requires
        is_block(kinds, b),
        0 <= k,
        kinds.len() <= usize::MAX,
    ensures
        ({
            let small = b.end - b.start <= 40;
            &&& b.start + k < b.split && b.split + k < b.end && small ==> partner(kinds, b.start + k) == Some(b.split + k)
                && partner(kinds, b.split + k) == Some(b.start + k)
            &&& b.start + k < b.split && (b.split + k >= b.end || !small) ==> partner(kinds, b.start + k) is None
            &&& b.split + k < b.end && (b.start + k >= b.split || !small) ==> partner(kinds, b.split + k) is None
        }),
{
    law_blocks_are_removed_then_added_lines(kinds, b);
    let (start, split, end) = (b.start as int, b.split as int, b.end as int);
    if start + k < split {
        assert(kinds[split] == RowKind::Add);
        lemma_end_is(kinds, start + k, split, RowKind::Del);
        assert(kinds[start + k] == RowKind::Del);
    }
    if split + k < end {
        assert(kinds[split - 1] == RowKind::Del);
        lemma_start_is(kinds, split, split + k, RowKind::Add);
        assert(kinds[split + k] == RowKind::Add);
    }
    lemma_start_is(kinds, start, split, RowKind::Del);
    lemma_end_is(kinds, split, end, RowKind::Add);
}

proof fn lemma_counts(edits: Seq<Edit>, k: int, n: int)
    requires
        0 <= k <= edits.len(),
        0 <= n <= edits.len(),
        forall|i: int| 0 <= i < k ==> #[trigger] edits[i] == Edit::Delete,
        forall|i: int| k <= i < edits.len() ==> #[trigger] edits[i] == Edit::Insert,
    ensures
        old_count(edits, n) == if n < k { n } else { k },
        new_count(edits, n) == if n < k { 0 } else { n - k },
        group_start(edits, n) == 0,
    decreases n,
{
    if n > 0 {
        lemma_counts(edits, k, n - 1);
        assert(n - 1 < k ==> edits[n - 1] == Edit::Delete);
        assert(n - 1 >= k ==> edits[n - 1] == Edit::Insert);
    }
}

/// Lines that were all rewritten are compared in order.
pub proof fn law_rewritten_lines_are_compared_in_order(edits: Seq<Edit>, k: int, d: int, a: int)
    requires
        0 <= k <= edits.len(),
        forall|i: int| 0 <= i < k ==> #[trigger] edits[i] == Edit::Delete,
        forall|i: int| k <= i < edits.len() ==> #[trigger] edits[i] == Edit::Insert,
    ensures
        replaces(edits, d, a) <==> 0 <= d < k && d == a && a < edits.len() - k,
{
    let len = edits.len() as int;
    lemma_counts(edits, k, len);
    if 0 <= d < k && d == a && a < len - k {
        assert(old_count(edits, 0) == 0 && new_count(edits, 0) == 0);
        assert(replaces_at(edits, len, d, a));
    }
    if replaces(edits, d, a) {
        let n = choose|n: int| #![trigger replaces_at(edits, n, d, a)]
            0 <= n <= len && (n == len || edits[n] == Edit::Equal) && replaces_at(edits, n, d, a);
        if n < len {
            assert(n < k ==> edits[n] == Edit::Delete);
            assert(n >= k ==> edits[n] == Edit::Insert);
        }
        assert(n == len);
        assert(old_count(edits, 0) == 0 && new_count(edits, 0) == 0);
    }
}

proof fn lemma_monotone(edits: Seq<Edit>, m: int, n: int)
    requires
        0 <= m <= n <= edits.len(),
    ensures
        old_count(edits, m) <= old_count(edits, n),
        new_count(edits, m) <= new_count(edits, n),
    decreases n - m,
{
    if m < n {
        lemma_monotone(edits, m, n - 1);
    }
}

proof fn lemma_group(edits: Seq<Edit>, n: int, e: int)
    requires
        0 <= e < n <= edits.len(),
        edits[e] == Edit::Equal,
    ensures
        e < group_start(edits, n) <= n,
    decreases n,
{
    if edits[n - 1] != Edit::Equal {
        lemma_group(edits, n - 1, e);
    }
}

/// A line that was kept stands between: no line before it is compared with one after it.
pub proof fn law_kept_lines_stand_between(edits: Seq<Edit>, e: int, d: int, a: int)
    requires
        0 <= e < edits.len(),
        edits[e] == Edit::Equal,
        replaces(edits, d, a),
    ensures
        d < old_count(edits, e) <==> a < new_count(edits, e),
        d != old_count(edits, e),
        a != new_count(edits, e),
{
    let len = edits.len() as int;
    let n = choose|n: int| #![trigger replaces_at(edits, n, d, a)]
        0 <= n <= len && (n == len || edits[n] == Edit::Equal) && replaces_at(edits, n, d, a);
    if n <= e {
        lemma_monotone(edits, n, e);
    } else {
        lemma_group(edits, n, e);
        lemma_monotone(edits, e + 1, group_start(edits, n));
    }
}

/// Letters, digits and the underscore make words, whitespace is apart from them, and so is the
/// rest.
pub proof fn law_characters_have_their_class(c: char)
    ensures
        c == '_' ==> class_of(c) == Class::Word,
        alphanumeric_char(c) ==> class_of(c) == Class::Word,
        c != '_' && !alphanumeric_char(c) && space_char(c) ==> class_of(c) == Class::Space,
        c != '_' && !alphanumeric_char(c) && !space_char(c) ==> class_of(c) == Class::Other,
{
}

/// Lines over two thousand characters are not marked, and neither are lines that share no word;
/// in all others the deleted and the inserted words are.
pub proof fn law_only_related_lines_are_marked(
    old: Seq<char>,
    new: Seq<char>,
    a: Seq<Seq<char>>,
    b: Seq<Seq<char>>,
    edits: Seq<Edit>,
    m: int,
)
    ensures
        old.len() > 2000 || new.len() > 2000 ==> changed_spans_spec(old, new).0.len() == 0 && changed_spans_spec(old, new).1.len()
            == 0,
        old.len() <= 2000 && new.len() <= 2000 ==> changed_spans_spec(old, new) == spans_of_edits(
            tokens_of(old),
            tokens_of(new),
            token_edits(tokens_of(old), tokens_of(new)),
        ),
        (forall|k: int| 0 <= k < edits.len() ==> #[trigger] edits[k] != Edit::Equal) ==> spans_of_edits(a, b, edits).0.len()
            == 0 && spans_of_edits(a, b, edits).1.len() == 0,
        0 <= m < edits.len() && edits[m] == Edit::Equal && a[old_count(edits, m)].len() > 0 && class_of(
            a[old_count(edits, m)][0],
        ) == Class::Word ==> spans_of_edits(a, b, edits) == (
            deleted_spans(a, edits, edits.len() as int),
            inserted_spans(b, edits, edits.len() as int),
        ),
{
    let n = edits.len() as int;
    if keeps_word(a, edits, n) {
        let k = choose|k: int| 0 <= k < n && #[trigger] keeps_word_at(a, edits, k);
        assert(edits[k] == Edit::Equal);
    }
    if 0 <= m < n && edits[m] == Edit::Equal && a[old_count(edits, m)].len() > 0 && class_of(a[old_count(edits, m)][0])
        == Class::Word {
        assert(keeps_word_at(a, edits, m));
    }
}

/// A linked line says what it said, in its own colors, bold and underlined; where it had no
/// background it is given one.
pub proof fn law_links_are_bold_and_underlined(line: Seq<PieceView>, i: int)
    requires
        0 <= i < line.len(),
    ensures
        ({
            let p = linked_line(line)[i];
            &&& linked_line(line).len() == line.len()
            &&& p.text == line[i].text
            &&& p.paint.fg == line[i].paint.fg
            &&& p.paint.bold && p.paint.underlined
            &&& line[i].paint.bg is None ==> p.paint.bg == Some(Tone::CodeLinkBg)
            &&& line[i].paint.bg is Some ==> p.paint.bg == line[i].paint.bg
        }),
{
}

/// The lines of a linked row are linked: those from its first to the first of the next row.
pub proof fn law_linked_rows_link_their_lines(
    lines: Seq<Seq<PieceView>>,
    first: Seq<u16>,
    linked: Seq<bool>,
    i: int,
    j: int,
)
    requires
        linked.len() == first.len(),
        0 <= i < first.len(),
        0 <= j < lines.len() <= 65535,
        first[i] <= j,
        i + 1 < first.len() ==> j < first[i + 1],
        forall|a: int, b: int| #![trigger first[a], first[b]] 0 <= a <= b < first.len() ==> first[a] <= first[b],
    ensures
        with_links(lines, first, linked).len() == lines.len(),
        linked[i] ==> with_links(lines, first, linked)[j] == linked_line(lines[j]),
        (forall|k: int| 0 <= k < linked.len() ==> !#[trigger] linked[k]) ==> with_links(lines, first, linked)[j] == lines[j],
        !linked[i] && (forall|k: int|
            0 <= k < first.len() && k != i ==> !(#[trigger] first[k] <= j && j < row_end(first, lines.len() as int, k)))
            ==> with_links(lines, first, linked)[j] == lines[j],
{
    if linked[i] {
        assert(first[i] <= j < row_end(first, lines.len() as int, i));
        assert(line_is_linked(first, linked, lines.len() as int, j));
    }
    if !linked[i] && (forall|k: int|
        0 <= k < first.len() && k != i ==> !(#[trigger] first[k] <= j && j < row_end(first, lines.len() as int, k))) {
        if line_is_linked(first, linked, lines.len() as int, j) {
            let k = choose|k: int|
                0 <= k < linked.len() && k < first.len() && #[trigger] linked[k] && first[k] <= j < row_end(
                    first,
                    lines.len() as int,
                    k,
                );
            assert(k != i);
            assert(first[k] <= j);
        }
    }
}

/// The body of the diff takes what the border and the gutter leave.
pub proof fn law_body_takes_what_is_left(rows: Seq<DiffRow>, width: int)
    requires
        4 <= number_width(rows) <= 6,
    ensures
        width > 2 * number_width(rows) + 7 ==> body_width(rows, width) == width - 2 - (2 * number_width(rows) + 5),
        width <= 2 * number_width(rows) + 7 ==> body_width(rows, width) == 1,
{
}

/// Without wrapping a row is the line of its number; the copy begins at the row that is shown
/// first.
pub proof fn law_unwrapped_rows_are_their_lines(v: AppView, rows: Seq<DiffRow>, area: Rect)
    requires
        !v.diff_wrap,
        0 <= v.diff_scroll < rows.len() <= 65535,
    ensures
        copy_of(v, rows, area).first_visible == v.diff_scroll,
        copy_of(v, rows, area).first_logical == v.diff_scroll,
        copy_of(v, rows, area).lines.len() == rows.len(),
        anchor_row(v, rows.len() as int) == v.diff_scroll,
{
}

/// The copy is of the inside of the pane.
pub proof fn law_copy_is_of_the_inside(r: Rect)
    requires
        r.fits(),
        r.width >= 2,
        r.height >= 2,
    ensures
        inset(r).x == r.x + 1,
        inset(r).y == r.y + 1,
        inset(r).x + inset(r).width == r.x + r.width - 1,
        inset(r).y + inset(r).height == r.y + r.height - 1,
{
}

/// Code begins after the gutter; headers are no code.
pub proof fn law_code_begins_after_the_gutter(rows: Seq<DiffRow>, width: int, n: int, i: int)
    requires
        0 <= i < n <= rows.len(),
    ensures
        code_columns(rows, false, width, n).len() == n,
        rows[i] is HunkHeader ==> code_columns(rows, false, width, n)[i] is None,
        !(rows[i] is HunkHeader) ==> code_columns(rows, false, width, n)[i] == Some(2 * number_width(rows) + 5),
    decreases n,
{
    lemma_columns_len(rows, width, n - 1);
    lemma_columns_len(rows, width, n);
    if i < n - 1 {
        law_code_begins_after_the_gutter(rows, width, n - 1, i);
    }
}

proof fn lemma_columns_len(rows: Seq<DiffRow>, width: int, n: int)
    requires
        0 <= n <= rows.len(),
    ensures
        code_columns(rows, false, width, n).len() == n,
    decreases n,
{
    if n > 0 {
        lemma_columns_len(rows, width, n - 1);
    }
}

/// Rows are wrapped where wrapping is on, and only then; a shifted diff is not wrapped.
pub proof fn law_wrapping_is_a_choice(
    rows: Seq<DiffRow>,
    spans: Seq<Seq<(usize, usize)>>,
    hscroll: int,
    width: int,
)
    requires
        width > 2,
    ensures
        base_lines(rows, spans, true, hscroll, width) == wrapped_rows(
            rows,
            spans,
            number_width(rows),
            body_width(rows, width),
            rows.len() as int,
        ),
        base_lines(rows, spans, false, hscroll, width) == raw_lines(
            rows,
            spans,
            number_width(rows),
            shown_x(rows, hscroll, body_width(rows, width)),
            body_width(rows, width),
            width - 2,
        ),
{
}

/// The state of the diff tells the hunk, whether lines are wrapped, and how far they are
/// shifted.
pub proof fn law_title_tells_the_state(v: AppView, s: UiSnapshot, x: int)
    ensures
        ({
            let parts = state_parts(v, s, x);
            let hunks = s.diff.total_hunks > 0;
            let k = if hunks { 1int } else { 0 };
            &&& hunks ==> parts[0] == "hunk "@ + decimal_of(v.current_hunk) + "/"@ + decimal_of(s.diff.total_hunks as int)
            &&& v.diff_wrap ==> parts.len() == k + 1 && parts[k] == "wrap on"@
            &&& !v.diff_wrap ==> parts[k] == "wrap off"@
            &&& !v.diff_wrap && x > 0 ==> parts.len() == k + 2 && parts[k + 1] == "x+"@ + two_digits(x)
            &&& !v.diff_wrap && x <= 0 ==> parts.len() == k + 1
        }),
{
}

/// A number below ten is written with a leading zero.
pub proof fn law_two_digits(n: int)
    ensures
        0 <= n < 10 ==> two_digits(n) == seq!['0'] + decimal_of(n),
        n >= 10 ==> two_digits(n) == decimal_of(n),
{
}

/// The title names the object first and how many code lines are linked; where it does not fit,
/// they yield to the state.
pub proof fn law_title_names_the_object(v: AppView, s: UiSnapshot, linked: int, x: int, inner_w: int)
    ensures
        ({
            let parts = title_parts(v, s, linked, x);
            let name = focused_name(v, s);
            let k = if name is Some { 1int } else { 0 };
            let full = title_text(v, parts);
            &&& s.diff.focused_symbol is Some ==> name == Some((s.diff.focused_symbol->0)@)
            &&& name is Some ==> parts[0] == name->0
            &&& linked > 0 ==> parts[k] == "↔ "@ + decimal_of(linked) + " code lines"@
            &&& display_width(full) + 6 <= inner_w ==> diff_right(v, s, linked, x, inner_w) == full
            &&& display_width(full) + 6 > inner_w && name is Some ==> diff_right(v, s, linked, x, inner_w) == title_text(
                v,
                state_parts(v, s, x),
            )
            &&& !(v.zoomed && v.focused == Pane::Diff) ==> full == " "@ + join_with(parts, " · "@) + " "@
            &&& v.zoomed && v.focused == Pane::Diff ==> full == " "@ + join_with(parts, " · "@) + " · ZOOM"@ + " "@
        }),
{
    let parts = title_parts(v, s, linked, x);
    assert(" "@ + join_with(parts, " · "@) + Seq::<char>::empty() =~= " "@ + join_with(parts, " · "@));
}

/// The left title is the name of the file, cut where the right one leaves no room.
pub proof fn law_left_title_is_the_name(s: UiSnapshot, right: Seq<char>, inner_w: int)
    requires
        s.diff.title@.len() > 0,
    ensures
        ({
            let room = inner_w - display_width(right) - 1;
            diff_left(s, right, inner_w) == " "@ + clipped(
                split_on(s.diff.title@, '/').last(),
                if room >= 1 { room } else { 1 },
            ) + " "@
        }),
{
}

/// As many code lines are linked as rows are.
pub proof fn law_linked_rows_are_counted(flags: Seq<bool>, n: int)
    requires
        0 <= n <= flags.len(),
    ensures
        count_set(flags, n) == flags.take(n).filter(|f: bool| f).len(),
    decreases n,
{
    reveal(Seq::filter);
    if n > 0 {
        law_linked_rows_are_counted(flags, n - 1);
        assert(flags.take(n).drop_last() =~= flags.take(n - 1));
        assert(flags.take(n).last() == flags[n - 1]);
    } else {
        assert(flags.take(0) =~= Seq::empty());
    }
}

/// Only a removed line and an added line of one block are compared, and only in blocks of at
/// most forty lines.
pub proof fn law_compared_lines_are_of_one_block(rows: Seq<DiffRow>, i: int, j: int)
    requires
        rows.len() <= usize::MAX,
        aligned(rows, i, j),
    ensures
        0 <= i < j < rows.len(),
        rows[i] is Del,
        rows[j] is Add,
        j - i < 40,
        forall|k: int| i < k < j ==> (#[trigger] rows[k]) is Del || rows[k] is Add,
{
    let kinds = row_kinds(rows);
    let b = choose|b: Block| #[trigger] is_block(kinds, b) && aligned_in(rows, b, i, j);
    law_blocks_are_removed_then_added_lines(kinds, b);
    assert(kinds[i] == RowKind::Del);
    assert(kinds[j] == RowKind::Add);
    assert forall|k: int| i < k < j implies (#[trigger] rows[k]) is Del || rows[k] is Add by {
        assert(kinds[k] == RowKind::Del || kinds[k] == RowKind::Add);
    }
}

/// Context and headers carry no marks.
pub proof fn law_context_is_unmarked(rows: Seq<DiffRow>, i: int, spans: Seq<(int, int)>)
    requires
        0 <= i < rows.len() <= usize::MAX,
        rows[i] is Context || rows[i] is HunkHeader,
        is_row_spans(rows, i, spans),
    ensures
        spans.len() == 0,
{
    assert forall|j: int| !aligned(rows, i, j) && !aligned(rows, j, i) by {
        if aligned(rows, i, j) {
            law_compared_lines_are_of_one_block(rows, i, j);
        }
        if aligned(rows, j, i) {
            law_compared_lines_are_of_one_block(rows, j, i);
        }
    }
}

/// With wrapping the copy begins at the first line of the row that is shown first, after all
/// lines of the rows before it.
pub proof fn law_wrapped_copies_begin_at_their_row(v: AppView, rows: Seq<DiffRow>, area: Rect)
    requires
        v.diff_wrap,
        0 <= v.diff_scroll < rows.len(),
        wrapped_rows(
            rows,
            Seq::new(rows.len(), |i: int| Seq::<(usize, usize)>::empty()),
            number_width(rows),
            body_width(rows, area.width as int),
            v.diff_scroll,
        ).len() <= 65535,
    ensures
        copy_of(v, rows, area).first_visible == wrapped_rows(
            rows,
            Seq::new(rows.len(), |i: int| Seq::<(usize, usize)>::empty()),
            number_width(rows),
            body_width(rows, area.width as int),
            v.diff_scroll,
        ).len(),
{
    assert(crate::diff_pane::no_marks(rows.len() as int) =~= Seq::new(rows.len(), |i: int| Seq::<(usize, usize)>::empty()));
}

} // verus!
