//! The diff pane as painted lines: a fixed gutter of both line numbers, bodies wrapped or cut
//! to the pane, and changed words marked within a line.

use vstd::prelude::*;
use crate::num::{clamp_int, cut_u16, low16, max_int, max_usize, min_int, min_usize, monus};
use crate::snapshot::DiffRow;
use crate::style::{
    bold_paint, flat, ink, ink_on, lemma_flat_push, line_views, single, Paint, PaintedLine, PieceView, Tone,
};
use crate::text::{
    byte_len, bytes_in, chars_of, display_width, graphemes, graphemes_of, head_cells, joined, space_char, str_width,
    take_cells, texts,
};
use crate::wrap::{decimal, decimal_of, repeat_of, repeated};

verus! {

/// A text held to `budget` cells, ending in an ellipsis where it was cut.
pub open spec fn clipped(s: Seq<char>, budget: int) -> Seq<char> {
    if display_width(s) <= budget {
        s
    } else if budget <= 0 {
        Seq::empty()
    } else {
        head_cells(s, budget - 1) + "…"@
    }
}

/// Truncate to at most `budget` display cells, grapheme-safe, appending `…` when cut.
pub fn truncate_cells(s: &str, budget: usize) -> (out: String)
    ensures
        out@ == clipped(s@, budget as int),
{
    if str_width(s) <= budget {
        return s.to_owned();
    }
    if budget == 0 {
        return String::new();
    }
    joined(take_cells(s, budget - 1).as_str(), "…")
}

/// A tabulator.
pub open spec fn tab() -> Seq<char> {
    seq!['\t']
}

/// A number as far as `usize` reaches.
pub open spec fn capped(n: int) -> int {
    if n > usize::MAX { usize::MAX as int } else { n }
}

/// Display cells of one grapheme at body column `col`: tabs advance to the next four-cell
/// stop.
pub open spec fn cells_at(g: Seq<char>, col: int) -> int {
    if g == tab() { 4 - col % 4 } else { display_width(g) as int }
}

fn is_tab(g: &str) -> (r: bool)
    ensures
        r == (g@ == tab()),
{
    let chars = chars_of(g);
    proof {
        if chars.len() == 1 && chars@[0] == '\t' {
            assert(g@ =~= tab());
        }
    }
    chars.len() == 1 && chars[0] == '\t'
}

/// Display cells of one grapheme at body column `col`.
pub fn grapheme_cells(g: &str, col: usize) -> (cells: usize)
    ensures
        cells == cells_at(g@, col as int),
{
    if is_tab(g) {
        4 - col % 4
    } else {
        str_width(g)
    }
}

/// The column after the graphemes `from..to`, where `from` stands at column 0.
pub open spec fn column_at(gs: Seq<Seq<char>>, from: int, to: int) -> int
    decreases to - from,
{
    if to <= from {
        0
    } else {
        let col = column_at(gs, from, to - 1);
        capped(col + cells_at(gs[to - 1], col))
    }
}

/// Display-cell width of a text with tabs measured as four-cell stops.
pub open spec fn measured(s: Seq<char>) -> int {
    column_at(graphemes_of(s), 0, graphemes_of(s).len() as int)
}

/// Display-cell width with tabs measured as four-cell stops.
pub fn measured_cells(s: &str) -> (col: usize)
    ensures
        col == measured(s@),
{
    let gs = graphemes(s);
    let ghost all = texts(gs@);
    let mut col: usize = 0;
    let mut i: usize = 0;
    while i < gs.len()
        invariant
            i <= gs.len() == all.len(),
            all == texts(gs@),
            col == column_at(all, 0, i as int),
        decreases gs.len() - i,
    {
        proof {
            assert(all[i as int] == gs@[i as int]@);
        }
        col = col.saturating_add(grapheme_cells(gs[i].as_str(), col));
        i = i + 1;
    }
    col
}

/// What a grapheme shows at a column: a tab is drawn as the spaces it advances over.
pub open spec fn drawn(g: Seq<char>, col: int) -> Seq<char> {
    if g == tab() { repeat_of(' ', cells_at(g, col)) } else { g }
}

fn drawn_text(g: &str, col: usize) -> (out: String)
    ensures
        out@ == drawn(g@, col as int),
{
    if is_tab(g) {
        repeated(' ', grapheme_cells(g, col))
    } else {
        g.to_owned()
    }
}

/// The graphemes `from..to` with tabs expanded at stops local to the line.
pub open spec fn expanded(gs: Seq<Seq<char>>, from: int, to: int) -> Seq<char>
    decreases to - from,
{
    if to <= from {
        Seq::empty()
    } else {
        expanded(gs, from, to - 1) + drawn(gs[to - 1], column_at(gs, from, to - 1))
    }
}

/// Render a grapheme slice with tabs expanded at four-cell stops local to the visual line.
pub fn expand_tabs(gs: &Vec<String>, from: usize, to: usize) -> (out: String)
    requires
        from <= to <= gs.len(),
    ensures
        out@ == expanded(texts(gs@), from as int, to as int),
{
    let ghost all = texts(gs@);
    let mut out = String::new();
    let mut col: usize = 0;
    let mut i: usize = from;
    while i < to
        invariant
            from <= i <= to <= gs.len() == all.len(),
            all == texts(gs@),
            col == column_at(all, from as int, i as int),
            out@ == expanded(all, from as int, i as int),
        decreases to - i,
    {
        proof {
            assert(all[i as int] == gs@[i as int]@);
        }
        out.append(drawn_text(gs[i].as_str(), col).as_str());
        col = col.saturating_add(grapheme_cells(gs[i].as_str(), col));
        i = i + 1;
    }
    out
}

/// ASCII punctuation.
pub open spec fn is_punctuation(c: char) -> bool {
    ('!' <= c && c <= '/') || (':' <= c && c <= '@') || ('[' <= c && c <= '`') || ('{' <= c && c <= '~')
}

/// A grapheme worth breaking a wrapped line after: whitespace or ASCII punctuation.
pub open spec fn breaks_after(g: Seq<char>) -> bool {
    exists|i: int| 0 <= i < g.len() && (space_char(#[trigger] g[i]) || is_punctuation(g[i]))
}

/// A grapheme worth breaking a wrapped line after: whitespace or ASCII punctuation.
pub fn is_soft_break(g: &str) -> (r: bool)
    ensures
        r == breaks_after(g@),
        g@.contains(' ') ==> r,
{
    let chars = chars_of(g);
    let mut i: usize = 0;
    while i < chars.len()
        invariant
            i <= chars.len(),
            chars@ == g@,
            forall|k: int| 0 <= k < i ==> !(space_char(#[trigger] g@[k]) || is_punctuation(g@[k])),
            forall|k: int| 0 <= k < i ==> #[trigger] g@[k] != ' ',
        decreases chars.len() - i,
    {
        let c: char = chars[i];
        if c.is_whitespace() || ('!' <= c && c <= '/') || (':' <= c && c <= '@') || ('[' <= c && c <= '`') || ('{' <= c
            && c <= '~') {
            return true;
        }
        i = i + 1;
    }
    false
}

/// Where a line that begins at `start` runs over: the first grapheme from `i` on, after the
/// first of the line, that no longer fits; the end where all fit.
pub open spec fn overflow_at(gs: Seq<Seq<char>>, budget: int, start: int, i: int) -> int
    decreases gs.len() - i,
{
    if 0 <= i < gs.len() {
        let col = column_at(gs, start, i);
        if i > start && col + cells_at(gs[i], col) > budget {
            i
        } else {
            overflow_at(gs, budget, start, i + 1)
        }
    } else {
        i
    }
}

/// The place after the last soft break in `low..i`; `i` where there is none.
pub open spec fn break_before(gs: Seq<Seq<char>>, low: int, i: int, j: int) -> int
    decreases j - low,
{
    if j <= low {
        i
    } else if breaks_after(gs[j - 1]) {
        j
    } else {
        break_before(gs, low, i, j - 1)
    }
}

/// Where the line that begins at `start` ends: after a soft break in its second half where
/// there is one, else at the edge.
pub open spec fn line_end(gs: Seq<Seq<char>>, budget: int, start: int) -> int {
    let i = overflow_at(gs, budget, start, start);
    if i >= gs.len() {
        gs.len() as int
    } else {
        break_before(gs, start + (i - start) / 2, i, i)
    }
}

/// The lines of wrapped graphemes from `start` on, as ranges.
pub open spec fn wrapped_ranges(gs: Seq<Seq<char>>, budget: int, start: int) -> Seq<(int, int)>
    decreases gs.len() - start,
{
    let end = line_end(gs, budget, start);
    if overflow_at(gs, budget, start, start) >= gs.len() || !(start < end < gs.len()) {
        seq![(start, gs.len() as int)]
    } else {
        seq![(start, end)] + wrapped_ranges(gs, budget, end)
    }
}

proof fn lemma_overflow(gs: Seq<Seq<char>>, budget: int, start: int, i: int)
    requires
        0 <= start <= i <= gs.len(),
    ensures
        i <= overflow_at(gs, budget, start, i) <= gs.len(),
        overflow_at(gs, budget, start, i) < gs.len() ==> overflow_at(gs, budget, start, i) > start,
        i > start && (i == start + 1 || column_at(gs, start, i) <= budget) ==> {
            let o = overflow_at(gs, budget, start, i);
            o == start + 1 || column_at(gs, start, o) <= budget
        },
    decreases gs.len() - i,
{
    if i < gs.len() {
        let col = column_at(gs, start, i);
        if !(i > start && col + cells_at(gs[i], col) > budget) {
            lemma_overflow(gs, budget, start, i + 1);
            if i > start {
                assert(column_at(gs, start, i + 1) == capped(col + cells_at(gs[i], col)));
            }
        }
    }
}

proof fn lemma_break(gs: Seq<Seq<char>>, low: int, i: int, j: int)
    requires
        0 <= low < i,
        j <= i,
    ensures
        low < break_before(gs, low, i, j) <= i,
    decreases j - low,
{
    if j > low && !breaks_after(gs[j - 1]) {
        lemma_break(gs, low, i, j - 1);
    }
}

proof fn lemma_line_end(gs: Seq<Seq<char>>, budget: int, start: int)
    requires
        0 <= start < gs.len(),
    ensures
        start < line_end(gs, budget, start) <= gs.len(),
        overflow_at(gs, budget, start, start) < gs.len() ==> line_end(gs, budget, start) < gs.len(),
{
    lemma_overflow(gs, budget, start, start);
    let i = overflow_at(gs, budget, start, start);
    if i < gs.len() {
        lemma_break(gs, start + (i - start) / 2, i, i);
    }
}

/// Ranges that cover `start..len` in order without a gap.
pub open spec fn is_partition(ranges: Seq<(int, int)>, start: int, len: int) -> bool {
    &&& ranges.len() > 0
    &&& ranges[0].0 == start
    &&& ranges.last().1 == len
    &&& forall|k: int| #![trigger ranges[k]] 0 <= k < ranges.len() ==> ranges[k].0 <= ranges[k].1
    &&& forall|k: int, m: int| #![trigger ranges[k], ranges[m]] 0 <= k && m == k + 1 && m < ranges.len()
        ==> ranges[k].1 == ranges[m].0
}

/// Wrapping loses nothing: the lines cover all graphemes in order.
pub proof fn law_wrapping_is_a_partition(gs: Seq<Seq<char>>, budget: int, start: int)
    requires
        0 <= start <= gs.len(),
    ensures
        is_partition(wrapped_ranges(gs, budget, start), start, gs.len() as int),
    decreases gs.len() - start,
{
    let end = line_end(gs, budget, start);
    if overflow_at(gs, budget, start, start) >= gs.len() || !(start < end < gs.len()) {
    } else {
        law_wrapping_is_a_partition(gs, budget, end);
        let rest = wrapped_ranges(gs, budget, end);
        let all = wrapped_ranges(gs, budget, start);
        assert(all =~= seq![(start, end)] + rest);
        assert forall|k: int| #![trigger all[k]] 0 <= k < all.len() implies all[k].0 <= all[k].1 by {
            if k > 0 {
                assert(all[k] == rest[k - 1]);
            }
        }
        assert forall|k: int, m: int| #![trigger all[k], all[m]] 0 <= k && m == k + 1 && m < all.len() implies all[k].1
            == all[m].0 by {
            assert(all[m] == rest[m - 1]);
            if k > 0 {
                assert(all[k] == rest[k - 1]);
            }
        }
        assert(all.last() == rest.last());
    }
}

/// The column grows with every grapheme.
proof fn lemma_column_grows(gs: Seq<Seq<char>>, start: int, a: int, b: int)
    requires
        start <= a <= b,
        column_at(gs, start, a) <= usize::MAX,
    ensures
        column_at(gs, start, a) <= column_at(gs, start, b),
    decreases b - a,
{
    if a < b {
        lemma_column_grows(gs, start, a, b - 1);
        lemma_column_cap(gs, start, b - 1);
    }
}

proof fn lemma_column_cap(gs: Seq<Seq<char>>, start: int, a: int)
    ensures
        0 <= column_at(gs, start, a) <= usize::MAX,
    decreases a - start,
{
    if a > start {
        lemma_column_cap(gs, start, a - 1);
    }
}

/// A wrapped line fits, unless its first grapheme alone is wider than the line.
pub proof fn law_wrapped_lines_fit(gs: Seq<Seq<char>>, budget: int, start: int)
    requires
        0 <= start < gs.len(),
        overflow_at(gs, budget, start, start) < gs.len(),
    ensures
        ({
            let end = line_end(gs, budget, start);
            end == start + 1 || column_at(gs, start, end) <= budget
        }),
{
    lemma_overflow(gs, budget, start, start);
    lemma_overflow(gs, budget, start, start + 1);
    let i = overflow_at(gs, budget, start, start);
    assert(i == overflow_at(gs, budget, start, start + 1));
    lemma_break(gs, start + (i - start) / 2, i, i);
    let end = line_end(gs, budget, start);
    lemma_column_cap(gs, start, end);
    lemma_column_grows(gs, start, end, i);
}

/// The break policy as grapheme-index ranges into `gs`, so callers can map per-grapheme
/// paint onto each wrapped segment. Prefers a whitespace or punctuation break in the
/// segment's second half (the break character is preserved, not trimmed); an overlong token
/// is hard-broken by display width.
pub fn wrap_ranges(gs: &Vec<String>, budget: usize) -> (out: Vec<(usize, usize)>)
    ensures
        int_ranges(out@) == wrapped_ranges(texts(gs@), max_int(budget as int, 1), 0),
        out.len() > 0,
        forall|k: int| #![trigger out@[k]] 0 <= k < out.len() ==> out@[k].0 <= out@[k].1 <= gs.len(),
{
    let ghost all = texts(gs@);
    let ghost b = max_int(budget as int, 1);
    let budget: usize = max_usize(budget, 1);
    let mut out: Vec<(usize, usize)> = Vec::new();
    let mut start: usize = 0;
    let mut done: bool = false;
    proof {
        assert(int_ranges(out@) + wrapped_ranges(all, b, 0) =~= wrapped_ranges(all, b, 0));
    }
    while !done
        invariant
            start <= gs.len() == all.len(),
            all == texts(gs@),
            budget == b,
            done ==> out.len() > 0,
            forall|k: int| #![trigger out@[k]] 0 <= k < out.len() ==> out@[k].0 <= out@[k].1 <= gs.len(),
            if done {
                int_ranges(out@) == wrapped_ranges(all, b, 0)
            } else {
                int_ranges(out@) + wrapped_ranges(all, b, start as int) == wrapped_ranges(all, b, 0)
            },
        decreases (if done { 0int } else { 1int }), gs.len() - start,
    {
        let ghost before = int_ranges(out@);
        let i: usize = find_overflow(gs, budget, start);
        if i >= gs.len() {
            out.push((start, gs.len()));
            done = true;
            proof {
                assert(int_ranges(out@) =~= before.push((start as int, all.len() as int)));
                assert(wrapped_ranges(all, b, start as int) =~= seq![(start as int, all.len() as int)]);
                assert(int_ranges(out@) =~= before + wrapped_ranges(all, b, start as int));
            }
        } else {
            proof {
                lemma_line_end(all, b, start as int);
                lemma_overflow(all, b, start as int, start as int);
            }
            let end: usize = find_break(gs, start + (i - start) / 2, i);
            out.push((start, end));
            proof {
                assert(end == line_end(all, b, start as int));
                assert(int_ranges(out@) =~= before.push((start as int, end as int)));
                assert(int_ranges(out@) + wrapped_ranges(all, b, end as int) =~= before + wrapped_ranges(
                    all,
                    b,
                    start as int,
                ));
            }
            start = end;
        }
    }
    out
}

/// Ranges as numbers.
pub open spec fn int_ranges(ranges: Seq<(usize, usize)>) -> Seq<(int, int)> {
    Seq::new(ranges.len(), |i: int| (ranges[i].0 as int, ranges[i].1 as int))
}

fn find_overflow(gs: &Vec<String>, budget: usize, start: usize) -> (i: usize)
    requires
        start <= gs.len(),
    ensures
        i == overflow_at(texts(gs@), budget as int, start as int, start as int),
        start <= i <= gs.len(),
{
    let ghost all = texts(gs@);
    let mut i: usize = start;
    let mut col: usize = 0;
    while i < gs.len()
        invariant
            start <= i <= gs.len() == all.len(),
            all == texts(gs@),
            col == column_at(all, start as int, i as int),
            overflow_at(all, budget as int, start as int, start as int) == overflow_at(
                all,
                budget as int,
                start as int,
                i as int,
            ),
        decreases gs.len() - i,
    {
        proof {
            assert(all[i as int] == gs@[i as int]@);
        }
        let w: usize = grapheme_cells(gs[i].as_str(), col);
        if i > start && (col > budget || w > budget - col) {
            return i;
        }
        col = col.saturating_add(w);
        i = i + 1;
    }
    i
}

fn find_break(gs: &Vec<String>, low: usize, i: usize) -> (end: usize)
    requires
        low < i <= gs.len(),
    ensures
        end == break_before(texts(gs@), low as int, i as int, i as int),
        low < end <= i,
{
    let ghost all = texts(gs@);
    let mut j: usize = i;
    while j > low
        invariant
            low <= j <= i <= gs.len() == all.len(),
            all == texts(gs@),
            break_before(all, low as int, i as int, i as int) == break_before(all, low as int, i as int, j as int),
        decreases j,
    {
        proof {
            assert(all[j - 1] == gs@[j - 1]@);
        }
        if is_soft_break(gs[j - 1].as_str()) {
            return j;
        }
        j = j - 1;
    }
    i
}

/// The bytes before grapheme `n`, as far as `usize` reaches.
pub open spec fn bytes_before(gs: Seq<Seq<char>>, n: int) -> int
    decreases n,
{
    if n <= 0 { 0 } else { capped(bytes_before(gs, n - 1) + byte_len(gs[n - 1])) }
}

/// Whether the bytes of grapheme `i` overlap a span.
pub open spec fn is_marked(gs: Seq<Seq<char>>, spans: Seq<(usize, usize)>, i: int) -> bool {
    exists|k: int| 0 <= k < spans.len() && overlaps(#[trigger] spans[k], bytes_before(gs, i), bytes_before(gs, i + 1))
}

/// Whether a span overlaps the bytes `from..to`.
pub open spec fn overlaps(span: (usize, usize), from: int, to: int) -> bool {
    span.0 < to && span.1 > from
}

/// Which graphemes are changed.
pub open spec fn marks(gs: Seq<Seq<char>>, spans: Seq<(usize, usize)>) -> Seq<bool> {
    Seq::new(gs.len(), |i: int| is_marked(gs, spans, i))
}

fn any_overlap(spans: &Vec<(usize, usize)>, from: usize, to: usize) -> (r: bool)
    ensures
        r == exists|k: int| 0 <= k < spans.len() && overlaps(#[trigger] spans@[k], from as int, to as int),
{
    let mut k: usize = 0;
    while k < spans.len()
        invariant
            k <= spans.len(),
            forall|j: int| 0 <= j < k ==> !overlaps(#[trigger] spans@[j], from as int, to as int),
        decreases spans.len() - k,
    {
        if spans[k].0 < to && spans[k].1 > from {
            proof {
                assert(overlaps(spans@[k as int], from as int, to as int));
            }
            return true;
        }
        k = k + 1;
    }
    false
}

/// Per-grapheme "changed" flags for a row body: a grapheme is changed when its byte range
/// overlaps any span. Graphemes are never split, so a span boundary inside one (e.g. between
/// a letter and its combining mark) highlights the whole grapheme.
pub fn changed_flags(gs: &Vec<String>, spans: &Vec<(usize, usize)>) -> (flags: Vec<bool>)
    ensures
        flags@ == marks(texts(gs@), spans@),
{
    let ghost all = texts(gs@);
    let mut flags: Vec<bool> = Vec::new();
    let mut byte: usize = 0;
    let mut i: usize = 0;
    while i < gs.len()
        invariant
            i <= gs.len() == all.len(),
            all == texts(gs@),
            byte == bytes_before(all, i as int),
            flags.len() == i,
            forall|k: int| 0 <= k < i ==> #[trigger] flags@[k] == is_marked(all, spans@, k),
        decreases gs.len() - i,
    {
        proof {
            assert(all[i as int] == gs@[i as int]@);
        }
        let end: usize = byte.saturating_add(bytes_in(gs[i].as_str()));
        flags.push(any_overlap(spans, byte, end));
        byte = end;
        i = i + 1;
    }
    proof {
        assert(flags@ =~= marks(all, spans@));
    }
    flags
}

/// A line with a text added; a text in the paint of the last piece joins it.
pub open spec fn put(line: Seq<PieceView>, text: Seq<char>, paint: Paint) -> Seq<PieceView> {
    if line.len() > 0 && line.last().paint == paint {
        line.drop_last().push(PieceView { text: line.last().text + text, paint })
    } else {
        line.push(PieceView { text, paint })
    }
}

fn put_piece(line: &mut PaintedLine, text: &str, paint: Paint)
    ensures
        final(line)@ == put(old(line)@, text@, paint),
{
    let ghost before = line@;
    let n: usize = line.pieces.len();
    if n > 0 && line.pieces[n - 1].paint == paint {
        let joint = joined(line.pieces[n - 1].text.as_str(), text);
        let _ = line.pieces.pop();
        proof {
            assert(line@ =~= before.drop_last());
        }
        line.push(joint.as_str(), paint);
    } else {
        line.push(text, paint);
    }
}

/// The graphemes `from..to` as painted pieces: changed ones in `hi`, the rest in `base`.
pub open spec fn painted(
    gs: Seq<Seq<char>>,
    flags: Seq<bool>,
    base: Paint,
    hi: Paint,
    from: int,
    to: int,
) -> Seq<PieceView>
    decreases to - from,
{
    if to <= from {
        Seq::empty()
    } else {
        put(
            painted(gs, flags, base, hi, from, to - 1),
            drawn(gs[to - 1], column_at(gs, from, to - 1)),
            if flags[to - 1] { hi } else { base },
        )
    }
}

proof fn lemma_flat_put(line: Seq<PieceView>, text: Seq<char>, paint: Paint)
    ensures
        flat(put(line, text, paint)) == flat(line) + text,
{
    if line.len() > 0 && line.last().paint == paint {
        lemma_flat_push(line.drop_last(), PieceView { text: line.last().text + text, paint });
        assert(flat(line) == flat(line.drop_last()) + line.last().text);
        assert(flat(line.drop_last()) + (line.last().text + text) =~= flat(line) + text);
    } else {
        lemma_flat_push(line, PieceView { text, paint });
    }
}

/// Highlighting changes no text: a body says the same whatever is marked in it.
pub proof fn law_highlights_keep_text(
    gs: Seq<Seq<char>>,
    flags: Seq<bool>,
    base: Paint,
    hi: Paint,
    from: int,
    to: int,
)
    ensures
        flat(painted(gs, flags, base, hi, from, to)) == expanded(gs, from, to),
    decreases to - from,
{
    if to > from {
        law_highlights_keep_text(gs, flags, base, hi, from, to - 1);
        lemma_flat_put(
            painted(gs, flags, base, hi, from, to - 1),
            drawn(gs[to - 1], column_at(gs, from, to - 1)),
            if flags[to - 1] { hi } else { base },
        );
    }
}

/// Add the graphemes `from..to` to a line: changed ones in `hi`, the rest in `base`.
fn styled_graphemes(
    gs: &Vec<String>,
    flags: &Vec<bool>,
    from: usize,
    to: usize,
    base: Paint,
    hi: Paint,
) -> (line: PaintedLine)
    requires
        from <= to <= gs.len(),
        flags.len() == gs.len(),
    ensures
        line@ == painted(texts(gs@), flags@, base, hi, from as int, to as int),
{
    let ghost all = texts(gs@);
    let mut line = PaintedLine::empty();
    let mut col: usize = 0;
    let mut i: usize = from;
    while i < to
        invariant
            from <= i <= to <= gs.len() == all.len(),
            flags.len() == gs.len(),
            all == texts(gs@),
            col == column_at(all, from as int, i as int),
            line@ == painted(all, flags@, base, hi, from as int, i as int),
        decreases to - i,
    {
        proof {
            assert(all[i as int] == gs@[i as int]@);
        }
        let paint: Paint = if flags[i] { hi } else { base };
        put_piece(&mut line, drawn_text(gs[i].as_str(), col).as_str(), paint);
        col = col.saturating_add(grapheme_cells(gs[i].as_str(), col));
        i = i + 1;
    }
    line
}

/// A window being filled.
#[verifier::ext_equal]
pub struct Window {
    pub line: Seq<PieceView>,
    pub col: int,
    pub taken: int,
    pub full: bool,
}

/// One more grapheme: skipped while it begins left of the window (one that straddles the
/// edge is dropped whole), taken while it fits, and the window is full at the first that does
/// not.
pub open spec fn window_step(
    w: Window,
    g: Seq<char>,
    skip: int,
    budget: int,
    paint: Paint,
) -> Window {
    let cells = cells_at(g, w.col);
    let next = capped(w.col + cells);
    if w.full {
        w
    } else if next <= skip || w.col < skip {
        Window { col: next, ..w }
    } else if w.taken + cells > budget {
        Window { full: true, ..w }
    } else {
        Window { line: put(w.line, drawn(g, w.col), paint), col: next, taken: w.taken + cells, full: false }
    }
}

/// The window over the first `n` graphemes.
pub open spec fn window_at(
    gs: Seq<Seq<char>>,
    flags: Seq<bool>,
    skip: int,
    budget: int,
    base: Paint,
    hi: Paint,
    n: int,
) -> Window
    decreases n,
{
    if n <= 0 {
        Window { line: Seq::empty(), col: 0, taken: 0, full: false }
    } else {
        window_step(
            window_at(gs, flags, skip, budget, base, hi, n - 1),
            gs[n - 1],
            skip,
            budget,
            if flags[n - 1] { hi } else { base },
        )
    }
}

proof fn lemma_window_full(
    gs: Seq<Seq<char>>,
    flags: Seq<bool>,
    skip: int,
    budget: int,
    base: Paint,
    hi: Paint,
    a: int,
    b: int,
)
    requires
        0 <= a <= b,
        window_at(gs, flags, skip, budget, base, hi, a).full,
    ensures
        window_at(gs, flags, skip, budget, base, hi, b) == window_at(gs, flags, skip, budget, base, hi, a),
    decreases b - a,
{
    if a < b {
        lemma_window_full(gs, flags, skip, budget, base, hi, a, b - 1);
    }
}

/// The display-cell window `[skip, skip + budget)` of `gs` as painted pieces, switching
/// between `base` and `hi` at changed-flag boundaries.
fn slice_styled(
    gs: &Vec<String>,
    flags: &Vec<bool>,
    skip: usize,
    budget: usize,
    base: Paint,
    hi: Paint,
) -> (line: PaintedLine)
    requires
        flags.len() == gs.len(),
    ensures
        line@ == window_at(
            texts(gs@),
            flags@,
            skip as int,
            budget as int,
            base,
            hi,
            gs.len() as int,
        ).line,
{
    let ghost all = texts(gs@);
    let mut line = PaintedLine::empty();
    let mut col: usize = 0;
    let mut taken: usize = 0;
    let mut i: usize = 0;
    while i < gs.len()
        invariant
            i <= gs.len() == all.len(),
            flags.len() == gs.len(),
            all == texts(gs@),
            taken <= budget,
            (Window { line: line@, col: col as int, taken: taken as int, full: false }) == window_at(
                all,
                flags@,
                skip as int,
                budget as int,
                base,
                hi,
                i as int,
            ),
        decreases gs.len() - i,
    {
        proof {
            assert(all[i as int] == gs@[i as int]@);
        }
        let w: usize = grapheme_cells(gs[i].as_str(), col);
        let next: usize = col.saturating_add(w);
        if next <= skip || col < skip {
            col = next;
        } else {
            if w > budget - taken {
                proof {
                    lemma_window_full(
                        all,
                        flags@,
                        skip as int,
                        budget as int,
                        base,
                        hi,
                        i + 1,
                        all.len() as int,
                    );
                }
                return line;
            }
            let paint: Paint = if flags[i] { hi } else { base };
            put_piece(&mut line, drawn_text(gs[i].as_str(), col).as_str(), paint);
            taken = taken + w;
            col = next;
        }
        i = i + 1;
    }
    line
}

/// The largest line number of the first `n` rows.
pub open spec fn largest_line(rows: Seq<DiffRow>, n: int) -> int
    decreases n,
{
    if n <= 0 {
        0
    } else {
        max_int(
            largest_line(rows, n - 1),
            match rows[n - 1] {
                DiffRow::Add { new_ln, .. } => new_ln as int,
                DiffRow::Del { old_ln, .. } => old_ln as int,
                DiffRow::Context { old_ln, new_ln, .. } => max_int(old_ln as int, new_ln as int),
                DiffRow::HunkHeader(_) => 0,
            },
        )
    }
}

/// The cells of one line-number column: the widest line number, but four to six cells.
pub open spec fn number_width(rows: Seq<DiffRow>) -> int {
    clamp_int(decimal_of(largest_line(rows, rows.len() as int)).len() as int, 4, 6)
}

/// The cells of one line-number column: the widest line number, but four to six cells.
pub fn ln_width(rows: &Vec<DiffRow>) -> (w: usize)
    ensures
        w == number_width(rows@),
        4 <= w <= 6,
{
    let mut largest: u32 = 0;
    let mut i: usize = 0;
    while i < rows.len()
        invariant
            i <= rows.len(),
            largest == largest_line(rows@, i as int),
        decreases rows.len() - i,
    {
        let line: u32 = match &rows[i] {
            DiffRow::Add { new_ln, .. } => *new_ln,
            DiffRow::Del { old_ln, .. } => *old_ln,
            DiffRow::Context { old_ln, new_ln, .. } => if *old_ln < *new_ln { *new_ln } else { *old_ln },
            DiffRow::HunkHeader(_) => 0,
        };
        if line > largest {
            largest = line;
        }
        i = i + 1;
    }
    let digits: usize = chars_of(decimal(largest as u64).as_str()).len();
    max_usize(min_usize(digits, 6), 4)
}

/// The cells of the gutter: both numbers, the bar between them, a space and the sign.
pub open spec fn gutter_cells(ln_w: int) -> int {
    2 * ln_w + 5
}

/// The fixed gutter width for a given number width.
pub fn gutter_width(ln_w: usize) -> (w: usize)
    requires
        gutter_cells(ln_w as int) <= usize::MAX,
    ensures
        w == gutter_cells(ln_w as int),
{
    2 * ln_w + 5
}

/// A line number at the right of its column, or an empty column.
pub open spec fn number_cell(n: Option<int>, ln_w: int) -> Seq<char> {
    match n {
        Some(k) => repeat_of(' ', monus(ln_w, decimal_of(k).len() as int)) + decimal_of(k),
        None => repeat_of(' ', ln_w),
    }
}

fn number_text(n: Option<u32>, ln_w: usize) -> (out: String)
    ensures
        out@ == number_cell(optional_line(n), ln_w as int),
{
    match n {
        Some(k) => {
            let digits = decimal(k as u64);
            let count: usize = chars_of(digits.as_str()).len();
            joined(repeated(' ', ln_w.saturating_sub(count)).as_str(), digits.as_str())
        },
        None => repeated(' ', ln_w),
    }
}

/// An optional line number.
pub open spec fn optional_line(n: Option<u32>) -> Option<int> {
    match n {
        Some(k) => Some(k as int),
        None => None,
    }
}

/// The gutter of one line: both numbers and the sign.
pub open spec fn gutter(
    old: Option<int>,
    new: Option<int>,
    ln_w: int,
    sign: Seq<char>,
    sign_paint: Paint,
) -> Seq<PieceView> {
    seq![
        PieceView { text: number_cell(old, ln_w), paint: ink(Tone::Muted) },
        PieceView { text: " │ "@, paint: ink(Tone::Muted) },
        PieceView { text: number_cell(new, ln_w), paint: ink(Tone::Muted) },
        PieceView { text: " "@, paint: ink(Tone::Muted) },
        PieceView { text: sign, paint: sign_paint },
    ]
}

fn gutter_spans(old: Option<u32>, new: Option<u32>, ln_w: usize, sign: &str, sign_paint: Paint) -> (line: PaintedLine)
    ensures
        line@ == gutter(optional_line(old), optional_line(new), ln_w as int, sign@, sign_paint),
{
    let mut line = PaintedLine::empty();
    let muted: Paint = Paint::ink(Tone::Muted);
    line.push(number_text(old, ln_w).as_str(), muted);
    line.push(" │ ", muted);
    line.push(number_text(new, ln_w).as_str(), muted);
    line.push(" ", muted);
    line.push(sign, sign_paint);
    proof {
        assert(line@ =~= gutter(optional_line(old), optional_line(new), ln_w as int, sign@, sign_paint));
    }
    line
}

/// How the body of a row is painted: its text, and the changed words in it.
pub open spec fn body_paint(row: DiffRow) -> (Paint, Paint) {
    match row {
        DiffRow::Add { .. } => (
            ink_on(Tone::Text, Some(Tone::AddBg)),
            bold_paint(ink_on(Tone::AddHi, Some(Tone::AddHiBg))),
        ),
        DiffRow::Del { .. } => (
            ink_on(Tone::Text, Some(Tone::DelBg)),
            bold_paint(ink_on(Tone::DelHi, Some(Tone::DelHiBg))),
        ),
        _ => (ink(Tone::Muted), ink(Tone::Muted)),
    }
}

/// The paint of a hunk header.
pub open spec fn hunk_paint() -> Paint {
    bold_paint(ink_on(Tone::HunkFg, Some(Tone::SurfaceAlt)))
}

/// The sign of a row.
pub open spec fn row_sign(row: DiffRow) -> Seq<char> {
    match row {
        DiffRow::Add { .. } => "+"@,
        DiffRow::Del { .. } => "-"@,
        _ => " "@,
    }
}

/// The line of a row on the old side.
pub open spec fn old_line(row: DiffRow) -> Option<int> {
    match row {
        DiffRow::Del { old_ln, .. } => Some(old_ln as int),
        DiffRow::Context { old_ln, .. } => Some(old_ln as int),
        _ => None,
    }
}

/// The line of a row on the new side.
pub open spec fn new_line(row: DiffRow) -> Option<int> {
    match row {
        DiffRow::Add { new_ln, .. } => Some(new_ln as int),
        DiffRow::Context { new_ln, .. } => Some(new_ln as int),
        _ => None,
    }
}

/// The source text of a row.
pub open spec fn body_text(row: DiffRow) -> Seq<char> {
    match row {
        DiffRow::HunkHeader(h) => h@,
        DiffRow::Add { text, .. } => text@,
        DiffRow::Del { text, .. } => text@,
        DiffRow::Context { text, .. } => text@,
    }
}

/// What is marked in a row; context carries no marks.
pub open spec fn row_marks(row: DiffRow, spans: Seq<(usize, usize)>) -> Seq<bool> {
    let gs = graphemes_of(body_text(row));
    if row is Context { marks(gs, Seq::empty()) } else { marks(gs, spans) }
}

/// A row in numbers and paint.
struct RowParts {
    old: Option<u32>,
    new: Option<u32>,
    sign: &'static str,
    base: Paint,
    hi: Paint,
}

fn row_parts(row: &DiffRow) -> (p: RowParts)
    ensures
        optional_line(p.old) == old_line(*row),
        optional_line(p.new) == new_line(*row),
        p.sign@ == row_sign(*row),
        (p.base, p.hi) == body_paint(*row),
{
    match row {
        DiffRow::Add { new_ln, .. } => RowParts {
            old: None,
            new: Some(*new_ln),
            sign: "+",
            base: Paint::ink_on(Tone::Text, Some(Tone::AddBg)),
            hi: Paint::ink_on(Tone::AddHi, Some(Tone::AddHiBg)).bold(),
        },
        DiffRow::Del { old_ln, .. } => RowParts {
            old: Some(*old_ln),
            new: None,
            sign: "-",
            base: Paint::ink_on(Tone::Text, Some(Tone::DelBg)),
            hi: Paint::ink_on(Tone::DelHi, Some(Tone::DelHiBg)).bold(),
        },
        DiffRow::Context { old_ln, new_ln, .. } => RowParts {
            old: Some(*old_ln),
            new: Some(*new_ln),
            sign: " ",
            base: Paint::ink(Tone::Muted),
            hi: Paint::ink(Tone::Muted),
        },
        DiffRow::HunkHeader(_) => RowParts {
            old: None,
            new: None,
            sign: " ",
            base: Paint::ink(Tone::Muted),
            hi: Paint::ink(Tone::Muted),
        },
    }
}

fn row_body(row: &DiffRow) -> (text: &str)
    ensures
        text@ == body_text(*row),
{
    match row {
        DiffRow::HunkHeader(h) => h.as_str(),
        DiffRow::Add { text, .. } => text.as_str(),
        DiffRow::Del { text, .. } => text.as_str(),
        DiffRow::Context { text, .. } => text.as_str(),
    }
}

fn row_flags(row: &DiffRow, gs: &Vec<String>, spans: &Vec<(usize, usize)>) -> (flags: Vec<bool>)
    requires
        texts(gs@) == graphemes_of(body_text(*row)),
    ensures
        flags@ == row_marks(*row, spans@),
        flags.len() == gs.len(),
{
    proof {
        assert(texts(gs@).len() == gs.len());
    }
    match row {
        DiffRow::Context { .. } => {
            let none: Vec<(usize, usize)> = Vec::new();
            proof {
                assert(none@ =~= Seq::<(usize, usize)>::empty());
            }
            changed_flags(gs, &none)
        },
        _ => changed_flags(gs, spans),
    }
}

/// A line of one text filled with spaces up to a width.
pub open spec fn band(text: Seq<char>, cells: int, width: int) -> Seq<PieceView> {
    single(text + repeat_of(' ', monus(width, cells)), hunk_paint())
}

/// One row as one line: the gutter is fixed and the body is a window at column `x`; a hunk
/// header is a band of its own that never scrolls sideways.
pub open spec fn raw_line(
    row: DiffRow,
    spans: Seq<(usize, usize)>,
    ln_w: int,
    x: int,
    body_w: int,
    inner_w: int,
) -> Seq<PieceView> {
    let gs = graphemes_of(body_text(row));
    let (base, hi) = body_paint(row);
    if row is HunkHeader {
        let text = clipped(body_text(row), inner_w);
        band(text, display_width(text) as int, inner_w)
    } else {
        gutter(old_line(row), new_line(row), ln_w, row_sign(row), base) + window_at(
            gs,
            row_marks(row, spans),
            x,
            body_w,
            base,
            hi,
            gs.len() as int,
        ).line
    }
}

fn raw_row(
    row: &DiffRow,
    spans: &Vec<(usize, usize)>,
    ln_w: usize,
    x: usize,
    body_w: usize,
    inner_w: usize,
) -> (line: PaintedLine)
    ensures
        line@ == raw_line(*row, spans@, ln_w as int, x as int, body_w as int, inner_w as int),
{
    match row {
        DiffRow::HunkHeader(h) => {
            let text = truncate_cells(h.as_str(), inner_w);
            let fill = repeated(' ', inner_w.saturating_sub(str_width(text.as_str())));
            PaintedLine::single(
                joined(text.as_str(), fill.as_str()).as_str(),
                Paint::ink_on(Tone::HunkFg, Some(Tone::SurfaceAlt)).bold(),
            )
        },
        _ => {
            let gs = graphemes(row_body(row));
            let flags = row_flags(row, &gs, spans);
            proof {
                assert(texts(gs@).len() == gs.len());
            }
            let p = row_parts(row);
            let mut line = gutter_spans(p.old, p.new, ln_w, p.sign, p.base);
            let body = slice_styled(&gs, &flags, x, body_w, p.base, p.hi);
            append_line(&mut line, body);
            line
        },
    }
}

fn append_line(line: &mut PaintedLine, more: PaintedLine)
    ensures
        final(line)@ == old(line)@ + more@,
{
    let ghost before = line@;
    let mut i: usize = 0;
    proof {
        assert(line@ =~= before + more@.take(0));
    }
    while i < more.pieces.len()
        invariant
            i <= more.pieces.len(),
            line@ == before + more@.take(i as int),
        decreases more.pieces.len() - i,
    {
        proof {
            assert(more@.take(i + 1) =~= more@.take(i as int).push(more@[i as int]));
        }
        line.push(more.pieces[i].text.as_str(), more.pieces[i].paint);
        proof {
            assert(line@ =~= before + more@.take(i + 1));
        }
        i = i + 1;
    }
    proof {
        assert(more@.take(more.pieces.len() as int) =~= more@);
    }
}

/// One line of a wrapped row.
pub open spec fn wrapped_line(
    row: DiffRow,
    spans: Seq<(usize, usize)>,
    ln_w: int,
    body_w: int,
    range: (int, int),
    first: bool,
) -> Seq<PieceView> {
    let gs = graphemes_of(body_text(row));
    let (base, hi) = body_paint(row);
    if row is HunkHeader {
        let text = expanded(gs, range.0, range.1);
        band(text, measured(text), gutter_cells(ln_w) + body_w)
    } else {
        (if first {
            gutter(old_line(row), new_line(row), ln_w, row_sign(row), base)
        } else {
            gutter(None, None, ln_w, "↪"@, ink(Tone::Muted))
        }) + painted(gs, row_marks(row, spans), base, hi, range.0, range.1)
    }
}

/// The ranges of a wrapped row: a header uses the whole width, a body what the gutter leaves.
pub open spec fn row_ranges(row: DiffRow, ln_w: int, body_w: int) -> Seq<(int, int)> {
    wrapped_ranges(
        graphemes_of(body_text(row)),
        max_int(if row is HunkHeader { gutter_cells(ln_w) + body_w } else { body_w }, 1),
        0,
    )
}

/// One row as one line or more: both numbers and the sign on the first, a blank gutter and an
/// arrow on the others.
pub open spec fn wrapped_row(
    row: DiffRow,
    spans: Seq<(usize, usize)>,
    ln_w: int,
    body_w: int,
) -> Seq<Seq<PieceView>> {
    let ranges = row_ranges(row, ln_w, body_w);
    Seq::new(ranges.len(), |k: int| wrapped_line(row, spans, ln_w, body_w, ranges[k], k == 0))
}

/// One line of a wrapped row, from its graphemes and their flags.
fn wrapped_part(
    row: &DiffRow,
    gs: &Vec<String>,
    flags: &Vec<bool>,
    Ghost(spans): Ghost<Seq<(usize, usize)>>,
    ln_w: usize,
    body_w: usize,
    from: usize,
    to: usize,
    first: bool,
) -> (line: PaintedLine)
    requires
        gutter_cells(ln_w as int) + body_w <= usize::MAX,
        from <= to <= gs.len(),
        texts(gs@) == graphemes_of(body_text(*row)),
        flags.len() == gs.len(),
        flags@ == row_marks(*row, spans),
    ensures
        line@ == wrapped_line(*row, spans, ln_w as int, body_w as int, (from as int, to as int), first),
{
    match row {
        DiffRow::HunkHeader(_) => {
            let text = expand_tabs(gs, from, to);
            let width: usize = gutter_width(ln_w) + body_w;
            let fill = repeated(' ', width.saturating_sub(measured_cells(text.as_str())));
            PaintedLine::single(
                joined(text.as_str(), fill.as_str()).as_str(),
                Paint::ink_on(Tone::HunkFg, Some(Tone::SurfaceAlt)).bold(),
            )
        },
        _ => {
            let p = row_parts(row);
            let mut line = if first {
                gutter_spans(p.old, p.new, ln_w, p.sign, p.base)
            } else {
                gutter_spans(None, None, ln_w, "↪", Paint::ink(Tone::Muted))
            };
            append_line(&mut line, styled_graphemes(gs, flags, from, to, p.base, p.hi));
            line
        },
    }
}

/// Add the lines of one wrapped row.
fn push_wrapped(lines: &mut Vec<PaintedLine>, row: &DiffRow, spans: &Vec<(usize, usize)>, ln_w: usize, body_w: usize)
    requires
        gutter_cells(ln_w as int) + body_w <= usize::MAX,
    ensures
        line_views(final(lines)@) == line_views(old(lines)@) + wrapped_row(
            *row,
            spans@,
            ln_w as int,
            body_w as int,
        ),
{
    let gs = graphemes(row_body(row));
    let flags = row_flags(row, &gs, spans);
    let budget: usize = match row {
        DiffRow::HunkHeader(_) => gutter_width(ln_w) + body_w,
        _ => body_w,
    };
    let ranges = wrap_ranges(&gs, budget);
    let ghost start = line_views(lines@);
    let ghost all = wrapped_row(*row, spans@, ln_w as int, body_w as int);
    let ghost wanted = row_ranges(*row, ln_w as int, body_w as int);
    let mut k: usize = 0;
    proof {
        assert(int_ranges(ranges@).len() == ranges.len());
        assert(all.len() == ranges.len());
        assert(line_views(lines@) =~= start + all.take(0));
    }
    while k < ranges.len()
        invariant
            k <= ranges.len() == all.len(),
            gutter_cells(ln_w as int) + body_w <= usize::MAX,
            int_ranges(ranges@) == wanted,
            wanted == row_ranges(*row, ln_w as int, body_w as int),
            all == wrapped_row(*row, spans@, ln_w as int, body_w as int),
            texts(gs@) == graphemes_of(body_text(*row)),
            flags.len() == gs.len(),
            flags@ == row_marks(*row, spans@),
            forall|j: int| #![trigger ranges@[j]] 0 <= j < ranges.len() ==> ranges@[j].0 <= ranges@[j].1 <= gs.len(),
            line_views(lines@) == start + all.take(k as int),
        decreases ranges.len() - k,
    {
        let ghost before = line_views(lines@);
        proof {
            assert(wanted[k as int] == (ranges@[k as int].0 as int, ranges@[k as int].1 as int));
        }
        let line = wrapped_part(
            row,
            &gs,
            &flags,
            Ghost(spans@),
            ln_w,
            body_w,
            ranges[k].0,
            ranges[k].1,
            k == 0,
        );
        let ghost shown = line@;
        lines.push(line);
        proof {
            assert(shown == all[k as int]);
            assert(line_views(lines@) =~= before.push(shown));
            assert(line_views(lines@) =~= start + all.take(k + 1));
        }
        k = k + 1;
    }
    proof {
        assert(all.take(all.len() as int) =~= all);
    }
}

/// How many lines a wrapped row takes.
pub fn wrapped_height(row: &DiffRow, ln_w: usize, body_w: usize) -> (n: usize)
    requires
        gutter_cells(ln_w as int) + body_w <= usize::MAX,
    ensures
        n == row_ranges(*row, ln_w as int, body_w as int).len(),
{
    let gs = graphemes(row_body(row));
    let budget: usize = match row {
        DiffRow::HunkHeader(_) => gutter_width(ln_w) + body_w,
        _ => body_w,
    };
    let ranges = wrap_ranges(&gs, budget);
    proof {
        assert(int_ranges(ranges@).len() == ranges.len());
    }
    ranges.len()
}

/// The diff rows as display lines, plus the logical→visual anchor map.
#[derive(Debug, Clone, PartialEq, Eq)]
pub struct BuiltDiff {
    /// Display lines (pre-wrapped or body-sliced).
    pub lines: Vec<PaintedLine>,
    /// `first_visual[logical_row]` = index of that row's first display line.
    pub first_visual: Vec<u16>,
    /// The horizontal offset actually shown after clamping (raw mode; 0 when wrapped).
    pub effective_x: usize,
}

/// The first `n` rows wrapped.
pub open spec fn wrapped_rows(
    rows: Seq<DiffRow>,
    spans: Seq<Seq<(usize, usize)>>,
    ln_w: int,
    body_w: int,
    n: int,
) -> Seq<Seq<PieceView>>
    decreases n,
{
    if n <= 0 {
        Seq::empty()
    } else {
        wrapped_rows(rows, spans, ln_w, body_w, n - 1) + wrapped_row(rows[n - 1], spans[n - 1], ln_w, body_w)
    }
}

/// The marks of every row.
pub open spec fn span_views(spans: Seq<Vec<(usize, usize)>>) -> Seq<Seq<(usize, usize)>> {
    Seq::new(spans.len(), |i: int| spans[i]@)
}

/// Wrap mode: every `DiffRow` becomes one or more display lines. Numbered rows keep the
/// dual old/new gutter + sign on the first line and a blank dual gutter + `↪` on
/// continuations; every line of a hunk header keeps the band background.
pub fn build_wrapped(rows: &Vec<DiffRow>, spans: &Vec<Vec<(usize, usize)>>, ln_w: usize, body_w: usize) -> (built:
    BuiltDiff)
    requires
        spans.len() == rows.len(),
        gutter_cells(ln_w as int) + body_w <= usize::MAX,
    ensures
        line_views(built.lines@) == wrapped_rows(rows@, span_views(spans@), ln_w as int, body_w as int, rows.len() as int),
        built.first_visual.len() == rows.len(),
        forall|i: int| 0 <= i < rows.len() ==> #[trigger] built.first_visual@[i] == low16(
            wrapped_rows(rows@, span_views(spans@), ln_w as int, body_w as int, i).len() as int,
        ),
        built.effective_x == 0,
{
    let mut lines: Vec<PaintedLine> = Vec::new();
    let mut first_visual: Vec<u16> = Vec::new();
    let mut i: usize = 0;
    proof {
        assert(line_views(lines@) =~= wrapped_rows(rows@, span_views(spans@), ln_w as int, body_w as int, 0));
    }
    while i < rows.len()
        invariant
            i <= rows.len() == spans.len(),
            gutter_cells(ln_w as int) + body_w <= usize::MAX,
            line_views(lines@) == wrapped_rows(rows@, span_views(spans@), ln_w as int, body_w as int, i as int),
            first_visual.len() == i,
            forall|k: int| 0 <= k < i ==> #[trigger] first_visual@[k] == low16(
                wrapped_rows(rows@, span_views(spans@), ln_w as int, body_w as int, k).len() as int,
            ),
        decreases rows.len() - i,
    {
        proof {
            assert(line_views(lines@).len() == lines.len());
        }
        first_visual.push(cut_u16(lines.len()));
        proof {
            assert(span_views(spans@)[i as int] == spans@[i as int]@);
        }
        push_wrapped(&mut lines, &rows[i], &spans[i], ln_w, body_w);
        i = i + 1;
    }
    BuiltDiff { lines, first_visual, effective_x: 0 }
}

/// The widest body of the first `n` rows; headers do not count.
pub open spec fn widest_body(rows: Seq<DiffRow>, n: int) -> int
    decreases n,
{
    if n <= 0 {
        0
    } else if rows[n - 1] is HunkHeader {
        widest_body(rows, n - 1)
    } else {
        max_int(widest_body(rows, n - 1), measured(body_text(rows[n - 1])))
    }
}

/// The horizontal offset that is shown: not past the end of the longest body.
pub open spec fn shown_x(rows: Seq<DiffRow>, x: int, body_w: int) -> int {
    min_int(x, monus(widest_body(rows, rows.len() as int), body_w))
}

/// All rows as single lines.
pub open spec fn raw_lines(
    rows: Seq<DiffRow>,
    spans: Seq<Seq<(usize, usize)>>,
    ln_w: int,
    x: int,
    body_w: int,
    inner_w: int,
) -> Seq<Seq<PieceView>> {
    Seq::new(rows.len(), |i: int| raw_line(rows[i], spans[i], ln_w, x, body_w, inner_w))
}

/// Raw mode: one display line per logical row; the source body is display-cell-sliced at
/// the (clamped) horizontal offset while the dual gutter stays fixed. Hunk headers do not
/// scroll sideways: the section text is truncated with an ellipsis.
pub fn build_raw(
    rows: &Vec<DiffRow>,
    spans: &Vec<Vec<(usize, usize)>>,
    ln_w: usize,
    x: usize,
    body_w: usize,
    inner_w: usize,
) -> (built: BuiltDiff)
    requires
        spans.len() == rows.len(),
    ensures
        ({
            let body = max_int(body_w as int, 1);
            let shown = shown_x(rows@, x as int, body);
            &&& line_views(built.lines@) == raw_lines(rows@, span_views(spans@), ln_w as int, shown, body, inner_w as int)
            &&& built.effective_x == shown
        }),
        built.first_visual.len() == rows.len(),
        forall|i: int| 0 <= i < rows.len() ==> #[trigger] built.first_visual@[i] == low16(i),
{
    let body: usize = max_usize(body_w, 1);
    let mut widest: usize = 0;
    let mut r: usize = 0;
    while r < rows.len()
        invariant
            r <= rows.len(),
            widest == widest_body(rows@, r as int),
        decreases rows.len() - r,
    {
        match &rows[r] {
            DiffRow::HunkHeader(_) => {},
            _ => {
                widest = max_usize(widest, measured_cells(row_body(&rows[r])));
            },
        }
        r = r + 1;
    }
    let effective_x: usize = min_usize(x, widest.saturating_sub(body));
    let ghost all = raw_lines(
        rows@,
        span_views(spans@),
        ln_w as int,
        effective_x as int,
        body as int,
        inner_w as int,
    );
    let mut lines: Vec<PaintedLine> = Vec::new();
    let mut first_visual: Vec<u16> = Vec::new();
    let mut i: usize = 0;
    proof {
        assert(line_views(lines@) =~= all.take(0));
    }
    while i < rows.len()
        invariant
            i <= rows.len() == spans.len() == all.len(),
            all == raw_lines(
                rows@,
                span_views(spans@),
                ln_w as int,
                effective_x as int,
                body as int,
                inner_w as int,
            ),
            lines.len() == i,
            line_views(lines@) == all.take(i as int),
            first_visual.len() == i,
            forall|k: int| 0 <= k < i ==> #[trigger] first_visual@[k] == low16(k),
        decreases rows.len() - i,
    {
        let ghost before = line_views(lines@);
        first_visual.push(cut_u16(lines.len()));
        proof {
            assert(span_views(spans@)[i as int] == spans@[i as int]@);
        }
        let line = raw_row(&rows[i], &spans[i], ln_w, effective_x, body, inner_w);
        let ghost shown = line@;
        lines.push(line);
        proof {
            assert(shown == all[i as int]);
            assert(line_views(lines@) =~= before.push(shown));
            assert(all.take(i + 1) =~= all.take(i as int).push(all[i as int]));
        }
        i = i + 1;
    }
    proof {
        assert(all.take(all.len() as int) =~= all);
    }
    BuiltDiff { lines, first_visual, effective_x }
}

} // verus!
