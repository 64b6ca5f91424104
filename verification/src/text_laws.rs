//! How text is measured, cut, wrapped and shared out over an area.

use vstd::prelude::*;
use crate::num::{clamp_int, low16, max_int, min_int, monus, sat16};
use crate::rect::Rect;
use crate::split::{
    body_row, extent_along, given, given_before, last_row, middle_part, part, percent_before, percent_part, share_end,
    spare, Axis, Share,
};
use crate::style::{bold_paint, flat, ink, ink_on, plain_paint, rgb_of, Paint, PieceView, Tone};
use crate::text::{
    concat, display_width, fitting, graphemes_of, head_cells, join_with, space_char, split_on, tail_cells,
};
use crate::wrap::{
    cells, chunks_of, closed, cut_at, drop_spaces, ended, fill_at, lines_of, padded, skip_spaces, trimmed, truncated,
    words_of, wrapped, wrapped_line, wrapped_lines, wrapped_start, Cut,
};

verus! {

proof fn lemma_skip(s: Seq<char>, i: int)
    requires
        0 <= i <= s.len(),
    ensures
        i <= skip_spaces(s, i) <= s.len(),
        skip_spaces(s, i) < s.len() ==> !space_char(s[skip_spaces(s, i)]),
        forall|k: int| i <= k < skip_spaces(s, i) ==> space_char(#[trigger] s[k]),
    decreases s.len() - i,
{
    if i < s.len() && space_char(s[i]) {
        lemma_skip(s, i + 1);
    }
}

proof fn lemma_drop(s: Seq<char>, i: int)
    requires
        0 <= i <= s.len(),
    ensures
        0 <= drop_spaces(s, i) <= i,
        drop_spaces(s, i) > 0 ==> !space_char(s[drop_spaces(s, i) - 1]),
        forall|k: int| drop_spaces(s, i) <= k < i ==> space_char(#[trigger] s[k]),
    decreases i,
{
    if i > 0 && space_char(s[i - 1]) {
        lemma_drop(s, i - 1);
    }
}

/// Trimming takes the whitespace from both ends and nothing else: what it leaves begins and
/// ends with something else, and a text of whitespace alone becomes empty.
pub proof fn law_trimming_takes_whitespace_only(s: Seq<char>)
    ensures
        trimmed(s).len() > 0 ==> !space_char(trimmed(s)[0]) && !space_char(trimmed(s).last()),
        (forall|k: int| 0 <= k < s.len() ==> space_char(#[trigger] s[k])) ==> trimmed(s).len() == 0,
        s.len() > 0 && !space_char(s[0]) && !space_char(s.last()) ==> trimmed(s) == s,
        trimmed(s).len() > 0 ==> exists|a: int, b: int|
            0 <= a < b <= s.len() && trimmed(s) == #[trigger] s.subrange(a, b) && (forall|k: int|
                0 <= k < a ==> space_char(#[trigger] s[k])) && (forall|k: int|
                b <= k < s.len() ==> space_char(#[trigger] s[k])),
        trimmed(s).len() == 0 ==> forall|k: int| 0 <= k < s.len() ==> space_char(#[trigger] s[k]),
{
    lemma_skip(s, 0);
    lemma_drop(s, s.len() as int);
    let (a, b) = (skip_spaces(s, 0), drop_spaces(s, s.len() as int));
    if a < b {
        assert(trimmed(s) == s.subrange(a, b));
    }
    if s.len() > 0 && !space_char(s[0]) && !space_char(s.last()) {
        assert(s.subrange(0, s.len() as int) =~= s);
    }
}

/// Words hold no whitespace and are not empty; read one after the other they are the text
/// without its whitespace.
pub proof fn law_words_hold_no_whitespace(s: Seq<char>)
    ensures
        ({
            let words = words_of(s);
            &&& forall|k: int| #![trigger words[k]]
                0 <= k < words.len() ==> words[k].len() > 0 && forall|i: int|
                    0 <= i < words[k].len() ==> !space_char(#[trigger] words[k][i])
            &&& concat(words) == s.filter(|c: char| !space_char(c))
            &&& s.len() > 0 && !space_char(s.last()) ==> words.len() > 0
        }),
    decreases s.len(),
{
    reveal(Seq::filter);
    if s.len() > 0 {
        law_words_hold_no_whitespace(s.drop_last());
        let before = words_of(s.drop_last());
        let words = words_of(s);
        if !space_char(s.last()) {
            if s.len() >= 2 && !space_char(s[s.len() - 2]) {
                assert(s.drop_last().last() == s[s.len() - 2]);
                assert(words.drop_last() =~= before.drop_last());
                assert(concat(words) =~= concat(before).push(s.last()));
            } else {
                assert(words.drop_last() =~= before);
                assert(concat(words) =~= concat(before).push(s.last()));
            }
        }
    }
}

/// Whitespace separates words: what stands before it and what stands after it have words of
/// their own.
pub proof fn law_whitespace_separates_words(a: Seq<char>, sep: char, b: Seq<char>)
    requires
        space_char(sep),
    ensures
        words_of(a.push(sep) + b) == words_of(a) + words_of(b),
    decreases b.len(),
{
    let s = a.push(sep) + b;
    if b.len() == 0 {
        assert(s =~= a.push(sep));
        assert(s.drop_last() =~= a);
        assert(words_of(a) + words_of(b) =~= words_of(a));
    } else {
        law_whitespace_separates_words(a, sep, b.drop_last());
        assert(s.drop_last() =~= a.push(sep) + b.drop_last());
        assert(s.last() == b.last());
        law_words_hold_no_whitespace(b.drop_last());
        if !space_char(b.last()) {
            if b.len() >= 2 {
                assert(s[s.len() - 2] == b[b.len() - 2]);
                assert(b.drop_last().last() == b[b.len() - 2]);
            } else {
                assert(s[s.len() - 2] == sep);
            }
        }
        assert(words_of(s) =~= words_of(a) + words_of(b));
    }
}

/// Lines end at line feeds; a text that ends in one has no empty line after it.
pub proof fn law_lines_end_at_line_feeds(s: Seq<char>)
    ensures
        s.len() > 0 && s.last() != '\n' ==> join_with(lines_of(s), seq!['\n']) == s,
        s.len() > 0 && s.last() == '\n' ==> lines_of(s) == split_on(s.drop_last(), '\n'),
        s.len() == 0 ==> lines_of(s).len() == 0,
{
    crate::text::law_split_then_join(s, '\n');
    if s.len() > 0 {
        crate::text::lemma_split_nonempty(s.drop_last(), '\n');
        let before = split_on(s.drop_last(), '\n');
        if s.last() == '\n' {
            assert(before.push(Seq::empty()).drop_last() =~= before);
        } else {
            assert(split_on(s, '\n').last() == before.last().push(s.last()));
        }
    } else {
        assert(split_on(s, '\n').drop_last() =~= Seq::empty());
    }
}

/// The cells of a list of graphemes.
pub open spec fn total_cells(parts: Seq<Seq<char>>) -> int
    decreases parts.len(),
{
    if parts.len() == 0 { 0 } else { display_width(parts[0]) + total_cells(parts.drop_first()) }
}

/// As many graphemes are taken as fit, and no more.
pub proof fn law_as_many_as_fit_are_taken(parts: Seq<Seq<char>>, room: int)
    requires
        0 <= room,
    ensures
        ({
            let n = fitting(parts, room) as int;
            &&& n <= parts.len()
            &&& total_cells(parts.take(n)) <= room
            &&& n < parts.len() ==> total_cells(parts.take(n + 1)) > room
        }),
    decreases parts.len(),
{
    if parts.len() > 0 && display_width(parts[0]) <= room {
        law_as_many_as_fit_are_taken(parts.drop_first(), room - display_width(parts[0]));
        let n = fitting(parts, room) as int;
        assert(parts.take(n).drop_first() =~= parts.drop_first().take(n - 1));
        if n < parts.len() {
            assert(parts.take(n + 1).drop_first() =~= parts.drop_first().take(n));
        }
    } else if parts.len() > 0 {
        assert(parts.take(0).len() == 0);
        assert(total_cells(parts.take(1)) == display_width(parts[0]) + total_cells(parts.take(1).drop_first()));
        assert(parts.take(1).drop_first() =~= Seq::empty());
    }
}

/// The head of a text is its first graphemes, the tail its last ones.
pub proof fn law_heads_and_tails_are_its_ends(s: Seq<char>, room: int)
    requires
        0 <= room,
    ensures
        ({
            let parts = graphemes_of(s);
            &&& exists|n: int|
                0 <= n <= parts.len() && head_cells(s, room) == concat(#[trigger] parts.take(n)) && total_cells(
                    parts.take(n),
                ) <= room && (n < parts.len() ==> total_cells(parts.take(n + 1)) > room)
            &&& exists|n: int|
                0 <= n <= parts.len() && tail_cells(s, room) == concat(#[trigger] parts.skip(parts.len() - n))
                    && total_cells(parts.reverse().take(n)) <= room && (n < parts.len() ==> total_cells(
                    parts.reverse().take(n + 1),
                ) > room)
        }),
{
    let parts = graphemes_of(s);
    law_as_many_as_fit_are_taken(parts, room);
    law_as_many_as_fit_are_taken(parts.reverse(), room);
    let n = fitting(parts, room) as int;
    assert(head_cells(s, room) == concat(parts.take(n)));
    let m = fitting(parts.reverse(), room) as int;
    assert(tail_cells(s, room) == concat(parts.skip(parts.len() - m)));
}

/// A text that fits is kept; one that does not gives its last cell to an ellipsis.
pub proof fn law_cut_text_ends_in_an_ellipsis(text: Seq<char>, width: int)
    requires
        0 <= width,
    ensures
        display_width(text) <= width ==> truncated(text, width) == text,
        display_width(text) > width && width == 0 ==> truncated(text, width).len() == 0,
        display_width(text) > width && width == 1 ==> truncated(text, width) == seq!['…'],
        display_width(text) > width && width > 1 ==> truncated(text, width) == head_cells(text, width - 1).push('…'),
{
    reveal_strlit("…");
    assert("…"@ =~= seq!['…']);
    if display_width(text) > width && width > 1 {
        assert(head_cells(text, width - 1) + "…"@ =~= head_cells(text, width - 1).push('…'));
    }
}

/// A padded text is the text and the spaces that fill its width.
pub proof fn law_padding_follows_the_text(text: Seq<char>, width: int)
    ensures
        padded(text, width).take(text.len() as int) == text,
        forall|i: int| text.len() <= i < padded(text, width).len() ==> #[trigger] padded(text, width)[i] == ' ',
        display_width(text) <= width ==> padded(text, width).len() == text.len() + (width - display_width(text)),
        display_width(text) >= width ==> padded(text, width) == text,
{
    assert(padded(text, width).take(text.len() as int) =~= text);
    if display_width(text) >= width {
        assert(padded(text, width) =~= text);
    }
}

/// Whether a word fits a line of its own, grapheme by grapheme.
pub open spec fn fits_alone(word: Seq<char>, width: int) -> bool {
    let parts = graphemes_of(word);
    word.len() > 0 && concat(parts) == word && cells(parts) <= width && forall|i: int|
        0 <= i < parts.len() ==> display_width(#[trigger] parts[i]) <= width
}

proof fn lemma_uncut(parts: Seq<Seq<char>>, width: int, n: int)
    requires
        0 <= n <= parts.len(),
        cells(parts) <= width,
        forall|i: int| 0 <= i < parts.len() ==> display_width(#[trigger] parts[i]) <= width,
    ensures
        cut_at(parts, width, n) == (Cut { pieces: Seq::empty(), open: parts.take(n) }),
        cells(parts.take(n)) <= width,
    decreases n,
{
    lemma_cells_grow(parts, n);
    if n > 0 {
        lemma_uncut(parts, width, n - 1);
        assert(parts.take(n).drop_last() =~= parts.take(n - 1));
        assert(parts.take(n - 1).push(parts[n - 1]) =~= parts.take(n));
        assert(display_width(parts[n - 1]) <= width);
    } else {
        assert(parts.take(0) =~= Seq::empty());
    }
}

proof fn lemma_cells_grow(parts: Seq<Seq<char>>, n: int)
    requires
        0 <= n <= parts.len(),
    ensures
        0 <= cells(parts.take(n)) <= cells(parts),
    decreases parts.len(),
{
    if n < parts.len() {
        lemma_cells_grow(parts.drop_last(), n);
        assert(parts.drop_last().take(n) =~= parts.take(n));
    } else {
        assert(parts.take(n) =~= parts);
        if n > 0 {
            lemma_cells_grow(parts.drop_last(), n - 1);
            assert(parts.drop_last().take(n - 1) =~= parts.drop_last());
        }
    }
}

proof fn lemma_one_chunk(word: Seq<char>, width: int)
    requires
        fits_alone(word, width),
    ensures
        chunks_of(word, width) == seq![word],
{
    let parts = graphemes_of(word);
    lemma_uncut(parts, width, parts.len() as int);
    assert(parts.take(parts.len() as int) =~= parts);
    assert(parts.len() > 0) by {
        if parts.len() == 0 {
            assert(concat(parts).len() == 0);
        }
    }
    assert(closed(cut_at(parts, width, parts.len() as int)) =~= seq![word]);
}

/// Wrapping breaks between words and changes none: joined by spaces the lines read as the
/// words do.
pub proof fn law_wrapping_keeps_the_words(words: Seq<Seq<char>>, width: int, n: int)
    requires
        0 <= n <= words.len(),
        forall|k: int| 0 <= k < words.len() ==> fits_alone(#[trigger] words[k], width),
    ensures
        join_with(ended(fill_at(words, width, n)), seq![' ']) == join_with(words.take(n), seq![' ']),
        n > 0 ==> fill_at(words, width, n).open.len() > 0,
        n == 0 ==> fill_at(words, width, n).lines.len() == 0 && fill_at(words, width, n).open.len() == 0,
    decreases n,
{
    let sp = seq![' '];
    if n > 0 {
        law_wrapping_keeps_the_words(words, width, n - 1);
        let before = fill_at(words, width, n - 1);
        let after = fill_at(words, width, n);
        let word = words[n - 1];
        assert(fits_alone(word, width));
        lemma_one_chunk(word, width);
        assert(words.take(n).drop_last() =~= words.take(n - 1));
        assert(words.take(n).last() == word);
        if before.open.len() > 0 {
            let old = ended(before);
            assert(old == before.lines.push(before.open));
            if crate::wrap::word_fits(before.open, word, width) {
                let new = ended(after);
                assert(new == before.lines.push(before.open.push(' ') + word));
                assert(new.drop_last() =~= before.lines);
                assert(old.drop_last() =~= before.lines);
                if before.lines.len() == 0 {
                    assert(join_with(new, sp) =~= join_with(old, sp) + sp + word);
                } else {
                    assert(join_with(new, sp) =~= join_with(old, sp) + sp + word);
                }
            } else {
                assert(seq![word].drop_last() =~= Seq::empty());
                assert(old + seq![word].drop_last() =~= old);
                assert(after.lines =~= old);
                assert(after.open == word);
                assert(ended(after).drop_last() =~= old);
            }
        } else {
            assert(n == 1);
            assert(before.lines.len() == 0);
            assert(seq![word].drop_last() =~= Seq::empty());
            assert(ended(after) =~= seq![word]);
            assert(words.take(n) =~= seq![word]);
        }
    } else {
        assert(words.take(0) =~= Seq::empty());
        assert(ended(fill_at(words, width, 0)) =~= Seq::empty());
    }
}

/// A word goes on the line that is open wherever it fits there after a space, and else begins
/// the next.
pub proof fn law_lines_are_filled(words: Seq<Seq<char>>, width: int, n: int)
    requires
        0 < n <= words.len(),
        fits_alone(words[n - 1], width),
        fill_at(words, width, n - 1).open.len() > 0,
    ensures
        ({
            let before = fill_at(words, width, n - 1);
            let after = fill_at(words, width, n);
            let fits = display_width(before.open) + 1 + display_width(words[n - 1]) <= width;
            &&& fits ==> after.lines == before.lines && after.open == before.open + seq![' '] + words[n - 1]
            &&& !fits ==> after.lines == before.lines.push(before.open) && after.open == words[n - 1]
        }),
{
    lemma_one_chunk(words[n - 1], width);
    let before = fill_at(words, width, n - 1);
    assert(before.open.push(' ') + words[n - 1] =~= before.open + seq![' '] + words[n - 1]);
    assert(seq![words[n - 1]].drop_last() =~= Seq::empty());
    assert(before.lines.push(before.open) + seq![words[n - 1]].drop_last() =~= before.lines.push(before.open));
}

/// A text is wrapped line by line; blank text is one empty line, and a beginning of a text is
/// its first lines.
pub proof fn law_lines_are_wrapped_one_by_one(text: Seq<char>, width: int, max_lines: int)
    requires
        0 < width,
    ensures
        trimmed(text).len() == 0 ==> wrapped(text, width) == seq![Seq::<char>::empty()] && wrapped_start(
            text,
            width,
            max_lines,
        ).len() == 0,
        trimmed(text).len() > 0 && lines_of(text).len() == 1 ==> wrapped(text, width) == wrapped_line(
            lines_of(text)[0],
            width,
        ),
        trimmed(text).len() > 0 && 0 < max_lines <= wrapped(text, width).len() ==> wrapped_start(text, width, max_lines)
            == wrapped(text, width).take(max_lines),
        trimmed(text).len() > 0 && wrapped(text, width).len() < max_lines ==> wrapped_start(text, width, max_lines)
            == wrapped(text, width),
        forall|n: int| 0 <= n ==> #[trigger] wrapped_lines(lines_of(text), width, n + 1) == wrapped_lines(
            lines_of(text),
            width,
            n,
        ) + wrapped_line(lines_of(text)[n], width),
{
    let lines = lines_of(text);
    if trimmed(text).len() > 0 && lines.len() == 1 {
        assert(wrapped_lines(lines, width, 0) =~= Seq::empty());
        assert(wrapped_lines(lines, width, 1) =~= wrapped_line(lines[0], width));
    }
    let all = wrapped(text, width);
    assert(all.take(all.len() as int) =~= all);
}

/// The parts of an area follow each other without a gap, in order, and every part crosses the
/// whole area; what is left over goes to the share that takes it.
pub proof fn law_parts_follow_each_other(axis: Axis, shares: Seq<Share>, area: Rect, i: int)
    requires
        0 <= i < shares.len(),
        area.fits(),
        0 <= given_before(axis, shares, area, i),
        0 <= given(axis, shares, area, i),
        given_before(axis, shares, area, i + 1) <= extent_along(axis, area),
    ensures
        ({
            let p = part(axis, shares, area, i);
            let n = match shares[i] {
                Share::Length(n) => n as int,
                Share::Min(n) => n + spare(axis, shares, area),
                Share::Percent(_) => 0,
            };
            &&& axis == Axis::Vertical ==> p.x == area.x && p.width == area.width && p.height == n && (i == 0 ==> p.y
                == area.y) && p.y + p.height == area.y + given_before(axis, shares, area, i + 1)
            &&& axis == Axis::Horizontal ==> p.y == area.y && p.height == area.height && p.width == n && (i == 0 ==> p.x
                == area.x) && p.x + p.width == area.x + given_before(axis, shares, area, i + 1)
            &&& i > 0 && axis == Axis::Vertical ==> p.y == area.y + given_before(axis, shares, area, i)
            &&& i > 0 && axis == Axis::Horizontal ==> p.x == area.x + given_before(axis, shares, area, i)
        }),
{
}

/// Shares in percent begin at the start of the area, end where the next begins, and end at its
/// end once they make up the whole.
pub proof fn law_percents_make_up_the_whole(start: int, length: int, percent: int)
    requires
        0 <= start,
        0 <= length,
        0 <= percent <= 100,
    ensures
        share_end(start, length, 0) == start,
        share_end(start, length, 100) == start + length,
        start <= share_end(start, length, percent) <= start + length,
        100 * (share_end(start, length, percent) - start) <= length * percent + 50,
        100 * (share_end(start, length, percent) - start) > length * percent - 50,
{
    assert(0 <= length * percent <= 100 * length) by (nonlinear_arith)
        requires
            0 <= length,
            0 <= percent <= 100,
    ;
    assert(length * 0 == 0);
}

/// Parts in percent end where the next begins, and cross the whole area; a middle part lies
/// between two sides of the same share.
pub proof fn law_percent_parts_follow_each_other(shares: Seq<Share>, area: Rect, i: int, side: int)
    requires
        0 <= i,
        i + 1 < shares.len(),
        area.fits(),
        0 <= percent_before(shares, i) <= percent_before(shares, i + 1) <= percent_before(shares, i + 2) <= 100,
        0 <= side <= 50,
    ensures
        ({
            let (a, b) = (percent_part(Axis::Vertical, shares, area, i), percent_part(Axis::Vertical, shares, area, i + 1));
            a.y + a.height == b.y && a.x == area.x && a.width == area.width
        }),
        ({
            let (a, b) = (
                percent_part(Axis::Horizontal, shares, area, i),
                percent_part(Axis::Horizontal, shares, area, i + 1),
            );
            a.x + a.width == b.x && a.y == area.y && a.height == area.height
        }),
        ({
            let m = middle_part(Axis::Vertical, side, 100 - 2 * side, area);
            &&& m.y == share_end(area.y as int, area.height as int, side)
            &&& m.y + m.height == share_end(area.y as int, area.height as int, 100 - side)
            &&& m.x == area.x && m.width == area.width
        }),
        ({
            let m = middle_part(Axis::Horizontal, side, 100 - 2 * side, area);
            &&& m.x == share_end(area.x as int, area.width as int, side)
            &&& m.x + m.width == share_end(area.x as int, area.width as int, 100 - side)
            &&& m.y == area.y && m.height == area.height
        }),
{
    let (p, q, r) = (percent_before(shares, i), percent_before(shares, i + 1), percent_before(shares, i + 2));
    lemma_share_grows(area.y as int, area.height as int, p, q);
    lemma_share_grows(area.y as int, area.height as int, q, r);
    lemma_share_grows(area.x as int, area.width as int, p, q);
    lemma_share_grows(area.x as int, area.width as int, q, r);
    lemma_share_grows(area.y as int, area.height as int, side, 100 - side);
    lemma_share_grows(area.x as int, area.width as int, side, 100 - side);
}

pub proof fn lemma_share_grows(start: int, length: int, p: int, q: int)
    requires
        0 <= start,
        0 <= length,
        0 <= p <= q <= 100,
    ensures
        start <= share_end(start, length, p) <= share_end(start, length, q) <= start + length,
{
    law_percents_make_up_the_whole(start, length, p);
    law_percents_make_up_the_whole(start, length, q);
    assert(length * p <= length * q) by (nonlinear_arith)
        requires
            0 <= length,
            p <= q,
    ;
}

/// A row between the bars, and the bar below it, are inside the area.
pub proof fn law_bars_are_the_outer_rows(area: Rect)
    requires
        area.fits(),
        area.height >= 2,
    ensures
        body_row(area).y == area.y + 1,
        body_row(area).height == area.height - 2,
        last_row(area).y == area.y + area.height - 1,
        last_row(area).height == 1,
        body_row(area).y + body_row(area).height == last_row(area).y,
        body_row(area).x == area.x && body_row(area).width == area.width,
        last_row(area).x == area.x && last_row(area).width == area.width,
{
}

/// Paints: an ink colors the text alone, a background is kept apart from it, emphasis changes
/// no color.
pub proof fn law_paints_keep_their_colors(a: Tone, b: Tone, p: Paint)
    ensures
        ink(a).fg == Some(a) && ink(a).bg is None && !ink(a).bold && !ink(a).underlined,
        ink_on(a, Some(b)).fg == Some(a) && ink_on(a, Some(b)).bg == Some(b) && !ink_on(a, Some(b)).bold,
        bold_paint(p).bold && bold_paint(p).fg == p.fg && bold_paint(p).bg == p.bg && bold_paint(p).underlined
            == p.underlined,
        plain_paint().fg is None && plain_paint().bg is None && !plain_paint().bold && !plain_paint().underlined,
{
}

/// No two tones look alike.
pub proof fn law_tones_are_told_apart(a: Tone, b: Tone)
    ensures
        rgb_of(a) == rgb_of(b) ==> a == b,
{
}

/// Added text is green and removed text is red, in every one of their tones; warnings are
/// yellow, failures red and the accent blue.
pub proof fn law_tones_have_their_hue(t: Tone)
    ensures
        ({
            let (r, g, b) = rgb_of(t);
            &&& t == Tone::AddFg || t == Tone::AddBg || t == Tone::AddHi || t == Tone::AddHiBg ==> g > r && g > b
            &&& t == Tone::DelFg || t == Tone::DelBg || t == Tone::DelHi || t == Tone::DelHiBg || t == Tone::Error ==> r > g
                && r > b
            &&& t == Tone::Warn ==> r > b && g > b
            &&& t == Tone::Accent || t == Tone::HunkFg ==> b > g && g > r
        }),
{
}

/// The text of a line is the text of its pieces, one after the other.
pub proof fn law_lines_read_as_their_pieces(line: Seq<PieceView>, piece: PieceView)
    ensures
        flat(line.push(piece)) == flat(line) + piece.text,
        flat(Seq::<PieceView>::empty()).len() == 0,
        flat(seq![piece]) == piece.text,
{
    crate::style::lemma_flat_push(line, piece);
    crate::style::lemma_flat_push(Seq::empty(), piece);
    assert(Seq::<PieceView>::empty().push(piece) =~= seq![piece]);
    assert(flat(seq![piece]) =~= piece.text);
}

/// The bounded numbers.
pub proof fn law_numbers_are_held(a: int, b: int, c: int)
    ensures
        max_int(a, b) >= a && max_int(a, b) >= b && (max_int(a, b) == a || max_int(a, b) == b),
        min_int(a, b) <= a && min_int(a, b) <= b && (min_int(a, b) == a || min_int(a, b) == b),
        a >= b ==> monus(a, b) + b == a,
        a <= b ==> monus(a, b) == 0,
        b <= c ==> b <= clamp_int(a, b, c) <= c,
        b <= a <= c ==> clamp_int(a, b, c) == a,
        a < b <= c ==> clamp_int(a, b, c) == b,
        b <= c < a ==> clamp_int(a, b, c) == c,
        0 <= a <= 65535 ==> sat16(a) == a && low16(a) == a,
        a > 65535 ==> sat16(a) == 65535,
        low16(a + 65536) == low16(a),
{
}

} // verus!
