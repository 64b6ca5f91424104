//! Words, wrapped lines, truncation and padding in terminal cells.

use vstd::prelude::*;
use crate::num::{max_int, max_usize, min_int, monus};
use crate::text::{
    chars_of, concat, display_width, graphemes, graphemes_of, head_cells, joined, space_char, split_on, split_text,
    str_width, take_cells, text_of, texts,
};

verus! {

/// `n` times the same character.
pub open spec fn repeat_of(c: char, n: int) -> Seq<char> {
    Seq::new(n as nat, |i: int| c)
}

/// `n` times the same character.
pub fn repeated(c: char, n: usize) -> (out: String)
    ensures
        out@ == repeat_of(c, n as int),
{
    let mut out = String::new();
    let mut i: usize = 0;
    proof {
        assert(out@ =~= repeat_of(c, 0));
    }
    while i < n
        invariant
            i <= n,
            out@ == repeat_of(c, i as int),
        decreases n - i,
    {
        out.push(c);
        proof {
            assert(out@ =~= repeat_of(c, i + 1));
        }
        i = i + 1;
    }
    out
}

/// A decimal digit.
pub open spec fn digit(n: int) -> char {
    if n == 0 { '0' } else if n == 1 { '1' } else if n == 2 { '2' } else if n == 3 { '3' } else if n == 4 { '4' }
    else if n == 5 { '5' } else if n == 6 { '6' } else if n == 7 { '7' } else if n == 8 { '8' } else { '9' }
}

/// A number in decimal digits, without leading zeros.
pub open spec fn decimal_of(n: int) -> Seq<char>
    decreases n,
{
    if n < 10 {
        seq![digit(n)]
    } else {
        decimal_of(n / 10).push(digit(n % 10))
    }
}

/// A number in decimal digits.
pub fn decimal(n: u64) -> (out: String)
    ensures
        out@ == decimal_of(n as int),
    decreases n,
{
    let d: u64 = n % 10;
    let c: char = if d == 0 { '0' } else if d == 1 { '1' } else if d == 2 { '2' } else if d == 3 { '3' } else if d == 4 {
        '4'
    } else if d == 5 { '5' } else if d == 6 { '6' } else if d == 7 { '7' } else if d == 8 { '8' } else { '9' };
    let mut out: String = if n < 10 {
        String::new()
    } else {
        decimal(n / 10)
    };
    out.push(c);
    proof {
        assert(n < 10 ==> out@ =~= seq![digit(n as int)]);
    }
    out
}

/// The first place of `s` from `i` on that holds no space.
pub open spec fn skip_spaces(s: Seq<char>, i: int) -> int
    decreases s.len() - i,
{
    if 0 <= i < s.len() && space_char(s[i]) {
        skip_spaces(s, i + 1)
    } else {
        i
    }
}

/// The end of `s` before place `i`, without the spaces there.
pub open spec fn drop_spaces(s: Seq<char>, i: int) -> int
    decreases i,
{
    if 0 < i <= s.len() && space_char(s[i - 1]) {
        drop_spaces(s, i - 1)
    } else {
        i
    }
}

/// `s` without the spaces at its two ends.
pub open spec fn trimmed(s: Seq<char>) -> Seq<char> {
    let start = skip_spaces(s, 0);
    let end = drop_spaces(s, s.len() as int);
    if start < end {
        s.subrange(start, end)
    } else {
        Seq::empty()
    }
}

proof fn lemma_trim_bounds(s: Seq<char>, i: int)
    requires
        0 <= i <= s.len(),
    ensures
        i <= skip_spaces(s, i) <= s.len(),
        0 <= drop_spaces(s, i) <= i,
    decreases s.len() - i,
{
    if i < s.len() && space_char(s[i]) {
        lemma_trim_bounds(s, i + 1);
    }
    lemma_drop_bounds(s, i);
}

proof fn lemma_drop_bounds(s: Seq<char>, i: int)
    requires
        0 <= i <= s.len(),
    ensures
        0 <= drop_spaces(s, i) <= i,
    decreases i,
{
    if i > 0 && space_char(s[i - 1]) {
        lemma_drop_bounds(s, i - 1);
    }
}

/// The string without the spaces at its two ends.
pub fn trim(s: &str) -> (out: String)
    ensures
        out@ == trimmed(s@),
{
    let chars = chars_of(s);
    let n: usize = chars.len();
    let mut start: usize = 0;
    while start < n && chars[start].is_whitespace()
        invariant
            start <= n == chars.len(),
            chars@ == s@,
            skip_spaces(s@, 0) == skip_spaces(s@, start as int),
        decreases n - start,
    {
        start = start + 1;
    }
    let mut end: usize = n;
    while end > 0 && chars[end - 1].is_whitespace()
        invariant
            end <= n == chars.len(),
            chars@ == s@,
            drop_spaces(s@, n as int) == drop_spaces(s@, end as int),
        decreases end,
    {
        end = end - 1;
    }
    if start < end {
        text_of(&chars, start, end)
    } else {
        let out = String::new();
        proof {
            assert(out@ =~= trimmed(s@));
        }
        out
    }
}

/// Whether a string holds nothing but spaces.
pub fn is_blank(s: &str) -> (r: bool)
    ensures
        r == (trimmed(s@).len() == 0),
{
    trim(s).as_str().is_empty()
}

/// The runs of characters between the spaces of `s`, in order.
pub open spec fn words_of(s: Seq<char>) -> Seq<Seq<char>>
    decreases s.len(),
{
    if s.len() == 0 {
        Seq::empty()
    } else {
        let before = words_of(s.drop_last());
        if space_char(s.last()) {
            before
        } else if s.len() >= 2 && !space_char(s[s.len() - 2]) {
            before.update(before.len() - 1, before.last().push(s.last()))
        } else {
            before.push(seq![s.last()])
        }
    }
}

/// The runs of characters between the spaces of a string, in order.
pub fn words(s: &str) -> (out: Vec<String>)
    ensures
        texts(out@) == words_of(s@),
        forall|i: int| 0 <= i < out.len() ==> #[trigger] out@[i]@.len() > 0,
{
    let chars = chars_of(s);
    let mut done: Vec<String> = Vec::new();
    let mut word = String::new();
    let mut i: usize = 0;
    proof {
        assert(texts(done@) =~= words_of(chars@.take(0)));
    }
    while i < chars.len()
        invariant
            i <= chars.len(),
            chars@ == s@,
            (word@.len() > 0) == (i > 0 && !space_char(chars@[i - 1])),
            words_of(chars@.take(i as int)) == (if word@.len() > 0 { texts(done@).push(word@) } else { texts(done@) }),
            forall|k: int| 0 <= k < done.len() ==> #[trigger] done@[k]@.len() > 0,
        decreases chars.len() - i,
    {
        let ghost before = words_of(chars@.take(i as int));
        proof {
            assert(chars@.take(i + 1).drop_last() =~= chars@.take(i as int));
            if i > 0 {
                assert(chars@.take(i + 1)[i - 1] == chars@[i - 1]);
            }
        }
        if chars[i].is_whitespace() {
            if !word.as_str().is_empty() {
                done.push(word);
                word = String::new();
                proof {
                    assert(texts(done@) =~= before);
                }
            }
        } else {
            let ghost kept = word@;
            word.push(chars[i]);
            proof {
                if kept.len() == 0 {
                    assert(word@ =~= seq![chars@[i as int]]);
                } else {
                    assert(texts(done@).push(word@) =~= before.update(before.len() - 1, before.last().push(chars@[i as int])));
                }
            }
        }
        i = i + 1;
    }
    proof {
        assert(chars@.take(chars.len() as int) =~= chars@);
    }
    if !word.as_str().is_empty() {
        let ghost before = texts(done@).push(word@);
        done.push(word);
        proof {
            assert(texts(done@) =~= before);
        }
    }
    done
}

/// The lines of a text: the parts between line feeds, without an empty part at the end.
pub open spec fn lines_of(s: Seq<char>) -> Seq<Seq<char>> {
    let parts = split_on(s, '\n');
    if parts.last().len() == 0 {
        parts.drop_last()
    } else {
        parts
    }
}

/// The lines of a text.
pub fn text_lines(s: &str) -> (out: Vec<String>)
    ensures
        texts(out@) == lines_of(s@),
{
    let mut parts = split_text(s, '\n');
    let n: usize = parts.len();
    proof {
        assert(texts(parts@)[n - 1] == parts@[n - 1]@);
    }
    if parts[n - 1].as_str().is_empty() {
        let ghost whole = texts(parts@);
        let _ = parts.pop();
        proof {
            assert(texts(parts@) =~= whole.drop_last());
        }
    }
    parts
}

/// `text` held to `width` cells: as it is where it fits, else cut between graphemes and
/// ended with an ellipsis.
pub open spec fn truncated(text: Seq<char>, width: int) -> Seq<char> {
    if display_width(text) <= width {
        text
    } else if width == 0 {
        Seq::empty()
    } else if width == 1 {
        "…"@
    } else {
        head_cells(text, width - 1) + "…"@
    }
}

/// Hold a text to `width` cells.
pub fn truncate(text: &str, width: usize) -> (out: String)
    ensures
        out@ == truncated(text@, width as int),
{
    if str_width(text) <= width {
        return text.to_owned();
    }
    if width == 0 {
        return String::new();
    }
    if width == 1 {
        return "…".to_owned();
    }
    joined(take_cells(text, width - 1).as_str(), "…")
}

/// `text` with as many spaces behind it as it lacks of `width` cells.
pub open spec fn padded(text: Seq<char>, width: int) -> Seq<char> {
    text + repeat_of(' ', monus(width, display_width(text) as int))
}

/// Fill a text with spaces up to `width` cells.
pub fn pad(text: &str, width: usize) -> (out: String)
    ensures
        out@ == padded(text@, width as int),
{
    let fill = repeated(' ', width.saturating_sub(str_width(text)));
    joined(text, fill.as_str())
}

/// The cells that parts take when each is drawn on its own.
pub open spec fn cells(parts: Seq<Seq<char>>) -> int
    decreases parts.len(),
{
    if parts.len() == 0 {
        0
    } else {
        cells(parts.drop_last()) + display_width(parts.last())
    }
}

/// A word being cut: the finished pieces, and the graphemes of the next.
#[verifier::ext_equal]
pub struct Cut {
    pub pieces: Seq<Seq<char>>,
    pub open: Seq<Seq<char>>,
}

/// The pieces with the open one closed, where it holds anything.
pub open spec fn closed(c: Cut) -> Seq<Seq<char>> {
    if c.open.len() > 0 {
        c.pieces.push(concat(c.open))
    } else {
        c.pieces
    }
}

/// One more grapheme: it goes to the open piece where it fits, else to a new one; one that
/// is wider than a line stands alone, cut down to what the line can show.
pub open spec fn cut_step(c: Cut, grapheme: Seq<char>, width: int) -> Cut {
    let w = display_width(grapheme) as int;
    if w > width {
        Cut { pieces: closed(c).push(truncated(grapheme, width)), open: Seq::empty() }
    } else if cells(c.open) > 0 && cells(c.open) + w > width {
        Cut { pieces: closed(c), open: seq![grapheme] }
    } else {
        Cut { pieces: c.pieces, open: c.open.push(grapheme) }
    }
}

/// The first `n` graphemes cut into pieces.
pub open spec fn cut_at(parts: Seq<Seq<char>>, width: int, n: int) -> Cut
    decreases n,
{
    if n <= 0 {
        Cut { pieces: Seq::empty(), open: Seq::empty() }
    } else {
        cut_step(cut_at(parts, width, n - 1), parts[n - 1], width)
    }
}

/// A word cut into pieces of at most `width` cells, between graphemes.
pub open spec fn chunks_of(text: Seq<char>, width: int) -> Seq<Seq<char>> {
    let parts = graphemes_of(text);
    closed(cut_at(parts, width, parts.len() as int))
}

proof fn lemma_concat_push(parts: Seq<Seq<char>>, part: Seq<char>)
    ensures
        concat(parts.push(part)) == concat(parts) + part,
        cells(parts.push(part)) == cells(parts) + display_width(part),
{
    assert(parts.push(part).drop_last() =~= parts);
}

/// Split a token at grapheme boundaries into pieces of at most `width` cells without
/// dropping text. A grapheme wider than the line is shown as an ellipsis.
pub fn cell_chunks(text: &str, width: usize) -> (out: Vec<String>)
    ensures
        texts(out@) == chunks_of(text@, width as int),
{
    let parts = graphemes(text);
    let ghost all = texts(parts@);
    let mut pieces: Vec<String> = Vec::new();
    let mut open = String::new();
    let ghost mut kept: Seq<Seq<char>> = Seq::empty();
    let mut used: usize = 0;
    let mut n: usize = 0;
    proof {
        assert(texts(pieces@) =~= Seq::empty());
        assert(concat(kept) =~= Seq::empty());
    }
    while n < parts.len()
        invariant
            n <= parts.len(),
            all == texts(parts@),
            forall|i: int| 0 <= i < parts.len() ==> #[trigger] parts@[i]@.len() > 0,
            cut_at(all, width as int, n as int) == (Cut { pieces: texts(pieces@), open: kept }),
            open@ == concat(kept),
            (open@.len() > 0) == (kept.len() > 0),
            used == cells(kept),
            used <= width,
        decreases parts.len() - n,
    {
        let part: &str = parts[n].as_str();
        let w: usize = str_width(part);
        proof {
            assert(all[n as int] == parts@[n as int]@);
        }
        let ghost before = texts(pieces@);
        let ghost c = Cut { pieces: before, open: kept };
        if w > width || (used > 0 && w > width - used) {
            if !open.as_str().is_empty() {
                pieces.push(open);
                open = String::new();
            }
            proof {
                assert(texts(pieces@) =~= closed(c));
                kept = Seq::empty();
                assert(concat(kept) =~= Seq::empty());
            }
            used = 0;
        }
        let ghost flushed = texts(pieces@);
        let ghost held = kept;
        if w > width {
            pieces.push(truncate(part, width));
            proof {
                assert(texts(pieces@) =~= flushed.push(truncated(part@, width as int)));
            }
        } else {
            open.append(part);
            proof {
                lemma_concat_push(held, part@);
                kept = held.push(part@);
                assert(held.len() == 0 ==> kept =~= seq![part@]);
            }
            used = used + w;
        }
        n = n + 1;
    }
    let ghost c = Cut { pieces: texts(pieces@), open: kept };
    if !open.as_str().is_empty() {
        pieces.push(open);
    }
    proof {
        assert(all.len() == parts.len());
        assert(texts(pieces@) =~= closed(c));
    }
    pieces
}

/// Cutting a word loses nothing: where no grapheme is wider than the line, the pieces make
/// up the word, and each takes at most `width` cells.
pub proof fn law_cutting_is_lossless(parts: Seq<Seq<char>>, width: int, n: int)
    requires
        0 <= n <= parts.len(),
        forall|i: int| #![trigger parts[i]] 0 <= i < n ==> display_width(parts[i]) <= width,
    ensures
        concat(closed(cut_at(parts, width, n))) == concat(parts.take(n)),
        concat(cut_at(parts, width, n).pieces) + concat(cut_at(parts, width, n).open) == concat(parts.take(n)),
        cells(cut_at(parts, width, n).open) <= max_int(width, 0),
    decreases n,
{
    let c = cut_at(parts, width, n);
    if n > 0 {
        law_cutting_is_lossless(parts, width, n - 1);
        let before = cut_at(parts, width, n - 1);
        let part = parts[n - 1];
        assert(parts.take(n).drop_last() =~= parts.take(n - 1));
        lemma_concat_push(before.open, part);
        lemma_concat_push(before.pieces, concat(before.open));
        lemma_concat_push(Seq::<Seq<char>>::empty(), part);
        assert(Seq::<Seq<char>>::empty().push(part) =~= seq![part]);
        assert(concat(Seq::<Seq<char>>::empty()) =~= Seq::<char>::empty());
        if cells(before.open) > 0 && cells(before.open) + display_width(part) > width {
            assert(concat(c.pieces) =~= concat(parts.take(n - 1)));
            assert(concat(c.open) =~= part);
        }
        assert(concat(c.pieces) + concat(c.open) =~= concat(parts.take(n)));
    } else {
        assert(parts.take(0) =~= Seq::empty());
        assert(concat(c.pieces) + concat(c.open) =~= concat(parts.take(0)));
    }
    lemma_concat_push(c.pieces, concat(c.open));
    assert(concat(Seq::<Seq<char>>::empty()) =~= Seq::<char>::empty());
    assert(concat(closed(c)) =~= concat(c.pieces) + concat(c.open));
}

/// A paragraph being wrapped: the finished lines and the open one.
#[verifier::ext_equal]
pub struct Fill {
    pub lines: Seq<Seq<char>>,
    pub open: Seq<char>,
}

/// The lines with the open one closed, where it holds anything.
pub open spec fn ended(f: Fill) -> Seq<Seq<char>> {
    if f.open.len() > 0 {
        f.lines.push(f.open)
    } else {
        f.lines
    }
}

/// Whether `word` still fits on the open line behind a space.
pub open spec fn word_fits(open: Seq<char>, word: Seq<char>, width: int) -> bool {
    display_width(open) + (if open.len() > 0 { 1int } else { 0int }) + display_width(word) <= width
}

/// One more word: on the open line where it fits, else cut into pieces on lines of their own.
pub open spec fn fill_step(f: Fill, word: Seq<char>, width: int) -> Fill {
    if word_fits(f.open, word, width) {
        Fill { lines: f.lines, open: if f.open.len() > 0 { f.open.push(' ') + word } else { word } }
    } else {
        let pieces = chunks_of(word, width);
        if pieces.len() == 0 {
            Fill { lines: ended(f), open: Seq::empty() }
        } else {
            Fill { lines: ended(f) + pieces.drop_last(), open: pieces.last() }
        }
    }
}

/// The first `n` words filled into lines.
pub open spec fn fill_at(words: Seq<Seq<char>>, width: int, n: int) -> Fill
    decreases n,
{
    if n <= 0 {
        Fill { lines: Seq::empty(), open: Seq::empty() }
    } else {
        fill_step(fill_at(words, width, n - 1), words[n - 1], width)
    }
}

/// One line of source text as wrapped lines; a blank one stays as an empty line.
pub open spec fn wrapped_line(line: Seq<char>, width: int) -> Seq<Seq<char>> {
    let words = words_of(line);
    let lines = ended(fill_at(words, width, words.len() as int));
    if lines.len() == 0 {
        seq![Seq::empty()]
    } else {
        lines
    }
}

/// The first `n` lines, wrapped.
pub open spec fn wrapped_lines(lines: Seq<Seq<char>>, width: int, n: int) -> Seq<Seq<char>>
    decreases n,
{
    if n <= 0 {
        Seq::empty()
    } else {
        wrapped_lines(lines, width, n - 1) + wrapped_line(lines[n - 1], width)
    }
}

/// A text wrapped to `width` cells, whole.
pub open spec fn wrapped(text: Seq<char>, width: int) -> Seq<Seq<char>> {
    if trimmed(text).len() == 0 {
        seq![Seq::empty()]
    } else {
        let lines = lines_of(text);
        wrapped_lines(lines, max_int(width, 1), lines.len() as int)
    }
}

/// Move all strings of `tail` behind those of `head`.
pub fn append_texts(head: &mut Vec<String>, tail: Vec<String>)
    ensures
        texts(final(head)@) == texts(old(head)@) + texts(tail@),
{
    let mut tail = tail;
    let ghost a = head@;
    let ghost b = tail@;
    head.append(&mut tail);
    proof {
        assert(head@ =~= a + b);
        assert(texts(head@) =~= texts(a) + texts(b));
    }
}

/// Wrap one line of source text.
fn wrap_line(line: &str, width: usize) -> (out: Vec<String>)
    ensures
        texts(out@) == wrapped_line(line@, width as int),
{
    let list = words(line);
    let ghost all = words_of(line@);
    let mut lines: Vec<String> = Vec::new();
    let mut open = String::new();
    let mut n: usize = 0;
    proof {
        assert(texts(lines@) =~= Seq::empty());
        assert(all.len() == list.len());
    }
    while n < list.len()
        invariant
            n <= list.len() == all.len(),
            all == texts(list@),
            fill_at(all, width as int, n as int) == (Fill { lines: texts(lines@), open: open@ }),
        decreases list.len() - n,
    {
        let word: &str = list[n].as_str();
        proof {
            assert(all[n as int] == list@[n as int]@);
        }
        let ghost f = Fill { lines: texts(lines@), open: open@ };
        let taken: usize = str_width(open.as_str());
        let gap: usize = if open.as_str().is_empty() { 0 } else { 1 };
        let w: usize = str_width(word);
        if taken <= width && gap <= width - taken && w <= width - taken - gap {
            if !open.as_str().is_empty() {
                open.push(' ');
            }
            open.append(word);
            proof {
                assert(open@ =~= fill_step(f, word@, width as int).open);
            }
        } else {
            if !open.as_str().is_empty() {
                lines.push(open);
            }
            proof {
                assert(texts(lines@) =~= ended(f));
            }
            let mut pieces = cell_chunks(word, width);
            let ghost cut = texts(pieces@);
            match pieces.pop() {
                Some(last) => {
                    proof {
                        assert(texts(pieces@) =~= cut.drop_last());
                        assert(cut.len() > 0 && cut.last() == last@);
                    }
                    append_texts(&mut lines, pieces);
                    open = last;
                },
                None => {
                    proof {
                        assert(cut.len() == 0);
                    }
                    open = String::new();
                },
            }
        }
        n = n + 1;
    }
    let ghost f = Fill { lines: texts(lines@), open: open@ };
    if !open.as_str().is_empty() {
        lines.push(open);
    }
    proof {
        assert(texts(lines@) =~= ended(f));
        assert(texts(lines@).len() == lines.len());
    }
    if lines.len() == 0 {
        lines.push(String::new());
        proof {
            assert(texts(lines@) =~= seq![Seq::<char>::empty()]);
        }
    }
    lines
}

/// Wrap a text to `width` cells. Words are kept whole where they fit on a line, and cut
/// between graphemes where they do not; nothing is ellipsized.
pub fn wrap_all(text: &str, width: usize) -> (out: Vec<String>)
    ensures
        texts(out@) == wrapped(text@, width as int),
{
    let width: usize = max_usize(width, 1);
    let mut out: Vec<String> = Vec::new();
    if is_blank(text) {
        out.push(String::new());
        proof {
            assert(texts(out@) =~= seq![Seq::<char>::empty()]);
        }
        return out;
    }
    let list = text_lines(text);
    let ghost all = lines_of(text@);
    let mut n: usize = 0;
    proof {
        assert(all.len() == list.len());
        assert(texts(out@) =~= Seq::empty());
    }
    while n < list.len()
        invariant
            n <= list.len() == all.len(),
            all == texts(list@),
            texts(out@) == wrapped_lines(all, width as int, n as int),
        decreases list.len() - n,
    {
        proof {
            assert(all[n as int] == list@[n as int]@);
        }
        append_texts(&mut out, wrap_line(list[n].as_str(), width));
        n = n + 1;
    }
    out
}

/// The first `max_lines` lines of a wrapped text; none of a blank one.
pub open spec fn wrapped_start(text: Seq<char>, width: int, max_lines: int) -> Seq<Seq<char>> {
    let lines = wrapped(text, max_int(width, 1));
    if trimmed(text).len() == 0 || max_lines <= 0 {
        Seq::empty()
    } else {
        lines.take(min_int(max_lines, lines.len() as int))
    }
}

/// Wrap a text, keeping at most `max_lines` lines.
pub fn wrap_text(text: &str, width: usize, max_lines: usize) -> (out: Vec<String>)
    ensures
        texts(out@) == wrapped_start(text@, width as int, max_lines as int),
{
    if is_blank(text) || max_lines == 0 {
        let none: Vec<String> = Vec::new();
        proof {
            assert(texts(none@) =~= Seq::empty());
        }
        return none;
    }
    let mut all = wrap_all(text, max_usize(width, 1));
    let ghost lines = texts(all@);
    if all.len() > max_lines {
        all.truncate(max_lines);
        proof {
            assert(texts(all@) =~= lines.take(max_lines as int));
        }
    } else {
        proof {
            assert(lines.take(lines.len() as int) =~= lines);
        }
    }
    all
}

} // verus!
