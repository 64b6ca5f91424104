//! Strings as sequences of characters, and their width in terminal cells.

use vstd::prelude::*;

verus! {

/// How many terminal cells a string takes when it is drawn.
pub uninterp spec fn display_width(s: Seq<char>) -> nat;

/// `unicode_width::UnicodeWidthStr::width`: the width of a string in terminal cells is a
/// function of its characters. An empty string takes no cell, and a string of printable
/// ASCII characters takes one cell for each. A slash takes one cell whatever stands beside
/// it, and what stands on its two sides is measured as if it stood alone.
#[verifier::external_body]
pub(crate) fn str_width(s: &str) -> (r: usize)
    ensures
        r == display_width(s@),
        (forall|i: int| 0 <= i < s@.len() ==> ' ' <= #[trigger] s@[i] <= '~') ==> r == s@.len(),
        forall|k: int|
            0 <= k < s@.len() && s@[k] == '/' ==> r == display_width(#[trigger] s@.take(k)) + 1 + display_width(
                s@.skip(k + 1),
            ),
{
    unicode_width::UnicodeWidthStr::width(s)
}

/// `String::push`: the character is added at the end.
pub assume_specification[ String::push ](s: &mut String, c: char)
    ensures
        final(s)@ == old(s)@.push(c),
;

/// `str::eq`: two strings are equal where their characters are.
pub assume_specification[ <str as PartialEq<str>>::eq ](a: &str, b: &str) -> (r: bool)
    ensures
        r == (a@ == b@),
;

/// The characters of a string.
pub fn chars_of(s: &str) -> (r: Vec<char>)
    ensures
        r@ == s@,
{
    let mut out: Vec<char> = Vec::new();
    for c in it: s.chars()
        invariant
            out@ == it.seq().take(it.index()),
            it.seq() == s@,
    {
        proof {
            assert(it.seq().take(it.index() + 1) == it.seq().take(it.index()).push(c));
        }
        out.push(c);
    }
    assert(out@ =~= s@);
    out
}

/// The string made of the characters `from..to` of `chars`.
pub fn text_of(chars: &Vec<char>, from: usize, to: usize) -> (r: String)
    requires
        from <= to <= chars.len(),
    ensures
        r@ == chars@.subrange(from as int, to as int),
{
    let mut out = String::new();
    let mut i: usize = from;
    while i < to
        invariant
            from <= i <= to <= chars.len(),
            out@ == chars@.subrange(from as int, i as int),
        decreases to - i,
    {
        proof {
            assert(chars@.subrange(from as int, i + 1) == chars@.subrange(from as int, i as int).push(chars@[i as int]));
        }
        out.push(chars[i]);
        i = i + 1;
    }
    out
}

/// The texts of a sequence of strings.
pub open spec fn texts(parts: Seq<String>) -> Seq<Seq<char>> {
    Seq::new(parts.len(), |i: int| parts[i]@)
}

/// The texts of a sequence of string slices.
pub open spec fn slices(parts: Seq<&str>) -> Seq<Seq<char>> {
    Seq::new(parts.len(), |i: int| parts[i]@)
}

/// All parts, one after the other.
pub open spec fn concat(parts: Seq<Seq<char>>) -> Seq<char>
    decreases parts.len(),
{
    if parts.len() == 0 {
        Seq::empty()
    } else {
        concat(parts.drop_last()) + parts.last()
    }
}

/// The parts of `s` between the occurrences of `sep`; one more part than occurrences.
pub open spec fn split_on(s: Seq<char>, sep: char) -> Seq<Seq<char>>
    decreases s.len(),
{
    if s.len() == 0 {
        seq![Seq::empty()]
    } else {
        let before = split_on(s.drop_last(), sep);
        if s.last() == sep {
            before.push(Seq::empty())
        } else {
            before.update(before.len() - 1, before.last().push(s.last()))
        }
    }
}

/// All parts in order, with `sep` between each two.
pub open spec fn join_with(parts: Seq<Seq<char>>, sep: Seq<char>) -> Seq<char>
    decreases parts.len(),
{
    if parts.len() == 0 {
        Seq::empty()
    } else if parts.len() == 1 {
        parts[0]
    } else {
        join_with(parts.drop_last(), sep) + sep + parts.last()
    }
}

pub proof fn lemma_split_nonempty(s: Seq<char>, sep: char)
    ensures
        split_on(s, sep).len() >= 1,
    decreases s.len(),
{
    if s.len() > 0 {
        lemma_split_nonempty(s.drop_last(), sep);
    }
}

/// Splitting on a separator loses nothing: joining the parts gives the string back.
pub proof fn law_split_then_join(s: Seq<char>, sep: char)
    ensures
        join_with(split_on(s, sep), seq![sep]) == s,
    decreases s.len(),
{
    if s.len() == 0 {
        assert(join_with(split_on(s, sep), seq![sep]) =~= s);
    } else {
        let before = split_on(s.drop_last(), sep);
        law_split_then_join(s.drop_last(), sep);
        lemma_split_nonempty(s.drop_last(), sep);
        if s.last() == sep {
            assert(before.push(Seq::empty()).drop_last() =~= before);
            assert(join_with(split_on(s, sep), seq![sep]) =~= s);
        } else {
            let after = before.update(before.len() - 1, before.last().push(s.last()));
            assert(after.drop_last() =~= before.drop_last());
            assert(before.last().push(s.last()) =~= before.last() + seq![s.last()]);
            if before.len() == 1 {
                assert(join_with(after, seq![sep]) == after[0]);
            }
            assert(join_with(after, seq![sep]) =~= join_with(before, seq![sep]) + seq![s.last()]);
            assert(join_with(after, seq![sep]) =~= s);
        }
    }
}

/// Joining a list is joining its front, the separator, and joining its rest.
pub proof fn lemma_join_at(parts: Seq<Seq<char>>, sep: Seq<char>, n: int)
    requires
        0 < n < parts.len(),
    ensures
        join_with(parts, sep) == join_with(parts.take(n), sep) + sep + join_with(parts.skip(n), sep),
    decreases parts.len(),
{
    let front = parts.drop_last();
    if n == parts.len() - 1 {
        assert(parts.take(n) =~= front);
        assert(parts.skip(n) =~= seq![parts.last()]);
        assert(join_with(seq![parts.last()], sep) == parts.last());
    } else {
        lemma_join_at(front, sep, n);
        assert(front.take(n) =~= parts.take(n));
        assert(parts.skip(n).drop_last() =~= front.skip(n));
        assert(join_with(parts, sep) =~= join_with(parts.take(n), sep) + sep + join_with(parts.skip(n), sep));
    }
}

/// Split a string on a separator character.
pub fn split_text(s: &str, sep: char) -> (parts: Vec<String>)
    ensures
        texts(parts@) == split_on(s@, sep),
        parts.len() >= 1,
{
    let chars = chars_of(s);
    let mut parts: Vec<String> = Vec::new();
    let mut part = String::new();
    let mut i: usize = 0;
    proof {
        assert(texts(parts@).push(part@) =~= split_on(chars@.take(0), sep));
    }
    while i < chars.len()
        invariant
            i <= chars.len(),
            texts(parts@).push(part@) == split_on(chars@.take(i as int), sep),
        decreases chars.len() - i,
    {
        let ghost before = texts(parts@).push(part@);
        let ghost old_parts = parts@;
        proof {
            assert(chars@.take(i + 1).drop_last() =~= chars@.take(i as int));
            assert(before.drop_last() =~= texts(parts@));
        }
        if chars[i] == sep {
            parts.push(part);
            part = String::new();
            proof {
                assert(texts(parts@) =~= before);
            }
        } else {
            part.push(chars[i]);
            proof {
                assert(texts(parts@).push(part@) =~= before.update(before.len() - 1, before.last().push(chars@[i as int])));
            }
        }
        i = i + 1;
    }
    let ghost last = texts(parts@).push(part@);
    parts.push(part);
    proof {
        assert(chars@.take(chars.len() as int) =~= chars@);
        assert(texts(parts@) =~= last);
    }
    parts
}

/// The user-perceived characters (extended grapheme clusters) of a string, in order.
pub uninterp spec fn graphemes_of(s: Seq<char>) -> Seq<Seq<char>>;

/// `unicode_segmentation::UnicodeSegmentation::graphemes` over extended clusters: where
/// the boundaries lie is a function of the characters; no cluster is empty, and the
/// clusters in order make up the string.
#[verifier::external_body]
pub(crate) fn graphemes(s: &str) -> (r: Vec<String>)
    ensures
        texts(r@) == graphemes_of(s@),
        concat(texts(r@)) == s@,
        forall|i: int| 0 <= i < r.len() ==> #[trigger] r@[i]@.len() > 0,
{
    unicode_segmentation::UnicodeSegmentation::graphemes(s, true).map(String::from).collect()
}

/// How many of the leading parts fit in `cells` terminal cells together.
pub open spec fn fitting(parts: Seq<Seq<char>>, cells: int) -> nat
    decreases parts.len(),
{
    if parts.len() == 0 || display_width(parts[0]) > cells {
        0
    } else {
        1 + fitting(parts.drop_first(), cells - display_width(parts[0]))
    }
}

pub proof fn lemma_fitting_bound(parts: Seq<Seq<char>>, cells: int)
    ensures
        fitting(parts, cells) <= parts.len(),
    decreases parts.len(),
{
    if parts.len() > 0 && display_width(parts[0]) <= cells {
        lemma_fitting_bound(parts.drop_first(), cells - display_width(parts[0]));
    }
}

/// The leading whole graphemes of `s` that fit in `cells` terminal cells.
pub open spec fn head_cells(s: Seq<char>, cells: int) -> Seq<char> {
    let parts = graphemes_of(s);
    concat(parts.take(fitting(parts, cells) as int))
}

/// The trailing whole graphemes of `s` that fit in `cells` terminal cells.
pub open spec fn tail_cells(s: Seq<char>, cells: int) -> Seq<char> {
    let parts = graphemes_of(s);
    concat(parts.skip(parts.len() - fitting(parts.reverse(), cells)))
}

/// Take the first `cells` display cells of `s`, in whole graphemes.
pub fn take_cells(s: &str, cells: usize) -> (out: String)
    ensures
        out@ == head_cells(s@, cells as int),
{
    let parts = graphemes(s);
    let ghost all = texts(parts@);
    let mut out = String::new();
    let mut left: usize = cells;
    let mut i: usize = 0;
    proof {
        assert(all.skip(0) =~= all);
        assert(concat(all.take(0)) =~= Seq::empty());
    }
    while i < parts.len()
        invariant_except_break
            fitting(all, cells as int) == i + fitting(all.skip(i as int), left as int),
        invariant
            i <= parts.len(),
            all == texts(parts@),
            out@ == concat(all.take(i as int)),
        ensures
            fitting(all, cells as int) == i,
        decreases parts.len() - i,
    {
        let w: usize = str_width(parts[i].as_str());
        proof {
            assert(all.skip(i as int)[0] == parts@[i as int]@);
            assert(all.skip(i as int).drop_first() =~= all.skip(i + 1));
            assert(all.take(i + 1).drop_last() =~= all.take(i as int));
        }
        if w > left {
            break;
        }
        out.append(parts[i].as_str());
        left = left - w;
        i = i + 1;
    }
    out
}

/// Take the last `cells` display cells of `s`, in whole graphemes.
pub fn take_cells_rev(s: &str, cells: usize) -> (out: String)
    ensures
        out@ == tail_cells(s@, cells as int),
{
    let parts = graphemes(s);
    let ghost all = texts(parts@);
    let ghost back = all.reverse();
    let mut left: usize = cells;
    let mut n: usize = 0;
    proof {
        assert(back.skip(0) =~= back);
    }
    while n < parts.len()
        invariant_except_break
            fitting(back, cells as int) == n + fitting(back.skip(n as int), left as int),
        invariant
            n <= parts.len(),
            all == texts(parts@),
            back == all.reverse(),
        ensures
            fitting(back, cells as int) == n,
        decreases parts.len() - n,
    {
        let w: usize = str_width(parts[parts.len() - 1 - n].as_str());
        proof {
            assert(back.skip(n as int)[0] == all[all.len() - 1 - n]);
            assert(back.skip(n as int).drop_first() =~= back.skip(n + 1));
        }
        if w > left {
            break;
        }
        left = left - w;
        n = n + 1;
    }
    let mut out = String::new();
    let start: usize = parts.len() - n;
    let mut i: usize = start;
    let ghost kept = all.skip(start as int);
    proof {
        assert(concat(kept.take(0)) =~= Seq::empty());
    }
    while i < parts.len()
        invariant
            start <= i <= parts.len(),
            all == texts(parts@),
            kept == all.skip(start as int),
            out@ == concat(kept.take(i - start)),
        decreases parts.len() - i,
    {
        proof {
            assert(kept.take(i + 1 - start).drop_last() =~= kept.take(i - start));
            assert(kept.take(i + 1 - start).last() == parts@[i as int]@);
        }
        out.append(parts[i].as_str());
        i = i + 1;
    }
    proof {
        assert(kept.take(kept.len() as int) =~= kept);
    }
    out
}

/// `head` followed by `tail`.
pub fn joined(head: &str, tail: &str) -> (out: String)
    ensures
        out@ == head@ + tail@,
{
    let mut out = head.to_owned();
    out.append(tail);
    out
}

/// Whether a character is alphabetic or numeric.
pub uninterp spec fn alphanumeric_char(c: char) -> bool;

/// `char::is_alphanumeric`: a fixed property of the character.
pub assume_specification[ char::is_alphanumeric ](c: char) -> (r: bool)
    ensures
        r == alphanumeric_char(c),
;

/// Whether a character is white space.
pub uninterp spec fn space_char(c: char) -> bool;

/// `char::is_whitespace`: a fixed property of the character; the space has it.
pub assume_specification[ char::is_whitespace ](c: char) -> (r: bool)
    ensures
        r == space_char(c),
        c == ' ' ==> r,
;

/// The number of bytes a string takes.
pub open spec fn byte_len(s: Seq<char>) -> nat {
    vstd::utf8::encode_utf8(s).len()
}

pub proof fn lemma_byte_len_concat(a: Seq<char>, b: Seq<char>)
    ensures
        byte_len(a + b) == byte_len(a) + byte_len(b),
    decreases a.len(),
{
    if a.len() == 0 {
        assert(a + b =~= b);
    } else {
        assert((a + b).drop_first() =~= a.drop_first() + b);
        lemma_byte_len_concat(a.drop_first(), b);
    }
}

/// How many bytes a string takes.
pub fn bytes_in(s: &str) -> (n: usize)
    ensures
        n == byte_len(s@),
{
    s.as_bytes().len()
}

/// Whether a string begins with another.
pub fn starts_with(s: &str, prefix: &str) -> (r: bool)
    ensures
        r == prefix@.is_prefix_of(s@),
{
    let a = chars_of(s);
    let p = chars_of(prefix);
    if p.len() > a.len() {
        return false;
    }
    let mut i: usize = 0;
    while i < p.len()
        invariant
            i <= p.len() <= a.len(),
            a@ == s@,
            p@ == prefix@,
            forall|k: int| 0 <= k < i ==> a@[k] == p@[k],
        decreases p.len() - i,
    {
        if a[i] != p[i] {
            proof {
                assert(a@.subrange(0, p.len() as int)[i as int] == a@[i as int]);
            }
            return false;
        }
        i = i + 1;
    }
    proof {
        assert(p@ =~= a@.subrange(0, p.len() as int));
    }
    true
}

/// Whether two strings hold the same characters.
pub fn same_text(a: &str, b: &str) -> (r: bool)
    ensures
        r == (a@ == b@),
{
    *a == *b
}

/// A string without its last character.
pub fn without_last(s: &str) -> (out: String)
    ensures
        out@ == (if s@.len() == 0 {
            s@
        } else {
            s@.drop_last()
        }),
{
    let chars = chars_of(s);
    if chars.len() == 0 {
        return String::new();
    }
    let out = text_of(&chars, 0, chars.len() - 1);
    proof {
        assert(out@ =~= s@.drop_last());
    }
    out
}

/// Whether a string ends with a character.
pub fn ends_with_char(s: &str, c: char) -> (r: bool)
    ensures
        r == (s@.len() > 0 && s@.last() == c),
{
    let chars = chars_of(s);
    chars.len() > 0 && chars[chars.len() - 1] == c
}

/// The lowercase form of a text.
pub uninterp spec fn lowercase_of(s: Seq<char>) -> Seq<char>;

/// `str::to_lowercase`: the lowercase form is a function of the characters; an empty string
/// stays empty.
pub assume_specification[ str::to_lowercase ](s: &str) -> (r: String)
    ensures
        r@ == lowercase_of(s@),
        s@.len() == 0 ==> r@.len() == 0,
;

/// Whether `part` stands in `s` at place `i`.
pub open spec fn occurs_at(s: Seq<char>, part: Seq<char>, i: int) -> bool {
    0 <= i && i + part.len() <= s.len() && s.subrange(i, i + part.len()) == part
}

/// Whether `part` stands somewhere in `s`.
pub open spec fn occurs_in(s: Seq<char>, part: Seq<char>) -> bool {
    exists|i: int| #[trigger] occurs_at(s, part, i)
}

/// Whether `part` stands somewhere in `s`.
pub fn contains_text(s: &str, part: &str) -> (r: bool)
    ensures
        r == occurs_in(s@, part@),
{
    let a = chars_of(s);
    let p = chars_of(part);
    if p.len() > a.len() {
        return false;
    }
    let mut i: usize = 0;
    while i <= a.len() - p.len()
        invariant
            a@ == s@,
            p@ == part@,
            p.len() <= a.len(),
            i <= a.len() - p.len() + 1,
            forall|k: int| 0 <= k < i ==> !#[trigger] occurs_at(s@, part@, k),
        decreases a.len() + 1 - i,
    {
        let mut n: usize = 0;
        while n < p.len() && a[i + n] == p[n]
            invariant
                n <= p.len(),
                i + p.len() <= a.len(),
                forall|k: int| #![trigger p@[k]] 0 <= k < n ==> a@[i + k] == p@[k],
            decreases p.len() - n,
        {
            n = n + 1;
        }
        if n == p.len() {
            proof {
                assert(s@.subrange(i as int, i + part@.len()) =~= part@);
                assert(occurs_at(s@, part@, i as int));
            }
            return true;
        }
        proof {
            if occurs_at(s@, part@, i as int) {
                assert(s@.subrange(i as int, i + part@.len())[n as int] == part@[n as int]);
            }
        }
        if i == a.len() - p.len() {
            proof {
                assert forall|k: int| !#[trigger] occurs_at(s@, part@, k) by {}
            }
            return false;
        }
        i = i + 1;
    }
    false
}

/// The cells of a character on its own; none for a control character.
pub uninterp spec fn char_cells(c: char) -> Option<nat>;

/// `unicode_width::UnicodeWidthChar::width`: the cells of a character are a function of the
/// character; a printable ASCII character takes one.
#[verifier::external_body]
pub(crate) fn char_width(c: char) -> (r: Option<usize>)
    ensures
        match r {
            Some(n) => char_cells(c) == Some(n as nat),
            None => char_cells(c) is None,
        },
        ' ' <= c <= '~' ==> r == Some(1usize),
{
    unicode_width::UnicodeWidthChar::width(c)
}

/// The cells of a character; a control character takes none.
pub open spec fn cells_of_char(c: char) -> int {
    match char_cells(c) {
        Some(n) => n as int,
        None => 0,
    }
}

/// The cells of a character; a control character takes none.
pub fn char_cells_or_none(c: char) -> (n: usize)
    ensures
        n == cells_of_char(c),
{
    match char_width(c) {
        Some(n) => n,
        None => 0,
    }
}

/// The parts with a separator between them.
pub fn join_texts(parts: &Vec<String>, sep: &str) -> (out: String)
    ensures
        out@ == join_with(texts(parts@), sep@),
{
    let ghost all = texts(parts@);
    let mut out = String::new();
    let mut i: usize = 0;
    proof {
        assert(join_with(all.take(0), sep@) =~= Seq::empty());
    }
    while i < parts.len()
        invariant
            i <= parts.len() == all.len(),
            all == texts(parts@),
            out@ == join_with(all.take(i as int), sep@),
        decreases parts.len() - i,
    {
        proof {
            assert(all.take(i + 1).drop_last() =~= all.take(i as int));
            assert(all.take(i + 1).last() == parts@[i as int]@);
        }
        let ghost before = out@;
        if i > 0 {
            out.append(sep);
        }
        out.append(parts[i].as_str());
        proof {
            if i > 0 {
                assert(out@ =~= before + sep@ + parts@[i as int]@);
            } else {
                assert(all.take(1)[0] == parts@[0]@);
                assert(out@ =~= parts@[0]@);
            }
        }
        i = i + 1;
    }
    proof {
        assert(all.take(all.len() as int) =~= all);
    }
    out
}

} // verus!
