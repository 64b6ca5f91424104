//! Intraline change highlighting for the diff pane.
//!
//! Within a paired removed/added line, find the changed *word* spans on each side so the
//! renderer can brighten just those, leaving the rest of the line in the normal style.
//! A maximal run of `Del` rows followed by a maximal run of `Add` rows is a modification
//! block; only rows of one block are ever paired.
//!
//! Spans are byte ranges into the line text, sorted, non-overlapping, and merged when
//! adjacent.

use vstd::prelude::*;
use crate::num::{min_int, min_usize};
use crate::snapshot::DiffRow;
use crate::text::{
    alphanumeric_char, byte_len, bytes_in, chars_of, concat, join_with, lemma_byte_len_concat, space_char, texts,
};

verus! {

/// A modification block (del run + add run) with more lines than this is not paired:
/// past a point pairing produces noise, and the word diff is wasted work.
pub const MAX_BLOCK_LINES: usize = 40;

/// A line longer than this (in chars) gets no intraline spans: the word diff is
/// superlinear and a minified line would stall a render pass.
pub const MAX_LINE_CHARS: usize = 2000;

/// Byte spans of the changed words on one side of a line pair: sorted,
/// non-overlapping, adjacent-merged ranges into that side's line text.
pub type ByteSpans = Vec<(usize, usize)>;

/// The kind of a diff row, for block detection in [`pair_rows`].
#[derive(Debug, Clone, Copy, PartialEq, Eq, Structural)]
pub enum RowKind {
    /// `@@` hunk header (breaks a block).
    Header,
    /// Context line (breaks a block).
    Context,
    /// `-` removed line.
    Del,
    /// `+` added line.
    Add,
}

/// The first row of the run of `kind` that ends before row `i`.
pub open spec fn run_start(kinds: Seq<RowKind>, i: int, kind: RowKind) -> int
    decreases i,
{
    if 0 < i <= kinds.len() && kinds[i - 1] == kind {
        run_start(kinds, i - 1, kind)
    } else {
        i
    }
}

/// The row after the run of `kind` that begins at row `i`.
pub open spec fn run_end(kinds: Seq<RowKind>, i: int, kind: RowKind) -> int
    decreases kinds.len() - i,
{
    if 0 <= i < kinds.len() && kinds[i] == kind {
        run_end(kinds, i + 1, kind)
    } else {
        i
    }
}

/// A modification block: removed rows `start..split`, then added rows `split..end`.
#[derive(Debug, Clone, Copy, PartialEq, Eq, Structural)]
pub struct Block {
    pub start: usize,
    pub split: usize,
    pub end: usize,
}

/// Whether `b` is one of the blocks of `kinds`: both runs are maximal and neither is
/// empty.
pub open spec fn is_block(kinds: Seq<RowKind>, b: Block) -> bool {
    &&& b.start < b.split < b.end <= kinds.len()
    &&& b.start == run_start(kinds, b.split as int, RowKind::Del)
    &&& b.end == run_end(kinds, b.split as int, RowKind::Add)
}

/// Whether a block is small enough to be paired.
pub open spec fn pairable(b: Block) -> bool {
    b.end - b.start <= MAX_BLOCK_LINES
}

/// The positional partner of row `i`.
pub open spec fn partner(kinds: Seq<RowKind>, i: int) -> Option<int> {
    let split = if kinds[i] == RowKind::Del {
        run_end(kinds, i, RowKind::Del)
    } else {
        run_start(kinds, i, RowKind::Add)
    };
    let start = run_start(kinds, split, RowKind::Del);
    let end = run_end(kinds, split, RowKind::Add);
    if kinds[i] != RowKind::Del && kinds[i] != RowKind::Add {
        None
    } else if start == split || split == end || end - start > MAX_BLOCK_LINES {
        None
    } else if kinds[i] == RowKind::Del {
        if split + (i - start) < end { Some(split + (i - start)) } else { None }
    } else {
        if start + (i - split) < split { Some(start + (i - split)) } else { None }
    }
}

proof fn lemma_run_start(kinds: Seq<RowKind>, i: int, kind: RowKind)
    requires
        0 <= i <= kinds.len(),
    ensures
        0 <= run_start(kinds, i, kind) <= i,
        forall|k: int| run_start(kinds, i, kind) <= k < i ==> kinds[k] == kind,
        run_start(kinds, i, kind) > 0 ==> kinds[run_start(kinds, i, kind) - 1] != kind,
    decreases i,
{
    if 0 < i && kinds[i - 1] == kind {
        lemma_run_start(kinds, i - 1, kind);
    }
}

proof fn lemma_run_end(kinds: Seq<RowKind>, i: int, kind: RowKind)
    requires
        0 <= i <= kinds.len(),
    ensures
        i <= run_end(kinds, i, kind) <= kinds.len(),
        forall|k: int| i <= k < run_end(kinds, i, kind) ==> kinds[k] == kind,
        run_end(kinds, i, kind) < kinds.len() ==> kinds[run_end(kinds, i, kind)] != kind,
    decreases kinds.len() - i,
{
    if i < kinds.len() && kinds[i] == kind {
        lemma_run_end(kinds, i + 1, kind);
    }
}

/// The two ends of a run are fixed by the rows in it and the rows beside it.
proof fn lemma_run_unique(kinds: Seq<RowKind>, s: int, i: int, e: int, kind: RowKind)
    requires
        0 <= s <= i <= e <= kinds.len(),
        forall|k: int| s <= k < e ==> kinds[k] == kind,
        s > 0 ==> kinds[s - 1] != kind,
        e < kinds.len() ==> kinds[e] != kind,
    ensures
        run_start(kinds, i, kind) == s,
        run_end(kinds, i, kind) == e,
{
    lemma_run_start(kinds, i, kind);
    lemma_run_end(kinds, i, kind);
    let a = run_start(kinds, i, kind);
    let b = run_end(kinds, i, kind);
    if a < s {
        assert(kinds[s - 1] == kind);
    }
    if a > s {
        assert(kinds[a - 1] == kind);
    }
    if b > e {
        assert(kinds[e] == kind);
    }
    if b < e {
        assert(kinds[b] == kind);
    }
}

/// The blocks of `kinds`, in order.
pub fn blocks(kinds: &[RowKind]) -> (out: Vec<Block>)
    ensures
        forall|n: int| #![trigger out@[n]] 0 <= n < out.len() ==> is_block(kinds@, out@[n]),
        forall|m: int, n: int| #![trigger out@[m], out@[n]]
            0 <= m < n < out.len() ==> out@[m].end <= out@[n].start,
        forall|b: Block| #[trigger] is_block(kinds@, b) ==> out@.contains(b),
{
    let mut out: Vec<Block> = Vec::new();
    let mut i: usize = 0;
    while i < kinds.len()
        invariant
            i <= kinds.len(),
            i > 0 && i < kinds.len() && kinds@[i - 1] == RowKind::Del ==> kinds@[i as int] != RowKind::Del,
            i > 0 && i < kinds.len() && kinds@[i - 1] == RowKind::Del ==> kinds@[i as int] != RowKind::Add,
            i > 0 && i < kinds.len() && kinds@[i - 1] == RowKind::Add ==> kinds@[i as int] != RowKind::Add,
            forall|n: int| #![trigger out@[n]] 0 <= n < out.len() ==> is_block(kinds@, out@[n])
                && out@[n].end <= i,
            forall|m: int, n: int| #![trigger out@[m], out@[n]]
                0 <= m < n < out.len() ==> out@[m].end <= out@[n].start,
            forall|b: Block| #[trigger] is_block(kinds@, b) && b.start < i ==> out@.contains(b),
        decreases kinds.len() - i,
    {
        let start: usize = i;
        let mut split: usize = i;
        while split < kinds.len() && kinds[split] == RowKind::Del
            invariant
                start <= split <= kinds.len(),
                forall|k: int| start <= k < split ==> kinds@[k] == RowKind::Del,
            decreases kinds.len() - split,
        {
            split = split + 1;
        }
        let mut end: usize = split;
        while end < kinds.len() && kinds[end] == RowKind::Add
            invariant
                split <= end <= kinds.len(),
                forall|k: int| split <= k < end ==> kinds@[k] == RowKind::Add,
            decreases kinds.len() - end,
        {
            end = end + 1;
        }
        let ghost before = out@;
        if start < split && split < end {
            let b = Block { start, split, end };
            proof {
                lemma_run_unique(kinds@, start as int, split as int, split as int, RowKind::Del);
                lemma_run_unique(kinds@, split as int, split as int, end as int, RowKind::Add);
            }
            out.push(b);
            proof {
                assert(is_block(kinds@, b));
                assert(out@[out.len() - 1] == b);
            }
        }
        let next: usize = if end == start { end + 1 } else { end };
        proof {
            assert forall|b: Block| #[trigger] is_block(kinds@, b) && b.start < next implies out@.contains(b) by {
                if b.start < start {
                    assert(before.contains(b));
                    let n = choose|n: int| 0 <= n < before.len() && before[n] == b;
                    assert(out@[n] == b);
                } else {
                    lemma_run_start(kinds@, b.split as int, RowKind::Del);
                    lemma_run_end(kinds@, b.split as int, RowKind::Add);
                    assert(kinds@[b.start as int] == RowKind::Del);
                    assert(start < split);
                    assert(b.start < split);
                    if b.start > start {
                        assert(kinds@[b.start - 1] == RowKind::Del);
                    }
                    assert(b.start == start);
                    if b.split < split {
                        assert(kinds@[b.split as int] == RowKind::Add);
                    }
                    if b.split > split {
                        assert(kinds@[split as int] == RowKind::Del);
                    }
                    assert(b.split == split);
                    assert(kinds@[split as int] == RowKind::Add);
                    assert(end > split);
                    lemma_run_unique(kinds@, split as int, split as int, end as int, RowKind::Add);
                    assert(out@[out.len() - 1] == b);
                }
            }
        }
        i = next;
    }
    proof {
        assert forall|b: Block| #[trigger] is_block(kinds@, b) implies out@.contains(b) by {
            assert(b.start < i);
        }
    }
    out
}

/// The row that block `b` pairs row `i` of it with.
pub open spec fn block_partner(b: Block, i: int) -> Option<int> {
    if b.start <= i < b.split && b.split + (i - b.start) < b.end {
        Some(b.split + (i - b.start))
    } else if b.split <= i < b.end && b.start + (i - b.split) < b.split {
        Some(b.start + (i - b.split))
    } else {
        None
    }
}

proof fn lemma_partner_in_block(kinds: Seq<RowKind>, b: Block, i: int)
    requires
        is_block(kinds, b),
        b.start <= i < b.end,
    ensures
        partner(kinds, i) == (if pairable(b) { block_partner(b, i) } else { None }),
{
    lemma_run_start(kinds, b.split as int, RowKind::Del);
    lemma_run_end(kinds, b.split as int, RowKind::Add);
    assert(kinds[b.split as int] == RowKind::Add);
    assert(kinds[b.split - 1] == RowKind::Del);
    if i < b.split {
        assert(kinds[i] == RowKind::Del);
        lemma_run_unique(kinds, b.start as int, i, b.split as int, RowKind::Del);
    } else {
        assert(kinds[i] == RowKind::Add);
        lemma_run_unique(kinds, b.split as int, i, b.end as int, RowKind::Add);
    }
}

proof fn lemma_partner_needs_block(kinds: Seq<RowKind>, i: int)
    requires
        0 <= i < kinds.len() <= usize::MAX,
        partner(kinds, i) is Some,
    ensures
        exists|b: Block| #[trigger] is_block(kinds, b) && b.start <= i < b.end,
{
    let split = if kinds[i] == RowKind::Del {
        run_end(kinds, i, RowKind::Del)
    } else {
        run_start(kinds, i, RowKind::Add)
    };
    lemma_run_end(kinds, i, RowKind::Del);
    lemma_run_start(kinds, i, RowKind::Add);
    lemma_run_start(kinds, split, RowKind::Del);
    lemma_run_end(kinds, split, RowKind::Add);
    let start = run_start(kinds, split, RowKind::Del);
    let end = run_end(kinds, split, RowKind::Add);
    let b = Block { start: start as usize, split: split as usize, end: end as usize };
    assert(is_block(kinds, b));
    if kinds[i] == RowKind::Del {
        if i < start {
            assert(kinds[start - 1] == RowKind::Del);
        }
    } else {
        if i >= end {
            assert(kinds[end] == RowKind::Add);
        }
    }
}

/// Pair rows inside each modification block positionally.
///
/// Returns, per row index, the index of its intraline partner. A block is a maximal `Del`
/// run immediately followed by a maximal `Add` run. Both sides must be non-empty, the
/// block must fit [`MAX_BLOCK_LINES`], and only the first `min(dels, adds)` pairs are
/// matched; unpaired extras get `None`.
pub fn pair_rows(kinds: &[RowKind]) -> (pairs: Vec<Option<usize>>)
    ensures
        pairs.len() == kinds.len(),
        forall|i: int| #![trigger pairs@[i]] 0 <= i < pairs.len() ==> match partner(kinds@, i) {
            Some(j) => pairs@[i] == Some(j as usize) && 0 <= j < pairs.len(),
            None => pairs@[i] is None,
        },
{
    let list = blocks(kinds);
    let mut pairs: Vec<Option<usize>> = no_pairs(kinds.len());
    let mut n: usize = 0;
    while n < list.len()
        invariant
            n <= list.len(),
            pairs.len() == kinds.len(),
            forall|k: int| #![trigger list@[k]] 0 <= k < list.len() ==> is_block(kinds@, list@[k]),
            forall|m: int, k: int| #![trigger list@[m], list@[k]]
                0 <= m < k < list.len() ==> list@[m].end <= list@[k].start,
            forall|k: int, i: int| #![trigger list@[k], pairs@[i]] 0 <= k < n && list@[k].start <= i < list@[k].end ==>
                pairs@[i] == shown(if pairable(list@[k]) { block_partner(list@[k], i) } else { None }),
            forall|i: int| #![trigger pairs@[i]] 0 <= i < pairs.len() && pairs@[i] is Some ==> exists|k: int|
                #![trigger list@[k]] 0 <= k < n && list@[k].start <= i < list@[k].end,
        decreases list.len() - n,
    {
        let b: Block = list[n];
        let ghost before = pairs@;
        if b.end - b.start <= MAX_BLOCK_LINES {
            pair_block(&mut pairs, b);
        }
        proof {
            assert forall|k: int, i: int| #![trigger list@[k], pairs@[i]]
                0 <= k < n + 1 && list@[k].start <= i < list@[k].end implies
                pairs@[i] == shown(if pairable(list@[k]) { block_partner(list@[k], i) } else { None }) by {
                if k < n {
                    assert(list@[k].end <= list@[n as int].start);
                    assert(before[i] == pairs@[i]);
                } else if before[i] is Some {
                    let m = choose|m: int| #![trigger list@[m]] 0 <= m < n && list@[m].start <= i < list@[m].end;
                    assert(list@[m].end <= list@[n as int].start);
                }
            }
            assert forall|i: int| #![trigger pairs@[i]] 0 <= i < pairs.len() && pairs@[i] is Some implies exists|k: int|
                #![trigger list@[k]] 0 <= k < n + 1 && list@[k].start <= i < list@[k].end by {
                if b.start <= i < b.end {
                    assert(list@[n as int] == b);
                } else {
                    assert(before[i] == pairs@[i]);
                }
            }
        }
        n = n + 1;
    }
    proof {
        assert forall|i: int| #![trigger pairs@[i]] 0 <= i < pairs.len() implies pairs@[i] == shown(partner(kinds@, i))
            && (partner(kinds@, i) matches Some(j) ==> 0 <= j < pairs.len()) by {
            if partner(kinds@, i) is Some {
                lemma_partner_needs_block(kinds@, i);
                let b = choose|b: Block| #[trigger] is_block(kinds@, b) && b.start <= i < b.end;
                assert(list@.contains(b));
                let k = choose|k: int| 0 <= k < list.len() && list@[k] == b;
                assert(list@[k].start <= i < list@[k].end);
                lemma_partner_in_block(kinds@, b, i);
            } else if pairs@[i] is Some {
                let k = choose|k: int| #![trigger list@[k]] 0 <= k < list.len() && list@[k].start <= i < list@[k].end;
                lemma_partner_in_block(kinds@, list@[k], i);
            }
        }
    }
    pairs
}

/// A row number as it is stored.
pub open spec fn shown(row: Option<int>) -> Option<usize> {
    match row {
        Some(j) => Some(j as usize),
        None => None,
    }
}

/// As many rows without a partner.
fn no_pairs(n: usize) -> (pairs: Vec<Option<usize>>)
    ensures
        pairs.len() == n,
        forall|i: int| 0 <= i < n ==> #[trigger] pairs@[i] is None,
{
    let mut pairs: Vec<Option<usize>> = Vec::new();
    let mut i: usize = 0;
    while i < n
        invariant
            i <= n,
            pairs.len() == i,
            forall|k: int| 0 <= k < i ==> #[trigger] pairs@[k] is None,
        decreases n - i,
    {
        pairs.push(None);
        i = i + 1;
    }
    pairs
}

/// Pair the rows of one modification block positionally.
fn pair_block(pairs: &mut Vec<Option<usize>>, b: Block)
    requires
        b.start <= b.split <= b.end <= old(pairs).len(),
        forall|i: int| b.start <= i < b.end ==> #[trigger] old(pairs)@[i] is None,
    ensures
        final(pairs).len() == old(pairs).len(),
        forall|i: int| #![trigger final(pairs)@[i]] 0 <= i < old(pairs).len() ==> final(pairs)@[i] == (
            if b.start <= i < b.end { shown(block_partner(b, i)) } else { old(pairs)@[i] }
        ),
{
    let n: usize = min_usize(b.split - b.start, b.end - b.split);
    let mut k: usize = 0;
    while k < n
        invariant
            n == min_int(b.split - b.start, b.end - b.split),
            b.start <= b.split <= b.end <= old(pairs).len(),
            forall|i: int| b.start <= i < b.end ==> #[trigger] old(pairs)@[i] is None,
            k <= n,
            pairs.len() == old(pairs).len(),
            forall|i: int| #![trigger pairs@[i]] 0 <= i < pairs.len() ==> pairs@[i] == (
                if b.start <= i < b.start + k { Some((b.split + (i - b.start)) as usize) }
                else if b.split <= i < b.split + k { Some((b.start + (i - b.split)) as usize) }
                else { old(pairs)@[i] }
            ),
        decreases n - k,
    {
        pairs.set(b.start + k, Some(b.split + k));
        pairs.set(b.split + k, Some(b.start + k));
        k = k + 1;
    }
}

/// Pairing is mutual, and joins a removed row to a later added row of the same block.
pub proof fn law_pairing_is_mutual(kinds: Seq<RowKind>, i: int)
    requires
        0 <= i < kinds.len() <= usize::MAX,
        partner(kinds, i) is Some,
    ensures
        0 <= partner(kinds, i)->0 < kinds.len(),
        partner(kinds, partner(kinds, i)->0) == Some(i),
        kinds[i] == RowKind::Del ==> kinds[partner(kinds, i)->0] == RowKind::Add && i < partner(kinds, i)->0,
        kinds[i] != RowKind::Del ==> kinds[i] == RowKind::Add && kinds[partner(kinds, i)->0] == RowKind::Del
            && partner(kinds, i)->0 < i,
{
    lemma_partner_needs_block(kinds, i);
    let b = choose|b: Block| #[trigger] is_block(kinds, b) && b.start <= i < b.end;
    lemma_partner_in_block(kinds, b, i);
    let j = partner(kinds, i)->0;
    lemma_partner_in_block(kinds, b, j);
    lemma_run_start(kinds, b.split as int, RowKind::Del);
    lemma_run_end(kinds, b.split as int, RowKind::Add);
}

/// One step of an edit script.
#[derive(Debug, Clone, Copy, PartialEq, Eq, Structural)]
pub enum Edit {
    /// The next item of both sides, unchanged.
    Equal,
    /// The next item of the old side, gone.
    Delete,
    /// The next item of the new side, added.
    Insert,
}

/// How many items of the old side the first `n` steps consume.
pub open spec fn old_count(edits: Seq<Edit>, n: int) -> int
    decreases n,
{
    if n <= 0 {
        0
    } else {
        old_count(edits, n - 1) + if edits[n - 1] == Edit::Insert { 0int } else { 1int }
    }
}

/// How many items of the new side the first `n` steps consume.
pub open spec fn new_count(edits: Seq<Edit>, n: int) -> int
    decreases n,
{
    if n <= 0 {
        0
    } else {
        new_count(edits, n - 1) + if edits[n - 1] == Edit::Delete { 0int } else { 1int }
    }
}

/// Whether step `n` keeps an item only where both sides hold it.
pub open spec fn keeps_same(
    edits: Seq<Edit>,
    old_tokens: Seq<Seq<char>>,
    new_tokens: Seq<Seq<char>>,
    n: int,
) -> bool {
    edits[n] == Edit::Equal ==> old_tokens[old_count(edits, n)] == new_tokens[new_count(edits, n)]
}

/// The edit script between two lists of tokens.
pub uninterp spec fn token_edits(old_tokens: Seq<Seq<char>>, new_tokens: Seq<Seq<char>>) -> Seq<Edit>;

/// `similar::TextDiff::from_slices` and `iter_all_changes`: without a deadline the script
/// is a function of the two lists. It consumes each list exactly once, in order, keeps only
/// items that both sides hold, and keeps all of them where the lists are the same.
#[verifier::external_body]
fn diff_tokens(old_tokens: &Vec<String>, new_tokens: &Vec<String>) -> (edits: Vec<Edit>)
    ensures
        edits@ == token_edits(texts(old_tokens@), texts(new_tokens@)),
        old_count(edits@, edits.len() as int) == old_tokens.len(),
        new_count(edits@, edits.len() as int) == new_tokens.len(),
        forall|n: int| 0 <= n < edits.len() ==> #[trigger] keeps_same(edits@, texts(old_tokens@), texts(new_tokens@), n),
        texts(old_tokens@) == texts(new_tokens@) ==> forall|n: int|
            0 <= n < edits.len() ==> #[trigger] edits@[n] == Edit::Equal,
{
    let a: Vec<&str> = old_tokens.iter().map(String::as_str).collect();
    let b: Vec<&str> = new_tokens.iter().map(String::as_str).collect();
    similar::TextDiff::from_slices(&a, &b).iter_all_changes().map(|change| match change.tag() {
        similar::ChangeTag::Equal => Edit::Equal,
        similar::ChangeTag::Delete => Edit::Delete,
        similar::ChangeTag::Insert => Edit::Insert,
    }).collect()
}

/// The edit script between the lines of two texts.
pub uninterp spec fn line_edits(old_text: Seq<char>, new_text: Seq<char>) -> Seq<Edit>;

/// `similar::TextDiff::from_lines` and `iter_all_changes`: without a deadline the script is
/// a function of the two texts.
#[verifier::external_body]
fn diff_lines(old_text: &str, new_text: &str) -> (edits: Vec<Edit>)
    ensures
        edits@ == line_edits(old_text@, new_text@),
{
    similar::TextDiff::from_lines(old_text, new_text).iter_all_changes().map(|change| match change.tag() {
        similar::ChangeTag::Equal => Edit::Equal,
        similar::ChangeTag::Delete => Edit::Delete,
        similar::ChangeTag::Insert => Edit::Insert,
    }).collect()
}

/// The first step of the run of changes that ends before step `n`.
pub open spec fn group_start(edits: Seq<Edit>, n: int) -> int
    decreases n,
{
    if n > 0 && edits[n - 1] != Edit::Equal {
        group_start(edits, n - 1)
    } else {
        n
    }
}

/// Whether a run of changes that ends at step `n` replaces old item `d` by new item `a`:
/// both sides of the run are zipped from its beginning.
pub open spec fn replaces_at(edits: Seq<Edit>, n: int, d: int, a: int) -> bool {
    let g = group_start(edits, n);
    &&& old_count(edits, g) <= d < old_count(edits, n)
    &&& new_count(edits, g) <= a < new_count(edits, n)
    &&& d - old_count(edits, g) == a - new_count(edits, g)
}

/// Whether a script replaces old item `d` by new item `a`: the two stand at the same place
/// of a maximal run of changes.
pub open spec fn replaces(edits: Seq<Edit>, d: int, a: int) -> bool {
    exists|n: int| #![trigger replaces_at(edits, n, d, a)]
        0 <= n <= edits.len() && (n == edits.len() || edits[n] == Edit::Equal) && replaces_at(edits, n, d, a)
}

proof fn lemma_counts_monotone(edits: Seq<Edit>, m: int, n: int)
    requires
        0 <= m <= n,
    ensures
        0 <= old_count(edits, m) <= old_count(edits, n) <= n,
        0 <= new_count(edits, m) <= new_count(edits, n) <= n,
    decreases n,
{
    if n > 0 {
        lemma_counts_monotone(edits, 0, n - 1);
        if m < n {
            lemma_counts_monotone(edits, m, n - 1);
        }
    }
    if m > 0 && m == n {
        lemma_counts_monotone(edits, 0, m - 1);
    }
}

proof fn lemma_group_start(edits: Seq<Edit>, n: int)
    requires
        0 <= n <= edits.len(),
    ensures
        0 <= group_start(edits, n) <= n,
        forall|k: int| group_start(edits, n) <= k < n ==> edits[k] != Edit::Equal,
    decreases n,
{
    if n > 0 && edits[n - 1] != Edit::Equal {
        lemma_group_start(edits, n - 1);
    }
}

/// An item is replaced by at most one item, and replaces at most one.
pub proof fn lemma_replaces_unique(edits: Seq<Edit>, d1: int, a1: int, d2: int, a2: int)
    requires
        replaces(edits, d1, a1),
        replaces(edits, d2, a2),
        d1 == d2 || a1 == a2,
    ensures
        d1 == d2 && a1 == a2,
{
    let n1 = choose|n: int| #![trigger replaces_at(edits, n, d1, a1)]
        0 <= n <= edits.len() && (n == edits.len() || edits[n] == Edit::Equal) && replaces_at(edits, n, d1, a1);
    let n2 = choose|n: int| #![trigger replaces_at(edits, n, d2, a2)]
        0 <= n <= edits.len() && (n == edits.len() || edits[n] == Edit::Equal) && replaces_at(edits, n, d2, a2);
    lemma_group_start(edits, n1);
    lemma_group_start(edits, n2);
    if n1 < n2 {
        assert(group_start(edits, n2) > n1);
        lemma_counts_monotone(edits, n1, group_start(edits, n2));
    } else if n2 < n1 {
        assert(group_start(edits, n1) > n2);
        lemma_counts_monotone(edits, n2, group_start(edits, n1));
    }
}


/// The row that the run of changes ending at step `n` pairs `row` of block `b` with;
/// `removed` tells on which side of the block the row stands.
spec fn group_partner(script: Seq<Edit>, b: Block, n: int, row: int, removed: bool) -> Option<usize> {
    let g = group_start(script, n);
    let (here, there) = (
        if removed { old_count(script, g) } else { new_count(script, g) },
        if removed { new_count(script, g) } else { old_count(script, g) },
    );
    let (here_end, there_end) = (
        if removed { old_count(script, n) } else { new_count(script, n) },
        if removed { new_count(script, n) } else { old_count(script, n) },
    );
    let (base, other, limit) = if removed {
        (b.start as int, b.split as int, b.end as int)
    } else {
        (b.split as int, b.start as int, b.split as int)
    };
    let k = row - base - here;
    if 0 <= k && here + k < here_end && there + k < there_end && other + there + k < limit {
        Some((other + there + k) as usize)
    } else {
        None
    }
}

/// The partner of `row` among the runs of changes closed by the first `n` steps.
spec fn found(script: Seq<Edit>, b: Block, n: int, row: int, removed: bool) -> Option<usize>
    decreases n,
{
    if n <= 0 {
        None
    } else if script[n - 1] == Edit::Equal && group_partner(script, b, n - 1, row, removed) is Some {
        group_partner(script, b, n - 1, row, removed)
    } else {
        found(script, b, n - 1, row, removed)
    }
}

/// The partner of `row` once the last run of changes is closed too.
spec fn found_in_all(script: Seq<Edit>, b: Block, row: int, removed: bool) -> Option<usize> {
    if group_partner(script, b, script.len() as int, row, removed) is Some {
        group_partner(script, b, script.len() as int, row, removed)
    } else {
        found(script, b, script.len() as int, row, removed)
    }
}

proof fn lemma_found_from_group(script: Seq<Edit>, b: Block, n: int, row: int, removed: bool)
    requires
        0 <= n <= script.len(),
        found(script, b, n, row, removed) is Some,
    ensures
        exists|m: int| 0 <= m < n && script[m] == Edit::Equal
            && #[trigger] group_partner(script, b, m, row, removed) == found(script, b, n, row, removed),
    decreases n,
{
    if script[n - 1] == Edit::Equal && group_partner(script, b, n - 1, row, removed) is Some {
    } else {
        lemma_found_from_group(script, b, n - 1, row, removed);
    }
}

proof fn lemma_group_is_found(script: Seq<Edit>, b: Block, m: int, n: int, row: int, removed: bool)
    requires
        0 <= m < n <= script.len(),
        script[m] == Edit::Equal,
        group_partner(script, b, m, row, removed) is Some,
    ensures
        found(script, b, n, row, removed) is Some,
    decreases n,
{
    if m < n - 1 {
        lemma_group_is_found(script, b, m, n - 1, row, removed);
    }
}

proof fn lemma_group_replaces(script: Seq<Edit>, b: Block, n: int, row: int, removed: bool)
    requires
        0 <= n <= script.len(),
        n == script.len() || script[n] == Edit::Equal,
        b.start < b.split < b.end,
        group_partner(script, b, n, row, removed) is Some,
    ensures
        ({
            let p = group_partner(script, b, n, row, removed)->0;
            if removed {
                &&& b.start <= row && b.split <= p < b.end
                &&& replaces(script, row - b.start, p - b.split)
            } else {
                &&& b.split <= row && b.start <= p < b.split
                &&& replaces(script, p - b.start, row - b.split)
            }
        }),
{
    lemma_group_start(script, n);
    lemma_counts_monotone(script, 0, group_start(script, n));
    let p = group_partner(script, b, n, row, removed)->0;
    if removed {
        assert(replaces_at(script, n, row - b.start, p - b.split));
    } else {
        assert(replaces_at(script, n, p - b.start, row - b.split));
    }
}

proof fn lemma_found_replaces(script: Seq<Edit>, b: Block, row: int, removed: bool)
    requires
        b.start < b.split < b.end,
        found_in_all(script, b, row, removed) is Some,
    ensures
        ({
            let p = found_in_all(script, b, row, removed)->0;
            if removed {
                &&& b.start <= row && b.split <= p < b.end
                &&& replaces(script, row - b.start, p - b.split)
            } else {
                &&& b.split <= row && b.start <= p < b.split
                &&& replaces(script, p - b.start, row - b.split)
            }
        }),
{
    let len = script.len() as int;
    if group_partner(script, b, len, row, removed) is Some {
        lemma_group_replaces(script, b, len, row, removed);
    } else {
        lemma_found_from_group(script, b, len, row, removed);
        let m = choose|m: int| 0 <= m < len && script[m] == Edit::Equal
            && #[trigger] group_partner(script, b, m, row, removed) == found(script, b, len, row, removed);
        lemma_group_replaces(script, b, m, row, removed);
    }
}

proof fn lemma_found_means(script: Seq<Edit>, b: Block, i: int, j: int)
    requires
        b.start < b.split < b.end,
        0 <= i,
        0 <= j,
    ensures
        b.start <= i < b.split && b.split <= j < b.end ==> (
            replaces(script, i - b.start, j - b.split)
                <==> found_in_all(script, b, i, true) == Some(j as usize)
        ),
        b.start <= i < b.split && b.split <= j < b.end ==> (
            replaces(script, i - b.start, j - b.split)
                <==> found_in_all(script, b, j, false) == Some(i as usize)
        ),
{
    if b.start <= i < b.split && b.split <= j < b.end {
        let (d, a) = (i - b.start, j - b.split);
        let len = script.len() as int;
        if replaces(script, d, a) {
            let n = choose|n: int| #![trigger replaces_at(script, n, d, a)]
                0 <= n <= script.len() && (n == script.len() || script[n] == Edit::Equal) && replaces_at(script, n, d, a);
            assert(group_partner(script, b, n, i, true) == Some(j as usize));
            assert(group_partner(script, b, n, j, false) == Some(i as usize));
            if n < len {
                lemma_group_is_found(script, b, n, len, i, true);
                lemma_group_is_found(script, b, n, len, j, false);
            }
        }
        if found_in_all(script, b, i, true) is Some {
            lemma_found_replaces(script, b, i, true);
            let p = found_in_all(script, b, i, true)->0;
            if replaces(script, d, a) {
                lemma_replaces_unique(script, d, a, d, p - b.split);
            }
        }
        if found_in_all(script, b, j, false) is Some {
            lemma_found_replaces(script, b, j, false);
            let p = found_in_all(script, b, j, false)->0;
            if replaces(script, d, a) {
                lemma_replaces_unique(script, d, a, p - b.start, a);
            }
        }
    }
}

/// The text of rows `from..to`, joined by line feeds.
pub open spec fn rows_text(rows: Seq<DiffRow>, from: int, to: int) -> Seq<char> {
    join_with(Seq::new((to - from) as nat, |k: int| text_of_row(rows[from + k])), seq!['\n'])
}

/// The edit script between the two sides of a block.
pub open spec fn block_edits(rows: Seq<DiffRow>, b: Block) -> Seq<Edit> {
    line_edits(rows_text(rows, b.start as int, b.split as int), rows_text(rows, b.split as int, b.end as int))
}

/// Whether a script between the two sides of block `b` replaces removed row `i` by added
/// row `j`.
pub open spec fn block_replaces(edits: Seq<Edit>, b: Block, i: int, j: int) -> bool {
    b.start <= i < b.split <= j < b.end && replaces(edits, i - b.start, j - b.split)
}

/// Whether block `b` pairs removed row `i` with added row `j` by content: the block is
/// small enough, and its script replaces the one line by the other.
pub open spec fn aligned_in(rows: Seq<DiffRow>, b: Block, i: int, j: int) -> bool {
    pairable(b) && block_replaces(block_edits(rows, b), b, i, j)
}

/// Whether removed row `i` and added row `j` are paired by content.
pub open spec fn aligned(rows: Seq<DiffRow>, i: int, j: int) -> bool {
    exists|b: Block| #[trigger] is_block(row_kinds(rows), b) && aligned_in(rows, b, i, j)
}

/// The kinds of all rows.
pub open spec fn row_kinds(rows: Seq<DiffRow>) -> Seq<RowKind> {
    Seq::new(rows.len(), |i: int| kind_of_row(rows[i]))
}

/// The text of rows `from..to`, joined by line feeds.
fn join_rows(rows: &[DiffRow], from: usize, to: usize) -> (text: String)
    requires
        from <= to <= rows.len(),
    ensures
        text@ == rows_text(rows@, from as int, to as int),
{
    let mut text = String::new();
    let mut i: usize = from;
    let ghost parts = Seq::new((to - from) as nat, |k: int| text_of_row(rows@[from + k]));
    proof {
        assert(join_with(parts.take(0), seq!['\n']) =~= Seq::empty());
    }
    while i < to
        invariant
            from <= i <= to <= rows.len(),
            parts == Seq::new((to - from) as nat, |k: int| text_of_row(rows@[from + k])),
            text@ == join_with(parts.take(i - from), seq!['\n']),
        decreases to - i,
    {
        proof {
            assert(parts.take(i + 1 - from).drop_last() =~= parts.take(i - from));
            assert(parts.take(i + 1 - from).last() == text_of_row(rows@[i as int]));
        }
        if i > from {
            text.push('\n');
        }
        text.append(row_text(&rows[i]));
        proof {
            assert(text@ =~= join_with(parts.take(i + 1 - from), seq!['\n']));
        }
        i = i + 1;
    }
    proof {
        assert(parts.take(to - from) =~= parts);
    }
    text
}

/// Record the replacements of the run of changes that ends at step `n`.
fn flush_group(
    pairs: &mut Vec<Option<usize>>,
    b: Block,
    d_from: usize,
    d_to: usize,
    a_from: usize,
    a_to: usize,
)
    requires
        b.start <= b.split <= b.end <= old(pairs).len(),
        d_from <= d_to,
        a_from <= a_to,
    ensures
        final(pairs).len() == old(pairs).len(),
        forall|i: int| #![trigger final(pairs)@[i]] 0 <= i < old(pairs).len() ==> final(pairs)@[i] == (
            if b.start + d_from <= i < b.start + d_to && i < b.split
                && a_from + (i - b.start - d_from) < a_to && b.split + a_from + (i - b.start - d_from) < b.end {
                Some((b.split + a_from + (i - b.start - d_from)) as usize)
            } else if b.split + a_from <= i < b.split + a_to && i < b.end
                && d_from + (i - b.split - a_from) < d_to && b.start + d_from + (i - b.split - a_from) < b.split {
                Some((b.start + d_from + (i - b.split - a_from)) as usize)
            } else {
                old(pairs)@[i]
            }
        ),
{
    let n: usize = min_usize(d_to - d_from, a_to - a_from);
    let mut k: usize = 0;
    while k < n
        invariant
            n == min_int(d_to - d_from, a_to - a_from),
            b.start <= b.split <= b.end <= old(pairs).len(),
            d_from <= d_to,
            a_from <= a_to,
            k <= n,
            pairs.len() == old(pairs).len(),
            forall|i: int| #![trigger pairs@[i]] 0 <= i < pairs.len() ==> pairs@[i] == (
                if b.start + d_from <= i < b.start + d_from + k && i < b.split
                    && b.split + a_from + (i - b.start - d_from) < b.end {
                    Some((b.split + a_from + (i - b.start - d_from)) as usize)
                } else if b.split + a_from <= i < b.split + a_from + k && i < b.end
                    && b.start + d_from + (i - b.split - a_from) < b.split {
                    Some((b.start + d_from + (i - b.split - a_from)) as usize)
                } else {
                    old(pairs)@[i]
                }
            ),
        decreases n - k,
    {
        let d: usize = d_from + k;
        let a: usize = a_from + k;
        if d < b.split - b.start && a < b.end - b.split {
            pairs.set(b.start + d, Some(b.split + a));
            pairs.set(b.split + a, Some(b.start + d));
        }
        k = k + 1;
    }
}

/// Pair the rows of one block as its edit script says.
pub fn align_with(pairs: &mut Vec<Option<usize>>, b: Block, edits: &Vec<Edit>)
    requires
        b.start < b.split < b.end <= old(pairs).len(),
        forall|i: int| b.start <= i < b.end ==> #[trigger] old(pairs)@[i] is None,
    ensures
        final(pairs).len() == old(pairs).len(),
        forall|i: int| #![trigger final(pairs)@[i]] 0 <= i < old(pairs).len() && !(b.start <= i < b.end) ==>
            final(pairs)@[i] == old(pairs)@[i],
        forall|i: int, j: usize| #![trigger block_replaces(edits@, b, i, j as int)]
            b.start <= i < b.split ==> (final(pairs)@[i] == Some(j) <==> block_replaces(edits@, b, i, j as int)),
        forall|i: usize, j: int| #![trigger block_replaces(edits@, b, i as int, j)]
            b.split <= j < b.end ==> (final(pairs)@[j] == Some(i) <==> block_replaces(edits@, b, i as int, j)),
{
    let ghost script = edits@;
    let mut d: usize = 0;
    let mut a: usize = 0;
    let mut d_from: usize = 0;
    let mut a_from: usize = 0;
    let mut n: usize = 0;
    while n < edits.len()
        invariant
            n <= edits.len(),
            edits@ == script,
            b.start < b.split < b.end <= pairs.len(),
            pairs.len() == old(pairs).len(),
            forall|i: int| b.start <= i < b.end ==> #[trigger] old(pairs)@[i] is None,
            d == old_count(script, n as int),
            a == new_count(script, n as int),
            d_from == old_count(script, group_start(script, n as int)),
            a_from == new_count(script, group_start(script, n as int)),
            d_from <= d <= n,
            a_from <= a <= n,
            forall|i: int| #![trigger pairs@[i]] 0 <= i < pairs.len() && !(b.start <= i < b.end) ==>
                pairs@[i] == old(pairs)@[i],
            forall|i: int| #![trigger pairs@[i]] b.start <= i < b.split ==>
                pairs@[i] == found(script, b, n as int, i, true),
            forall|j: int| #![trigger pairs@[j]] b.split <= j < b.end ==>
                pairs@[j] == found(script, b, n as int, j, false),
        decreases edits.len() - n,
    {
        let edit: Edit = edits[n];
        proof {
            lemma_group_start(script, n as int);
            lemma_counts_monotone(script, 0, group_start(script, n as int));
        }
        match edit {
            Edit::Delete => {
                d = d + 1;
            },
            Edit::Insert => {
                a = a + 1;
            },
            Edit::Equal => {
                flush_group(pairs, b, d_from, d, a_from, a);
                d = d + 1;
                a = a + 1;
                d_from = d;
                a_from = a;
            },
        }
        proof {
            lemma_group_start(script, n + 1);
            lemma_counts_monotone(script, group_start(script, n + 1), n + 1);
        }
        n = n + 1;
    }
    flush_group(pairs, b, d_from, d, a_from, a);
    proof {
        assert forall|i: int, j: usize| #![trigger block_replaces(script, b, i, j as int)]
            b.start <= i < b.split implies (pairs@[i] == Some(j) <==> block_replaces(script, b, i, j as int)) by {
            lemma_found_means(script, b, i, j as int);
            assert(pairs@[i] == found_in_all(script, b, i, true));
            if pairs@[i] is Some {
                lemma_found_replaces(script, b, i, true);
            }
        }
        assert forall|i: usize, j: int| #![trigger block_replaces(script, b, i as int, j)]
            b.split <= j < b.end implies (pairs@[j] == Some(i) <==> block_replaces(script, b, i as int, j)) by {
            lemma_found_means(script, b, i as int, j);
            assert(pairs@[j] == found_in_all(script, b, j, false));
            if pairs@[j] is Some {
                lemma_found_replaces(script, b, j, false);
            }
        }
    }
}

/// Pair the rows of one block by content.
fn align_block(rows: &[DiffRow], pairs: &mut Vec<Option<usize>>, b: Block)
    requires
        b.start < b.split < b.end <= rows.len(),
        pairable(b),
        old(pairs).len() == rows.len(),
        forall|i: int| b.start <= i < b.end ==> #[trigger] old(pairs)@[i] is None,
    ensures
        final(pairs).len() == old(pairs).len(),
        forall|i: int| #![trigger final(pairs)@[i]] 0 <= i < rows.len() && !(b.start <= i < b.end) ==>
            final(pairs)@[i] == old(pairs)@[i],
        forall|i: int, j: usize| #![trigger aligned_in(rows@, b, i, j as int)]
            b.start <= i < b.split ==> (final(pairs)@[i] == Some(j) <==> aligned_in(rows@, b, i, j as int)),
        forall|i: usize, j: int| #![trigger aligned_in(rows@, b, i as int, j)]
            b.split <= j < b.end ==> (final(pairs)@[j] == Some(i) <==> aligned_in(rows@, b, i as int, j)),
{
    let old_joined = join_rows(rows, b.start, b.split);
    let new_joined = join_rows(rows, b.split, b.end);
    let edits = diff_lines(old_joined.as_str(), new_joined.as_str());
    align_with(pairs, b, &edits);
    proof {
        assert forall|i: int, j: usize| #![trigger aligned_in(rows@, b, i, j as int)]
            b.start <= i < b.split implies (pairs@[i] == Some(j) <==> aligned_in(rows@, b, i, j as int)) by {
            assert(block_replaces(edits@, b, i, j as int) == aligned_in(rows@, b, i, j as int));
        }
        assert forall|i: usize, j: int| #![trigger aligned_in(rows@, b, i as int, j)]
            b.split <= j < b.end implies (pairs@[j] == Some(i) <==> aligned_in(rows@, b, i as int, j)) by {
            assert(block_replaces(edits@, b, i as int, j) == aligned_in(rows@, b, i as int, j));
        }
    }
}

/// Pair del and add rows within each modification block by content alignment: a line diff
/// of the two sides of the block, zipping only the two sides of each replacement.
/// Positional pairing mis-pairs everything below an insertion inside the run; here the
/// lines around it keep their partners and the pure insertion stays unpaired.
pub fn pair_rows_aligned(rows: &[DiffRow]) -> (pairs: Vec<Option<usize>>)
    ensures
        pairs.len() == rows.len(),
        forall|i: int, j: int| #![trigger aligned(rows@, i, j)]
            0 <= i < j < rows.len() ==> {
                &&& aligned(rows@, i, j) <==> pairs@[i] == Some(j as usize)
                &&& aligned(rows@, i, j) <==> pairs@[j] == Some(i as usize)
            },
        forall|i: int| #![trigger pairs@[i]] 0 <= i < rows.len() && pairs@[i] is Some ==>
            pairs@[i]->0 < rows.len() && pairs@[i]->0 != i,
{
    let mut kinds: Vec<RowKind> = Vec::new();
    let mut r: usize = 0;
    while r < rows.len()
        invariant
            r <= rows.len(),
            kinds.len() == r,
            forall|k: int| 0 <= k < r ==> #[trigger] kinds@[k] == kind_of_row(rows@[k]),
        decreases rows.len() - r,
    {
        kinds.push(row_kind(&rows[r]));
        r = r + 1;
    }
    let ghost all = row_kinds(rows@);
    assert(kinds@ =~= all);
    let list = blocks(kinds.as_slice());
    let mut pairs: Vec<Option<usize>> = no_pairs(rows.len());
    let mut n: usize = 0;
    while n < list.len()
        invariant
            n <= list.len(),
            pairs.len() == rows.len(),
            all == row_kinds(rows@),
            forall|k: int| #![trigger list@[k]] 0 <= k < list.len() ==> is_block(all, list@[k]),
            forall|m: int, k: int| #![trigger list@[m], list@[k]]
                0 <= m < k < list.len() ==> list@[m].end <= list@[k].start,
            forall|k: int, i: int, j: usize| #![trigger list@[k], aligned_in(rows@, list@[k], i, j as int)]
                0 <= k < n && list@[k].start <= i < list@[k].split ==> (
                    pairs@[i] == Some(j) <==> aligned_in(rows@, list@[k], i, j as int)
                ),
            forall|k: int, i: usize, j: int| #![trigger list@[k], aligned_in(rows@, list@[k], i as int, j)]
                0 <= k < n && list@[k].split <= j < list@[k].end ==> (
                    pairs@[j] == Some(i) <==> aligned_in(rows@, list@[k], i as int, j)
                ),
            forall|i: int| #![trigger pairs@[i]] 0 <= i < pairs.len() && pairs@[i] is Some ==> exists|k: int|
                #![trigger list@[k]] 0 <= k < n && list@[k].start <= i < list@[k].end,
        decreases list.len() - n,
    {
        let b: Block = list[n];
        let ghost before = pairs@;
        proof {
            assert forall|i: int| b.start <= i < b.end implies #[trigger] pairs@[i] is None by {
                if pairs@[i] is Some {
                    let k = choose|k: int| #![trigger list@[k]] 0 <= k < n && list@[k].start <= i < list@[k].end;
                    assert(list@[k].end <= list@[n as int].start);
                }
            }
        }
        if b.end - b.start <= MAX_BLOCK_LINES {
            align_block(rows, &mut pairs, b);
        }
        proof {
            assert forall|k: int, i: int, j: usize| #![trigger list@[k], aligned_in(rows@, list@[k], i, j as int)]
                0 <= k < n + 1 && list@[k].start <= i < list@[k].split implies (
                    pairs@[i] == Some(j) <==> aligned_in(rows@, list@[k], i, j as int)
                ) by {
                if k < n {
                    assert(list@[k].end <= list@[n as int].start);
                    assert(before[i] == pairs@[i]);
                } else {
                    assert(aligned_in(rows@, b, i, j as int) == aligned_in(rows@, list@[k], i, j as int));
                    assert(before[i] is None);
                }
            }
            assert forall|k: int, i: usize, j: int| #![trigger list@[k], aligned_in(rows@, list@[k], i as int, j)]
                0 <= k < n + 1 && list@[k].split <= j < list@[k].end implies (
                    pairs@[j] == Some(i) <==> aligned_in(rows@, list@[k], i as int, j)
                ) by {
                if k < n {
                    assert(list@[k].end <= list@[n as int].start);
                    assert(before[j] == pairs@[j]);
                } else {
                    assert(aligned_in(rows@, b, i as int, j) == aligned_in(rows@, list@[k], i as int, j));
                    assert(before[j] is None);
                }
            }
            assert forall|i: int| #![trigger pairs@[i]] 0 <= i < pairs.len() && pairs@[i] is Some implies exists|k: int|
                #![trigger list@[k]] 0 <= k < n + 1 && list@[k].start <= i < list@[k].end by {
                if b.start <= i < b.end {
                    assert(list@[n as int] == b);
                } else {
                    assert(before[i] == pairs@[i]);
                }
            }
        }
        n = n + 1;
    }
    proof {
        assert forall|i: int, j: int| #![trigger aligned(rows@, i, j)] 0 <= i < j < rows.len() implies {
            &&& aligned(rows@, i, j) <==> pairs@[i] == Some(j as usize)
            &&& aligned(rows@, i, j) <==> pairs@[j] == Some(i as usize)
        } by {
            if aligned(rows@, i, j) {
                let b = choose|b: Block| #[trigger] is_block(row_kinds(rows@), b) && aligned_in(rows@, b, i, j);
                assert(list@.contains(b));
                let k = choose|k: int| 0 <= k < list.len() && list@[k] == b;
                assert(aligned_in(rows@, list@[k], i, (j as usize) as int));
                assert(aligned_in(rows@, list@[k], (i as usize) as int, j));
            }
            if pairs@[i] == Some(j as usize) {
                let k = choose|k: int| #![trigger list@[k]] 0 <= k < list.len() && list@[k].start <= i < list@[k].end;
                if i < list@[k].split {
                    assert(aligned_in(rows@, list@[k], i, (j as usize) as int) ==> aligned(rows@, i, j));
                } else {
                    assert(!aligned_in(rows@, list@[k], (j as usize) as int, i));
                }
            }
            if pairs@[j] == Some(i as usize) {
                let k = choose|k: int| #![trigger list@[k]] 0 <= k < list.len() && list@[k].start <= j < list@[k].end;
                if j >= list@[k].split {
                    assert(aligned_in(rows@, list@[k], (i as usize) as int, j) ==> aligned(rows@, i, j));
                } else {
                    assert(!aligned_in(rows@, list@[k], j, (i as usize) as int));
                }
            }
        }
        assert forall|i: int| #![trigger pairs@[i]] 0 <= i < rows.len() && pairs@[i] is Some implies
            pairs@[i]->0 < rows.len() && pairs@[i]->0 != i by {
            let k = choose|k: int| #![trigger list@[k]] 0 <= k < list.len() && list@[k].start <= i < list@[k].end;
            let p = pairs@[i]->0;
            assert(is_block(all, list@[k]));
            if i < list@[k].split {
                assert(aligned_in(rows@, list@[k], i, p as int));
            } else {
                assert(aligned_in(rows@, list@[k], p as int, i));
            }
        }
    }
    pairs
}

pub open spec fn kind_of_row(row: DiffRow) -> RowKind {
    match row {
        DiffRow::HunkHeader(_) => RowKind::Header,
        DiffRow::Context { .. } => RowKind::Context,
        DiffRow::Del { .. } => RowKind::Del,
        DiffRow::Add { .. } => RowKind::Add,
    }
}

/// The pairing kind of a snapshot row.
pub fn row_kind(row: &DiffRow) -> (kind: RowKind)
    ensures
        kind == kind_of_row(*row),
{
    match row {
        DiffRow::HunkHeader(_) => RowKind::Header,
        DiffRow::Context { .. } => RowKind::Context,
        DiffRow::Del { .. } => RowKind::Del,
        DiffRow::Add { .. } => RowKind::Add,
    }
}

pub open spec fn text_of_row(row: DiffRow) -> Seq<char> {
    match row {
        DiffRow::HunkHeader(h) => h@,
        DiffRow::Context { text, .. } => text@,
        DiffRow::Del { text, .. } => text@,
        DiffRow::Add { text, .. } => text@,
    }
}

/// The source text of a diff row (headers count as their full text).
pub fn row_text(row: &DiffRow) -> (text: &str)
    ensures
        text@ == text_of_row(*row),
{
    match row {
        DiffRow::HunkHeader(h) => h.as_str(),
        DiffRow::Add { text, .. } => text.as_str(),
        DiffRow::Del { text, .. } => text.as_str(),
        DiffRow::Context { text, .. } => text.as_str(),
    }
}

/// Token class: word characters, white space, or anything else.
#[derive(Debug, Clone, Copy, PartialEq, Eq, Structural)]
pub enum Class {
    Word,
    Space,
    Other,
}

pub open spec fn class_of(c: char) -> Class {
    if c == '_' || alphanumeric_char(c) {
        Class::Word
    } else if space_char(c) {
        Class::Space
    } else {
        Class::Other
    }
}

pub fn classify(c: char) -> (class: Class)
    ensures
        class == class_of(c),
{
    if c == '_' || c.is_alphanumeric() {
        Class::Word
    } else if c.is_whitespace() {
        Class::Space
    } else {
        Class::Other
    }
}

/// The class of a whole token: tokens are runs of one class, so the first character tells.
pub open spec fn token_class(token: Seq<char>) -> Class {
    class_of(if token.len() > 0 { token[0] } else { ' ' })
}

/// The class of a whole token (tokens are maximal same-class runs, so this reads the
/// first char).
pub fn classify_token(token: &str) -> (class: Class)
    ensures
        class == token_class(token@),
{
    let chars = chars_of(token);
    if chars.len() > 0 {
        classify(chars[0])
    } else {
        classify(' ')
    }
}

/// The maximal runs of one class in `s`, in order.
pub open spec fn tokens_of(s: Seq<char>) -> Seq<Seq<char>>
    decreases s.len(),
{
    if s.len() == 0 {
        Seq::empty()
    } else {
        let before = tokens_of(s.drop_last());
        if before.len() > 0 && class_of(before.last().last()) == class_of(s.last()) {
            before.update(before.len() - 1, before.last().push(s.last()))
        } else {
            before.push(seq![s.last()])
        }
    }
}

/// Tokens lose nothing: they concatenate back to the line.
pub proof fn law_tokens_are_lossless(s: Seq<char>)
    ensures
        concat(tokens_of(s)) == s,
    decreases s.len(),
{
    if s.len() == 0 {
        assert(concat(tokens_of(s)) =~= s);
    } else {
        law_tokens_are_lossless(s.drop_last());
        let before = tokens_of(s.drop_last());
        let after = tokens_of(s);
        if before.len() > 0 && class_of(before.last().last()) == class_of(s.last()) {
            assert(after.drop_last() =~= before.drop_last());
            assert(concat(after) =~= concat(before).push(s.last()));
        } else {
            assert(after.drop_last() =~= before);
        }
        assert(concat(after) =~= s);
    }
}

/// Every token is a non-empty run of one class, and neighbours differ in class.
pub proof fn law_tokens_are_maximal_runs(s: Seq<char>)
    ensures
        forall|k: int| #![trigger tokens_of(s)[k]] 0 <= k < tokens_of(s).len() ==> tokens_of(s)[k].len() > 0,
        forall|k: int, c: int| #![trigger tokens_of(s)[k][c]]
            0 <= k < tokens_of(s).len() && 0 <= c < tokens_of(s)[k].len() ==> class_of(tokens_of(s)[k][c])
                == token_class(tokens_of(s)[k]),
        forall|k: int, l: int| #![trigger tokens_of(s)[k], tokens_of(s)[l]]
            0 <= k && l == k + 1 && l < tokens_of(s).len() ==> token_class(tokens_of(s)[k])
                != token_class(tokens_of(s)[l]),
    decreases s.len(),
{
    if s.len() > 0 {
        law_tokens_are_maximal_runs(s.drop_last());
        let before = tokens_of(s.drop_last());
        let after = tokens_of(s);
        if before.len() > 0 {
            let last = before.last();
            assert(last == before[before.len() - 1]);
            assert(last[last.len() - 1] == last.last());
            assert(class_of(last.last()) == token_class(last));
            if class_of(last.last()) == class_of(s.last()) {
                assert(after.last() == last.push(s.last()));
                assert(token_class(after.last()) == token_class(last));
                assert forall|k: int| 0 <= k < after.len() - 1 implies after[k] == before[k] by {}
                assert forall|k: int, c: int| #![trigger after[k][c]]
                    0 <= k < after.len() && 0 <= c < after[k].len() implies class_of(after[k][c])
                        == token_class(after[k]) by {
                    if k == after.len() - 1 && c < last.len() {
                        assert(class_of(before[k][c]) == token_class(before[k]));
                    } else if k < after.len() - 1 {
                        assert(class_of(before[k][c]) == token_class(before[k]));
                    }
                }
            } else {
                assert forall|k: int, c: int| #![trigger after[k][c]]
                    0 <= k < after.len() && 0 <= c < after[k].len() implies class_of(after[k][c])
                        == token_class(after[k]) by {
                    if k < after.len() - 1 {
                        assert(class_of(before[k][c]) == token_class(before[k]));
                    }
                }
            }
        }
    }
}

/// Split `s` into maximal same-class runs. Splitting words from punctuation (`foo(1)` to
/// `foo`, `(`, `1`, `)`) keeps a one-argument edit from highlighting the whole call.
pub fn tokenize_words(s: &str) -> (tokens: Vec<String>)
    ensures
        texts(tokens@) == tokens_of(s@),
{
    let chars = chars_of(s);
    let mut done: Vec<String> = Vec::new();
    let mut run = String::new();
    let mut i: usize = 0;
    while i < chars.len()
        invariant
            i <= chars.len(),
            chars@ == s@,
            i == 0 ==> run@.len() == 0 && done.len() == 0,
            i > 0 ==> run@.len() > 0 && run@.last() == chars@[i - 1],
            tokens_of(chars@.take(i as int)) == (if i == 0 { texts(done@) } else { texts(done@).push(run@) }),
        decreases chars.len() - i,
    {
        let ghost before = tokens_of(chars@.take(i as int));
        proof {
            assert(chars@.take(i + 1).drop_last() =~= chars@.take(i as int));
        }
        if i > 0 && classify(chars[i - 1]) != classify(chars[i]) {
            done.push(run);
            run = String::new();
            proof {
                assert(texts(done@) =~= before);
            }
        } else if i == 0 {
            proof {
                assert(before =~= Seq::empty());
            }
        }
        let ghost kept = run@;
        run.push(chars[i]);
        proof {
            assert(kept.len() == 0 ==> run@ =~= seq![chars@[i as int]]);
            assert(texts(done@).push(run@) =~= tokens_of(chars@.take(i + 1)));
        }
        i = i + 1;
    }
    proof {
        assert(chars@.take(chars.len() as int) =~= chars@);
    }
    if chars.len() > 0 {
        let ghost before = texts(done@).push(run@);
        done.push(run);
        proof {
            assert(texts(done@) =~= before);
        }
    } else {
        proof {
            assert(texts(done@) =~= tokens_of(s@));
        }
    }
    done
}

/// The byte at which token `k` begins.
pub open spec fn token_offset(tokens: Seq<Seq<char>>, k: int) -> int {
    byte_len(concat(tokens.take(k))) as int
}

/// Spans as pairs of numbers.
pub open spec fn ints(spans: Seq<(usize, usize)>) -> Seq<(int, int)> {
    Seq::new(spans.len(), |i: int| (spans[i].0 as int, spans[i].1 as int))
}

/// `spans` with `start..end` added, as one span with the last where the two touch.
pub open spec fn with_span(spans: Seq<(int, int)>, start: int, end: int) -> Seq<(int, int)> {
    if spans.len() > 0 && spans.last().1 == start {
        spans.update(spans.len() - 1, (spans.last().0, end))
    } else {
        spans.push((start, end))
    }
}

/// The bytes of the old tokens that the first `n` steps delete.
pub open spec fn deleted_spans(tokens: Seq<Seq<char>>, edits: Seq<Edit>, n: int) -> Seq<(int, int)>
    decreases n,
{
    if n <= 0 {
        Seq::empty()
    } else if edits[n - 1] == Edit::Delete {
        let k = old_count(edits, n - 1);
        with_span(deleted_spans(tokens, edits, n - 1), token_offset(tokens, k), token_offset(tokens, k + 1))
    } else {
        deleted_spans(tokens, edits, n - 1)
    }
}

/// The bytes of the new tokens that the first `n` steps insert.
pub open spec fn inserted_spans(tokens: Seq<Seq<char>>, edits: Seq<Edit>, n: int) -> Seq<(int, int)>
    decreases n,
{
    if n <= 0 {
        Seq::empty()
    } else if edits[n - 1] == Edit::Insert {
        let k = new_count(edits, n - 1);
        with_span(inserted_spans(tokens, edits, n - 1), token_offset(tokens, k), token_offset(tokens, k + 1))
    } else {
        inserted_spans(tokens, edits, n - 1)
    }
}

/// Whether the script keeps a word of the old side. Punctuation survives most edits; only
/// a shared word shows that the two lines are one statement that changed.
pub open spec fn keeps_word(tokens: Seq<Seq<char>>, edits: Seq<Edit>, n: int) -> bool {
    exists|m: int| 0 <= m < n && #[trigger] keeps_word_at(tokens, edits, m)
}

/// Whether step `m` keeps a word of the old side.
pub open spec fn keeps_word_at(tokens: Seq<Seq<char>>, edits: Seq<Edit>, m: int) -> bool {
    edits[m] == Edit::Equal && token_class(tokens[old_count(edits, m)]) == Class::Word
}

/// Spans in order, each non-empty, with a gap between each two, all within `len` bytes.
pub open spec fn well_placed(spans: Seq<(int, int)>, len: int) -> bool {
    &&& forall|i: int| #![trigger spans[i]] 0 <= i < spans.len() ==> 0 <= spans[i].0 < spans[i].1 <= len
    &&& forall|i: int, j: int| #![trigger spans[i], spans[j]] 0 <= i < j < spans.len() ==> spans[i].1 < spans[j].0
}

proof fn lemma_token_offset(tokens: Seq<Seq<char>>, k: int)
    requires
        0 <= k < tokens.len(),
        forall|t: int| #![trigger tokens[t]] 0 <= t < tokens.len() ==> tokens[t].len() > 0,
    ensures
        token_offset(tokens, k + 1) == token_offset(tokens, k) + byte_len(tokens[k]),
        token_offset(tokens, k) < token_offset(tokens, k + 1),
        token_offset(tokens, 0) == 0,
{
    assert(tokens.take(k + 1).drop_last() =~= tokens.take(k));
    assert(tokens.take(k + 1).last() == tokens[k]);
    lemma_byte_len_concat(concat(tokens.take(k)), tokens[k]);
    assert(concat(tokens.take(0)) =~= Seq::empty());
    lemma_byte_len_positive(tokens[k]);
}

proof fn lemma_byte_len_positive(s: Seq<char>)
    requires
        s.len() > 0,
    ensures
        byte_len(s) > 0,
{
}

proof fn lemma_token_offset_monotone(tokens: Seq<Seq<char>>, j: int, k: int)
    requires
        0 <= j <= k <= tokens.len(),
        forall|t: int| #![trigger tokens[t]] 0 <= t < tokens.len() ==> tokens[t].len() > 0,
    ensures
        token_offset(tokens, j) <= token_offset(tokens, k),
    decreases k - j,
{
    if j < k {
        lemma_token_offset(tokens, j);
        lemma_token_offset_monotone(tokens, j + 1, k);
    }
}

/// The spans of both sides are sorted, never overlap or touch, and stay inside the bytes
/// consumed so far.
pub proof fn lemma_spans_well_placed(
    old_tokens: Seq<Seq<char>>,
    new_tokens: Seq<Seq<char>>,
    edits: Seq<Edit>,
    n: int,
)
    requires
        0 <= n <= edits.len(),
        old_count(edits, n) <= old_tokens.len(),
        new_count(edits, n) <= new_tokens.len(),
        forall|t: int| #![trigger old_tokens[t]] 0 <= t < old_tokens.len() ==> old_tokens[t].len() > 0,
        forall|t: int| #![trigger new_tokens[t]] 0 <= t < new_tokens.len() ==> new_tokens[t].len() > 0,
    ensures
        well_placed(deleted_spans(old_tokens, edits, n), token_offset(old_tokens, old_count(edits, n))),
        well_placed(inserted_spans(new_tokens, edits, n), token_offset(new_tokens, new_count(edits, n))),
    decreases n,
{
    if n > 0 {
        lemma_counts_monotone(edits, n - 1, n);
        lemma_spans_well_placed(old_tokens, new_tokens, edits, n - 1);
        let d = old_count(edits, n - 1);
        let a = new_count(edits, n - 1);
        if edits[n - 1] != Edit::Insert {
            lemma_token_offset(old_tokens, d);
        }
        if edits[n - 1] != Edit::Delete {
            lemma_token_offset(new_tokens, a);
        }
    }
}

/// Whether byte `p` of a line lies in one of `spans`.
pub open spec fn covered(spans: Seq<(int, int)>, p: int) -> bool {
    exists|i: int| #![trigger spans[i]] 0 <= i < spans.len() && spans[i].0 <= p < spans[i].1
}

proof fn lemma_with_span_covers(spans: Seq<(int, int)>, start: int, end: int, p: int)
    requires
        start < end,
        spans.len() > 0 ==> spans.last().0 < spans.last().1,
    ensures
        covered(with_span(spans, start, end), p) <==> covered(spans, p) || start <= p < end,
{
    let after = with_span(spans, start, end);
    if covered(spans, p) {
        let i = choose|i: int| #![trigger spans[i]] 0 <= i < spans.len() && spans[i].0 <= p < spans[i].1;
        assert(after[i].0 <= p < after[i].1);
    }
    if start <= p < end {
        let last = after.len() - 1;
        assert(after[last].0 <= p < after[last].1);
    }
    if covered(after, p) {
        let i = choose|i: int| #![trigger after[i]] 0 <= i < after.len() && after[i].0 <= p < after[i].1;
        if i < spans.len() && !(start <= p < end) {
            assert(spans[i].0 <= p < spans[i].1);
        }
    }
}

/// Whether step `m` deletes the token that byte `p` of the old line belongs to.
pub open spec fn deletes_byte(tokens: Seq<Seq<char>>, edits: Seq<Edit>, m: int, p: int) -> bool {
    let k = old_count(edits, m);
    edits[m] == Edit::Delete && token_offset(tokens, k) <= p < token_offset(tokens, k + 1)
}

/// Whether step `m` inserts the token that holds byte `p`.
pub open spec fn inserts_byte(tokens: Seq<Seq<char>>, edits: Seq<Edit>, m: int, p: int) -> bool {
    let k = new_count(edits, m);
    edits[m] == Edit::Insert && token_offset(tokens, k) <= p < token_offset(tokens, k + 1)
}

/// A byte of the old line is highlighted exactly where it belongs to a token that the
/// script deletes.
pub proof fn law_deleted_bytes(tokens: Seq<Seq<char>>, edits: Seq<Edit>, n: int, p: int)
    requires
        0 <= n <= edits.len(),
        old_count(edits, n) <= tokens.len(),
        forall|t: int| #![trigger tokens[t]] 0 <= t < tokens.len() ==> tokens[t].len() > 0,
    ensures
        covered(deleted_spans(tokens, edits, n), p) <==> exists|m: int|
            0 <= m < n && #[trigger] deletes_byte(tokens, edits, m, p),
    decreases n,
{
    if n > 0 {
        lemma_counts_monotone(edits, n - 1, n);
        law_deleted_bytes(tokens, edits, n - 1, p);
        if edits[n - 1] == Edit::Delete {
            let d = old_count(edits, n - 1);
            lemma_token_offset(tokens, d);
            lemma_deleted_well_placed(tokens, edits, n - 1);
            lemma_with_span_covers(
                deleted_spans(tokens, edits, n - 1),
                token_offset(tokens, d),
                token_offset(tokens, d + 1),
                p,
            );
            assert(deletes_byte(tokens, edits, n - 1, p) <==> token_offset(tokens, d) <= p < token_offset(tokens, d + 1));
        }
    }
}

proof fn lemma_deleted_well_placed(tokens: Seq<Seq<char>>, edits: Seq<Edit>, n: int)
    requires
        0 <= n <= edits.len(),
        old_count(edits, n) <= tokens.len(),
        forall|t: int| #![trigger tokens[t]] 0 <= t < tokens.len() ==> tokens[t].len() > 0,
    ensures
        well_placed(deleted_spans(tokens, edits, n), token_offset(tokens, old_count(edits, n))),
    decreases n,
{
    if n > 0 {
        lemma_counts_monotone(edits, n - 1, n);
        lemma_deleted_well_placed(tokens, edits, n - 1);
        if edits[n - 1] != Edit::Insert {
            lemma_token_offset(tokens, old_count(edits, n - 1));
        }
    }
}

/// The characters of a line whose bytes lie in none of `spans`.
pub open spec fn outside(s: Seq<char>, spans: Seq<(int, int)>) -> Seq<char>
    decreases s.len(),
{
    if s.len() == 0 {
        Seq::empty()
    } else {
        let before = outside(s.drop_last(), spans);
        if covered(spans, byte_len(s.drop_last()) as int) {
            before
        } else {
            before.push(s.last())
        }
    }
}

/// Whether a text holds a word character.
pub open spec fn has_word(s: Seq<char>) -> bool {
    exists|i: int| 0 <= i < s.len() && class_of(#[trigger] s[i]) == Class::Word
}

/// The old tokens that the first `n` steps keep, as one text.
spec fn kept_text(tokens: Seq<Seq<char>>, edits: Seq<Edit>, n: int) -> Seq<char>
    decreases n,
{
    if n <= 0 {
        Seq::empty()
    } else if edits[n - 1] == Edit::Equal {
        kept_text(tokens, edits, n - 1) + tokens[old_count(edits, n - 1)]
    } else {
        kept_text(tokens, edits, n - 1)
    }
}

/// A script read from the other side.
spec fn flipped(edits: Seq<Edit>) -> Seq<Edit> {
    Seq::new(
        edits.len(),
        |n: int|
            match edits[n] {
                Edit::Equal => Edit::Equal,
                Edit::Delete => Edit::Insert,
                Edit::Insert => Edit::Delete,
            },
    )
}

proof fn lemma_flipped(tokens: Seq<Seq<char>>, edits: Seq<Edit>, n: int)
    requires
        0 <= n <= edits.len(),
    ensures
        old_count(flipped(edits), n) == new_count(edits, n),
        deleted_spans(tokens, flipped(edits), n) == inserted_spans(tokens, edits, n),
    decreases n,
{
    if n > 0 {
        lemma_flipped(tokens, edits, n - 1);
    }
}

/// A byte of the new line is marked exactly where an inserted token holds it.
pub proof fn law_inserted_bytes(tokens: Seq<Seq<char>>, edits: Seq<Edit>, n: int, p: int)
    requires
        0 <= n <= edits.len(),
        new_count(edits, n) <= tokens.len(),
        forall|t: int| #![trigger tokens[t]] 0 <= t < tokens.len() ==> tokens[t].len() > 0,
    ensures
        covered(inserted_spans(tokens, edits, n), p) <==> exists|m: int|
            0 <= m < n && #[trigger] inserts_byte(tokens, edits, m, p),
{
    lemma_flipped(tokens, edits, n);
    law_deleted_bytes(tokens, flipped(edits), n, p);
    if exists|m: int| 0 <= m < n && #[trigger] inserts_byte(tokens, edits, m, p) {
        let m = choose|m: int| 0 <= m < n && #[trigger] inserts_byte(tokens, edits, m, p);
        lemma_flipped(tokens, edits, m);
        assert(deletes_byte(tokens, flipped(edits), m, p));
    }
    if exists|m: int| 0 <= m < n && #[trigger] deletes_byte(tokens, flipped(edits), m, p) {
        let m = choose|m: int| 0 <= m < n && #[trigger] deletes_byte(tokens, flipped(edits), m, p);
        lemma_flipped(tokens, edits, m);
        assert(inserts_byte(tokens, edits, m, p));
    }
}

/// Text behind `s` is left out where all of it is covered, and kept where none of it is.
proof fn lemma_outside_append(s: Seq<char>, t: Seq<char>, spans: Seq<(int, int)>, inside: bool)
    requires
        forall|p: int|
            byte_len(s) <= p < byte_len(s) + byte_len(t) ==> #[trigger] covered(spans, p) == inside,
    ensures
        outside(s + t, spans) == if inside { outside(s, spans) } else { outside(s, spans) + t },
    decreases t.len(),
{
    if t.len() == 0 {
        assert(s + t =~= s);
        assert(outside(s, spans) + t =~= outside(s, spans));
    } else {
        let rest = t.drop_last();
        assert(t =~= rest + seq![t.last()]);
        lemma_byte_len_concat(rest, seq![t.last()]);
        lemma_byte_len_positive(seq![t.last()]);
        lemma_byte_len_concat(s, rest);
        lemma_outside_append(s, rest, spans, inside);
        assert((s + t).drop_last() =~= s + rest);
        assert(covered(spans, byte_len(s + rest) as int) == inside);
        assert((outside(s, spans) + rest).push(t.last()) =~= outside(s, spans) + t);
    }
}

/// What is left of the old line outside the deleted bytes are the kept tokens.
proof fn lemma_outside_is_kept(tokens: Seq<Seq<char>>, edits: Seq<Edit>, n: int)
    requires
        0 <= n <= edits.len(),
        old_count(edits, edits.len() as int) == tokens.len(),
        forall|t: int| #![trigger tokens[t]] 0 <= t < tokens.len() ==> tokens[t].len() > 0,
    ensures
        outside(
            concat(tokens.take(old_count(edits, n))),
            deleted_spans(tokens, edits, edits.len() as int),
        ) == kept_text(tokens, edits, n),
    decreases n,
{
    let len = edits.len() as int;
    let spans = deleted_spans(tokens, edits, len);
    if n == 0 {
        assert(concat(tokens.take(0)) =~= Seq::empty());
    } else {
        lemma_outside_is_kept(tokens, edits, n - 1);
        lemma_counts_monotone(edits, n - 1, n);
        lemma_counts_monotone(edits, n, len);
        let k = old_count(edits, n - 1);
        if edits[n - 1] != Edit::Insert {
            let inside = edits[n - 1] == Edit::Delete;
            let s = concat(tokens.take(k));
            lemma_token_offset(tokens, k);
            assert(tokens.take(k + 1).drop_last() =~= tokens.take(k));
            assert(tokens.take(k + 1).last() == tokens[k]);
            assert forall|p: int| byte_len(s) <= p < byte_len(s) + byte_len(tokens[k]) implies #[trigger] covered(
                spans,
                p,
            ) == inside by {
                law_deleted_bytes(tokens, edits, len, p);
                if inside {
                    assert(deletes_byte(tokens, edits, n - 1, p));
                } else if covered(spans, p) {
                    let m = choose|m: int| 0 <= m < len && #[trigger] deletes_byte(tokens, edits, m, p);
                    if m < n - 1 {
                        lemma_counts_monotone(edits, m + 1, n - 1);
                        lemma_counts_monotone(edits, 0, m);
                        lemma_token_offset_monotone(tokens, old_count(edits, m) + 1, k);
                    } else if m > n - 1 {
                        lemma_counts_monotone(edits, n, m);
                        lemma_counts_monotone(edits, m + 1, len);
                        lemma_token_offset_monotone(tokens, k + 1, old_count(edits, m));
                    }
                }
            }
            lemma_outside_append(s, tokens[k], spans, inside);
        }
    }
}

proof fn lemma_same_kept_text(old_tokens: Seq<Seq<char>>, new_tokens: Seq<Seq<char>>, edits: Seq<Edit>, n: int)
    requires
        0 <= n <= edits.len(),
        forall|m: int| 0 <= m < edits.len() ==> #[trigger] keeps_same(edits, old_tokens, new_tokens, m),
    ensures
        kept_text(old_tokens, edits, n) == kept_text(new_tokens, flipped(edits), n),
    decreases n,
{
    if n > 0 {
        lemma_same_kept_text(old_tokens, new_tokens, edits, n - 1);
        lemma_flipped(new_tokens, edits, n - 1);
        assert(keeps_same(edits, old_tokens, new_tokens, n - 1));
    }
}

proof fn lemma_kept_word(tokens: Seq<Seq<char>>, edits: Seq<Edit>, n: int)
    requires
        0 <= n <= edits.len(),
        old_count(edits, n) <= tokens.len(),
        forall|t: int| #![trigger tokens[t]] 0 <= t < tokens.len() ==> tokens[t].len() > 0,
        keeps_word(tokens, edits, n),
    ensures
        has_word(kept_text(tokens, edits, n)),
    decreases n,
{
    let m = choose|m: int| 0 <= m < n && #[trigger] keeps_word_at(tokens, edits, m);
    let kept = kept_text(tokens, edits, n);
    let before = kept_text(tokens, edits, n - 1);
    lemma_counts_monotone(edits, n - 1, n);
    if m < n - 1 {
        assert(keeps_word(tokens, edits, n - 1));
        lemma_kept_word(tokens, edits, n - 1);
        let i = choose|i: int| 0 <= i < before.len() && class_of(#[trigger] before[i]) == Class::Word;
        assert(kept[i] == before[i]);
    } else {
        let token = tokens[old_count(edits, m)];
        assert(kept[before.len() as int] == token[0]);
    }
}

/// What is not highlighted is the same on both sides, and holds a word character: the words
/// outside the highlights are one statement that changed.
pub proof fn law_unmarked_text_is_shared(
    old_tokens: Seq<Seq<char>>,
    new_tokens: Seq<Seq<char>>,
    edits: Seq<Edit>,
)
    requires
        old_count(edits, edits.len() as int) == old_tokens.len(),
        new_count(edits, edits.len() as int) == new_tokens.len(),
        forall|n: int| 0 <= n < edits.len() ==> #[trigger] keeps_same(edits, old_tokens, new_tokens, n),
        forall|t: int| #![trigger old_tokens[t]] 0 <= t < old_tokens.len() ==> old_tokens[t].len() > 0,
        forall|t: int| #![trigger new_tokens[t]] 0 <= t < new_tokens.len() ==> new_tokens[t].len() > 0,
    ensures
        ({
            let spans = spans_of_edits(old_tokens, new_tokens, edits);
            spans.0.len() > 0 || spans.1.len() > 0 ==> shares_words(
                concat(old_tokens),
                spans.0,
                concat(new_tokens),
                spans.1,
            )
        }),
{
    let len = edits.len() as int;
    if keeps_word(old_tokens, edits, len) {
        lemma_outside_is_kept(old_tokens, edits, len);
        lemma_flipped(new_tokens, edits, len);
        lemma_outside_is_kept(new_tokens, flipped(edits), len);
        lemma_same_kept_text(old_tokens, new_tokens, edits, len);
        lemma_kept_word(old_tokens, edits, len);
        assert(old_tokens.take(old_tokens.len() as int) =~= old_tokens);
        assert(new_tokens.take(new_tokens.len() as int) =~= new_tokens);
    }
}

/// Whether two lines are the same text outside their spans, with a word character in it.
pub open spec fn shares_words(
    old: Seq<char>,
    old_spans: Seq<(int, int)>,
    new: Seq<char>,
    new_spans: Seq<(int, int)>,
) -> bool {
    outside(old, old_spans) == outside(new, new_spans) && has_word(outside(old, old_spans))
}

/// What [`changed_spans`] returns.
pub open spec fn changed_spans_spec(old: Seq<char>, new: Seq<char>) -> (Seq<(int, int)>, Seq<(int, int)>) {
    let edits = token_edits(tokens_of(old), tokens_of(new));
    if old.len() > MAX_LINE_CHARS || new.len() > MAX_LINE_CHARS {
        (Seq::empty(), Seq::empty())
    } else {
        spans_of_edits(tokens_of(old), tokens_of(new), edits)
    }
}

/// The highlights of both sides of an edit script: nothing unless it keeps a word.
pub open spec fn spans_of_edits(
    old_tokens: Seq<Seq<char>>,
    new_tokens: Seq<Seq<char>>,
    edits: Seq<Edit>,
) -> (Seq<(int, int)>, Seq<(int, int)>) {
    let n = edits.len() as int;
    if keeps_word(old_tokens, edits, n) {
        (deleted_spans(old_tokens, edits, n), inserted_spans(new_tokens, edits, n))
    } else {
        (Seq::empty(), Seq::empty())
    }
}

/// Append `[start, end)` to `spans`, merging with the previous span when they touch:
/// adjacent changed tokens read as one highlight.
fn push_span(spans: &mut Vec<(usize, usize)>, start: usize, end: usize)
    ensures
        ints(final(spans)@) == with_span(ints(old(spans)@), start as int, end as int),
{
    let n: usize = spans.len();
    if n > 0 && spans[n - 1].1 == start {
        let first: usize = spans[n - 1].0;
        spans.set(n - 1, (first, end));
    } else {
        spans.push((start, end));
    }
    proof {
        assert(ints(spans@) =~= with_span(ints(old(spans)@), start as int, end as int));
    }
}

/// The highlights that an edit script between two token lists gives.
pub fn spans_from_edits(
    old_tokens: &Vec<String>,
    new_tokens: &Vec<String>,
    edits: &Vec<Edit>,
) -> (spans: (ByteSpans, ByteSpans))
    requires
        old_count(edits@, edits.len() as int) == old_tokens.len(),
        new_count(edits@, edits.len() as int) == new_tokens.len(),
        forall|n: int| 0 <= n < edits.len() ==> #[trigger] keeps_same(edits@, texts(old_tokens@), texts(new_tokens@), n),
        byte_len(concat(texts(old_tokens@))) <= usize::MAX,
        byte_len(concat(texts(new_tokens@))) <= usize::MAX,
        forall|t: int| #![trigger old_tokens@[t]] 0 <= t < old_tokens.len() ==> old_tokens@[t]@.len() > 0,
        forall|t: int| #![trigger new_tokens@[t]] 0 <= t < new_tokens.len() ==> new_tokens@[t]@.len() > 0,
    ensures
        (ints(spans.0@), ints(spans.1@)) == spans_of_edits(texts(old_tokens@), texts(new_tokens@), edits@),
        spans.0.len() > 0 || spans.1.len() > 0 ==> shares_words(
            concat(texts(old_tokens@)),
            ints(spans.0@),
            concat(texts(new_tokens@)),
            ints(spans.1@),
        ),
{
    let ghost ot = texts(old_tokens@);
    let ghost nt = texts(new_tokens@);
    let mut old_spans: Vec<(usize, usize)> = Vec::new();
    let mut new_spans: Vec<(usize, usize)> = Vec::new();
    let mut old_at: usize = 0;
    let mut new_at: usize = 0;
    let mut old_pos: usize = 0;
    let mut new_pos: usize = 0;
    let mut shared_word: bool = false;
    let mut n: usize = 0;
    proof {
        assert(ints(old_spans@) =~= Seq::empty());
        assert(ints(new_spans@) =~= Seq::empty());
        assert(concat(ot.take(0)) =~= Seq::empty());
        assert(concat(nt.take(0)) =~= Seq::empty());
        assert(ot.take(ot.len() as int) =~= ot);
        assert(nt.take(nt.len() as int) =~= nt);
        assert forall|t: int| #![trigger ot[t]] 0 <= t < ot.len() implies ot[t].len() > 0 by {
            assert(old_tokens@[t]@.len() > 0);
        }
        assert forall|t: int| #![trigger nt[t]] 0 <= t < nt.len() implies nt[t].len() > 0 by {
            assert(new_tokens@[t]@.len() > 0);
        }
        law_unmarked_text_is_shared(ot, nt, edits@);
    }
    let ghost result = spans_of_edits(ot, nt, edits@);
    while n < edits.len()
        invariant
            n <= edits.len(),
            ot == texts(old_tokens@),
            nt == texts(new_tokens@),
            old_count(edits@, edits.len() as int) == old_tokens.len(),
            new_count(edits@, edits.len() as int) == new_tokens.len(),
            forall|m: int| 0 <= m < edits.len() ==> #[trigger] keeps_same(edits@, ot, nt, m),
            token_offset(ot, ot.len() as int) <= usize::MAX,
            token_offset(nt, nt.len() as int) <= usize::MAX,
            forall|t: int| #![trigger ot[t]] 0 <= t < ot.len() ==> ot[t].len() > 0,
            forall|t: int| #![trigger nt[t]] 0 <= t < nt.len() ==> nt[t].len() > 0,
            old_at == old_count(edits@, n as int) <= ot.len(),
            new_at == new_count(edits@, n as int) <= nt.len(),
            old_pos == token_offset(ot, old_at as int),
            new_pos == token_offset(nt, new_at as int),
            ints(old_spans@) == deleted_spans(ot, edits@, n as int),
            ints(new_spans@) == inserted_spans(nt, edits@, n as int),
            shared_word == keeps_word(ot, edits@, n as int),
        decreases edits.len() - n,
    {
        let edit: Edit = edits[n];
        proof {
            lemma_counts_monotone(edits@, n + 1, edits.len() as int);
            if edit != Edit::Insert {
                lemma_token_offset(ot, old_at as int);
                lemma_token_offset_monotone(ot, old_at + 1, ot.len() as int);
            }
            if edit != Edit::Delete {
                lemma_token_offset(nt, new_at as int);
                lemma_token_offset_monotone(nt, new_at + 1, nt.len() as int);
            }
            assert(keeps_word(ot, edits@, n + 1) <==> keeps_word(ot, edits@, n as int)
                || keeps_word_at(ot, edits@, n as int)) by {
                if keeps_word(ot, edits@, n + 1) {
                    let m = choose|m: int| 0 <= m < n + 1 && #[trigger] keeps_word_at(ot, edits@, m);
                    if m < n {
                        assert(keeps_word(ot, edits@, n as int));
                    }
                }
            }
        }
        match edit {
            Edit::Equal => {
                let len: usize = bytes_in(old_tokens[old_at].as_str());
                if matches!(classify_token(old_tokens[old_at].as_str()), Class::Word) {
                    shared_word = true;
                }
                proof {
                    assert(keeps_same(edits@, ot, nt, n as int));
                    assert(ot[old_at as int] == nt[new_at as int]);
                }
                old_pos = old_pos + len;
                new_pos = new_pos + len;
                old_at = old_at + 1;
                new_at = new_at + 1;
            },
            Edit::Delete => {
                let len: usize = bytes_in(old_tokens[old_at].as_str());
                push_span(&mut old_spans, old_pos, old_pos + len);
                old_pos = old_pos + len;
                old_at = old_at + 1;
            },
            Edit::Insert => {
                let len: usize = bytes_in(new_tokens[new_at].as_str());
                push_span(&mut new_spans, new_pos, new_pos + len);
                new_pos = new_pos + len;
                new_at = new_at + 1;
            },
        }
        n = n + 1;
    }
    if !shared_word {
        let none: (ByteSpans, ByteSpans) = (Vec::new(), Vec::new());
        proof {
            assert(ints(none.0@) =~= Seq::empty());
            assert(ints(none.1@) =~= Seq::empty());
        }
        return none;
    }
    proof {
        assert(ints(old_spans@).len() == old_spans.len());
        assert(ints(new_spans@).len() == new_spans.len());
        assert(result == (ints(old_spans@), ints(new_spans@)));
    }
    (old_spans, new_spans)
}

/// Changed word spans on each side of a removed/added line pair.
///
/// Returns byte ranges into `old` and `new`. Words, not chars: a renamed identifier
/// highlights whole. Both sides come back empty when the lines are identical, one exceeds
/// [`MAX_LINE_CHARS`], or the pair shares no equal word token: two unrelated replacement
/// lines would otherwise light up as one giant bright block.
pub fn changed_spans(old: &str, new: &str) -> (spans: (ByteSpans, ByteSpans))
    ensures
        (ints(spans.0@), ints(spans.1@)) == changed_spans_spec(old@, new@),
        well_placed(ints(spans.0@), byte_len(old@) as int),
        well_placed(ints(spans.1@), byte_len(new@) as int),
        old@ == new@ ==> spans.0.len() == 0 && spans.1.len() == 0,
        spans.0.len() > 0 || spans.1.len() > 0 ==> shares_words(old@, ints(spans.0@), new@, ints(spans.1@)),
{
    if chars_of(old).len() > MAX_LINE_CHARS || chars_of(new).len() > MAX_LINE_CHARS {
        let none: (ByteSpans, ByteSpans) = (Vec::new(), Vec::new());
        proof {
            assert(ints(none.0@) =~= Seq::empty());
            assert(ints(none.1@) =~= Seq::empty());
        }
        return none;
    }
    let old_tokens = tokenize_words(old);
    let new_tokens = tokenize_words(new);
    let edits = diff_tokens(&old_tokens, &new_tokens);
    let old_len: usize = bytes_in(old);
    let new_len: usize = bytes_in(new);
    let ghost ot = tokens_of(old@);
    let ghost nt = tokens_of(new@);
    proof {
        law_tokens_are_lossless(old@);
        law_tokens_are_lossless(new@);
        law_tokens_are_maximal_runs(old@);
        law_tokens_are_maximal_runs(new@);
        assert forall|t: int| #![trigger old_tokens@[t]] 0 <= t < old_tokens.len() implies old_tokens@[t]@.len()
            > 0 by {
            assert(texts(old_tokens@)[t] == ot[t]);
        }
        assert forall|t: int| #![trigger new_tokens@[t]] 0 <= t < new_tokens.len() implies new_tokens@[t]@.len()
            > 0 by {
            assert(texts(new_tokens@)[t] == nt[t]);
        }
        assert(ot.take(ot.len() as int) =~= ot);
        assert(nt.take(nt.len() as int) =~= nt);
        assert(texts(old_tokens@).len() == old_tokens.len());
        assert(texts(new_tokens@).len() == new_tokens.len());
        lemma_spans_well_placed(ot, nt, edits@, edits.len() as int);
        law_unmarked_text_is_shared(ot, nt, edits@);
        if old@ == new@ {
            lemma_all_equal_no_spans(ot, nt, edits@, edits.len() as int);
        }
    }
    let spans = spans_from_edits(&old_tokens, &new_tokens, &edits);
    proof {
        assert(ints(spans.0@).len() == spans.0.len());
        assert(ints(spans.1@).len() == spans.1.len());
    }
    spans
}

proof fn lemma_all_equal_no_spans(
    old_tokens: Seq<Seq<char>>,
    new_tokens: Seq<Seq<char>>,
    edits: Seq<Edit>,
    n: int,
)
    requires
        0 <= n <= edits.len(),
        forall|m: int| 0 <= m < n ==> #[trigger] edits[m] == Edit::Equal,
    ensures
        deleted_spans(old_tokens, edits, n).len() == 0,
        inserted_spans(new_tokens, edits, n).len() == 0,
    decreases n,
{
    if n > 0 {
        lemma_all_equal_no_spans(old_tokens, new_tokens, edits, n - 1);
    }
}

/// Whether the partner of row `i` has row `i` as its own.
pub open spec fn mutual(pairs: Seq<Option<usize>>, i: int) -> bool {
    pairs[i] matches Some(j) ==> j < pairs.len() && pairs[j as int] == Some(i as usize)
}

/// The highlights of row `i`: those of its side of the pair it belongs to, if any.
pub open spec fn is_row_spans(rows: Seq<DiffRow>, i: int, spans: Seq<(int, int)>) -> bool {
    &&& forall|j: int| #![trigger aligned(rows, i, j)] i < j < rows.len() && aligned(rows, i, j) ==>
        spans == changed_spans_spec(text_of_row(rows[i]), text_of_row(rows[j])).0
    &&& forall|j: int| #![trigger aligned(rows, j, i)] 0 <= j < i && aligned(rows, j, i) ==>
        spans == changed_spans_spec(text_of_row(rows[j]), text_of_row(rows[i])).1
    &&& (forall|j: int| #![trigger aligned(rows, i, j)] i < j < rows.len() ==> !aligned(rows, i, j)) && (forall|
        j: int,
    | #![trigger aligned(rows, j, i)] 0 <= j < i ==> !aligned(rows, j, i)) ==> spans.len() == 0
}

/// Per-row intraline change spans: one entry per row, sorted, apart and inside the row's
/// text; non-empty only on the rows of a content-paired del/add line. Each pair is diffed once, from the `Del` side.
pub fn row_spans(rows: &[DiffRow]) -> (spans: Vec<ByteSpans>)
    ensures
        spans.len() == rows.len(),
        forall|i: int| #![trigger spans@[i]] 0 <= i < rows.len() ==> is_row_spans(rows@, i, ints(spans@[i]@)),
        forall|i: int|
            #![trigger spans@[i]]
            0 <= i < rows.len() ==> well_placed(ints(spans@[i]@), byte_len(text_of_row(rows@[i])) as int),
{
    let pairs = pair_rows_aligned(rows);
    let mut spans: Vec<ByteSpans> = Vec::new();
    let mut r: usize = 0;
    while r < rows.len()
        invariant
            r <= rows.len(),
            spans.len() == r,
            forall|i: int| #![trigger spans@[i]] 0 <= i < r ==> spans@[i].len() == 0,
        decreases rows.len() - r,
    {
        spans.push(Vec::new());
        r = r + 1;
    }
    let mut i: usize = 0;
    proof {
        assert forall|a: int| #![trigger spans@[a]] 0 <= a < rows.len() implies well_placed(
            ints(spans@[a]@),
            byte_len(text_of_row(rows@[a])) as int,
        ) by {
            assert(spans@[a].len() == 0);
        }
        assert forall|a: int| 0 <= a < rows.len() implies #[trigger] mutual(pairs@, a) by {
            if let Some(b) = pairs@[a] {
                if a < b {
                    assert(aligned(rows@, a, b as int) <==> pairs@[a] == Some(b));
                } else {
                    assert(aligned(rows@, b as int, a) <==> pairs@[a] == Some(b));
                }
            }
        }
    }
    while i < rows.len()
        invariant
            i <= rows.len(),
            pairs.len() == rows.len(),
            spans.len() == rows.len(),
            forall|a: int|
                #![trigger spans@[a]]
                0 <= a < rows.len() ==> well_placed(ints(spans@[a]@), byte_len(text_of_row(rows@[a])) as int),
            forall|a: int| 0 <= a < rows.len() ==> #[trigger] mutual(pairs@, a),
            forall|a: int, b: int| #![trigger aligned(rows@, a, b)]
                0 <= a < b < rows.len() ==> {
                    &&& aligned(rows@, a, b) <==> pairs@[a] == Some(b as usize)
                    &&& aligned(rows@, a, b) <==> pairs@[b] == Some(a as usize)
                },
            forall|a: int| #![trigger pairs@[a]] 0 <= a < rows.len() && pairs@[a] is Some ==>
                pairs@[a]->0 < rows.len() && pairs@[a]->0 != a,
            forall|a: int| #![trigger spans@[a]] 0 <= a < rows.len() ==> match pairs@[a] {
                Some(b) if a < b && a < i => ints(spans@[a]@) == changed_spans_spec(text_of_row(rows@[a]), text_of_row(rows@[b as int])).0,
                Some(b) if b < a && b < i => ints(spans@[a]@) == changed_spans_spec(text_of_row(rows@[b as int]), text_of_row(rows@[a])).1,
                _ => spans@[a].len() == 0,
            },
        decreases rows.len() - i,
    {
        match pairs[i] {
            None => {},
            Some(j) => {
                if i < j {
                    let (old_spans, new_spans) = changed_spans(row_text(&rows[i]), row_text(&rows[j]));
                    let ghost before = spans@;
                    spans.set(i, old_spans);
                    spans.set(j, new_spans);
                    proof {
                        assert(mutual(pairs@, i as int));
                        assert forall|a: int| #![trigger spans@[a]] 0 <= a < rows.len() && a != i && a != j implies
                            pairs@[a] != Some(i) && spans@[a] == before[a] by {
                            assert(mutual(pairs@, a));
                        }
                    }
                }
            },
        }
        proof {
            assert(mutual(pairs@, i as int));
            assert forall|a: int| #![trigger spans@[a]] 0 <= a < rows.len() && pairs@[a] == Some(i) implies pairs@[i as int] == Some(a as usize) by {
                assert(mutual(pairs@, a));
            }
        }
        i = i + 1;
    }
    proof {
        assert forall|a: int| #![trigger spans@[a]] 0 <= a < rows.len() implies is_row_spans(rows@, a, ints(spans@[a]@)) by {
            match pairs@[a] {
                Some(b) => {
                    if a < b {
                        assert(aligned(rows@, a, b as int));
                    } else {
                        assert(aligned(rows@, b as int, a));
                    }
                },
                None => {
                    assert(ints(spans@[a]@).len() == 0);
                },
            }
        }
    }
    spans
}

} // verus!
