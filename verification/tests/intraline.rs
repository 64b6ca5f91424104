use codescope_tui::intraline::{changed_spans, pair_rows, pair_rows_aligned, row_spans, RowKind, MAX_LINE_CHARS};
use codescope_tui::snapshot::DiffRow;

/// Compact pairing specs: `H` header, `C` context, `D` del, `A` add; `.` ignored.
fn kinds(spec: &str) -> Vec<RowKind> {
    spec.chars()
        .filter_map(|c| match c {
            'H' => Some(RowKind::Header),
            'C' => Some(RowKind::Context),
            'D' => Some(RowKind::Del),
            'A' => Some(RowKind::Add),
            _ => None,
        })
        .collect()
}

// -- pairing -----------------------------------------------------------

#[test]
fn pair_equal_block() {
    assert_eq!(
        pair_rows(&kinds("H DD AA")),
        vec![None, Some(3), Some(4), Some(1), Some(2)]
    );
}

#[test]
fn pair_unequal_block_leaves_extras_unpaired() {
    // 3 dels, 1 add: only the first del pairs.
    assert_eq!(
        pair_rows(&kinds("DDDA")),
        vec![Some(3), None, None, Some(0)]
    );
    // 1 del, 3 adds: only the first add pairs.
    assert_eq!(
        pair_rows(&kinds("DAAA")),
        vec![Some(1), Some(0), None, None]
    );
}

#[test]
fn pair_pure_add_and_pure_del_stay_unpaired() {
    assert_eq!(pair_rows(&kinds("H AAA")), vec![None; 4]);
    assert_eq!(pair_rows(&kinds("DDD")), vec![None; 3]);
}

#[test]
fn pair_blocks_split_on_context_and_headers() {
    // Context between the runs: no block spans it.
    assert_eq!(pair_rows(&kinds("D C A")), vec![None; 3]);
    // Two blocks separated by a header pair independently.
    assert_eq!(
        pair_rows(&kinds("DA H DA")),
        vec![Some(1), Some(0), None, Some(4), Some(3)]
    );
    // A Del after an Add opens a new block instead of extending the old one.
    assert_eq!(
        pair_rows(&kinds("DA D A")),
        vec![Some(1), Some(0), Some(3), Some(2)]
    );
}

#[test]
fn pair_block_cap() {
    // 20 + 20 = 40 lines: still paired.
    let ok = format!("{} {}", "D".repeat(20), "A".repeat(20));
    let pairs = pair_rows(&kinds(&ok));
    assert_eq!(pairs[0], Some(20));
    assert_eq!(pairs[19], Some(39));
    assert_eq!(pairs[20], Some(0));
    // 21 + 21 = 42 lines: over the cap, nothing pairs.
    let big = format!("{} {}", "D".repeat(21), "A".repeat(21));
    assert_eq!(pair_rows(&kinds(&big)), vec![None; 42]);
    // One side alone over the cap sinks the whole block.
    let lopsided = format!("{} {}", "D".repeat(41), "A");
    assert_eq!(pair_rows(&kinds(&lopsided)), vec![None; 42]);
}

// -- span computation ---------------------------------------------------

#[test]
fn changed_word_in_the_middle() {
    let old = "    let timeout = 30;";
    let new = "    let timeout = 60;";
    let (old_spans, new_spans) = changed_spans(old, new);
    assert_eq!(old_spans, vec![(old.find("30").unwrap(), old.find("30").unwrap() + 2)]);
    assert_eq!(new_spans, vec![(new.find("60").unwrap(), new.find("60").unwrap() + 2)]);
}

#[test]
fn changed_word_at_start_and_end() {
    let (old_spans, new_spans) = changed_spans("foo = 1", "bar = 1");
    assert_eq!(old_spans, vec![(0, 3)]);
    assert_eq!(new_spans, vec![(0, 3)]);

    let (old_spans, new_spans) = changed_spans("x = old", "x = new_longer");
    assert_eq!(old_spans, vec![(4, 7)]);
    assert_eq!(new_spans, vec![(4, 14)]);
}

#[test]
fn changed_whole_line() {
    // Every word rewritten but the shape survives: the shared `=` is not a word
    // token, but `let`/`return`-style anchors are. Here "aaaa"→"bbbb" shares no
    // word at all, so both sides stay dark (unrelated-line guard).
    assert_eq!(changed_spans("aaaa", "bbbb"), (vec![], vec![]));
    // Same shape, different content, anchored by a shared word: whole content
    // highlights.
    let (old_spans, new_spans) = changed_spans("let x = aaaa", "let x = bbbb");
    assert_eq!(old_spans, vec![(8, 12)]);
    assert_eq!(new_spans, vec![(8, 12)]);
}

#[test]
fn unrelated_replacement_lines_stay_dark() {
    // Punctuation survives (`==`, `(`) but no word token does: highlighting here
    assert_eq!(
        changed_spans("if a == b {", "for x in xs() {"),
        (vec![], vec![])
    );
    assert_eq!(changed_spans("return foo(1)", "break bar(2)"), (vec![], vec![]));
}

#[test]
fn changed_scattered_words_stay_separate_spans() {
    // Two changed words with unchanged text between them: two spans per side.
    let old = "aaa bbb ccc";
    let new = "xxx bbb yyy";
    let (old_spans, new_spans) = changed_spans(old, new);
    assert_eq!(old_spans, vec![(0, 3), (8, 11)]);
    assert_eq!(new_spans, vec![(0, 3), (8, 11)]);
}

#[test]
fn changed_identifier_inside_punctuation() {
    // Word/punctuation token split: only the argument lights up, not the call.
    let (old_spans, new_spans) = changed_spans("foo(1);", "foo(2);");
    assert_eq!(old_spans, vec![(4, 5)]);
    assert_eq!(new_spans, vec![(4, 5)]);
}

#[test]
fn changed_adjacent_tokens_merge() {
    // "30;" replaced by a longer token run: touching changed tokens read as one span.
    let (old_spans, new_spans) = changed_spans("x = 30;", "x = 60 + 2;");
    assert_eq!(old_spans, vec![(4, 6)], "just `30`; the trailing `;` survives");
    assert_eq!(new_spans, vec![(4, 10)], "`60 + 2` merges into one span");
}

#[test]
fn identical_lines_have_no_spans() {
    assert_eq!(changed_spans("same line", "same line"), (vec![], vec![]));
    assert_eq!(changed_spans("", ""), (vec![], vec![]));
}

#[test]
fn changed_unicode_uses_byte_offsets() {
    let old = "héllo wörld = 1";
    let new = "héllo wörld = 2";
    let (old_spans, new_spans) = changed_spans(old, new);
    assert_eq!(old_spans.len(), 1);
    let (s, e) = old_spans[0];
    assert_eq!(&old[s..e], "1");
    assert_eq!(new_spans.len(), 1);
    let (s, e) = new_spans[0];
    assert_eq!(&new[s..e], "2");
}

#[test]
fn changed_line_cap() {
    let long_a = "a".repeat(MAX_LINE_CHARS + 1);
    let long_b = "b".repeat(MAX_LINE_CHARS + 1);
    assert_eq!(changed_spans(&long_a, &long_b), (vec![], vec![]));
    // One side over the cap is enough.
    assert_eq!(changed_spans("x", &long_b), (vec![], vec![]));
    // Exactly at the cap still diffs (with a shared anchor word so the
    // unrelated-line guard stays out of the way).
    let at_a = format!("let {}", "a".repeat(MAX_LINE_CHARS - 4));
    let at_b = format!("let {}", "b".repeat(MAX_LINE_CHARS - 4));
    let (old_spans, new_spans) = changed_spans(&at_a, &at_b);
    assert_eq!(old_spans, vec![(4, MAX_LINE_CHARS)]);
    assert_eq!(new_spans, vec![(4, MAX_LINE_CHARS)]);
}

// -- row orchestration ----------------------------------------------------

#[test]
fn row_spans_hit_only_paired_rows() {
    let rows = vec![
        DiffRow::HunkHeader("@@ -1,3 +1,3 @@".to_string()),
        DiffRow::Context {
            old_ln: 1,
            new_ln: 1,
            text: "fn main() {".to_string(),
        },
        DiffRow::Del {
            old_ln: 2,
            text: "    let timeout = 30;".to_string(),
        },
        DiffRow::Add {
            new_ln: 2,
            text: "    let timeout = 60;".to_string(),
        },
        DiffRow::Add {
            new_ln: 3,
            text: "    println!(\"done\");".to_string(),
        },
    ];
    let spans = row_spans(&rows);
    assert_eq!(spans.len(), rows.len());
    assert!(spans[0].is_empty(), "header: no spans");
    assert!(spans[1].is_empty(), "context: no spans");
    assert_eq!(spans[2], vec![(18, 20)], "del side highlights `30`");
    assert_eq!(spans[3], vec![(18, 20)], "add side highlights `60`");
    assert!(spans[4].is_empty(), "unpaired extra add: no spans");
}


/// The two `return` lines pair; the pure insertion does not.
#[test]
fn inserted_line_does_not_shift_later_pairs() {
    let rows = vec![
        DiffRow::Del { old_ln: 1, text: "let keep = 1;".to_string() },
        DiffRow::Del { old_ln: 2, text: "return old".to_string() },
        DiffRow::Add { new_ln: 1, text: "let inserted = 0;".to_string() },
        DiffRow::Add { new_ln: 2, text: "let keep = 1;".to_string() },
        DiffRow::Add { new_ln: 3, text: "return new".to_string() },
    ];
    let pairs = pair_rows_aligned(&rows);
    assert_eq!(pairs[0], None, "pure delete of `let keep` (moved, not changed)");
    assert_eq!(pairs[1], Some(4), "`return old` pairs with `return new`");
    assert_eq!(pairs[4], Some(1));
    assert_eq!(pairs[2], None, "pure insertion unpaired");
    assert_eq!(pairs[3], None);
    let spans = row_spans(&rows);
    assert!(!spans[1].is_empty() && !spans[4].is_empty(), "old/new brighten");
    assert!(spans[2].is_empty(), "inserted line has no intraline spans");
}
