use codescope_tui::action::{map_key, next_scope, Action, DiffTextPoint, DiffTextSelection, PlanNodeTarget};
use codescope_tui::app::{filter_candidates, first_linked_diff_row, App, Pane, UiPreferences};
use codescope_tui::canvas::{connector_ends, render_canvas, route_connector, segment_intersects_rect, Heading};
use codescope_tui::canvas_grid::{
    blank_cells, cells_to_line, clip_to_screen, count32, draw_segment, minus, plus, put_text, times, CanvasRect,
    PlanCanvasPoint,
};
use codescope_tui::canvas_scene::{
    automatic_positions, build_scene, scene_edges, truncate_label, wrap_full, PlanCanvasView,
};
use codescope_tui::chrome::{
    ai_status_glyph, basename, bottom_bar_chunks, bottom_right_text, compact_count, help_line, ls_status_glyph,
    scope_label, top_bar,
};
use codescope_tui::dialog::{
    centered, centered_rect, count_token_rows, exact_model_note, help_dialog, render_base_picker, render_model_picker,
    status_detail_rect, wrapped_line_count,
};
use codescope_tui::diagram::{DiagramPosition, DiagramRole, DiagramState, DiagramViewport};
use codescope_tui::diagram_canvas::DiagramCanvas;
use codescope_tui::diff_pane::diff_titles;
use codescope_tui::diff_view::{
    changed_flags, expand_tabs, grapheme_cells, ln_width, measured_cells, truncate_cells, wrap_ranges,
};
use codescope_tui::divider::{DividerHandle, DividerId, DividerSizes};
use codescope_tui::elide::{elide_paths, shared_root};
use codescope_tui::event::{KeyCode, KeyEvent, KeyEventKind, KeyModifiers, MouseButton, MouseEvent, MouseEventKind};
use codescope_tui::file_rows::{first_visible, logical_row_count, project, resolve_logical, ProjectedRow};
use codescope_tui::files_pane::{change_glyph, files_lines, split_dir_basename, status_color};
use codescope_tui::geometry::{slice_display_cells, UiGeometry};
use codescope_tui::impact_view::render_impact_list;
use codescope_tui::intraline::{changed_spans, pair_rows, RowKind};
use codescope_tui::layout::{
    files_width, impact_height, impact_left_width, impact_section_heights, relationship_section_heights,
};
use codescope_tui::mouse::{map_mouse, DragState, WheelAxisFilter};
use codescope_tui::plan::{
    DiffSide, Epoch, FormKind, LineRange, PlanCodeRef, PlanEdge, PlanEdgeKind, PlanEvidence, PlanNode, PlanNodeChange,
    VisualizationPlan, VizForm,
};
use codescope_tui::rect::Rect;
use codescope_tui::render::{render, Drawing};
use codescope_tui::review::{revision_content, ReviewLedger, ReviewState, ReviewTarget};
use codescope_tui::scroll::{moved_by, ScrollRegion, ScrollRegionId};
use codescope_tui::snapshot::{
    AiStatus, AiTokens, ChangeScope, ChangeSet, DiffPane, DiffRow, FileChange, FileRow, FileSemanticLoad, ImpactList,
    ImpactLoadState, ImpactRow, LsStatus, StatusLevel, StatusMessage, SymbolRow, UiSnapshot, UnifiedDiffSection,
};
use codescope_tui::split::three_rows;
use codescope_tui::style::Tone;
use codescope_tui::table::{KeySet, Table};
use codescope_tui::text::{contains_text, join_texts, split_text, take_cells, take_cells_rev};
use codescope_tui::wrap::{cell_chunks, decimal, pad, trim, truncate, words, wrap_all, wrap_text};
use unicode_width::UnicodeWidthStr;

fn file(path: &str, expanded: bool, symbols: usize) -> FileRow {
    FileRow {
        path: path.to_string(),
        status: "M",
        changed_symbol_count: symbols,
        added_lines: 3,
        removed_lines: 1,
        symbols: (0..symbols)
            .map(|i| SymbolRow {
                name: format!("sym{i}"),
                change: "modified",
                confidence: "",
                has_diagnostic: false,
                position: Some((i as u32, 0)),
            })
            .collect(),
        expanded,
        semantic: if symbols > 0 { FileSemanticLoad::Ready } else { FileSemanticLoad::Unloaded },
    }
}

fn context(n: u32, text: &str) -> DiffRow {
    DiffRow::Context { old_ln: n, new_ln: n, text: text.to_string() }
}

fn node(id: &str) -> PlanNode {
    PlanNode::new(id, id, PlanNodeChange::Modified)
}

fn edge(from: &str, to: &str, label: Option<&str>) -> PlanEdge {
    PlanEdge {
        from: from.to_string(),
        to: to.to_string(),
        kind: PlanEdgeKind::Calls,
        label: label.map(str::to_string),
    }
}

fn one_form(kind: FormKind, nodes: Vec<PlanNode>, edges: Vec<PlanEdge>) -> VisualizationPlan {
    let mut plan = VisualizationPlan::new(Epoch(1));
    plan.forms.push(VizForm { kind, nodes, edges });
    plan
}

// -- text -------------------------------------------------------------------------------

#[test]
fn splitting_and_joining_are_inverse() {
    let parts = split_text("a/b//c", '/');
    assert_eq!(parts, vec!["a", "b", "", "c"]);
    assert_eq!(join_texts(&parts, "/"), "a/b//c");
    assert_eq!(split_text("", '/'), vec![""]);
}

#[test]
fn cells_are_counted_by_display_width() {
    assert_eq!(take_cells("日本語", 4), "日本");
    assert_eq!(take_cells("日本語", 5), "日本");
    assert_eq!(take_cells_rev("日本語", 3), "語");
    assert_eq!(truncate("日本語", 5), "日本…");
    assert_eq!(truncate("abc", 3), "abc");
    assert_eq!(truncate("abcd", 1), "…");
    assert_eq!(truncate("abcd", 0), "");
    assert_eq!(pad("日", 4), "日  ");
}

#[test]
fn graphemes_are_never_split() {
    let family = "e\u{301}e\u{301}e\u{301}";
    assert_eq!(take_cells(family, 2), "e\u{301}e\u{301}");
    assert_eq!(cell_chunks(family, 1).len(), 3);
}

#[test]
fn white_space_and_case_follow_unicode() {
    assert_eq!(trim("\u{2003} a b\t"), "a b");
    assert_eq!(words(" one\u{2003}two\n"), vec!["one", "two"]);
    let items = vec!["ÄPFEL".to_string(), "birnen".to_string()];
    assert_eq!(filter_candidates(&items, "äp"), vec!["ÄPFEL"]);
    assert_eq!(filter_candidates(&items, ""), vec!["ÄPFEL", "birnen"]);
    assert!(filter_candidates(&items, "zz").is_empty());
    assert!(contains_text("birnen", "rne"));
    assert!(!contains_text("birnen", "rnx"));
}

#[test]
fn cutting_is_lossless() {
    let word = "naïve日本語identifier";
    assert_eq!(cell_chunks(word, 5).concat(), word);
    assert_eq!(wrap_all(word, 5).concat(), word);
    assert_eq!(wrap_all("alpha beta gamma", 11), vec!["alpha beta", "gamma"]);
    assert_eq!(wrap_text("alpha beta gamma delta", 6, 2), vec!["alpha", "beta"]);
    assert!(wrap_text("  ", 6, 2).is_empty());
    assert_eq!(decimal(0), "0");
    assert_eq!(decimal(1207), "1207");
}

// -- paths ------------------------------------------------------------------------------

#[test]
fn shared_root_is_a_prefix_of_every_path() {
    let paths = ["crates/engine/src/c.rs", "crates/engine/src/d/e.rs"];
    let root = shared_root(&paths).expect("common directories");
    assert_eq!(root, "crates/engine/src/");
    assert!(paths.iter().all(|p| p.starts_with(root.as_str())));
    for shown in elide_paths(&paths, 12) {
        assert!(shown.starts_with("…/"), "{shown}");
        assert!(UnicodeWidthStr::width(shown.as_str()) <= 12);
    }
    assert_eq!(split_dir_basename("a/b/c.rs"), ("a/b/".to_string(), "c.rs".to_string()));
    assert_eq!(split_dir_basename("c.rs"), (String::new(), "c.rs".to_string()));
    assert_eq!(basename("a/b/c.rs"), "c.rs");
    assert_eq!(basename("a/b/"), "");
}

// -- layout -----------------------------------------------------------------------------

#[test]
fn panes_keep_their_minimums() {
    for width in 80..220u16 {
        for request in [0u16, 30, 60, 400] {
            let files = files_width(request, width);
            assert!(files >= 28 && width - files >= 48, "{width} {request} {files}");
        }
    }
    for height in 20..80u16 {
        for request in [0u16, 7, 30, 400] {
            let impact = impact_height(request, height);
            assert!(impact >= 5 && height - impact >= 9, "{height} {request} {impact}");
        }
    }
    for width in 0..200u16 {
        assert!(impact_left_width(52, width) <= width);
    }
    for total in 7..60u16 {
        let [a, b, c] = impact_section_heights(4, 5, total);
        assert_eq!(a + b + c, total);
        assert!(a >= 3 && b >= 2 && c >= 2);
        let [upper, lower] = relationship_section_heights(5, total);
        assert_eq!(upper + lower, total);
        assert!(upper >= 2 && lower >= 2);
    }
}

#[test]
fn rows_of_an_area_follow_each_other() {
    let (a, b, c) = three_rows(Rect::new(3, 2, 10, 9), 4, 3, 2);
    assert_eq!(a, Rect::new(3, 2, 10, 4));
    assert_eq!(b, Rect::new(3, 6, 10, 3));
    assert_eq!(c, Rect::new(3, 9, 10, 2));
}

#[test]
fn dragging_back_restores_the_extent() {
    for id in DividerId::ALL {
        let handle = DividerHandle::new(id, Rect::new(0, 0, 2, 2), 20);
        assert_eq!(handle.resized_extent_from(20, 7, 9, 7, 9), 20);
    }
    let vertical = DividerHandle::new(DividerId::FilesDiff, Rect::new(0, 0, 2, 2), 20);
    assert_eq!(vertical.resized_extent_from(2, 50, 0, 0, 0), 0, "an extent is never negative");
    let mut sizes = DividerSizes::default();
    sizes.set(DividerId::FilesDiff, 1);
    assert_eq!(sizes.get(DividerId::FilesDiff), DividerId::FilesDiff.minimum_extent());
}

// -- tree -------------------------------------------------------------------------------

#[test]
fn logical_indices_are_consecutive_and_resolve() {
    let files = vec![file("a/one.rs", true, 2), file("a/two.rs", true, 0), file("b.rs", false, 1)];
    let none: KeySet<String> = KeySet::new();
    let rows = project(&files, &none);
    let indices: Vec<usize> = rows.iter().filter_map(ProjectedRow::logical_index).collect();
    assert_eq!(indices, (0..indices.len()).collect::<Vec<_>>());
    assert_eq!(indices.len(), logical_row_count(&files, &none));
    for i in &indices {
        assert_eq!(resolve_logical(&files, &none, *i).and_then(|row| row.logical_index()), Some(*i));
    }
    assert!(resolve_logical(&files, &none, indices.len()).is_none());
    assert!(rows.iter().any(|row| matches!(row, ProjectedRow::Note { file_index: 1, .. })));
    for selected in 0..indices.len() {
        for capacity in 1..6 {
            let first = first_visible(&files, &none, selected, capacity);
            let physical = rows.iter().position(|row| row.logical_index() == Some(selected)).unwrap();
            assert!(first <= physical && physical < first + capacity);
        }
    }
}

#[test]
fn only_one_row_of_the_files_pane_is_selected() {
    let files = vec![file("one.rs", true, 2), file("two.rs", false, 0)];
    for sel in 0..4 {
        let lines = files_lines(&files, sel, 40);
        let marked: Vec<usize> = (0..lines.len())
            .filter(|i| lines[*i].pieces.iter().all(|p| p.paint.bg == Some(Tone::SelectedBg)))
            .collect();
        assert_eq!(marked, vec![sel]);
    }
    let owned = files_lines(&files, 2, 40);
    assert_eq!(owned[0].pieces[0].paint.bg, Some(Tone::OwnerBg));
    assert_eq!(files_lines(&Vec::new(), 0, 40)[0].text(), "  no changes in this scope");
    assert_eq!(change_glyph("added"), "+");
    assert_eq!(change_glyph("removed"), "-");
    assert_eq!(change_glyph("moved"), "~");
    assert_eq!(status_color("?"), Tone::AddFg);
    assert_eq!(status_color("D"), Tone::DelFg);
    assert_eq!(status_color("R"), Tone::Accent);
    assert_eq!(status_color("U"), Tone::Error);
    assert_eq!(status_color("M"), Tone::Warn);
}

#[test]
fn narrow_files_pane_drops_line_counts_as_one_unit() {
    let files = vec![file("one.rs", false, 0)];
    assert!(files_lines(&files, 0, 40)[0].text().contains("+3 -1"));
    assert!(!files_lines(&files, 0, 20)[0].text().contains("+3"));
}

// -- words that changed -----------------------------------------------------------------

#[test]
fn pairing_is_mutual() {
    let kinds = [RowKind::Header, RowKind::Del, RowKind::Del, RowKind::Add, RowKind::Context, RowKind::Del, RowKind::Add];
    let pairs = pair_rows(&kinds);
    assert_eq!(pairs, vec![None, Some(3), None, Some(1), None, Some(6), Some(5)]);
    for (i, pair) in pairs.iter().enumerate() {
        if let Some(j) = pair {
            assert_eq!(pairs[*j], Some(i));
        }
    }
}

#[test]
fn deleted_and_inserted_bytes_are_marked() {
    let (old, new) = changed_spans("let a = foo(1, 2);", "let a = foo(1, 3);");
    assert_eq!((old, new), (vec![(15, 16)], vec![(15, 16)]));
}

// -- diff lines -------------------------------------------------------------------------

fn texts(items: &[&str]) -> Vec<String> {
    items.iter().map(|s| s.to_string()).collect()
}

#[test]
fn wrapping_is_a_partition_into_lines_that_fit() {
    let gs = texts(&["f", "o", "o", " ", "b", "a", "r", " ", "日", "本"]);
    let ranges = wrap_ranges(&gs, 4);
    assert_eq!(ranges, vec![(0, 4), (4, 8), (8, 10)]);
    for (from, to) in &ranges {
        let cells: usize = gs[*from..*to].iter().map(|g| UnicodeWidthStr::width(g.as_str())).sum();
        assert!(cells <= 4);
    }
    assert_eq!(wrap_ranges(&Vec::new(), 4), vec![(0, 0)]);
}

#[test]
fn tabs_reach_the_next_stop() {
    assert_eq!(grapheme_cells("\t", 0), 4);
    assert_eq!(grapheme_cells("\t", 3), 1);
    assert_eq!(measured_cells("a\tb"), 5);
    assert_eq!(expand_tabs(&texts(&["a", "\t", "b"]), 0, 3), "a   b");
    assert_eq!(truncate_cells("abcdef", 4), "abc…");
    assert_eq!(truncate_cells("abcdef", 0), "");
    assert_eq!(changed_flags(&texts(&["a", "b", "c"]), &vec![(1, 2)]), vec![false, true, false]);
    assert_eq!(ln_width(&vec![context(7, "x")]), 4);
    assert_eq!(ln_width(&vec![context(123_456, "x")]), 6);
}

#[test]
fn wide_characters_are_selected_whole() {
    assert_eq!(slice_display_cells("a日b", 1, 2), "日");
    assert_eq!(slice_display_cells("a日b", 0, 1), "a");
    assert_eq!(slice_display_cells("abc", 1, 3), "bc");
}

#[test]
fn long_titles_drop_the_symbol_before_the_name() {
    let mut snap = UiSnapshot::default();
    snap.diff.title = "src/lib.rs".to_string();
    snap.diff.total_hunks = 2;
    snap.diff.focused_symbol = Some("a_symbol_with_a_long_name".to_string());
    let mut app = App::new();
    app.update(snap.clone());
    let (left, right) = diff_titles(&app, &snap, 3, 7, 80);
    assert_eq!(left, " lib.rs ");
    assert_eq!(right, " a_symbol_with_a_long_name · ↔ 3 code lines · hunk 1/2 · wrap off · x+07 ");
    let (_, short) = diff_titles(&app, &snap, 3, 7, 40);
    assert_eq!(short, " hunk 1/2 · wrap off · x+07 ");
}

#[test]
fn links_are_exact_about_side_and_hunk() {
    let diff = DiffPane {
        title: "src/a.rs".to_string(),
        focused_symbol: None,
        rows: vec![
            DiffRow::HunkHeader("@@ -1 +1 @@".to_string()),
            DiffRow::Del { old_ln: 5, text: "x".to_string() },
            DiffRow::Add { new_ln: 5, text: "y".to_string() },
        ],
        current_hunk: 1,
        total_hunks: 1,
    };
    let mut linked = node("n");
    let at = |side| PlanCodeRef { file: "src/a.rs".to_string(), hunk: 0, side, start_line: 5, end_line: 5 };
    linked.code_refs.push(at(DiffSide::New));
    assert_eq!(first_linked_diff_row(&diff, &linked), Some(2));
    linked.code_refs[0] = at(DiffSide::Old);
    assert_eq!(first_linked_diff_row(&diff, &linked), Some(1));
    linked.code_refs[0].hunk = 1;
    assert_eq!(first_linked_diff_row(&diff, &linked), None);
}

// -- bars and dialogs -------------------------------------------------------------------

#[test]
fn counts_are_compact() {
    for (value, shown) in [
        (0, "0"),
        (999, "999"),
        (1_000, "1.0k"),
        (1_250, "1.2k"),
        (1_251, "1.3k"),
        (9_949, "9.9k"),
        (9_999, "10.0k"),
        (10_000, "10k"),
        (999_999, "999k"),
        (1_000_000, "1.0m"),
        (2_450_000, "2.5m"),
        (12_000_000, "12m"),
    ] {
        assert_eq!(compact_count(value), shown, "{value}");
    }
}

#[test]
fn bottom_bar_shortens_usage_before_it_cuts_the_name() {
    let tokens = AiTokens { input: 1, output: 2 };
    assert_eq!(bottom_right_text("a/b.rs", tokens, 100), "tokens in 1 out 2 · a/b.rs ");
    assert_eq!(bottom_right_text("a/b.rs", tokens, 26), "tokens in 1 out 2 · b.rs ");
    assert_eq!(bottom_right_text("a/b.rs", tokens, 20), "in 1 out 2 · a/b.rs ");
    assert_eq!(bottom_right_text("a/b.rs", tokens, 16), "in 1 out 2 · b… ");
    assert_eq!(bottom_right_text("", tokens, 100), "tokens in 1 out 2 ");
    assert!(help_line(90).text().contains("drag resize"));
    assert_eq!(help_line(20).text(), " R · Tab · 1-3 · ?");
}

#[test]
fn bars_are_shared_out_without_a_gap() {
    let mut snap = UiSnapshot::default();
    snap.repo.branch = "topic/".to_string() + &"x".repeat(200);
    let app = App::new();
    for width in 1..200u16 {
        let bar = top_bar(Rect::new(0, 0, width, 1), &snap);
        assert!(bar.left_area.width >= 1);
        assert_eq!(bar.right_area.x, bar.left_area.x + bar.left_area.width);
        assert_eq!(bar.left_area.width + bar.right_area.width, width);
        let (left, right) = bottom_bar_chunks(Rect::new(0, 0, width, 1), &app, &snap);
        assert_eq!(left.width + right.width, width);
        assert_eq!(right.x, left.x + left.width);
    }
    let wide = top_bar(Rect::new(0, 0, 120, 1), &snap);
    assert_eq!(wide.right.text(), "branch  LSP …  AI · ");
    assert_eq!(usize::from(wide.right_area.width), UnicodeWidthStr::width(wide.right.text().as_str()));
}

#[test]
fn status_marks_are_distinct() {
    assert_eq!(ls_status_glyph(LsStatus::Ready), ("✓", Tone::AddFg));
    assert_eq!(ls_status_glyph(LsStatus::Indexing), ("…", Tone::Warn));
    assert_eq!(ls_status_glyph(LsStatus::Degraded), ("~", Tone::Warn));
    assert_eq!(ls_status_glyph(LsStatus::Failed), ("×", Tone::Error));
    assert_eq!(ai_status_glyph(&AiStatus::Disabled), ("×", Tone::Muted));
    assert_eq!(ai_status_glyph(&AiStatus::Failed { reason: String::new() }), ("×", Tone::Error));
    assert_eq!(ai_status_glyph(&AiStatus::Queued { epoch: Epoch(1), position: 2 }), ("·", Tone::Warn));
    assert_eq!(ai_status_glyph(&AiStatus::Stale { epoch: Epoch(1) }), ("~", Tone::Warn));
    for (scope, word) in [
        (ChangeScope::Branch, "branch"),
        (ChangeScope::Staged, "staged"),
        (ChangeScope::Unstaged, "unstaged"),
        (ChangeScope::Working, "working"),
    ] {
        assert_eq!(scope_label(scope), word);
    }
}

#[test]
fn centered_shares_are_rounded_to_whole_cells() {
    let share_end = |start: u32, length: u32, percent: u32| (100 * start + length * percent + 50) / 100;
    for (percent, tall) in [(50u16, 50u16), (70, 70), (100, 100), (0, 0), (51, 33), (99, 1), (75, 40)] {
        let side = u32::from((100 - percent) / 2);
        let above = u32::from((100 - tall) / 2);
        for width in (0..240u16).step_by(29) {
            for height in (0..90u16).step_by(17) {
                for (x, y) in [(0u16, 0u16), (3, 11)] {
                    let r = centered(Rect::new(x, y, width, height), percent, tall);
                    let (x, y, w, h) = (u32::from(x), u32::from(y), u32::from(width), u32::from(height));
                    let (p, q) = (u32::from(percent), u32::from(tall));
                    assert_eq!(u32::from(r.x), share_end(x, w, side), "{width}x{height}");
                    assert_eq!(u32::from(r.x + r.width), share_end(x, w, side + p), "{width}x{height}");
                    assert_eq!(u32::from(r.y), share_end(y, h, above), "{width}x{height}");
                    assert_eq!(u32::from(r.y + r.height), share_end(y, h, above + q), "{width}x{height}");
                }
            }
        }
    }
    assert_eq!(centered_rect(Rect::new(0, 0, 10, 10), 4, 20), Rect::new(3, 0, 4, 10));
}

#[test]
fn status_dialogs_stay_inside_the_frame() {
    let long = "word ".repeat(500);
    for width in 1..180u16 {
        for height in 1..40u16 {
            for text in ["", "brief", long.as_str()] {
                let r = status_detail_rect(Rect::new(0, 0, width, height), text);
                assert!(r.width >= 1 && r.height >= 1);
                assert!(r.x + r.width <= width && r.y + r.height <= height);
            }
        }
    }
    assert_eq!(wrapped_line_count("", 10), 1);
    assert_eq!(wrapped_line_count("ab cd", 3), 2);
    assert_eq!(wrapped_line_count("ab\ncd", 10), 2);
    assert_eq!(wrapped_line_count("abcdefgh", 4), 2);
    assert_eq!(wrapped_line_count("can't", 5), 1, "a word keeps its apostrophe");
    assert_eq!(wrapped_line_count("x can't", 5), 2);
}

#[test]
fn pickers_quote_an_unknown_model() {
    let mut snap = UiSnapshot::default();
    snap.ai_provider = "openai".to_string();
    snap.ai_model = "m1".to_string();
    snap.available_models = texts(&["m1", "m2"]);
    let mut app = App::new();
    app.update(snap.clone());
    app.apply(Action::ModelPicker);
    let list = render_model_picker(&app, &snap);
    assert_eq!(list.title, " AI settings (model: m1) · via openai ");
    assert_eq!(list.lines[0].text(), "  reasoning effort  ← default →");
    assert_eq!(list.lines[2].text(), " ● m1");
    assert_eq!(list.lines[3].text(), "   m2");
    assert_eq!(list.selected, Some(2));
    for c in "a\"b".chars() {
        app.apply(Action::PickerInput(c));
    }
    let none = render_model_picker(&app, &snap);
    assert_eq!(none.lines[2].text(), "  Enter to use \"a\\\"b\" as an exact model id");
    assert_eq!(none.selected, None);
    snap.ai_provider = "anthropic".to_string();
    snap.model_list_error = Some("offline".to_string());
    let native = render_model_picker(&app, &snap);
    assert!(native.lines[0].text().contains("unavailable through Anthropic"));
    assert!(native.lines.iter().any(|l| l.text() == "  discovery failed: offline"));
    snap.available_models.clear();
    snap.model_list_loading = true;
    assert!(render_model_picker(&app, &snap).lines[2].text().contains("fetching models"));
    let empty = render_base_picker(&App::new(), &UiSnapshot::default());
    assert_eq!(empty.title, " comparison base (selected: none) ");
    assert_eq!(empty.lines[0].text(), "  fetching base candidates…");
    assert_eq!(empty.selected, None);
    assert_eq!(help_dialog()[0].text(), "codescope — controls");
}

#[test]
fn relationship_sections_fit_their_rows() {
    let mut list = ImpactList::default();
    list.state = ImpactLoadState::Ready;
    list.rows = (0..9)
        .map(|i| ImpactRow { label: format!("r{i}"), relation: "calls", changed: false, has_diagnostic: i == 0 })
        .collect();
    for height in 1..12u16 {
        assert!(render_impact_list("CALLERS", &list, 0, height).len() <= usize::from(height));
    }
    let lines = render_impact_list("CALLERS", &list, 0, 4);
    assert_eq!(lines[0].text(), "CALLERS · 9");
    assert_eq!(lines[1].text(), "r0  calls !");
    assert_eq!(lines[3].text(), "… +7 more");
    assert_eq!(render_impact_list("CALLERS", &list, 99, 4)[0].text(), "CALLERS · 9 · ↑6");
    list.rows.clear();
    for (state, note) in [
        (ImpactLoadState::Idle, "select a symbol"),
        (ImpactLoadState::Loading, "loading…"),
        (ImpactLoadState::Ready, "none"),
        (ImpactLoadState::Unavailable, "unavailable"),
    ] {
        list.state = state;
        assert_eq!(render_impact_list("CALLERS", &list, 0, 4)[1].text(), note);
    }
}

// -- keys and pointer -------------------------------------------------------------------

#[test]
fn scope_cycle_visits_every_scope() {
    let mut scope = ChangeScope::Branch;
    let mut seen = vec![scope];
    for _ in 0..3 {
        scope = next_scope(scope);
        assert!(!seen.contains(&scope));
        seen.push(scope);
    }
    assert_eq!(next_scope(scope), ChangeScope::Branch);
}

#[test]
fn only_presses_command() {
    let app = App::new();
    for code in [KeyCode::Char('q'), KeyCode::Char('z'), KeyCode::Enter] {
        let mut key = KeyEvent::new(code, KeyModifiers::none());
        assert_ne!(map_key(key, &app), Action::Nothing);
        key.kind = KeyEventKind::Release;
        assert_eq!(map_key(key, &app), Action::Nothing);
        key.kind = KeyEventKind::Repeat;
        assert_eq!(map_key(key, &app), Action::Nothing);
    }
}

#[test]
fn wheel_filter_resets() {
    let mut filter = WheelAxisFilter::default();
    assert!(filter.allows(MouseEventKind::ScrollDown, 100));
    assert!(!filter.allows(MouseEventKind::ScrollLeft, 101));
    assert!(filter.allows(MouseEventKind::Moved, 102), "only the wheel is filtered");
    filter.reset();
    assert_eq!(filter, WheelAxisFilter::default());
    assert!(!filter.allows(MouseEventKind::ScrollLeft, 103));
    assert!(!filter.allows(MouseEventKind::ScrollRight, 104), "the second sample has to agree");
    assert!(filter.allows(MouseEventKind::ScrollRight, 105));
}

fn pointer(kind: MouseEventKind, column: u16, row: u16) -> MouseEvent {
    MouseEvent { kind, column, row }
}

#[test]
fn a_release_ends_every_drag() {
    let mut snap = UiSnapshot::default();
    snap.diff.rows = vec![context(1, "alpha beta")];
    let mut app = App::new();
    app.update(snap.clone());
    let g = UiGeometry::build(Rect::new(0, 0, 140, 40), &app, &snap);
    let point = DiffTextPoint { row: 0, column: 13 };
    let target = PlanNodeTarget { form: 0, id: "n".to_string() };
    for drag in [
        DragState::Dragging { divider: DividerId::FilesDiff, start_x: 41, start_y: 3, start_extent: 42, moved: false },
        DragState::PlanNode { source: target, start_x: 4, start_y: 4, offset_x: 0, offset_y: 0, moved: false },
        DragState::DiffText { start: point, end: point, moved: false },
    ] {
        let out = map_mouse(pointer(MouseEventKind::Up(MouseButton::Left), 60, 10), &app, &snap, &g, drag);
        assert_eq!(out.drag, DragState::Idle);
    }
    let right = map_mouse(pointer(MouseEventKind::Down(MouseButton::Right), 60, 10), &app, &snap, &g, DragState::Idle);
    assert_eq!((right.action, right.dirty), (None, false), "other buttons are inert");
}

#[test]
fn modals_swallow_the_mouse_and_cancel_drags() {
    let snap = UiSnapshot::default();
    let mut app = App::new();
    app.show_help = true;
    let g = UiGeometry::build(Rect::new(0, 0, 140, 40), &app, &snap);
    let drag =
        DragState::Dragging { divider: DividerId::FilesDiff, start_x: 41, start_y: 3, start_extent: 42, moved: true };
    for kind in [MouseEventKind::Drag(MouseButton::Left), MouseEventKind::ScrollDown, MouseEventKind::Moved] {
        let out = map_mouse(pointer(kind, 60, 10), &app, &snap, &g, drag.clone());
        assert_eq!((out.action, out.drag), (None, DragState::Idle));
    }
}

#[test]
fn selections_have_no_direction() {
    let mut snap = UiSnapshot::default();
    snap.diff.rows = vec![context(1, "alpha"), context(2, "beta")];
    let mut app = App::new();
    app.update(snap.clone());
    let g = UiGeometry::build(Rect::new(0, 0, 140, 40), &app, &snap);
    let start = g.diff_copy.as_ref().unwrap().code_starts[0].unwrap();
    let a = DiffTextPoint { row: 0, column: start + 2 };
    let b = DiffTextPoint { row: 1, column: start + 1 };
    assert_eq!(g.selected_diff_text(DiffTextSelection { start: a, end: b }), "pha\nbe");
    assert_eq!(g.selected_diff_text(DiffTextSelection { start: b, end: a }), "pha\nbe");
}

#[test]
fn regions_scroll_within_their_content() {
    assert_eq!(moved_by(3, -5, 10), 0);
    assert_eq!(moved_by(3, 5, 10), 8);
    assert_eq!(moved_by(3, 50, 10), 10);
    let region = ScrollRegion::new(ScrollRegionId::Files, Rect::new(0, 0, 4, 4), 99, 10);
    assert_eq!(region.scrolled_offset(3), None, "already at the end");
    assert_eq!(region.scrolled_offset(-3), Some(7));
}

// -- application ------------------------------------------------------------------------

#[test]
fn toggles_come_back() {
    let mut app = App::new();
    for action in [Action::ToggleHelp, Action::ToggleZoom, Action::ToggleWrap] {
        app.apply(action.clone());
        app.apply(action);
    }
    assert!(!app.show_help && !app.zoomed && !app.diff_wrap);
}

#[test]
fn preferences_come_back() {
    let mut dividers = DividerSizes::default();
    dividers.set(DividerId::CallersDownstream, 9);
    let preferences = UiPreferences { diff_wrap: true, dividers };
    assert_eq!(App::with_preferences(preferences).preferences(), preferences);
}

#[test]
fn dispatched_intents_are_inert() {
    let mut app = App::new();
    app.update(UiSnapshot { files: vec![file("a.rs", false, 0)], ..UiSnapshot::default() });
    let before = app.snapshot.clone();
    for action in [Action::RefreshGit, Action::GenerateAi, Action::ToggleAiGenerationMode, Action::Nothing] {
        app.apply(action);
    }
    assert_eq!(app.snapshot, before);
    assert_eq!((app.file_sel, app.focused, app.should_quit), (0, Pane::Files, false));
}

#[test]
fn actions_stay_in_bounds() {
    let mut app = App::new();
    app.update(UiSnapshot { files: vec![file("a.rs", true, 2)], ..UiSnapshot::default() });
    for action in [Action::Bottom, Action::PageDown, Action::Down, Action::Activate] {
        app.apply(action);
        assert!(app.file_sel < app.flat_file_rows());
    }
    app.apply(Action::SelectFileRow { logical_index: 77, viewport_offset: 4 });
    assert!(app.file_sel < app.flat_file_rows());
}

// -- review marks -----------------------------------------------------------------------

fn reviewed_snapshot(text: &str) -> UiSnapshot {
    UiSnapshot {
        files: vec![file("x/a.rs", true, 1), file("x/b.rs", false, 0)],
        agent_changeset: Some(ChangeSet {
            scope: ChangeScope::Branch,
            files: vec![
                FileChange { path: "x/a.rs".to_string(), parsed: Some(vec![1]) },
                FileChange { path: "x/b.rs".to_string(), parsed: Some(vec![2]) },
            ],
            diff_sections: Some(vec![UnifiedDiffSection { path: "x/a.rs".to_string(), text: text.to_string() }]),
        }),
        ..UiSnapshot::default()
    }
}

#[test]
fn toggling_a_mark_twice_restores_every_state() {
    let snap = reviewed_snapshot("one");
    let mut ledger = ReviewLedger::default();
    ledger.sync(&snap);
    let a = ReviewTarget::File("x/a.rs".to_string());
    let b = ReviewTarget::File("x/b.rs".to_string());
    let x = ReviewTarget::Directory("x".to_string());
    ledger.toggle(&a);
    let before = [ledger.state(&a), ledger.state(&b), ledger.state(&x)];
    assert_eq!(before, [ReviewState::Explicit, ReviewState::Unreviewed, ReviewState::Partial]);
    for target in [&a, &b, &x] {
        ledger.toggle(target);
        ledger.toggle(target);
        assert_eq!([ledger.state(&a), ledger.state(&b), ledger.state(&x)], before);
    }
    ledger.toggle(&x);
    assert_eq!(ledger.state(&b), ReviewState::Inherited, "a directory covers its descendants");
    ledger.sync(&snap);
    ledger.sync(&snap);
    assert_eq!(ledger.state(&b), ReviewState::Inherited, "a refresh without change keeps marks");
    assert_eq!(ReviewState::Inherited.as_str(), "inherited");
}

#[test]
fn marks_belong_to_the_content_they_were_made_for() {
    let mut ledger = ReviewLedger::default();
    ledger.sync(&reviewed_snapshot("one"));
    let a = ReviewTarget::File("x/a.rs".to_string());
    ledger.toggle(&a);
    assert_eq!(ledger.progress(2).reviewed, 1);
    let mut changed = reviewed_snapshot("two");
    changed.epoch = Epoch(1);
    changed.agent_changeset_epoch = Epoch(1);
    ledger.sync(&changed);
    assert_eq!(ledger.state(&a), ReviewState::Unreviewed);
    let mut same = reviewed_snapshot("one");
    same.epoch = Epoch(2);
    same.agent_changeset_epoch = Epoch(2);
    let one = revision_content(&vec![1], &same.agent_changeset.as_ref().unwrap().diff_sections, "x/a.rs");
    let two = revision_content(&vec![1], &changed.agent_changeset.as_ref().unwrap().diff_sections, "x/a.rs");
    assert_ne!(one, two);
}

// -- canvas -----------------------------------------------------------------------------

fn rect(x: i32, y: i32, width: i32, height: i32) -> CanvasRect {
    CanvasRect { x, y, width, height }
}

#[test]
fn world_arithmetic_stops_at_its_limits() {
    assert_eq!(plus(i32::MAX, 1), i32::MAX);
    assert_eq!(minus(i32::MIN, 1), i32::MIN);
    assert_eq!(times(3, 7), 21);
    assert_eq!(times(usize::MAX, 2), i32::MAX);
    assert_eq!(count32(usize::MAX), i32::MAX);
}

#[test]
fn connectors_are_orthogonal_and_avoid_boxes() {
    let from = rect(0, 0, 10, 4);
    let to = rect(40, 0, 10, 4);
    let ends = connector_ends(from, to);
    assert_eq!(ends.heading, Heading::Right);
    assert_eq!((ends.start, ends.end), (PlanCanvasPoint { x: 10, y: 2 }, PlanCanvasPoint { x: 39, y: 2 }));
    let clear = route_connector(from, to, &vec![from, to]);
    assert_eq!(clear.len(), 3);
    let block = rect(20, -5, 5, 20);
    let around = route_connector(from, to, &vec![from, to, block]);
    assert_eq!(around.len(), 4);
    assert_eq!(around[1].y, -7, "above every box");
    for pair in around.windows(2) {
        assert!(pair[0].x == pair[1].x || pair[0].y == pair[1].y);
        assert!(!segment_intersects_rect(pair[0], pair[1], block));
    }
    assert_eq!(connector_ends(to, from).heading, Heading::Left);
    assert_eq!(connector_ends(from, rect(2, 30, 10, 4)).heading, Heading::Down);
    assert_eq!(connector_ends(rect(2, 30, 10, 4), from).heading, Heading::Up);
    assert!(!from.intersects(to));
    assert!(from.intersects(rect(9, 3, 1, 1)));
}

#[test]
fn wide_text_takes_two_cells() {
    let mut cells = blank_cells(8, 1);
    let origin = PlanCanvasPoint { x: 0, y: 0 };
    put_text(&mut cells, 1, 0, "日x", DiagramRole::Text, None, origin);
    let line = cells_to_line(&cells[0]);
    assert_eq!(line.text(), " 日 x");
    assert_eq!(line.spans.len(), 2);
    assert_eq!(line.spans[0].role, DiagramRole::Muted);
    draw_segment(
        &mut cells,
        PlanCanvasPoint { x: -3, y: 0 },
        PlanCanvasPoint { x: 100, y: 0 },
        false,
        origin,
    );
    assert_eq!(cells_to_line(&cells[0]).text(), "┄".repeat(8));
    assert_eq!(clip_to_screen(rect(-2, 0, 5, 1), origin, 8, 1), Some(Rect::new(0, 0, 3, 1)));
    assert_eq!(clip_to_screen(rect(9, 0, 5, 1), origin, 8, 1), None);
}

#[test]
fn every_layout_places_every_node() {
    let mut a = node("a");
    a.children = texts(&["b"]);
    let mut b = node("b");
    b.children = texts(&["a"]);
    for kind in [
        FormKind::Sequence,
        FormKind::ImpactSummary,
        FormKind::FocusedDiff,
        FormKind::BeforeAfter,
        FormKind::ChangedSymbolTree,
        FormKind::CallTree,
        FormKind::TypeImplTree,
        FormKind::RelationshipFlow,
    ] {
        let form =
            VizForm { kind, nodes: vec![a.clone(), b.clone(), node("c")], edges: vec![edge("a", "b", Some("to"))] };
        let placed = automatic_positions(&form, 2, 20);
        for id in ["a", "b", "c"] {
            assert!(placed.contains(&id.to_string()), "{kind:?} {id}");
        }
    }
    let tree = VizForm { kind: FormKind::CallTree, nodes: vec![a, b], edges: vec![] };
    let placed = automatic_positions(&tree, 2, 20);
    assert_eq!(placed.get(&"a".to_string()).unwrap().x, 0);
    assert_eq!(placed.get(&"b".to_string()).unwrap().x, 34, "one level deeper");
}

#[test]
fn scene_connects_what_the_plan_connects() {
    let mut parent = node("p");
    parent.children = texts(&["c", "missing"]);
    let form = VizForm {
        kind: FormKind::CallTree,
        nodes: vec![parent, node("c")],
        edges: vec![edge("p", "gone", None)],
    };
    let edges = scene_edges(&form, 3);
    assert_eq!(edges.len(), 1);
    assert_eq!((edges[0].form, edges[0].from.as_str(), edges[0].to.as_str()), (3, "p", "c"));
    assert_eq!(edges[0].label, "contains");
    let pair = VizForm { kind: FormKind::BeforeAfter, nodes: vec![node("x"), node("y")], edges: vec![] };
    assert_eq!(scene_edges(&pair, 0)[0].label, "becomes");
    assert_eq!(wrap_full("aaaa bb cc", 5), vec!["aaaa", "bb cc"]);
    assert_eq!(wrap_full("abcdefgh i", 3), vec!["abc", "def", "gh", "i"]);
    assert!(wrap_full("  ", 3).is_empty());
    assert_eq!(truncate_label("abcdef", 4), "abc…");
    assert_eq!(truncate_label("abcdef", 0), "");
}

#[test]
fn evidence_names_its_place() {
    let mut plan = one_form(FormKind::Sequence, vec![node("a")], vec![]);
    let evidence = |range, hunk| PlanEvidence {
        file: "a.rs".to_string(),
        hunk,
        symbol: None,
        range,
        reason: " why ".to_string(),
    };
    plan.evidence = vec![
        evidence(Some(LineRange { start: 4, end: 9 }), Some(1)),
        evidence(None, Some(1)),
        evidence(None, None),
    ];
    let scene = build_scene(&plan, 80, 20, &Vec::new(), &PlanCanvasView::default());
    assert_eq!(scene.evidence_rows, vec!["a.rs:5 — why", "a.rs [h2] — why", "a.rs — why"]);
}

#[test]
fn opening_a_box_moves_nothing() {
    let plan = one_form(FormKind::Sequence, vec![node("a"), node("b")], vec![edge("a", "b", None)]);
    let closed = render_canvas(&plan, 60, 20, "", None, &Vec::new(), None);
    let open = vec![PlanNodeTarget { form: 0, id: "a".to_string() }];
    let opened = render_canvas(&plan, 60, 20, "", None, &open, None);
    assert_eq!(closed.lines.len(), 20);
    assert_eq!(closed.bounds, opened.bounds);
    for (x, y) in closed.nodes.iter().zip(&opened.nodes) {
        assert_eq!((x.position, x.footprint), (y.position, y.footprint));
    }
}

#[test]
fn moved_boxes_are_independent() {
    let plan = one_form(FormKind::RelationshipFlow, vec![node("a"), node("b")], vec![edge("a", "b", Some("x"))]);
    let mut state = DiagramState::default();
    let build = |state: &DiagramState| {
        DiagramCanvas::build_with_z_order(
            &plan,
            DiagramViewport { width: 96, height: 20 },
            state.positions(),
            state.expanded_nodes(),
            state.z_order(),
        )
    };
    let before = build(&state);
    let target = PlanNodeTarget { form: 0, id: "a".to_string() };
    state.move_node(target.clone(), DiagramPosition { x: 50, y: 12 });
    let after = build(&state);
    let at = |canvas: &DiagramCanvas, id: &str| canvas.nodes.iter().find(|n| n.target.id == id).unwrap().rect;
    assert_eq!(at(&before, "b"), at(&after, "b"));
    assert_eq!((at(&after, "a").x, at(&after, "a").y), (50, 12));
    for route in &after.relationships {
        for pair in route.path.windows(2) {
            assert!(pair[0].x == pair[1].x || pair[0].y == pair[1].y);
        }
    }
}

// -- frame ------------------------------------------------------------------------------

#[test]
fn zoom_keeps_the_bars() {
    let snap = UiSnapshot::default();
    let mut app = App::new();
    let area = Rect::new(0, 0, 140, 40);
    let bar = |drawings: &[Drawing]| match &drawings[0] {
        Drawing::Text { area, lines, .. } => (*area, lines[0].text()),
        _ => panic!("a bar is text"),
    };
    let normal = bar(&render(area, &app, &snap));
    app.apply(Action::ToggleZoom);
    assert_eq!(bar(&render(area, &app, &snap)), normal);
    let small = render(Rect::new(0, 0, 20, 5), &app, &snap);
    match &small[..] {
        [Drawing::Text { lines, .. }] => assert_eq!(lines[0].text(), "terminal too small (20x5)"),
        _ => panic!("one message"),
    }
}

#[test]
fn status_detail_is_drawn_last() {
    let mut app = App::new();
    app.show_help = true;
    app.status_detail = Some(StatusMessage {
        text: "short".to_string(),
        detail: Some("the whole message".to_string()),
        level: StatusLevel::Error,
    });
    let drawings = render(Rect::new(0, 0, 140, 40), &app, &UiSnapshot::default());
    match &drawings[drawings.len() - 2..] {
        [Drawing::Border { tone, .. }, Drawing::Prose { text, .. }] => {
            assert_eq!(*tone, Tone::Error);
            assert_eq!(text, "the whole message");
        }
        _ => panic!("the dialog is on top"),
    }
}

// -- tables -----------------------------------------------------------------------------

#[test]
fn tables_hold_the_last_value_of_a_key() {
    let mut table: Table<String, usize> = Table::new();
    table.insert("a".to_string(), 1);
    table.insert("b".to_string(), 2);
    table.insert("a".to_string(), 3);
    assert_eq!(table.get(&"a".to_string()), Some(&3));
    assert_eq!(table.remove(&"a".to_string()), Some(3));
    assert_eq!(table.get(&"a".to_string()), None);
    assert_eq!(table.keys(), vec!["b"]);
    let mut set: KeySet<String> = KeySet::new();
    assert!(set.insert("x".to_string()));
    assert!(!set.insert("x".to_string()));
    set.remove(&"x".to_string());
    assert!(set.is_empty());
}

// -- selection --------------------------------------------------------------------------

#[test]
fn tree_selection_names_its_row() {
    let mut app = App::new();
    app.update(UiSnapshot { files: vec![file("a/one.rs", true, 1), file("two.rs", false, 0)], ..UiSnapshot::default() });
    assert_eq!(app.selected_tree_path(), Some("a".to_string()));
    assert_eq!(app.selected_file_path(), None, "a directory is no file");
    assert!(app.selected_file_symbol().is_none());
    assert_eq!(app.file_toggle_target(), None);
    app.apply(Action::Down);
    assert_eq!(app.selected_tree_path(), Some("a/one.rs".to_string()));
    assert_eq!(app.file_toggle_target(), Some(("a/one.rs".to_string(), false)));
    app.apply(Action::Down);
    let (owner, symbol) = app.selected_file_symbol().expect("symbol row");
    assert_eq!((owner.path.as_str(), symbol.map(|s| s.name.as_str())), ("a/one.rs", Some("sym0")));
}

#[test]
fn canvas_positions_are_clamped_into_the_viewport() {
    let plan = one_form(FormKind::Sequence, vec![node("a"), node("b")], vec![]);
    let viewport = DiagramViewport { width: 60, height: 20 };
    let state = DiagramState::default();
    let canvas = DiagramCanvas::build(&plan, viewport, state.positions(), state.expanded_nodes());
    let target = PlanNodeTarget { form: 0, id: "a".to_string() };
    let shown = canvas.nodes.iter().find(|n| n.target == target).unwrap().rect;
    assert_eq!(
        DiagramCanvas::default_position(&plan, &target, viewport),
        Some(DiagramPosition { x: shown.x, y: shown.y })
    );
    let gone = PlanNodeTarget { form: 0, id: "zz".to_string() };
    assert_eq!(DiagramCanvas::default_position(&plan, &gone, viewport), None);
    let clamped = canvas.clamp_position(&target, DiagramPosition { x: 500, y: 7 });
    assert_eq!(clamped, DiagramPosition { x: 60 - shown.width, y: 7 });
    assert_eq!(canvas.overlay_at(None, DiagramPosition { x: 0, y: 0 }), None);
}

#[test]
fn rows_are_counted_from_tokens() {
    assert_eq!(count_token_rows(&texts(&["ab", " ", "cd"]), 3), 2);
    assert_eq!(count_token_rows(&texts(&["abcdefgh"]), 4), 2);
    assert_eq!(count_token_rows(&texts(&["abcdefghi", "j"]), 4), 3);
    assert_eq!(count_token_rows(&Vec::new(), 4), 1);
    assert_eq!(exact_model_note("\"x\""), "  Enter to use \"x\" as an exact model id");
}
