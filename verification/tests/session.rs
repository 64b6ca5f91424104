use codescope_tui::action::{map_key, Action, PlanNodeTarget};
use codescope_tui::app::{App, Pane};
use codescope_tui::canvas::connector_ends;
use codescope_tui::canvas_grid::CanvasRect;
use codescope_tui::diagram::DiagramViewport;
use codescope_tui::diagram_canvas::DiagramCanvas;
use codescope_tui::diagram_layout::node_box_text;
use codescope_tui::dialog::help_dialog;
use codescope_tui::divider::DividerId;
use codescope_tui::elide::elide_paths;
use codescope_tui::event::{KeyCode, KeyEvent, KeyModifiers};
use codescope_tui::file_rows::{project, ProjectedRow};
use codescope_tui::geometry::UiGeometry;
use codescope_tui::intraline::{changed_spans, row_spans, row_text};
use codescope_tui::layout::impact_height;
use codescope_tui::plan::{Epoch, FormKind, PlanNode, PlanNodeChange, VisualizationPlan, VizForm};
use codescope_tui::rect::Rect;
use codescope_tui::render::{render, render_review_markers, render_reviewed, Drawing};
use codescope_tui::review::{ReviewLedger, ReviewState, ReviewTarget};
use codescope_tui::snapshot::{
    AiStatus, ChangeScope, ChangeSet, DiffPane, DiffRow, FileChange, FileRow, FileSemanticLoad, ImpactLoadState,
    LsStatus, StatusLevel, SymbolRow, UiSnapshot,
};
use codescope_tui::table::{KeySet, Table};
use codescope_tui::viewport::first_object_row;
use unicode_width::UnicodeWidthStr;

fn symbol(name: &str, change: &'static str, line: u32) -> SymbolRow {
    SymbolRow {
        name: name.to_string(),
        change,
        confidence: "",
        has_diagnostic: false,
        position: Some((line, 0)),
    }
}

fn file(path: &str, symbols: Vec<SymbolRow>) -> FileRow {
    FileRow {
        path: path.to_string(),
        status: "M",
        changed_symbol_count: symbols.len(),
        added_lines: 1,
        removed_lines: 1,
        symbols,
        expanded: true,
        semantic: FileSemanticLoad::Ready,
    }
}

fn context(line: u32) -> DiffRow {
    DiffRow::Context { old_ln: line, new_ln: line, text: format!("line {line}") }
}

/// Ten context rows behind a header, with an added row behind lines 3 and 8.
fn rows() -> Vec<DiffRow> {
    let mut rows = vec![DiffRow::HunkHeader("@@ -1,10 +1,12 @@".to_string())];
    for line in 1..=10 {
        rows.push(context(line));
        if line == 3 || line == 8 {
            rows.push(DiffRow::Add { new_ln: line, text: "added".to_string() });
        }
    }
    rows
}

fn picture(title: &str) -> UiSnapshot {
    UiSnapshot {
        files: vec![
            file("a.go", vec![symbol("One", "modified", 1), symbol("Two", "modified", 6)]),
            file("b.go", Vec::new()),
        ],
        diff: DiffPane {
            title: title.to_string(),
            rows: rows(),
            total_hunks: 1,
            ..DiffPane::default()
        },
        ..UiSnapshot::default()
    }
}

#[test]
fn both_quit_letters_quit() {
    let app = App::default();
    for letter in ['q', 'Q'] {
        let key = KeyEvent::new(KeyCode::Char(letter), KeyModifiers::none());
        assert_eq!(map_key(key, &app), Action::Quit);
    }
    let help: Vec<String> = help_dialog().iter().map(|line| line.text()).collect();
    assert!(help.contains(&"  q / Q / Ctrl-C  quit".to_string()));
    assert!(help.contains(&"  g               refresh repository state".to_string()));
    assert!(help.contains(&"  Home / G        top / bottom".to_string()));
}

#[test]
fn impact_height_is_held_to_its_range() {
    assert_eq!(impact_height(30, 60), 18);
    assert_eq!(impact_height(18, 60), 18);
    assert_eq!(impact_height(1, 60), 5);
    assert_eq!(impact_height(30, 24), 15);
    assert_eq!(impact_height(30, 3), 5);
    let mut app = App::new();
    app.apply(Action::ResizeDivider { divider: DividerId::WorkReview, extent: 40 });
    assert_eq!(app.dividers.get(DividerId::WorkReview), 40, "the request itself is kept");
    let geometry = UiGeometry::build(Rect::new(0, 0, 120, 60), &app, &app.snapshot);
    assert_eq!(geometry.impact.map(|r| r.height), Some(18));
}

#[test]
fn a_blank_picture_is_blank_everywhere() {
    let s = UiSnapshot::default();
    assert!(s.files.is_empty() && s.diff.rows.is_empty() && s.diff.focused_symbol.is_none());
    assert!(s.base_ref.is_empty() && s.repo.repo_name.is_empty() && s.repo.branch.is_empty() && s.repo.base.is_none());
    assert!(s.ai_model.is_empty() && s.ai_provider.is_empty() && !s.refreshing && !s.ai_activity.active);
    assert_eq!((s.ai_tokens.input, s.ai_tokens.output), (0, 0));
    assert_eq!((s.ls, s.ai, s.agent_changeset_epoch), (LsStatus::Starting, AiStatus::Idle, Epoch(0)));
    assert_eq!(s.impact.callers.state, ImpactLoadState::Idle);
    assert!(!s.semantic.ai_generated && s.semantic.report.is_none());
    assert_eq!((s.status.level, s.status.detail), (StatusLevel::Info, None));
}

#[test]
fn each_file_remembers_its_scroll_position() {
    let mut app = App::new();
    app.update(picture("a.go"));
    app.apply(Action::Focus(Pane::Diff));
    for _ in 0..5 {
        app.apply(Action::Down);
    }
    app.apply(Action::ScrollDiffHorizontal { delta: 7 });
    let column = app.diff_hscroll;
    assert_eq!(app.diff_scroll, 5);

    app.update(picture("b.go"));
    assert_eq!((app.diff_scroll, app.diff_hscroll, app.current_hunk), (0, 0, 1), "a new file starts at its top");
    app.apply(Action::Down);
    app.apply(Action::Down);

    app.update(picture("a.go"));
    assert_eq!((app.diff_scroll, app.diff_hscroll), (5, column));
    app.update(picture("b.go"));
    assert_eq!(app.diff_scroll, 2);
}

#[test]
fn a_remembered_position_is_cut_to_a_shorter_diff() {
    let mut app = App::new();
    app.update(picture("a.go"));
    app.apply(Action::Focus(Pane::Diff));
    app.apply(Action::Bottom);
    assert_eq!(app.diff_scroll, 12);
    app.update(picture("b.go"));
    let mut shorter = picture("a.go");
    shorter.diff.rows.truncate(4);
    app.update(shorter);
    assert_eq!(app.diff_scroll, 3);
}

#[test]
fn scopes_have_positions_of_their_own() {
    let mut app = App::new();
    app.update(picture("a.go"));
    app.apply(Action::Focus(Pane::Diff));
    for _ in 0..3 {
        app.apply(Action::Down);
    }
    app.apply(Action::ScopeStaged);
    assert_eq!(app.diff_scroll, 0);
    app.apply(Action::Down);
    app.apply(Action::ScopeBranch);
    assert_eq!(app.diff_scroll, 3);
    assert_eq!(app.snapshot.scope, ChangeScope::Branch);
}

#[test]
fn selecting_an_object_shows_its_first_changed_row() {
    let mut app = App::new();
    app.update(picture("a.go"));
    assert_eq!(app.diff_scroll, 0);
    // `One` stands on the second line; its first changed row is behind the third.
    app.apply(Action::Down);
    assert_eq!((app.selected_symbol_name(), app.diff_scroll), (Some("One"), 4));
    // `Two` stands on the seventh line; its first changed row is behind the eighth.
    app.apply(Action::Down);
    assert_eq!((app.selected_symbol_name(), app.diff_scroll), (Some("Two"), 10));
    // Each object keeps its own viewport.
    app.apply(Action::Focus(Pane::Diff));
    app.apply(Action::Up);
    app.apply(Action::Focus(Pane::Files));
    app.apply(Action::Up);
    assert_eq!(app.diff_scroll, 4);
    app.apply(Action::Down);
    assert_eq!(app.diff_scroll, 9);
    app.apply(Action::Top);
    assert_eq!(app.diff_scroll, 0, "the file itself stands where it was left");
}

#[test]
fn an_object_of_another_file_waits_for_its_diff() {
    let mut app = App::new();
    app.update(picture("b.go"));
    app.apply(Action::Down);
    assert_eq!((app.selected_symbol_name(), app.diff_scroll), (Some("One"), 0));
    app.update(picture("a.go"));
    assert_eq!((app.selected_symbol_name(), app.diff_scroll), (Some("One"), 4));
}

#[test]
fn removed_objects_are_found_on_the_old_side() {
    let rows = vec![
        DiffRow::HunkHeader("@@".to_string()),
        DiffRow::Context { old_ln: 20, new_ln: 1, text: "x".to_string() },
        DiffRow::Add { new_ln: 2, text: "new".to_string() },
        DiffRow::Del { old_ln: 21, text: "gone".to_string() },
    ];
    assert_eq!(first_object_row(&rows, &symbol("Gone", "removed", 20)), Some(3));
    assert_eq!(first_object_row(&rows, &symbol("New", "added", 1)), Some(2));
    assert_eq!(first_object_row(&rows, &symbol("Far", "modified", 90)), None);
    let unplaced = SymbolRow { position: None, ..symbol("Lost", "modified", 0) };
    assert_eq!(first_object_row(&rows, &unplaced), None);
}

fn reviewed() -> UiSnapshot {
    let mut snapshot = picture("a.go");
    snapshot.agent_changeset = Some(ChangeSet {
        scope: ChangeScope::Branch,
        files: ["a.go", "b.go"]
            .iter()
            .map(|path| FileChange { path: path.to_string(), parsed: Some(path.as_bytes().to_vec()) })
            .collect(),
        diff_sections: None,
    });
    snapshot
}

fn markers(geometry: &UiGeometry, ledger: &ReviewLedger) -> Vec<(u16, u16, String)> {
    render_review_markers(geometry, ledger)
        .iter()
        .map(|drawing| match drawing {
            Drawing::Text { area, lines, .. } => (area.x, area.y, lines[0].text()),
            _ => unreachable!(),
        })
        .collect()
}

#[test]
fn markers_tell_review_states_apart() {
    let states = [
        (ReviewState::Explicit, "●"),
        (ReviewState::Inherited, "↳"),
        (ReviewState::Reviewed, "✓"),
        (ReviewState::Partial, "◐"),
        (ReviewState::Unreviewed, " "),
    ];
    for (state, marker) in states {
        assert_eq!(state.marker(), marker);
    }

    let snapshot = reviewed();
    let mut app = App::new();
    app.update(snapshot.clone());
    let mut ledger = ReviewLedger::default();
    ledger.sync(&snapshot);
    let area = Rect::new(0, 0, 120, 40);
    let geometry = UiGeometry::build(area, &app, &snapshot);
    assert!(markers(&geometry, &ledger).is_empty(), "nothing is reviewed yet");

    let two = ReviewTarget::Symbol { file: "a.go".to_string(), name: "Two".to_string(), position: Some((6, 0)) };
    ledger.toggle(&two);
    let cell = |i: usize| (geometry.review_rects[i].0.x, geometry.review_rects[i].0.y);
    let shown = markers(&geometry, &ledger);
    assert_eq!(
        shown,
        vec![(cell(0).0, cell(0).1, "◐".to_string()), (cell(2).0, cell(2).1, "●".to_string())],
        "the file is reviewed in part, the object as a whole"
    );
    ledger.toggle(&ReviewTarget::File("a.go".to_string()));
    let texts: Vec<String> = markers(&geometry, &ledger).into_iter().map(|marker| marker.2).collect();
    assert_eq!(texts, vec!["●", "↳", "●"], "an independent mark survives below its file");
}

#[test]
fn markers_are_drawn_below_the_dialogs() {
    let snapshot = reviewed();
    let mut app = App::new();
    app.update(snapshot.clone());
    app.apply(Action::ToggleHelp);
    let mut ledger = ReviewLedger::default();
    ledger.sync(&snapshot);
    ledger.toggle(&ReviewTarget::File("b.go".to_string()));
    let area = Rect::new(0, 0, 120, 40);
    let plain = render_reviewed(area, &app, &snapshot, &ReviewLedger::default());
    let marked = render_reviewed(area, &app, &snapshot, &ledger);
    assert_eq!(marked.len(), plain.len() + 1);
    let is_marker = |drawing: &Drawing| match drawing {
        Drawing::Text { lines, .. } => lines.len() == 1 && lines[0].text() == "●",
        _ => false,
    };
    let marker = marked.iter().position(is_marker).expect("a marker");
    let dialog = marked.iter().position(|d| matches!(d, Drawing::Clear { .. })).expect("a dialog");
    assert!(marker < dialog);
    let small = Rect::new(0, 0, 10, 4);
    assert_eq!(
        render_reviewed(small, &app, &snapshot, &ledger).len(),
        render(small, &app, &snapshot).len(),
        "no marker without room for a pane"
    );
}

fn without(line: &str, spans: &[(usize, usize)]) -> String {
    line.char_indices()
        .filter(|(at, _)| !spans.iter().any(|(start, end)| start <= at && at < end))
        .map(|(_, c)| c)
        .collect()
}

#[test]
fn unmarked_text_is_the_same_on_both_sides() {
    for (old, new) in [
        ("let total = count(items);", "let total = sum(items, 0);"),
        ("größe = alt + 1", "größe = neu + 1"),
        ("a b c d", "a x c y z"),
    ] {
        let (removed, added) = changed_spans(old, new);
        assert!(!removed.is_empty() || !added.is_empty());
        let kept = without(old, &removed);
        assert_eq!(kept, without(new, &added));
        assert!(kept.chars().any(|c| c == '_' || c.is_alphanumeric()));
    }
    let long = "word ".repeat(500);
    assert_eq!(changed_spans(&long, "word"), (Vec::new(), Vec::new()));
}

#[test]
fn mark_and_basename_are_kept_where_they_fit() {
    let paths = ["packages/server/src/handlers/user.go", "packages/server/src/main.go"];
    for budget in 4..40 {
        for (path, shown) in paths.iter().zip(elide_paths(&paths, budget)) {
            let base = path.rsplit('/').next().unwrap();
            if 2 + base.width() <= budget {
                assert!(shown.starts_with("…/") && shown.ends_with(base), "{budget}: {shown}");
            }
            assert!(shown.width() <= budget);
        }
    }
    assert_eq!(elide_paths(&paths, 40), vec!["…/handlers/user.go", "…/main.go"]);
}

#[test]
fn directories_stand_before_their_files_and_hide_them() {
    let files: Vec<FileRow> = ["a/b/c.rs", "a/b/d.rs", "a/e.rs", "f.rs"]
        .iter()
        .map(|path| FileRow { expanded: false, ..file(path, Vec::new()) })
        .collect();
    let directories = |rows: &Vec<ProjectedRow>| -> Vec<String> {
        rows.iter()
            .filter_map(|row| match row {
                ProjectedRow::Directory { path, .. } => Some(path.clone()),
                _ => None,
            })
            .collect()
    };
    let shown = |rows: &Vec<ProjectedRow>| -> Vec<usize> {
        rows.iter()
            .filter_map(|row| match row {
                ProjectedRow::File { file_index, .. } => Some(*file_index),
                _ => None,
            })
            .collect()
    };
    let all = project(&files, &KeySet::new());
    assert_eq!(directories(&all), vec!["a", "a/b"]);
    assert_eq!(shown(&all), vec![0, 1, 2, 3]);
    assert!(matches!(&all[0], ProjectedRow::Directory { path, .. } if path == "a"));
    assert!(matches!(&all[1], ProjectedRow::Directory { path, .. } if path == "a/b"));

    let mut collapsed: KeySet<String> = KeySet::new();
    collapsed.insert("a/b".to_string());
    let rows = project(&files, &collapsed);
    assert_eq!(directories(&rows), vec!["a", "a/b"]);
    assert_eq!(shown(&rows), vec![2, 3]);

    collapsed.insert("a".to_string());
    let rows = project(&files, &collapsed);
    assert_eq!(directories(&rows), vec!["a"]);
    assert_eq!(shown(&rows), vec![3]);
}

#[test]
fn an_opened_box_grows_in_its_place() {
    let mut first = PlanNode::new("n0", "first", PlanNodeChange::Added);
    first.detail = Some("short".to_string());
    first.expanded_detail = Some("a much longer text that takes a few more rows of the card".to_string());
    let mut plan = VisualizationPlan::new(Epoch(1));
    plan.forms.push(VizForm {
        kind: FormKind::RelationshipFlow,
        nodes: vec![first, PlanNode::new("n1", "second", PlanNodeChange::Modified)],
        edges: Vec::new(),
    });
    let viewport = DiagramViewport { width: 80, height: 20 };
    let closed = DiagramCanvas::build_with_annotations(
        &plan,
        viewport,
        &Table::new(),
        &KeySet::new(),
        &Vec::new(),
        &Vec::new(),
    );
    let target = PlanNodeTarget { form: 0, id: "n0".to_string() };
    let mut expanded: KeySet<PlanNodeTarget> = KeySet::new();
    expanded.insert(target.clone());
    let open =
        DiagramCanvas::build_with_annotations(&plan, viewport, &Table::new(), &expanded, &Vec::new(), &Vec::new());
    assert_eq!(open.nodes.len(), closed.nodes.len());
    for (a, b) in closed.nodes.iter().zip(&open.nodes) {
        assert_eq!(a.target, b.target);
        assert_eq!((a.rect.x, a.rect.y), (b.rect.x, b.rect.y));
        if a.target == target {
            assert!(b.rect.height > a.rect.height);
        } else {
            assert_eq!((a.rect, &a.lines), (b.rect, &b.lines));
        }
    }
}

/// The lines of every text drawing, each with its row on screen.
fn drawn_lines(drawings: &[Drawing]) -> Vec<(Rect, u16, String)> {
    let mut out = Vec::new();
    for drawing in drawings {
        if let Drawing::Text { area, lines, .. } = drawing {
            for (k, line) in lines.iter().enumerate() {
                out.push((*area, area.y + k as u16, line.text()));
            }
        }
    }
    out
}

#[test]
fn reviewed_rows_are_drawn_where_they_are_hit() {
    let mut snapshot = reviewed();
    snapshot.files = vec![
        file("src/deep/a.rs", vec![symbol("One", "modified", 1)]),
        file("src/deep/b.rs", Vec::new()),
        file("src/c.rs", Vec::new()),
        file("z.rs", Vec::new()),
    ];
    let paths = ["src/deep/a.rs", "src/deep/b.rs", "src/c.rs", "z.rs"];
    if let Some(changes) = snapshot.agent_changeset.as_mut() {
        changes.files = paths
            .iter()
            .map(|path| FileChange { path: path.to_string(), parsed: Some(path.as_bytes().to_vec()) })
            .collect();
    }
    let mut app = App::new();
    app.update(snapshot.clone());
    let mut ledger = ReviewLedger::default();
    ledger.sync(&snapshot);
    ledger.toggle(&ReviewTarget::File("src/c.rs".to_string()));
    ledger.toggle(&ReviewTarget::Directory("src/deep".to_string()));
    let area = Rect::new(0, 0, 120, 40);
    let geometry = UiGeometry::build(area, &app, &snapshot);
    let inside = geometry.files_inner.expect("a files pane");
    let lines = drawn_lines(&render_reviewed(area, &app, &snapshot, &ledger));
    let row = |y: u16| -> String {
        lines.iter().find(|(rect, line_y, _)| *rect == inside && *line_y == y).map(|line| line.2.clone()).expect("a row")
    };
    let names = ["src/", "deep/", "a.rs", "One", "b.rs", "no changed symbols", "c.rs", "no changed symbols", "z.rs"];
    for (slot, name) in names.iter().enumerate() {
        let (rect, physical) = geometry.file_row_rects[slot];
        assert_eq!(physical, slot);
        assert!(row(rect.y).contains(name), "{slot}: {}", row(rect.y));
    }
    let shown: Vec<(u16, String)> =
        markers(&geometry, &ledger).into_iter().map(|(x, y, marker)| (y - inside.y, format!("{x}{marker}"))).collect();
    let x = inside.x + inside.width - 1;
    assert_eq!(
        shown,
        vec![
            (0, format!("{x}✓")),
            (1, format!("{x}●")),
            (2, format!("{x}↳")),
            (3, format!("{x}↳")),
            (4, format!("{x}↳")),
            (6, format!("{x}●")),
        ]
    );
    app.apply(Action::SetDirectoryExpanded { path: "src".to_string(), expanded: false });
    let geometry = UiGeometry::build(area, &app, &snapshot);
    let lines = drawn_lines(&render_reviewed(area, &app, &snapshot, &ledger));
    let shown: Vec<&String> = lines.iter().filter(|line| line.0 == inside).map(|line| &line.2).collect();
    assert_eq!(shown.len(), geometry.file_row_rects.len());
    assert!(shown[0].contains("▸ src/") && shown[1].contains("z.rs"));
}

fn tall_plan() -> UiSnapshot {
    let mut plan = VisualizationPlan::new(Epoch(1));
    plan.intent = "Each request moves through the changed path.".to_string();
    let nodes = (0..9).map(|i| {
        let mut node = PlanNode::new(&format!("n{i}"), &format!("PlanStep{i}"), PlanNodeChange::Modified);
        node.detail = Some(format!("explains effect {i}"));
        node
    });
    plan.forms.push(VizForm { kind: FormKind::RelationshipFlow, nodes: nodes.collect(), edges: Vec::new() });
    let mut snapshot = picture("a.go");
    snapshot.epoch = Epoch(1);
    snapshot.ai = AiStatus::Ready { epoch: Epoch(1) };
    snapshot.semantic.plan = Some(plan);
    snapshot.semantic.ai_generated = true;
    snapshot
}

fn generated_text(app: &App, snapshot: &UiSnapshot) -> String {
    let drawings = render(Rect::new(0, 0, 140, 40), app, snapshot);
    let lines = drawn_lines(&drawings);
    lines.iter().filter(|line| line.0.x > 50 && line.0.y > 20).map(|line| format!("{}\n", line.2)).collect()
}

#[test]
fn a_tall_plan_scrolls_over_physical_rows() {
    let snapshot = tall_plan();
    let mut app = App::new();
    app.update(snapshot.clone());
    app.apply(Action::Focus(Pane::Impact));
    let top = generated_text(&app, &snapshot);
    assert!(top.contains("Each request moves through") && top.contains("PlanStep0"), "{top}");
    assert!(!top.contains("PlanStep8"), "{top}");
    app.apply(Action::Down);
    let next = generated_text(&app, &snapshot);
    assert!(!next.contains("Each request moves through"), "one row down the description has left: {next}");
    assert!(next.contains("PlanStep0"), "{next}");
    app.apply(Action::Bottom);
    let bottom = generated_text(&app, &snapshot);
    assert!(bottom.contains("PlanStep8") && bottom.contains("explains effect 8"), "{bottom}");
    assert!(!bottom.contains("PlanStep0"), "{bottom}");
    app.apply(Action::Top);
    assert_eq!(generated_text(&app, &snapshot), top);
}

#[test]
fn a_generated_plan_stays_drawn_whatever_its_generator_does() {
    let mut snapshot = tall_plan();
    let mut app = App::new();
    app.update(snapshot.clone());
    let ready = generated_text(&app, &snapshot);
    let area = Rect::new(0, 0, 140, 40);
    assert!(!UiGeometry::build(area, &app, &snapshot).plan_node_rects.is_empty());
    for status in [
        AiStatus::Idle,
        AiStatus::Stale { epoch: Epoch(1) },
        AiStatus::Loading { since_epoch: Epoch(1) },
        AiStatus::Failed { reason: "timeout".to_string() },
    ] {
        snapshot.ai = status;
        assert_eq!(generated_text(&app, &snapshot), ready);
        let geometry = UiGeometry::build(area, &app, &snapshot);
        assert!(geometry.plan_node_rects.is_empty(), "only a finished plan can be hit");
    }
    snapshot.semantic.ai_generated = false;
    assert!(generated_text(&app, &snapshot).contains("AI failed; showing known relationships"));
}

#[test]
fn review_data_is_available_exactly_when_it_is_complete() {
    let available = |snapshot: &UiSnapshot| {
        let mut ledger = ReviewLedger::default();
        ledger.sync(snapshot);
        ledger.progress(7)
    };
    let complete = reviewed();
    let progress = available(&complete);
    assert_eq!((progress.reviewed, progress.total, progress.available), (0, 2, true));
    let mut cases: Vec<UiSnapshot> = Vec::new();
    cases.push(UiSnapshot { agent_changeset: None, ..complete.clone() });
    cases.push(UiSnapshot { agent_changeset_epoch: Epoch(9), ..complete.clone() });
    cases.push(UiSnapshot { scope: ChangeScope::Staged, ..complete.clone() });
    let change = |edit: fn(&mut ChangeSet)| {
        let mut snapshot = complete.clone();
        edit(snapshot.agent_changeset.as_mut().expect("a change set"));
        snapshot
    };
    cases.push(change(|c| {
        c.files.pop();
    }));
    cases.push(change(|c| c.files.push(FileChange { path: "c.go".to_string(), parsed: Some(Vec::new()) })));
    cases.push(change(|c| c.files[1].path = "a.go".to_string()));
    cases.push(change(|c| c.files[0].parsed = None));
    for case in &cases {
        let progress = available(case);
        assert_eq!((progress.reviewed, progress.total, progress.available), (0, 7, false));
    }
}

#[test]
fn a_directory_mark_is_shown_below_it_and_nowhere_else() {
    let mut snapshot = reviewed();
    snapshot.files = vec![file("x/a.rs", vec![symbol("One", "modified", 1)]), file("y.rs", Vec::new())];
    if let Some(changes) = snapshot.agent_changeset.as_mut() {
        changes.files = ["x/a.rs", "y.rs"]
            .iter()
            .map(|path| FileChange { path: path.to_string(), parsed: Some(path.as_bytes().to_vec()) })
            .collect();
    }
    let mut ledger = ReviewLedger::default();
    ledger.sync(&snapshot);
    let one = ReviewTarget::Symbol { file: "x/a.rs".to_string(), name: "One".to_string(), position: Some((1, 0)) };
    ledger.toggle(&ReviewTarget::Directory("x".to_string()));
    assert_eq!(ledger.state(&ReviewTarget::Directory("x".to_string())), ReviewState::Explicit);
    assert_eq!(ledger.state(&ReviewTarget::File("x/a.rs".to_string())), ReviewState::Inherited);
    assert_eq!(ledger.state(&one), ReviewState::Inherited);
    assert_eq!(ledger.state(&ReviewTarget::File("y.rs".to_string())), ReviewState::Unreviewed);
}

#[test]
fn helpers_take_every_size() {
    let rows = node_box_text("label", "detail", 60);
    assert!(rows.iter().all(|row| row.width() == 60));
    assert_eq!(rows.len(), 5);
    let narrow = node_box_text("l", "", 0);
    assert!(narrow.iter().all(|row| row.width() == 4));
    let from = CanvasRect { x: 10, y: 10, width: -5, height: -3 };
    let to = CanvasRect { x: 40, y: 11, width: 7, height: 3 };
    let ends = connector_ends(from, to);
    assert_eq!((ends.start.x, ends.start.y, ends.end.x, ends.end.y), (5, 9, 39, 12));
}

#[test]
fn row_spans_are_sorted_and_inside_their_rows() {
    let rows = vec![
        DiffRow::Del { old_ln: 1, text: "let größe = old_value + one + two;".to_string() },
        DiffRow::Add { new_ln: 1, text: "let größe = new_value + one + three;".to_string() },
        DiffRow::Context { old_ln: 2, new_ln: 2, text: "same".to_string() },
    ];
    let spans = row_spans(&rows);
    assert_eq!((spans[0].len(), spans[1].len(), spans[2].len()), (2, 2, 0));
    for (row, spans) in rows.iter().zip(&spans) {
        let mut last = None;
        for (start, end) in spans {
            assert!(start < end && *end <= row_text(row).len());
            assert!(last.map_or(true, |before| before < *start));
            last = Some(*end);
        }
    }
}
