use codescope_tui::plan::Epoch;
use codescope_tui::review::{ReviewLedger, ReviewProgress, ReviewState, ReviewTarget};
use codescope_tui::snapshot::{
    ChangeScope, ChangeSet, FileChange, FileRow, FileSemanticLoad, SymbolRow, UiSnapshot, UnifiedDiffSection,
};



fn snapshot(files: &[(&str, &str)], epoch: u64) -> UiSnapshot {
    let rows = files
        .iter()
        .map(|(path, _)| FileRow {
            semantic: FileSemanticLoad::Ready,
            path: (*path).to_string(),
            status: "M",
            changed_symbol_count: 0,
            added_lines: 1,
            removed_lines: 1,
            symbols: Vec::new(),
            expanded: false,
        })
        .collect::<Vec<_>>();
    let changes = files
        .iter()
        .map(|(path, _)| FileChange { path: (*path).to_string(), parsed: Some(Vec::new()) })
        .collect::<Vec<_>>();
    let sections = files
        .iter()
        .map(|(path, text)| UnifiedDiffSection {
            path: (*path).into(),
            text: (*text).to_string(),
        })
        .collect();
    UiSnapshot {
        files: rows,
        agent_changeset: Some(ChangeSet { scope: ChangeScope::Branch, files: changes, diff_sections: Some(sections) }),
        agent_changeset_epoch: Epoch(epoch),
        epoch: Epoch(epoch),
        base_ref: "main".to_string(),
        ..UiSnapshot::default()
    }
}

fn with_symbols(mut snapshot: UiSnapshot, file: &str, names: &[&str]) -> UiSnapshot {
    let row = snapshot
        .files
        .iter_mut()
        .find(|row| row.path == file)
        .expect("symbol owner");
    row.symbols = names
        .iter()
        .enumerate()
        .map(|(index, name)| SymbolRow {
            name: (*name).to_string(),
            change: "modified",
            confidence: "",
            has_diagnostic: false,
            position: Some((index as u32 + 1, 0)),
        })
        .collect();
    row.changed_symbol_count = row.symbols.len();
    row.expanded = true;
    row.semantic = FileSemanticLoad::Ready;
    snapshot
}

fn symbol(file: &str, name: &str, line: u32) -> ReviewTarget {
    ReviewTarget::Symbol {
        file: file.to_string(),
        name: name.to_string(),
        position: Some((line, 0)),
    }
}

#[test]
fn lsp_objects_roll_up_to_files_without_losing_independent_marks() {
    let snap = with_symbols(snapshot(&[("x/a.rs", "a1")], 1), "x/a.rs", &["one", "two"]);
    let mut ledger = ReviewLedger::default();
    ledger.sync(&snap);

    ledger.toggle(&symbol("x/a.rs", "one", 1));
    assert_eq!(
        ledger.state(&symbol("x/a.rs", "one", 1)),
        ReviewState::Explicit
    );
    assert_eq!(
        ledger.state(&ReviewTarget::File("x/a.rs".into())),
        ReviewState::Partial
    );
    assert_eq!(ledger.progress(1).reviewed, 0);

    ledger.toggle(&ReviewTarget::File("x/a.rs".into()));
    assert_eq!(
        ledger.state(&symbol("x/a.rs", "one", 1)),
        ReviewState::Explicit,
        "an explicit object mark remains distinguishable under a file override"
    );
    assert_eq!(
        ledger.state(&symbol("x/a.rs", "two", 2)),
        ReviewState::Inherited
    );

    ledger.toggle(&ReviewTarget::File("x/a.rs".into()));
    assert_eq!(
        ledger.state(&symbol("x/a.rs", "one", 1)),
        ReviewState::Explicit
    );
    assert_eq!(
        ledger.state(&symbol("x/a.rs", "two", 2)),
        ReviewState::Unreviewed
    );

    ledger.toggle(&symbol("x/a.rs", "two", 2));
    assert_eq!(
        ledger.state(&ReviewTarget::File("x/a.rs".into())),
        ReviewState::Reviewed
    );
    assert_eq!(
        ledger.state(&ReviewTarget::Directory("x".into())),
        ReviewState::Reviewed
    );
    assert_eq!(ledger.progress(1).reviewed, 1);
}

#[test]
fn directory_override_covers_lsp_objects_without_rewriting_them() {
    let snap = with_symbols(snapshot(&[("x/a.rs", "a1")], 1), "x/a.rs", &["one", "two"]);
    let mut ledger = ReviewLedger::default();
    ledger.sync(&snap);
    ledger.toggle(&symbol("x/a.rs", "one", 1));

    ledger.toggle(&ReviewTarget::Directory("x".into()));
    assert_eq!(
        ledger.state(&ReviewTarget::File("x/a.rs".into())),
        ReviewState::Inherited
    );
    assert_eq!(
        ledger.state(&symbol("x/a.rs", "one", 1)),
        ReviewState::Explicit
    );
    assert_eq!(
        ledger.state(&symbol("x/a.rs", "two", 2)),
        ReviewState::Inherited
    );

    ledger.toggle(&ReviewTarget::Directory("x".into()));
    assert_eq!(
        ledger.state(&symbol("x/a.rs", "one", 1)),
        ReviewState::Explicit
    );
    assert_eq!(
        ledger.state(&symbol("x/a.rs", "two", 2)),
        ReviewState::Unreviewed
    );
    assert_eq!(
        ledger.state(&ReviewTarget::File("x/a.rs".into())),
        ReviewState::Partial
    );
}

#[test]
fn same_epoch_lsp_arrival_registers_reviewable_objects() {
    let loading = snapshot(&[("x/a.rs", "a1")], 1);
    let ready = with_symbols(loading.clone(), "x/a.rs", &["run"]);
    let mut ledger = ReviewLedger::default();
    ledger.sync(&loading);
    ledger.sync(&ready);
    ledger.toggle(&symbol("x/a.rs", "run", 1));
    assert_eq!(
        ledger.state(&symbol("x/a.rs", "run", 1)),
        ReviewState::Explicit
    );
}

#[test]
fn changed_file_content_invalidates_its_lsp_object_marks() {
    let initial = with_symbols(snapshot(&[("x/a.rs", "a1")], 1), "x/a.rs", &["run"]);
    let changed = with_symbols(snapshot(&[("x/a.rs", "a2")], 2), "x/a.rs", &["run"]);
    let mut ledger = ReviewLedger::default();
    ledger.sync(&initial);
    ledger.toggle(&symbol("x/a.rs", "run", 1));

    ledger.sync(&changed);
    assert_eq!(
        ledger.state(&symbol("x/a.rs", "run", 1)),
        ReviewState::Unreviewed
    );
}

#[test]
fn directory_override_does_not_rewrite_child_marks() {
    let snap = snapshot(&[("x/a.rs", "a1"), ("x/b.rs", "b1")], 1);
    let mut ledger = ReviewLedger::default();
    ledger.sync(&snap);
    ledger.toggle(&ReviewTarget::File("x/a.rs".into()));
    ledger.toggle(&ReviewTarget::Directory("x".into()));
    assert_eq!(
        ledger.state(&ReviewTarget::Directory("x".into())),
        ReviewState::Explicit
    );
    assert_eq!(
        ledger.state(&ReviewTarget::File("x/b.rs".into())),
        ReviewState::Inherited
    );

    ledger.toggle(&ReviewTarget::Directory("x".into()));
    assert_eq!(
        ledger.state(&ReviewTarget::File("x/a.rs".into())),
        ReviewState::Explicit
    );
    assert_eq!(
        ledger.state(&ReviewTarget::File("x/b.rs".into())),
        ReviewState::Unreviewed
    );
    assert_eq!(ledger.progress(2).reviewed, 1);
}

#[test]
fn changed_content_invalidates_only_that_revision() {
    let initial = snapshot(&[("x/a.rs", "a1"), ("x/b.rs", "b1")], 1);
    let mut ledger = ReviewLedger::default();
    ledger.sync(&initial);
    ledger.toggle(&ReviewTarget::Directory("x".into()));

    let changed = snapshot(&[("x/a.rs", "a1"), ("x/b.rs", "b2")], 2);
    ledger.sync(&changed);
    assert_eq!(
        ledger.state(&ReviewTarget::File("x/a.rs".into())),
        ReviewState::Inherited
    );
    assert_eq!(
        ledger.state(&ReviewTarget::File("x/b.rs".into())),
        ReviewState::Unreviewed
    );
    assert_eq!(
        ledger.state(&ReviewTarget::Directory("x".into())),
        ReviewState::Partial
    );

    ledger.toggle(&ReviewTarget::Directory("x".into()));
    assert_eq!(
        ledger.state(&ReviewTarget::Directory("x".into())),
        ReviewState::Explicit,
        "clicking an indeterminate directory reviews all current descendants"
    );
    ledger.toggle(&ReviewTarget::Directory("x".into()));
    assert_eq!(ledger.progress(2).reviewed, 0);
}

#[test]
fn unchanged_refresh_retains_marks_but_stale_data_is_never_active() {
    let snap = snapshot(&[("x/a.rs", "a1")], 1);
    let mut ledger = ReviewLedger::default();
    ledger.sync(&snap);
    ledger.toggle(&ReviewTarget::File("x/a.rs".into()));
    ledger.sync(&snap.clone());
    assert_eq!(ledger.progress(1).reviewed, 1);

    let mut stale = snap;
    stale.epoch = Epoch(2);
    ledger.sync(&stale);
    assert_eq!(
        ledger.progress(1),
        ReviewProgress {
            reviewed: 0,
            total: 1,
            available: false
        }
    );
    assert_eq!(
        ledger.state(&ReviewTarget::File("x/a.rs".into())),
        ReviewState::Unreviewed
    );
}
