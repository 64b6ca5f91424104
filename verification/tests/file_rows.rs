use codescope_tui::file_rows::{project, ProjectedRow};
use codescope_tui::review::ReviewTarget;
use codescope_tui::snapshot::{FileRow, FileSemanticLoad, SymbolRow};
use codescope_tui::table::KeySet;

fn file(path: &str) -> FileRow {
    FileRow {
        semantic: FileSemanticLoad::Ready,
        path: path.to_string(),
        status: "M",
        changed_symbol_count: 1,
        added_lines: 1,
        removed_lines: 0,
        symbols: vec![SymbolRow {
            name: "run".to_string(),
            change: "modified",
            confidence: "",
            has_diagnostic: false,
            position: Some((1, 0)),
        }],
        expanded: false,
    }
}

#[test]
fn projects_nested_directories_once_and_collapses_descendants() {
    let files = vec![
        file("crates/api/src/lib.rs"),
        file("crates/api/tests/api.rs"),
        file("README.md"),
    ];
    let rows = project(&files, &KeySet::new());
    let directories: Vec<&str> = rows
        .iter()
        .filter_map(|row| match row {
            ProjectedRow::Directory { path, .. } => Some(path.as_str()),
            _ => None,
        })
        .collect();
    assert_eq!(
        directories,
        ["crates/api", "crates/api/src", "crates/api/tests"]
    );

    let labels: Vec<&str> = rows
        .iter()
        .filter_map(|row| match row {
            ProjectedRow::Directory { label, .. } => Some(label.as_str()),
            _ => None,
        })
        .collect();
    assert_eq!(labels, ["crates/api/", "src/", "tests/"]);

    let mut collapsed: KeySet<String> = KeySet::new();
    collapsed.insert("crates/api".to_string());
    let rows = project(&files, &collapsed);
    assert!(rows.iter().any(|row| matches!(
        row,
        ProjectedRow::Directory { path, .. } if path == "crates/api"
    )));
    assert!(!rows.iter().any(|row| matches!(
        row,
        ProjectedRow::File {
            file_index: 0 | 1,
            ..
        }
    )));
    assert!(rows
        .iter()
        .any(|row| matches!(row, ProjectedRow::File { file_index: 2, .. })));
}

#[test]
fn symbol_rows_are_independent_review_targets() {
    let mut source = file("src/lib.rs");
    source.expanded = true;
    let files = vec![source];
    let rows = project(&files, &KeySet::new());
    let symbol = rows
        .iter()
        .find(|row| matches!(row, ProjectedRow::Symbol { .. }))
        .expect("expanded LSP object row");
    assert_eq!(
        symbol.review_target(&files),
        Some(ReviewTarget::Symbol {
            file: "src/lib.rs".into(),
            name: "run".into(),
            position: Some((1, 0)),
        })
    );
}

#[test]
fn unbranched_directory_chains_are_one_selectable_row() {
    let files = vec![
        file("sandbox/vm/packages/module/internal/network/a.go"),
        file("sandbox/vm/packages/module/internal/network/b.go"),
        file("sandbox/vm/packages/module/worker/run.go"),
        file("sandbox/vm/packages/module/main.go"),
    ];
    let rows = project(&files, &KeySet::new());
    let directories = rows
        .iter()
        .filter_map(|row| match row {
            ProjectedRow::Directory {
                path, label, depth, ..
            } => Some((path.as_str(), label.as_str(), *depth)),
            _ => None,
        })
        .collect::<Vec<_>>();
    assert_eq!(
        directories,
        [
            (
                "sandbox/vm/packages/module",
                "sandbox/vm/packages/module/",
                0
            ),
            (
                "sandbox/vm/packages/module/internal/network",
                "internal/network/",
                1
            ),
            ("sandbox/vm/packages/module/worker", "worker/", 1),
        ]
    );
}
