use codescope_tui::elide::{elide_paths, shared_root};
use unicode_width::UnicodeWidthStr;

#[test]
fn short_paths_pass_through() {
    assert_eq!(elide_paths(&["a.go", "b.go"], 40), vec!["a.go", "b.go"]);
}

#[test]
fn shared_root_strips_common_dirs() {
    let paths = &[
        "sandbox/vm-sandboxes/packages/api/server.go",
        "sandbox/vm-sandboxes/packages/conduitd/config.go",
    ];
    assert_eq!(shared_root(paths).as_deref(), Some("sandbox/vm-sandboxes/packages/"));
}

#[test]
fn no_shared_root_when_components_diverge() {
    // "packages/api" and "packages/api-old" share only "packages" — <2 common components.
    let paths = &["packages/api/server.go", "packages/api-old/other.go"];
    // Only "packages" is shared (1 component) → no root.
    assert_eq!(shared_root(paths), None);
}

#[test]
fn single_file_gets_no_root() {
    assert_eq!(shared_root(&["a/b/c/d.go"]), None);
}

#[test]
fn elide_middle_preserves_basename() {
    let out = elide_paths(&["sandbox/vm-sandboxes/packages/primelet/internal/actionworker/executor.go"], 30);
    assert!(UnicodeWidthStr::width(out[0].as_str()) <= 30, "must fit budget");
    assert!(out[0].ends_with("executor.go"), "basename preserved: {}", out[0]);
}

#[test]
fn two_same_basenames_stay_distinguishable() {
    let out = elide_paths(
        &["worker/executor.go", "control-plane/executor.go"],
        40,
    );
    assert_ne!(out[0], out[1]);
    assert!(out[0].contains("executor.go"));
    assert!(out[1].contains("executor.go"));
}

#[test]
fn unicode_path_never_splits_grapheme_or_exceeds_budget() {
    let out = elide_paths(&["日本語/ファイル名.go"], 12);
    assert!(UnicodeWidthStr::width(out[0].as_str()) <= 12);
}

#[test]
fn tiny_budget_yields_ellipsis() {
    assert_eq!(elide_paths(&["anything.go"], 3), vec!["…"]);
}

#[test]
fn root_marker_shows_omission() {
    let out = elide_paths(
        &[
            "sandbox/vm-sandboxes/packages/api/server.go",
            "sandbox/vm-sandboxes/packages/conduitd/config.go",
        ],
        24,
    );
    for o in &out {
        assert!(o.starts_with("…/"), "root strip is marked: {o}");
    }
}
