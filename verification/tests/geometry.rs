use codescope_tui::app::App;
use codescope_tui::geometry::UiGeometry;
use codescope_tui::rect::Rect;
use codescope_tui::snapshot::{FileRow, FileSemanticLoad, UiSnapshot};

#[test]
fn normal_geometry_matches_the_four_rendered_rows() {
    let app = App::new();
    let geometry = UiGeometry::build(Rect::new(0, 0, 140, 40), &app, &UiSnapshot::default());
    assert_eq!(geometry.files, Some(Rect::new(0, 1, 42, 22)));
    assert_eq!(geometry.diff, Some(Rect::new(42, 1, 98, 22)));
    assert_eq!(geometry.impact, Some(Rect::new(0, 23, 140, 16)));
    assert_eq!(geometry.pane_at(2, 0), None, "top bar is not a pane");
    assert_eq!(geometry.pane_at(2, 39), None, "bottom bar is not a pane");
}

#[test]
fn focus_only_geometry_reserves_only_top_and_bottom_bars() {
    let app = App::new();
    let geometry = UiGeometry::build(Rect::new(0, 0, 79, 40), &app, &UiSnapshot::default());
    assert_eq!(geometry.files, Some(Rect::new(0, 1, 79, 38)));
    assert_eq!(geometry.pane_at(2, 0), None, "top bar is not clickable");
    assert_eq!(geometry.pane_at(2, 39), None, "bottom bar is not clickable");
}

#[test]
fn status_geometry_covers_only_the_message_side_of_the_bottom_bar() {
    let mut snap = UiSnapshot::default();
    snap.status.text = "provider error".to_string();
    snap.files.push(FileRow {
        path: "src/main.rs".to_string(),
        status: "M",
        changed_symbol_count: 0,
        added_lines: 0,
        removed_lines: 0,
        symbols: Vec::new(),
        expanded: false,
        semantic: FileSemanticLoad::Unsupported,
    });
    let app = App::new();
    let geometry = UiGeometry::build(Rect::new(0, 0, 140, 40), &app, &snap);
    let status = geometry.status.expect("status hit target");
    assert!(geometry.status_at(status.x, status.y));
    assert!(
        !geometry.status_at(139, 39),
        "right-side usage/path is inert"
    );
}
