use codescope_tui::action::{Action, DiffTextPoint, DiffTextSelection, PlanNodeTarget};
use codescope_tui::app::{App, Pane};
use codescope_tui::diagram::DiagramPosition;
use codescope_tui::divider::DividerId;
use codescope_tui::event::{MouseButton, MouseEvent, MouseEventKind};
use codescope_tui::geometry::UiGeometry;
use codescope_tui::mouse::{map_mouse, DragState, WheelAxisFilter};
use codescope_tui::plan::{
    Epoch, FormKind, PlanEdge, PlanEdgeKind, PlanNode, PlanNodeChange, VisualizationPlan, VizForm,
};
use codescope_tui::rect::Rect;
use codescope_tui::review::ReviewTarget;
use codescope_tui::scroll::ScrollRegionId;
use codescope_tui::snapshot::{
    AiStatus, DiffRow, FileRow, FileSemanticLoad, ImpactRow, InterpretationSource, SelectedChange, StatusLevel,
    StatusMessage, SymbolRow, UiSnapshot,
};

fn detailed(id: &str, label: &str, change: PlanNodeChange, detail: &str) -> PlanNode {
    let mut node = PlanNode::new(id, label, change);
    node.detail = Some(detail.to_string());
    node
}



fn mouse(kind: MouseEventKind, x: u16, y: u16) -> MouseEvent {
    MouseEvent {
        kind,
        column: x,
        row: y,
    }
}
fn down(x: u16, y: u16) -> MouseEvent {
    mouse(MouseEventKind::Down(MouseButton::Left), x, y)
}
fn drag(x: u16, y: u16) -> MouseEvent {
    mouse(MouseEventKind::Drag(MouseButton::Left), x, y)
}
fn up(x: u16, y: u16) -> MouseEvent {
    mouse(MouseEventKind::Up(MouseButton::Left), x, y)
}
fn wheel_down(x: u16, y: u16) -> MouseEvent {
    mouse(MouseEventKind::ScrollDown, x, y)
}
fn wheel_up(x: u16, y: u16) -> MouseEvent {
    mouse(MouseEventKind::ScrollUp, x, y)
}
fn wheel_left(x: u16, y: u16) -> MouseEvent {
    mouse(MouseEventKind::ScrollLeft, x, y)
}
fn wheel_right(x: u16, y: u16) -> MouseEvent {
    mouse(MouseEventKind::ScrollRight, x, y)
}

#[test]
fn wheel_axis_filter_keeps_vertical_gestures_from_drifting_sideways() {
    let started: u64 = 5_000;
    let mut filter = WheelAxisFilter::default();

    assert!(filter.allows(MouseEventKind::ScrollDown, started));
    assert!(!filter.allows(
        MouseEventKind::ScrollRight,
        started + 20
    ));
    assert!(filter.allows(
        MouseEventKind::ScrollDown,
        started + 40
    ));

    // Once the vertical gesture has ended, two deliberate horizontal samples claim a fresh
    // gesture. The first sample is the horizontal dead-zone.
    assert!(!filter.allows(
        MouseEventKind::ScrollRight,
        started + 240
    ));
    assert!(filter.allows(
        MouseEventKind::ScrollRight,
        started + 250
    ));
}

#[test]
fn wheel_axis_filter_holds_a_deliberate_horizontal_gesture() {
    let started: u64 = 5_000;
    let mut filter = WheelAxisFilter::default();

    assert!(!filter.allows(MouseEventKind::ScrollLeft, started));
    assert!(filter.allows(
        MouseEventKind::ScrollLeft,
        started + 10
    ));
    assert!(!filter.allows(
        MouseEventKind::ScrollUp,
        started + 20
    ));
    assert!(filter.allows(
        MouseEventKind::ScrollUp,
        started + 200
    ));
}
/// A snapshot with two files: a collapsed one and an expanded one with two symbols.
fn snap() -> UiSnapshot {
    UiSnapshot {
        files: vec![
            FileRow {
                path: "a.go".to_string(),
                status: "M",
                changed_symbol_count: 0,
                added_lines: 0,
                removed_lines: 0,
                symbols: vec![],
                expanded: false,
                semantic: FileSemanticLoad::Unloaded,
            },
            FileRow {
                path: "b.go".to_string(),
                status: "M",
                changed_symbol_count: 2,
                added_lines: 0,
                removed_lines: 0,
                symbols: vec![
                    SymbolRow {
                        name: "B_one".to_string(),
                        change: "modified",
                        confidence: "",
                        has_diagnostic: false,
                        position: Some((10, 2)),
                    },
                    SymbolRow {
                        name: "B_two".to_string(),
                        change: "added",
                        confidence: "",
                        has_diagnostic: false,
                        position: Some((20, 2)),
                    },
                ],
                expanded: true,
                semantic: FileSemanticLoad::Ready,
            },
        ],
        ..UiSnapshot::default()
    }
}

fn relationship_snap() -> UiSnapshot {
    let mut snapshot = snap();
    snapshot.impact.selected_change = Some(SelectedChange {
        file: "a.go".to_string(),
        label: "Selected".to_string(),
        change: "modified",
        interpretation: "Coordinates related work.".to_string(),
        interpretation_source: InterpretationSource::Deterministic,
    });
    snapshot
        .impact
        .callers
        .rows
        .push(ImpactRow {
            label: "caller".to_string(),
            relation: "calls",
            changed: false,
            has_diagnostic: false,
        });
    snapshot
        .impact
        .downstream
        .rows
        .push(ImpactRow {
            label: "callee".to_string(),
            relation: "calls",
            changed: false,
            has_diagnostic: false,
        });
    snapshot
}

fn app_with(snap: &UiSnapshot) -> App {
    let mut app = App::new();
    app.update(snap.clone());
    app
}

/// A Normal-tier geometry at 140x40 with the default layout.
fn geo(app: &App, snap: &UiSnapshot) -> UiGeometry {
    UiGeometry::build(Rect::new(0, 0, 140, 40), app, snap)
}

#[test]
fn click_focuses_each_pane() {
    let s = snap();
    let app = app_with(&s);
    let g = geo(&app, &s);
    // A point inside the diff pane (right of the files|diff border, in the work row).
    let d = g.diff.expect("diff pane present");
    let out = map_mouse(down(d.x + 5, d.y + 5), &app, &s, &g, DragState::Idle);
    assert_eq!(out.action, Some(Action::Focus(Pane::Diff)));
    // The impact pane (bottom).
    let im = g.impact.expect("impact pane present");
    let out = map_mouse(down(im.x + 5, im.y + 2), &app, &s, &g, DragState::Idle);
    assert_eq!(out.action, Some(Action::Focus(Pane::Impact)));
}

#[test]
fn click_file_row_selects_it() {
    let s = snap();
    let app = app_with(&s);
    let g = geo(&app, &s);
    // The first file row is at the top of the files inner rect.
    let (rect, phys) = g.file_row_rects[0];
    let out = map_mouse(down(rect.x + 1, rect.y), &app, &s, &g, DragState::Idle);
    assert_eq!(
        out.action,
        Some(Action::SelectFileRow {
            logical_index: 0,
            viewport_offset: 0,
        })
    );
    let _ = phys;
}

#[test]
fn click_review_marker_toggles_that_file_without_selecting_the_row() {
    let s = snap();
    let app = app_with(&s);
    let g = geo(&app, &s);
    let (rect, target) = g.review_rects[1].clone();
    assert_eq!(target, ReviewTarget::File("b.go".into()));
    let out = map_mouse(down(rect.x, rect.y), &app, &s, &g, DragState::Idle);
    assert_eq!(
        out.action,
        Some(Action::ToggleReviewedTarget(
            ReviewTarget::File("b.go".into())
        ))
    );
    assert_eq!(
        app.file_sel, 0,
        "pure hit-testing cannot retarget selection"
    );
}

#[test]
fn lsp_object_has_its_own_clickable_review_marker() {
    let s = snap();
    let app = app_with(&s);
    let g = geo(&app, &s);
    let (rect, target) = g.review_rects[2].clone();
    let expected = ReviewTarget::Symbol {
        file: "b.go".into(),
        name: "B_one".into(),
        position: Some((10, 2)),
    };
    assert_eq!(target, expected);
    let out = map_mouse(down(rect.x, rect.y), &app, &s, &g, DragState::Idle);
    assert_eq!(out.action, Some(Action::ToggleReviewedTarget(expected)));
}

#[test]
fn click_symbol_row_selects_that_symbol() {
    let s = snap();
    let app = app_with(&s);
    let g = geo(&app, &s);
    // b.go is expanded with two symbols: physical rows are [a.go(0), b.go(1), B_one(2), B_two(3)].
    // Logical indices: a.go=0, b.go=1, B_one=2, B_two=3.
    let row_rects = &g.file_row_rects;
    let sym_row = row_rects
        .iter()
        .find(|(_, p)| *p == 2)
        .map(|(r, _)| *r)
        .expect("B_one row present");
    let out = map_mouse(
        down(sym_row.x + 2, sym_row.y),
        &app,
        &s,
        &g,
        DragState::Idle,
    );
    assert_eq!(
        out.action,
        Some(Action::SelectFileRow {
            logical_index: 2,
            viewport_offset: 0,
        })
    );
}

#[test]
fn click_blank_tail_focuses_without_selecting() {
    let s = snap();
    let app = app_with(&s);
    let g = geo(&app, &s);
    let fi = g.files_inner.expect("files inner");
    // A point below the last row but inside the files pane.
    let y = fi.y + fi.height - 1;
    let out = map_mouse(down(fi.x + 2, y), &app, &s, &g, DragState::Idle);
    assert_eq!(out.action, Some(Action::Focus(Pane::Files)));
}

#[test]
fn click_impact_body_focuses_the_combined_pane() {
    let s = snap();
    let app = app_with(&s);
    let g = geo(&app, &s);
    let r = g.impact.expect("impact pane");
    let out = map_mouse(
        down(r.x + 3, r.y + r.height.saturating_sub(2)),
        &app,
        &s,
        &g,
        DragState::Idle,
    );
    assert_eq!(out.action, Some(Action::Focus(Pane::Impact)));
}

#[test]
fn vertical_divider_drag_resizes_files() {
    let s = snap();
    let app = app_with(&s);
    let g = geo(&app, &s);
    let h = g.divider(DividerId::FilesDiff).expect("files|diff handle");
    let rect = h.rect;
    // Down arms the drag without resizing.
    let out = map_mouse(down(rect.x, rect.y + 2), &app, &s, &g, DragState::Idle);
    assert!(matches!(out.drag, DragState::Dragging { .. }));
    assert_eq!(out.action, None);
    // Drag right 4 cells -> files wider by 4.
    let start_extent = match out.drag {
        DragState::Dragging { start_extent, .. } => start_extent,
        _ => unreachable!(),
    };
    let out2 = map_mouse(drag(rect.x + 4, rect.y + 2), &app, &s, &g, out.drag);
    assert_eq!(
        out2.action,
        Some(Action::ResizeDivider {
            divider: DividerId::FilesDiff,
            extent: start_extent + 4,
        })
    );
    // Up commits and ends the drag.
    let out3 = map_mouse(up(rect.x + 4, rect.y + 2), &app, &s, &g, out2.drag);
    assert!(matches!(out3.drag, DragState::Idle));
}

#[test]
fn horizontal_divider_drag_resizes_impact() {
    let s = snap();
    let app = app_with(&s);
    let g = geo(&app, &s);
    let h = g
        .divider(DividerId::WorkReview)
        .expect("work|review handle");
    let rect = h.rect;
    let out = map_mouse(down(rect.x + 10, rect.y), &app, &s, &g, DragState::Idle);
    assert!(matches!(out.drag, DragState::Dragging { .. }));
    let start_extent = match out.drag {
        DragState::Dragging { start_extent, .. } => start_extent,
        _ => unreachable!(),
    };
    // Drag UP 2 cells -> impact taller by 2 (inverse y).
    let out2 = map_mouse(drag(rect.x + 10, rect.y - 2), &app, &s, &g, out.drag);
    assert_eq!(
        out2.action,
        Some(Action::ResizeDivider {
            divider: DividerId::WorkReview,
            extent: start_extent + 2,
        })
    );
}

#[test]
fn impact_vertical_divider_drag_resizes_relationship_stack() {
    let s = relationship_snap();
    let app = app_with(&s);
    let g = geo(&app, &s);
    let h = g
        .divider(DividerId::RelationshipsGenerated)
        .expect("relationship|generated handle");
    let rect = h.rect;
    let armed = map_mouse(down(rect.x, rect.y + 1), &app, &s, &g, DragState::Idle);
    assert!(matches!(
        armed.drag,
        DragState::Dragging {
            divider: DividerId::RelationshipsGenerated,
            ..
        }
    ));
    let start_extent = match armed.drag {
        DragState::Dragging { start_extent, .. } => start_extent,
        _ => unreachable!(),
    };
    let moved = map_mouse(drag(rect.x + 6, rect.y + 1), &app, &s, &g, armed.drag);
    assert_eq!(
        moved.action,
        Some(Action::ResizeDivider {
            divider: DividerId::RelationshipsGenerated,
            extent: start_extent + 6,
        })
    );
}

#[test]
fn callers_downstream_sectional_uses_the_shared_drag_path() {
    let s = relationship_snap();
    let app = app_with(&s);
    let g = geo(&app, &s);
    assert!(
        g.divider(DividerId::SelectedCallers).is_none(),
        "the removed selected-change section has no hidden drag target"
    );
    let divider = DividerId::CallersDownstream;
    let handle = g.divider(divider).expect("internal sectional handle");
    let rect = handle.rect;
    let armed = map_mouse(down(rect.x + 2, rect.y), &app, &s, &g, DragState::Idle);
    assert!(matches!(
        armed.drag,
        DragState::Dragging { divider: active, .. } if active == divider
    ));
    let start_extent = match armed.drag {
        DragState::Dragging { start_extent, .. } => start_extent,
        _ => unreachable!(),
    };
    let moved = map_mouse(drag(rect.x + 2, rect.y + 1), &app, &s, &g, armed.drag);
    assert_eq!(
        moved.action,
        Some(Action::ResizeDivider {
            divider,
            extent: start_extent + 1,
        })
    );
}

#[test]
fn click_without_movement_does_not_resize() {
    let s = snap();
    let app = app_with(&s);
    let g = geo(&app, &s);
    let h = g.divider(DividerId::FilesDiff).expect("handle").rect;
    let armed = map_mouse(down(h.x, h.y + 1), &app, &s, &g, DragState::Idle);
    // Up at the same coordinate: no resize, drag ends.
    let out = map_mouse(up(h.x, h.y + 1), &app, &s, &g, armed.drag);
    assert_eq!(out.action, None);
    assert!(matches!(out.drag, DragState::Idle));
}

#[test]
fn modal_swallows_clicks() {
    let s = snap();
    let mut app = app_with(&s);
    app.show_help = true;
    let g = geo(&app, &s);
    let d = g.diff.expect("diff");
    let out = map_mouse(down(d.x + 1, d.y + 1), &app, &s, &g, DragState::Idle);
    assert_eq!(out.action, None, "modal swallows the click");
}

#[test]
fn clicking_status_opens_detail_and_clicking_modal_closes_it() {
    let mut s = snap();
    s.status = StatusMessage {
        text: "AI provider returned HTTP 400 with a long response".to_string(),
        detail: None,
        level: StatusLevel::Warning,
    };
    let mut app = app_with(&s);
    let g = geo(&app, &s);
    let status = g.status.expect("status hit target");
    let open = map_mouse(down(status.x + 1, status.y), &app, &s, &g, DragState::Idle);
    assert_eq!(open.action, Some(Action::ToggleStatusDetail));

    app.apply(open.action.expect("open action"));
    let close = map_mouse(down(20, 10), &app, &s, &g, DragState::Idle);
    assert_eq!(close.action, Some(Action::ToggleStatusDetail));
}

#[test]
fn clicking_ai_failure_banner_opens_the_retained_complete_reason() {
    let reason = "provider HTTP 400\nfull validation response tail";
    let mut s = snap();
    s.ai = AiStatus::Failed {
        reason: reason.to_string(),
    };
    s.status = StatusMessage {
        text: "automatic retry queued".to_string(),
        detail: None,
        level: StatusLevel::Info,
    };
    let mut app = app_with(&s);
    let g = geo(&app, &s);
    let banner = g
        .ai_failure_status
        .expect("visible AI failure banner hit target");

    let open = map_mouse(down(banner.x + 1, banner.y), &app, &s, &g, DragState::Idle);
    let Some(Action::OpenStatusDetail(status)) = open.action else {
        panic!("failure banner should open its retained detail");
    };
    assert_eq!(status.detail.as_deref(), Some(reason));

    app.apply(Action::OpenStatusDetail(status));
    assert_eq!(
        app.status_detail
            .as_ref()
            .and_then(|message| message.detail.as_deref()),
        Some(reason),
        "the popup is independent of the newer footer message"
    );
}

#[test]
fn picker_modal_owns_the_wheel() {
    let s = snap();
    let mut app = app_with(&s);
    app.show_model_picker = true;
    let g = geo(&app, &s);
    let out = map_mouse(wheel_down(10, 10), &app, &s, &g, DragState::Idle);
    assert_eq!(out.action, Some(Action::Down));
}

#[test]
fn zoomed_layout_hides_other_panes() {
    let s = snap();
    let mut app = app_with(&s);
    app.zoomed = true;
    app.focused = Pane::Diff;
    let g = UiGeometry::build(Rect::new(0, 0, 140, 40), &app, &s);
    assert!(g.files.is_none(), "files hidden while diff is zoomed");
    assert!(g.impact.is_none());
    assert!(g.diff.is_some());
    assert!(g.dividers.is_empty(), "no drag handle while diff is zoomed");
}

#[test]
fn wheel_scrolls_hovered_files_without_focus_or_selection_change() {
    let mut s = snap();
    s.files = (0..30)
        .map(|index| FileRow {
            path: format!("file-{index}.go"),
            status: "M",
            changed_symbol_count: 0,
            added_lines: 0,
            removed_lines: 0,
            symbols: Vec::new(),
            expanded: false,
            semantic: FileSemanticLoad::Ready,
        })
        .collect();
    s.diff.rows = (0..30)
        .map(|index| DiffRow::Context {
            old_ln: index + 1,
            new_ln: index + 1,
            text: format!("line {index}"),
        })
        .collect();
    let mut app = app_with(&s);
    app.focused = Pane::Diff;
    app.file_sel = 0;
    let g = geo(&app, &s);
    let files = g.files.expect("files");

    let out = map_mouse(
        wheel_down(files.x + 2, files.y + 2),
        &app,
        &s,
        &g,
        DragState::Idle,
    );
    assert_eq!(
        out.action,
        Some(Action::ScrollRegion {
            region: ScrollRegionId::Files,
            offset: 3,
        })
    );
    app.apply(out.action.unwrap());
    assert_eq!(app.focused, Pane::Diff, "hover scroll never steals focus");
    assert_eq!(app.file_sel, 0, "hover scroll never changes selection");
    assert_eq!(app.files_scroll, 3);

    let g = geo(&app, &s);
    let out = map_mouse(
        wheel_up(files.x + 2, files.y + 2),
        &app,
        &s,
        &g,
        DragState::Idle,
    );
    assert!(matches!(
        out.action,
        Some(Action::ScrollRegion { offset: 0, .. })
    ));

    app.focused = Pane::Files;
    let g = geo(&app, &s);
    let diff = g.diff.expect("diff");
    let out = map_mouse(
        wheel_down(diff.x + 3, diff.y + 3),
        &app,
        &s,
        &g,
        DragState::Idle,
    );
    assert_eq!(
        out.action,
        Some(Action::ScrollRegion {
            region: ScrollRegionId::Diff,
            offset: 3,
        })
    );
    app.apply(out.action.unwrap());
    assert_eq!(app.focused, Pane::Files, "diff wheel does not steal focus");
    assert_eq!(app.diff_scroll, 3);
}

#[test]
fn clicking_a_scrolled_file_keeps_the_files_viewport_in_place() {
    let mut s = snap();
    s.files = (0..30)
        .map(|index| FileRow {
            path: format!("file-{index}.go"),
            status: "M",
            changed_symbol_count: 0,
            added_lines: 0,
            removed_lines: 0,
            symbols: Vec::new(),
            expanded: false,
            semantic: FileSemanticLoad::Ready,
        })
        .collect();
    let mut app = app_with(&s);
    app.apply(Action::ScrollRegion {
        region: ScrollRegionId::Files,
        offset: 8,
    });

    let before = geo(&app, &s);
    assert_eq!(before.files_first_visible, 8);
    let row = before
        .file_row_rects
        .iter()
        .find(|(_, physical)| *physical == 10)
        .map(|(rect, _)| *rect)
        .expect("third visible file row");
    let out = map_mouse(down(row.x + 2, row.y), &app, &s, &before, DragState::Idle);
    assert_eq!(
        out.action,
        Some(Action::SelectFileRow {
            logical_index: 10,
            viewport_offset: 8,
        })
    );

    app.apply(out.action.expect("file selection"));
    let after = geo(&app, &s);
    assert_eq!(app.selected_file_path(), Some("file-10.go"));
    assert_eq!(after.files_first_visible, 8, "click must not jump the list");

    // The dispatcher publishes a retargeted diff after the click. That data update must not
    // turn the retained files viewport back into selection-following mode either.
    s.diff.title = "file-10.go".to_string();
    app.update(s.clone());
    assert_eq!(geo(&app, &s).files_first_visible, 8);
}

#[test]
fn horizontal_trackpad_scroll_targets_only_the_unwrapped_diff() {
    let s = snap();
    let mut app = app_with(&s);
    app.focused = Pane::Files;
    let g = geo(&app, &s);
    let diff = g.diff.expect("diff");

    let right = map_mouse(
        wheel_right(diff.x + 3, diff.y + 3),
        &app,
        &s,
        &g,
        DragState::Idle,
    );
    assert_eq!(
        right.action,
        Some(Action::ScrollDiffHorizontal { delta: 4 })
    );
    app.apply(right.action.expect("horizontal scroll"));
    assert_eq!(app.diff_hscroll, 4);
    assert_eq!(
        app.focused,
        Pane::Files,
        "trackpad scroll does not steal focus"
    );

    let left = map_mouse(
        wheel_left(diff.x + 3, diff.y + 3),
        &app,
        &s,
        &g,
        DragState::Idle,
    );
    assert_eq!(
        left.action,
        Some(Action::ScrollDiffHorizontal { delta: -4 })
    );
    app.apply(left.action.expect("horizontal scroll"));
    assert_eq!(app.diff_hscroll, 0);

    let files = g.files.expect("files");
    assert!(
        map_mouse(
            wheel_right(files.x + 2, files.y + 2),
            &app,
            &s,
            &g,
            DragState::Idle,
        )
        .action
        .is_none(),
        "horizontal gestures outside the diff are inert"
    );

    app.diff_wrap = true;
    assert!(
        map_mouse(
            wheel_right(diff.x + 3, diff.y + 3),
            &app,
            &s,
            &g,
            DragState::Idle,
        )
        .action
        .is_none(),
        "wrapped diffs have no horizontal scroll"
    );
}

#[test]
fn wheel_routes_to_each_scrollable_relationship_section() {
    let mut s = snap();
    let rows = (0..12)
        .map(|index| ImpactRow {
            label: format!("symbol-{index}"),
            relation: "calls",
            changed: false,
            has_diagnostic: false,
        })
        .collect::<Vec<_>>();
    s.impact.callers.rows = rows.clone();
    s.impact.downstream.rows = rows;
    s.impact.selected_change = Some(SelectedChange {
        file: "a.go".to_string(),
        label: "Selected".to_string(),
        change: "modified",
        interpretation: "Coordinates the request and downstream work.".to_string(),
        interpretation_source: InterpretationSource::Deterministic,
    });
    let app = app_with(&s);
    let g = geo(&app, &s);

    for id in [
        ScrollRegionId::Callers,
        ScrollRegionId::Downstream,
    ] {
        let region = g
            .scroll_regions
            .iter()
            .find(|region| region.id == id)
            .expect("registered Impact scroll region");
        let out = map_mouse(
            wheel_down(region.rect.x + 1, region.rect.y),
            &app,
            &s,
            &g,
            DragState::Idle,
        );
        assert!(matches!(
            out.action,
            Some(Action::ScrollRegion { region, .. }) if region == id
        ));
    }
}

#[test]
fn free_xy_drag_inline_expansion_and_overlay_preserve_base_geometry() {
    let mut s = snap();
    let mut plan = VisualizationPlan::new(Epoch(1));
    plan.intent = "A changed entry point forwards work to storage.".to_string();
    plan.forms.push(VizForm {
        kind: FormKind::Sequence,
        nodes: vec![
            detailed("n1", "Handle", PlanNodeChange::Modified, "accepts the complete request and validates every input"),
            detailed("n2", "Store", PlanNodeChange::Unchanged, "persists the result"),
        ],
        edges: vec![PlanEdge {
            from: "n1".to_string(),
            to: "n2".to_string(),
            kind: PlanEdgeKind::Writes,
            label: Some(
                "writes a durable record after validating the complete request ".repeat(40),
            ),
        }],
    });
    plan.forms[0].nodes[0].expanded_detail = Some(
        "The complete description explains validation, persistence, and downstream effects in full.".to_string(),
    );
    s.semantic.plan = Some(plan);
    s.semantic.ai_generated = true;
    s.ai = AiStatus::Ready {
        epoch: Epoch(1),
    };
    let mut app = app_with(&s);
    app.diagram.sync_plan(s.semantic.plan.as_ref().unwrap());
    let g = geo(&app, &s);
    let canvas_before = g.diagram_canvas.as_ref().expect("canvas").clone();
    let (source, source_rect) = g
        .plan_node_rect_at(g.plan_node_rects[0].0.x, g.plan_node_rects[0].0.y)
        .expect("source node");
    let source_before = canvas_before
        .nodes
        .iter()
        .find(|node| node.target == source)
        .expect("source in canvas")
        .rect;
    let edge_before = canvas_before.relationships[0].path.clone();

    // A real drag updates free X/Y from the pointer offset and persists through redraw.
    let armed = map_mouse(
        down(source_rect.x + 1, source_rect.y + 1),
        &app,
        &s,
        &g,
        DragState::Idle,
    );
    let moving = map_mouse(
        drag(source_rect.x + 11, source_rect.y + 5),
        &app,
        &s,
        &g,
        armed.drag,
    );
    let action = moving.action.clone().expect("live XY move");
    assert!(matches!(action, Action::MovePlanNode { ref target, .. } if target == &source));
    app.apply(action);
    let released = map_mouse(
        up(source_rect.x + 11, source_rect.y + 5),
        &app,
        &s,
        &g,
        moving.drag,
    );
    app.apply(released.action.expect("final XY move"));
    let moved_geometry = geo(&app, &s);
    let moved_canvas = moved_geometry
        .diagram_canvas
        .as_ref()
        .expect("moved canvas");
    let moved_node = moved_canvas
        .nodes
        .iter()
        .find(|node| node.target == source)
        .unwrap();
    let expected_position = DiagramPosition {
        x: source_before.x.saturating_add(10),
        y: source_before.y.saturating_add(4),
    };
    assert_eq!(
        app.diagram.positions().get(&source),
        Some(&expected_position)
    );
    assert_eq!(
        (moved_node.rect.x, moved_node.rect.y),
        (expected_position.x, expected_position.y),
        "screen movement is measured from the Canvas box origin, including annotations"
    );
    assert_ne!(
        moved_canvas.relationships[0].path, edge_before,
        "arrows read moved box geometry"
    );

    // Down/up on the original box toggles only that card's inline height at the same XY.
    let moved_screen = moved_geometry
        .plan_node_rects
        .iter()
        .find(|(_, target)| target == &source)
        .unwrap()
        .0;
    let click = map_mouse(
        down(moved_screen.x, moved_screen.y),
        &app,
        &s,
        &moved_geometry,
        DragState::Idle,
    );
    let click = map_mouse(
        up(moved_screen.x, moved_screen.y),
        &app,
        &s,
        &moved_geometry,
        click.drag,
    );
    app.apply(click.action.expect("inline toggle"));
    let expanded = geo(&app, &s);
    let expanded_canvas = expanded.diagram_canvas.as_ref().unwrap();
    let expanded_node = expanded_canvas
        .nodes
        .iter()
        .find(|node| node.target == source)
        .unwrap();
    assert_eq!(
        (expanded_node.rect.x, expanded_node.rect.y),
        (expected_position.x, expected_position.y),
        "expansion is in place"
    );
    assert!(
        expanded_node.rect.height > moved_node.rect.height,
        "complete detail expands only this box"
    );
    assert!(app.diagram.is_node_expanded(&source));

    // Overlay is a top layer only: all canvas nodes/routes remain exactly unchanged.
    let relationship = expanded_canvas.relationships[0].target.clone();
    let base_nodes = expanded_canvas.nodes.clone();
    let base_routes = expanded_canvas.relationships.clone();
    app.apply(Action::TogglePlanRelationship(relationship.clone()));
    let overlay_geometry = geo(&app, &s);
    let overlay_canvas = overlay_geometry.diagram_canvas.as_ref().unwrap();
    assert_eq!(overlay_canvas.nodes, base_nodes);
    assert_eq!(overlay_canvas.relationships, base_routes);
    let overlay = overlay_geometry
        .plan_relationship_overlay
        .clone()
        .expect("full label overlay");
    assert!(
        overlay.max_offset > 0,
        "long label must page in the viewport"
    );
    let base_scroll = app.ai_plan_scroll;
    let wheel = map_mouse(
        wheel_down(overlay.rect.x, overlay.rect.y),
        &app,
        &s,
        &overlay_geometry,
        DragState::Idle,
    );
    assert_eq!(
        wheel.action,
        Some(Action::ScrollPlanRelationshipOverlay { offset: 1 }),
        "one wheel event advances exactly one wrapped row without skipping text",
    );
    app.apply(wheel.action.expect("overlay page"));
    assert!(app.diagram.overlay_scroll() > 0);
    assert_eq!(
        app.ai_plan_scroll, base_scroll,
        "overlay wheel cannot move canvas"
    );
    let paged = geo(&app, &s);
    let paged_overlay = paged
        .plan_relationship_overlay
        .clone()
        .expect("paged overlay");
    assert!(paged_overlay.rect.height <= paged.generated_content.unwrap().height);
    // Wheel boundaries are consumed by the overlay rather than leaking to base scroll.
    app.diagram.set_overlay_scroll(0);
    let first_page = geo(&app, &s);
    let first_overlay = first_page.plan_relationship_overlay.clone().unwrap();
    assert!(
        map_mouse(
            wheel_up(first_overlay.rect.x, first_overlay.rect.y),
            &app,
            &s,
            &first_page,
            DragState::Idle
        )
        .action
        .is_none()
    );
    assert_eq!(app.ai_plan_scroll, base_scroll);
    app.diagram.set_overlay_scroll(first_overlay.max_offset);
    let last_page = geo(&app, &s);
    let last_overlay = last_page.plan_relationship_overlay.clone().unwrap();
    assert!(
        map_mouse(
            wheel_down(last_overlay.rect.x, last_overlay.rect.y),
            &app,
            &s,
            &last_page,
            DragState::Idle
        )
        .action
        .is_none()
    );
    assert_eq!(app.ai_plan_scroll, base_scroll);
    let second = map_mouse(
        down(last_overlay.rect.x, last_overlay.rect.y),
        &app,
        &s,
        &last_page,
        DragState::Idle,
    );
    assert_eq!(
        second.action,
        Some(Action::TogglePlanRelationship(last_overlay.target.clone()))
    );
    // Hover is also masked by the overlay even when it covers the moved card.
    app.hovered_plan_node = Some(source.clone());
    let hover = map_mouse(
        mouse(
            MouseEventKind::Moved,
            last_overlay.rect.x,
            last_overlay.rect.y,
        ),
        &app,
        &s,
        &overlay_geometry,
        DragState::Idle,
    );
    assert_eq!(hover.action, Some(Action::HoverPlanNode(None)));
}

#[test]
fn fully_visible_relationship_is_not_an_expansion_hit_target() {
    let mut s = snap();
    let mut plan = VisualizationPlan::new(Epoch(1));
    plan.forms.push(VizForm {
        kind: FormKind::Sequence,
        nodes: vec![
            PlanNode::new(
                "before",
                "Before",
                PlanNodeChange::Modified,
            ),
            PlanNode::new(
                "after",
                "After",
                PlanNodeChange::Modified,
            ),
        ],
        edges: vec![PlanEdge {
            from: "before".into(),
            to: "after".into(),
            kind: PlanEdgeKind::FlowsTo,
            label: Some("then evaluates the new state".into()),
        }],
    });
    s.semantic.plan = Some(plan);
    s.semantic.ai_generated = true;
    s.ai = AiStatus::Ready {
        epoch: Epoch(1),
    };
    let app = app_with(&s);
    let geometry = geo(&app, &s);
    let content = geometry.generated_content.expect("generated viewport");
    let relationship = &geometry
        .diagram_canvas
        .as_ref()
        .expect("diagram")
        .relationships[0];
    assert!(!relationship.has_hidden_label);
    let x = content.x.saturating_add(relationship.label_rect.x);
    let y = content.y.saturating_add(
        relationship
            .label_rect
            .y
            .saturating_sub(geometry.ai_plan_scroll as u16),
    );
    assert!(geometry.plan_relationship_at(x, y).is_none());
    let click = map_mouse(down(x, y), &app, &s, &geometry, DragState::Idle);
    assert!(!matches!(
        click.action,
        Some(Action::TogglePlanRelationship(_))
    ));
}

#[test]
fn drag_position_accounts_for_scroll_and_clipped_box_offset() {
    let mut s = snap();
    let mut plan = VisualizationPlan::new(Epoch(1));
    plan.forms.push(VizForm {
        kind: FormKind::Sequence,
        nodes: vec![
            PlanNode::new(
                "n1",
                "Handle",
                PlanNodeChange::Modified,
            ),
            PlanNode::new(
                "n2",
                "Tail",
                PlanNodeChange::Unchanged,
            ),
        ],
        edges: vec![],
    });
    s.semantic.plan = Some(plan);
    s.semantic.ai_generated = true;
    s.ai = AiStatus::Ready {
        epoch: Epoch(1),
    };
    let mut app = app_with(&s);
    app.diagram.move_node(
        PlanNodeTarget {
            form: 0,
            id: "n1".into(),
        },
        DiagramPosition { x: 4, y: 20 },
    );
    // Make the card begin above the visible viewport, so its screen rect is clipped.
    app.diagram.move_node(
        PlanNodeTarget {
            form: 0,
            id: "n2".into(),
        },
        DiagramPosition { x: 4, y: 60 },
    );
    app.ai_plan_scroll = 21;
    let g = geo(&app, &s);
    assert!(
        g.ai_plan_scroll > 0,
        "fixture must exercise real canvas scrolling"
    );
    let n1_y = g
        .diagram_canvas
        .as_ref()
        .unwrap()
        .nodes
        .iter()
        .find(|node| node.target.id == "n1")
        .unwrap()
        .rect
        .y;
    assert!(
        usize::from(n1_y) < g.ai_plan_scroll,
        "n1 top must be above viewport"
    );
    let (target, clipped) = g
        .plan_node_rect_at(g.plan_node_rects[0].0.x, g.plan_node_rects[0].0.y)
        .unwrap();
    let armed = map_mouse(down(clipped.x, clipped.y), &app, &s, &g, DragState::Idle);
    let moved = map_mouse(drag(clipped.x + 3, clipped.y + 2), &app, &s, &g, armed.drag);
    assert_eq!(
        moved.action,
        Some(Action::MovePlanNode {
            target,
            x: 7,
            y: 22
        }),
        "screen conversion retains the hidden top-row grab offset"
    );
}

#[test]
fn generated_diagram_is_renderer_placed_and_wheel_scrolls_vertically() {
    let mut s = snap();
    let mut plan = VisualizationPlan::new(Epoch(1));
    plan.intent = "A handler passes work to storage.".to_string();
    plan.forms.push(VizForm {
        kind: FormKind::Sequence,
        nodes: vec![
            detailed("before", "Before", PlanNodeChange::Modified, "old behavior"),
            detailed("after", "After", PlanNodeChange::Modified, "new behavior"),
        ],
        edges: vec![PlanEdge {
            from: "before".to_string(),
            to: "after".to_string(),
            kind: PlanEdgeKind::Contains,
            label: Some("is replaced by the safer behavior".to_string()),
        }],
    });
    s.semantic.plan = Some(plan);
    s.semantic.ai_generated = true;
    s.ai = AiStatus::Ready {
        epoch: Epoch(1),
    };
    s.impact.selected_change = Some(SelectedChange {
        file: "a.go".to_string(),
        label: "Before".to_string(),
        change: "modified",
        interpretation: "Changes behavior.".to_string(),
        interpretation_source: InterpretationSource::Deterministic,
    });
    for index in 2..10 {
        let previous = if index == 2 {
            "after".to_string()
        } else {
            format!("extra-{}", index - 1)
        };
        s.semantic.plan.as_mut().unwrap().forms[0].nodes.push(
            detailed(
                &format!("extra-{index}"),
                &format!("Extra step {index}"),
                PlanNodeChange::Modified,
                "additional vertically placed behavior",
            ),
        );
        s.semantic.plan.as_mut().unwrap().forms[0]
            .edges
            .push(PlanEdge {
                from: previous,
                to: format!("extra-{index}"),
                kind: PlanEdgeKind::Contains,
                label: Some("continues vertically".to_string()),
            });
    }
    let app = app_with(&s);
    let g = geo(&app, &s);
    let generated = g
        .scroll_regions
        .iter()
        .find(|region| region.id == ScrollRegionId::GeneratedImpact)
        .expect("generated pane scroll region");
    assert!(generated.max_offset > 0, "tall diagram scrolls vertically");
    let x = generated.rect.x + 1;
    let y = generated.rect.y + 1;
    let wheeled = map_mouse(wheel_down(x, y), &app, &s, &g, DragState::Idle);
    assert_eq!(
        wheeled.action,
        Some(Action::ScrollRegion {
            region: ScrollRegionId::GeneratedImpact,
            offset: 3,
        })
    );
}

#[test]
fn dragging_diff_text_retains_selection_and_copies_exact_display_text() {
    let mut s = snap();
    s.diff.title = "a.go".to_string();
    s.diff.rows = vec![DiffRow::Context {
        old_ln: 7,
        new_ln: 7,
        text: "copy this text".to_string(),
    }];
    let mut app = app_with(&s);
    let g = geo(&app, &s);
    let frame = g.diff_copy.as_ref().expect("diff copy geometry");
    let y = frame.rect.y;
    let code_start = frame.code_starts[0].expect("source row");
    let start_x = frame.rect.x + code_start as u16;
    let end_x = start_x + 8;
    let armed = map_mouse(down(start_x, y), &app, &s, &g, DragState::Idle);
    assert!(matches!(armed.drag, DragState::DiffText { .. }));
    let preview = map_mouse(drag(end_x, y), &app, &s, &g, armed.drag);
    let selection = match preview.action.expect("selection preview") {
        Action::SetDiffSelection(selection) => selection,
        other => panic!("unexpected action: {other:?}"),
    };
    app.apply(Action::SetDiffSelection(selection));
    assert_eq!(app.diff_selection, Some(selection));
    let committed = map_mouse(up(end_x, y), &app, &s, &g, preview.drag);
    match committed.action.expect("copy on release") {
        Action::CommitDiffSelection {
            selection: final_selection,
            text,
        } => {
            assert_eq!(final_selection, selection);
            assert_eq!(text, "copy this");
        }
        other => panic!("unexpected action: {other:?}"),
    }
}

#[test]
fn diff_drag_clamps_the_gutter_and_copies_only_code() {
    let mut s = snap();
    s.diff.rows = vec![
        DiffRow::Context {
            old_ln: 7,
            new_ln: 7,
            text: "alpha".to_string(),
        },
        DiffRow::HunkHeader("@@ -20,1 +20,1 @@".to_string()),
        DiffRow::Add {
            new_ln: 20,
            text: "beta tail".to_string(),
        },
    ];
    let app = app_with(&s);
    let g = geo(&app, &s);
    let frame = g.diff_copy.as_ref().expect("diff copy geometry");
    let start = g
        .diff_text_point_at(frame.rect.x, frame.rect.y)
        .expect("gutter clamps to source body");
    assert_eq!(start.column, frame.code_starts[0].unwrap());
    assert!(
        g.diff_text_point_at(frame.rect.x, frame.rect.y + 1)
            .is_none()
    );
    let end = g
        .diff_text_point_at(
            frame.rect.x + frame.code_starts[2].unwrap() as u16 + 3,
            frame.rect.y + 2,
        )
        .expect("second source row");
    let copied = g.selected_diff_text(DiffTextSelection { start, end });
    assert_eq!(copied, "alpha\nbeta");
    assert!(!copied.contains('7'));
    assert!(!copied.contains("20"));
    assert!(!copied.contains("@@"));
}

#[test]
fn plain_diff_click_clears_the_retained_selection() {
    let mut s = snap();
    s.diff.rows = vec![DiffRow::Context {
        old_ln: 7,
        new_ln: 7,
        text: "select me".to_string(),
    }];
    let mut app = app_with(&s);
    let g = geo(&app, &s);
    let frame = g.diff_copy.as_ref().expect("diff copy geometry");
    let x = frame.rect.x + frame.code_starts[0].unwrap() as u16;
    let y = frame.rect.y;
    app.diff_selection = Some(DiffTextSelection {
        start: DiffTextPoint { row: 0, column: 13 },
        end: DiffTextPoint { row: 0, column: 18 },
    });

    let armed = map_mouse(down(x, y), &app, &s, &g, DragState::Idle);
    let clicked = map_mouse(up(x, y), &app, &s, &g, armed.drag);
    assert_eq!(clicked.action, Some(Action::ClearDiffSelection));
    app.apply(clicked.action.unwrap());
    assert!(app.diff_selection.is_none());

    app.diff_selection = Some(DiffTextSelection::default());
    let blank = map_mouse(
        down(frame.rect.x, frame.rect.y + 1),
        &app,
        &s,
        &g,
        DragState::Idle,
    );
    assert_eq!(blank.action, Some(Action::ClearDiffSelection));
}
