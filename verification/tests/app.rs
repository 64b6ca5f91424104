use codescope_tui::action::{Action, PlanNodeTarget};
use codescope_tui::app::{App, Pane, UiPreferences};
use codescope_tui::diagram::DiagramPosition;
use codescope_tui::divider::{DividerId, DividerSizes};
use codescope_tui::layout::{MIN_FILES_WIDTH, MIN_IMPACT_HEIGHT, MIN_IMPACT_LEFT_WIDTH};
use codescope_tui::plan::{
    DiffSide, Epoch, FormKind, PlanCodeRef, PlanNode, PlanNodeChange, VisualizationPlan, VizForm,
};
use codescope_tui::scroll::ScrollRegionId;
use codescope_tui::snapshot::{
    AiStatus, AiSummaryKey, ChangeScope, DiffPane, DiffRow, FileRow, FileSemanticLoad, ImpactRow, InterpretationSource,
    SelectedChange, SemanticPane, StatusLevel, StatusMessage, SymbolRow, UiSnapshot,
};

fn detailed(id: &str, label: &str, change: PlanNodeChange, detail: &str) -> PlanNode {
    let mut node = PlanNode::new(id, label, change);
    node.detail = Some(detail.to_string());
    node
}

fn row(name: &str, expanded: bool, symbols: usize) -> FileRow {
    FileRow {
        path: name.to_string(),
        status: "M",
        semantic: if symbols > 0 {
            FileSemanticLoad::Ready
        } else {
            FileSemanticLoad::Unloaded
        },
        changed_symbol_count: symbols,
        added_lines: 0,
        removed_lines: 0,
        symbols: (0..symbols)
            .map(|i| SymbolRow {
                name: format!("sym{i}"),
                change: "modified",
                confidence: "",
                has_diagnostic: false,
                position: None,
            })
            .collect(),
        expanded,
    }
}

fn app_with_files() -> App {
    let mut app = App::new();
    app.update(UiSnapshot {
        files: vec![row("a.go", true, 2), row("b.go", false, 3)],
        ..UiSnapshot::default()
    });
    app
}

#[test]
fn move_selection_clamps() {
    let mut app = app_with_files();
    // a.go + 2 symbols + b.go = 4 rows
    assert_eq!(app.flat_file_rows(), 4);
    for _ in 0..10 {
        app.apply(Action::Down);
    }
    assert_eq!(app.file_sel, 3);
    for _ in 0..10 {
        app.apply(Action::Up);
    }
    assert_eq!(app.file_sel, 0);
}

#[test]
fn agent_focus_expands_and_selects_the_visible_symbol_row() {
    let mut app = app_with_files();
    app.apply(Action::AgentFocus(AiSummaryKey::Symbol {
        file: "b.go".to_string(),
        name: "sym2".to_string(),
        position: None,
    }));
    assert!(app.snapshot.files[1].expanded);
    assert_eq!(app.focused, Pane::Files);
    assert_eq!(
        app.selected_summary_key(),
        Some(AiSummaryKey::Symbol {
            file: "b.go".to_string(),
            name: "sym2".to_string(),
            position: None,
        })
    );
}

#[test]
fn hover_scroll_offsets_are_independent_of_focus_and_selection() {
    let mut app = app_with_files();
    app.focused = Pane::Diff;
    app.file_sel = 2;
    app.apply(Action::ScrollRegion {
        region: ScrollRegionId::Files,
        offset: 1,
    });
    assert_eq!(app.focused, Pane::Diff);
    assert_eq!(app.file_sel, 2);
    assert_eq!(app.files_scroll, 1);
    assert!(app.files_scroll_detached);

    let relationships = (0..10)
        .map(|index| ImpactRow {
            label: format!("rel-{index}"),
            relation: "calls",
            changed: false,
            has_diagnostic: false,
        })
        .collect::<Vec<_>>();
    app.snapshot.impact.callers.rows = relationships.clone();
    app.snapshot.impact.downstream.rows = relationships;
    app.snapshot.impact.selected_change = Some(SelectedChange {
        file: "a.go".to_string(),
        label: "selected".to_string(),
        change: "modified",
        interpretation: "changed".to_string(),
        interpretation_source: InterpretationSource::Deterministic,
    });
    app.apply(Action::ScrollRegion {
        region: ScrollRegionId::Callers,
        offset: 4,
    });
    app.apply(Action::ScrollRegion {
        region: ScrollRegionId::Downstream,
        offset: 5,
    });
    app.apply(Action::ScrollRegion {
        region: ScrollRegionId::GeneratedImpact,
        offset: 6,
    });
    assert_eq!(app.callers_scroll, 4);
    assert_eq!(app.downstream_scroll, 5);
    assert_eq!(app.ai_plan_scroll, 6);

    app.focused = Pane::Files;
    app.apply(Action::Down);
    assert!(
        !app.files_scroll_detached,
        "keyboard navigation resumes selection-follow"
    );
}

#[test]
fn collapse_hides_symbols() {
    let mut app = app_with_files();
    app.file_sel = 0;
    // Expansion is dispatcher-owned: the app applies the targeted command (what
    // run.rs sends after resolving the selected file at keypress time).
    let path = app.snapshot.files[0].path.clone();
    app.apply(Action::SetFileExpanded {
        path,
        expanded: false,
    });
    assert!(!app.snapshot.files[0].expanded);
    assert_eq!(app.flat_file_rows(), 2); // a.go + b.go
}

#[test]
fn focus_keys_direct() {
    // Tab no longer cycles panes; 1/2/3 focus directly.
    let mut app = App::new();
    assert_eq!(app.focused, Pane::Files);
    app.apply(Action::Focus(Pane::Diff));
    assert_eq!(app.focused, Pane::Diff);
    app.apply(Action::Focus(Pane::Impact));
    assert_eq!(app.focused, Pane::Impact);
    app.apply(Action::Focus(Pane::Files));
    assert_eq!(app.focused, Pane::Files);
}

#[test]
fn scope_switch_resets_selection() {
    let mut app = app_with_files();
    app.file_sel = 2;
    app.apply(Action::ScopeUnstaged);
    assert_eq!(app.snapshot.scope, ChangeScope::Unstaged);
    assert_eq!(app.file_sel, 0);
    app.apply(Action::ScopeWorking);
    assert_eq!(app.snapshot.scope, ChangeScope::Working);
}

#[test]
fn scope_cycle_visits_all_scopes() {
    let mut app = App::new();
    assert_eq!(app.snapshot.scope, ChangeScope::Branch);
    let mut seen = vec![app.snapshot.scope];
    for _ in 0..4 {
        app.apply(Action::ScopeCycle);
        seen.push(app.snapshot.scope);
    }
    assert_eq!(
        seen,
        vec![
            ChangeScope::Branch,
            ChangeScope::Staged,
            ChangeScope::Unstaged,
            ChangeScope::Working,
            ChangeScope::Branch,
        ]
    );
}

#[test]
fn quit_and_help() {
    let mut app = App::new();
    app.apply(Action::ToggleHelp);
    assert!(app.show_help);
    app.apply(Action::Quit);
    assert!(app.should_quit);
}

#[test]
fn status_detail_freezes_the_clicked_message_until_closed() {
    let mut app = App::new();
    app.snapshot.status = StatusMessage {
        text: "original provider error".to_string(),
        detail: Some("original complete provider diagnostic".to_string()),
        level: StatusLevel::Warning,
    };
    app.apply(Action::ToggleStatusDetail);
    assert_eq!(
        app.status_detail
            .as_ref()
            .map(|status| status.text.as_str()),
        Some("original provider error")
    );
    assert_eq!(
        app.status_detail
            .as_ref()
            .and_then(|status| status.detail.as_deref()),
        Some("original complete provider diagnostic")
    );

    let mut updated = app.snapshot.clone();
    updated.status.text = "automatic retry started".to_string();
    updated.status.detail = Some("replacement detail".to_string());
    app.update(updated);
    assert_eq!(
        app.status_detail
            .as_ref()
            .map(|status| status.text.as_str()),
        Some("original provider error"),
        "background statuses cannot replace the message being inspected"
    );
    assert_eq!(
        app.status_detail
            .as_ref()
            .and_then(|status| status.detail.as_deref()),
        Some("original complete provider diagnostic"),
        "background statuses cannot replace the diagnostic being inspected"
    );

    app.apply(Action::ToggleStatusDetail);
    assert!(app.status_detail.is_none());
}

#[test]
fn stable_preferences_restore_without_session_state() {
    let mut dividers = DividerSizes::default();
    dividers.set(DividerId::FilesDiff, 7);
    dividers.set(DividerId::WorkReview, 2);
    dividers.set(DividerId::RelationshipsGenerated, 3);
    let app = App::with_preferences(UiPreferences {
        diff_wrap: true,
        dividers,
    });
    assert!(app.diff_wrap);
    assert_eq!(
        app.dividers.get(DividerId::FilesDiff),
        MIN_FILES_WIDTH
    );
    assert_eq!(
        app.dividers.get(DividerId::WorkReview),
        MIN_IMPACT_HEIGHT
    );
    assert_eq!(
        app.dividers.get(DividerId::RelationshipsGenerated),
        MIN_IMPACT_LEFT_WIDTH
    );
    assert_eq!(app.focused, Pane::Files, "focus is session state");
    assert_eq!(app.file_sel, 0);
    assert!(!app.zoomed);
    assert_eq!(
        app.preferences(),
        UiPreferences {
            diff_wrap: true,
            dividers
        }
    );
}

#[test]
fn base_picker_toggle_and_navigation_clamps() {
    let mut app = App::new();
    let snap = UiSnapshot {
        available_bases: vec![
            "main".to_string(),
            "origin/main".to_string(),
            "develop".to_string(),
        ],
        ..UiSnapshot::default()
    };
    app.update(snap);
    app.apply(Action::BasePicker);
    assert!(app.show_base_picker);
    for _ in 0..10 {
        app.apply(Action::Down);
    }
    assert_eq!(app.base_sel, 2); // clamped at last candidate
    for _ in 0..10 {
        app.apply(Action::Up);
    }
    assert_eq!(app.base_sel, 0);
    app.apply(Action::BasePicker);
    assert!(!app.show_base_picker);
}

#[test]
fn picker_input_filters_and_clamps_selection() {
    let mut app = App::new();
    app.update(UiSnapshot {
        available_bases: vec![
            "main".to_string(),
            "origin/main".to_string(),
            "develop".to_string(),
        ],
        ..UiSnapshot::default()
    });
    app.apply(Action::BasePicker);
    assert_eq!(app.filtered_bases(), vec!["main", "origin/main", "develop"]);

    // Select the last entry, then filter down to the two "main" refs: the selection
    // clamps into the filtered list.
    for _ in 0..2 {
        app.apply(Action::Down);
    }
    assert_eq!(app.base_sel, 2);
    for c in "MAIN".chars() {
        app.apply(Action::PickerInput(c));
    }
    assert_eq!(app.base_query, "MAIN"); // case-insensitive matching below
    assert_eq!(app.filtered_bases(), vec!["main", "origin/main"]);
    assert_eq!(app.base_sel, 1, "selection clamps to the filtered list");

    // Backspace pops the query; empty query shows everything again.
    for _ in 0..5 {
        app.apply(Action::PickerBackspace);
    }
    assert!(app.base_query.is_empty());
    assert_eq!(app.filtered_bases().len(), 3);

    // Closing (Esc) clears the query for the next open.
    app.apply(Action::PickerInput('x'));
    app.apply(Action::BasePicker);
    assert!(!app.show_base_picker);
    assert!(app.base_query.is_empty());
}

#[test]
fn picker_navigation_stays_within_filtered_list() {
    let mut app = App::new();
    app.update(UiSnapshot {
        available_models: vec![
            "openai/gpt-5".to_string(),
            "anthropic/fable-5".to_string(),
        ],
        ..UiSnapshot::default()
    });
    app.apply(Action::ModelPicker);
    app.apply(Action::PickerInput('g')); // only "openai/gpt-5" matches
    assert_eq!(app.filtered_models(), vec!["openai/gpt-5"]);
    for _ in 0..5 {
        app.apply(Action::Down);
    }
    assert_eq!(app.model_sel, 0);
    // Input in a closed picker is inert.
    app.apply(Action::ModelPicker);
    app.apply(Action::PickerInput('z'));
    assert!(app.model_query.is_empty());
}

#[test]
fn model_picker_cycles_backend_published_reasoning_efforts() {
    let mut app = App::new();
    app.update(UiSnapshot {
        ai_reasoning_effort: "medium".to_string(),
        available_reasoning_efforts: ["default", "low", "medium", "high"]
            .map(str::to_string)
            .to_vec(),
        ..UiSnapshot::default()
    });
    app.apply(Action::ModelPicker);
    assert_eq!(app.selected_reasoning_effort(), "medium");
    app.apply(Action::ReasoningEffortNext);
    assert_eq!(app.selected_reasoning_effort(), "high");
    app.apply(Action::ReasoningEffortNext);
    assert_eq!(app.selected_reasoning_effort(), "default");
    app.apply(Action::ReasoningEffortPrevious);
    assert_eq!(app.selected_reasoning_effort(), "high");
}

#[test]
fn hunk_jump_clamps() {
    let mut app = App::new();
    app.snapshot.diff.total_hunks = 3;
    app.current_hunk = 1;
    app.apply(Action::NextHunk);
    assert_eq!(app.current_hunk, 2);
    app.apply(Action::NextHunk);
    assert_eq!(app.current_hunk, 3);
    app.apply(Action::NextHunk);
    assert_eq!(app.current_hunk, 3);
    app.apply(Action::PrevHunk);
    assert_eq!(app.current_hunk, 2);
}

#[test]
fn hunk_jump_anchors_scroll_to_the_header_row() {
    let mut app = App::new();
    app.snapshot.diff.rows = vec![
        DiffRow::HunkHeader("@@ -1,2 +1,2 @@".to_string()),
        DiffRow::Context {
            old_ln: 1,
            new_ln: 1,
            text: "a".to_string(),
        },
        DiffRow::HunkHeader("@@ -40,2 +40,2 @@".to_string()),
        DiffRow::Add {
            new_ln: 41,
            text: "b".to_string(),
        },
    ];
    app.snapshot.diff.total_hunks = 2;
    app.current_hunk = 1;
    app.apply(Action::NextHunk);
    assert_eq!(app.current_hunk, 2);
    assert_eq!(
        app.diff_scroll, 2,
        "scroll anchors on the second hunk header"
    );
    app.apply(Action::PrevHunk);
    assert_eq!(app.diff_scroll, 0);
    assert_eq!(app.current_hunk, 1);
}

#[test]
fn scrolling_recomputes_the_current_hunk() {
    let mut app = App::new();
    app.focused = Pane::Diff;
    app.snapshot.diff.rows = vec![
        DiffRow::HunkHeader("@@ -1,2 +1,2 @@".to_string()),
        DiffRow::Context {
            old_ln: 1,
            new_ln: 1,
            text: "a".to_string(),
        },
        DiffRow::HunkHeader("@@ -40,2 +40,2 @@".to_string()),
        DiffRow::Add {
            new_ln: 41,
            text: "b".to_string(),
        },
    ];
    app.snapshot.diff.total_hunks = 2;
    app.current_hunk = 1;
    // Ordinary vertical scrolling (not n/N) recomputes the hunk under the anchor.
    app.apply(Action::Bottom);
    assert_eq!(app.diff_scroll, 3);
    assert_eq!(app.current_hunk, 2, "scrolled past the second header");
    app.apply(Action::Up);
    app.apply(Action::Up);
    assert_eq!(app.diff_scroll, 1);
    assert_eq!(app.current_hunk, 1);
    app.apply(Action::Top);
    assert_eq!(app.current_hunk, 1);
}

#[test]
fn current_hunk_resets_when_the_diff_retargets() {
    let mut app = App::new();
    app.snapshot.diff.title = "a.go".to_string();
    app.snapshot.diff.total_hunks = 5;
    app.current_hunk = 4;
    // Same path: the hunk cursor survives a refresh publish.
    app.update(UiSnapshot {
        diff: DiffPane {
            title: "a.go".to_string(),
            total_hunks: 5,
            ..DiffPane::default()
        },
        ..UiSnapshot::default()
    });
    assert_eq!(app.current_hunk, 4);
    // New file: back to the top of the diff.
    app.update(UiSnapshot {
        diff: DiffPane {
            title: "b.go".to_string(),
            total_hunks: 2,
            ..DiffPane::default()
        },
        ..UiSnapshot::default()
    });
    assert_eq!(app.current_hunk, 1);
    // No hunks: 0.
    app.update(UiSnapshot {
        diff: DiffPane {
            title: "c.go".to_string(),
            ..DiffPane::default()
        },
        ..UiSnapshot::default()
    });
    assert_eq!(app.current_hunk, 0);
}

#[test]
fn zoom_toggles() {
    let mut app = App::new();
    assert!(!app.zoomed);
    app.apply(Action::ToggleZoom);
    assert!(app.zoomed);
    app.apply(Action::ToggleZoom);
    assert!(!app.zoomed);
}

#[test]
fn wrap_defaults_off_and_toggles() {
    let mut app = App::new();
    assert!(!app.diff_wrap, "raw is the default");
    app.apply(Action::ToggleWrap);
    assert!(app.diff_wrap);
    app.apply(Action::ToggleWrap);
    assert!(!app.diff_wrap);
}

#[test]
fn hscroll_moves_only_in_raw_mode() {
    let mut app = App::new();
    app.focused = Pane::Diff;
    // Raw mode (default): l steps by 8, h steps back, 0 resets.
    app.apply(Action::Expand);
    app.apply(Action::Expand);
    assert_eq!(app.diff_hscroll, 16);
    app.apply(Action::Collapse);
    assert_eq!(app.diff_hscroll, 8);
    app.apply(Action::ResetHScroll);
    assert_eq!(app.diff_hscroll, 0);
    // Wrap mode: h/l must not move hidden horizontal state.
    app.apply(Action::Expand);
    app.apply(Action::ToggleWrap);
    let before = app.diff_hscroll;
    app.apply(Action::Expand);
    assert_eq!(app.diff_hscroll, before);
}

#[test]
fn scope_switch_resets_hscroll() {
    let mut app = App::new();
    app.focused = Pane::Diff;
    app.apply(Action::Expand);
    assert_eq!(app.diff_hscroll, 8);
    app.apply(Action::ScopeStaged);
    assert_eq!(app.diff_hscroll, 0);
}

#[test]
fn selected_file_path_maps_symbol_rows_to_their_file() {
    let app = app_with_files();
    let mut app2 = app_with_files();
    app2.file_sel = 2; // sym1 of a.go
    assert_eq!(app.selected_file_path(), Some("a.go"));
    assert_eq!(app2.selected_file_path(), Some("a.go"));
    let mut app3 = app_with_files();
    app3.file_sel = 3; // b.go
    assert_eq!(app3.selected_file_path(), Some("b.go"));
}

#[test]
fn selected_symbol_name_only_on_symbol_rows() {
    let mut app = app_with_files();
    assert_eq!(app.selected_symbol_name(), None, "file row: no symbol");
    app.file_sel = 2; // sym1 of a.go
    assert_eq!(app.selected_symbol_name(), Some("sym1"));
    app.file_sel = 3; // b.go file row
    assert_eq!(app.selected_symbol_name(), None);
}

// -- generated rows inside the combined Impact view --------------------------------


/// The repo-state epoch an AI status describes: Loading/Ready/Stale carry it; the
/// epoch-less statuses (Idle/Failed) ride whatever repo state is current —
/// the fixtures below all stay on epoch 1 unless a test says otherwise.
fn status_epoch(ai: &AiStatus) -> Epoch {
    match ai {
        AiStatus::Loading { since_epoch } => *since_epoch,
        AiStatus::WaitingForSymbols { epoch } | AiStatus::Debouncing { epoch } => *epoch,
        AiStatus::Ready { epoch } | AiStatus::Stale { epoch } => *epoch,
        _ => Epoch(1),
    }
}

/// A snapshot whose `epoch` matches the AI status's epoch (a consistent fixture:
/// the production publisher never mixes them).
fn ai_plan_snap(ai: AiStatus, ai_generated: bool, rows: usize) -> UiSnapshot {
    let epoch = status_epoch(&ai);
    ai_plan_snap_at(epoch, ai, ai_generated, rows)
}

/// [`ai_plan_snap`] with an explicit snapshot epoch — the negative fixture for
/// epoch-mismatch tests.
fn ai_plan_snap_at(
    snap_epoch: Epoch,
    ai: AiStatus,
    ai_generated: bool,
    rows: usize,
) -> UiSnapshot {
    UiSnapshot {
        ai,
        epoch: snap_epoch,
        semantic: SemanticPane {
            report: None,
            plan: (rows > 0).then(|| {
                let mut plan = VisualizationPlan::new(snap_epoch);
                plan.intent = "Requests pass through each authentication step.".into();
                plan.forms.push(VizForm {
                    kind: FormKind::CallTree,
                    nodes: (0..rows)
                        .map(|i| {
                            detailed(&format!("n{i}"), &format!("step{i}"), PlanNodeChange::Modified, &format!("explains step {i}"))
                        })
                        .collect(),
                    edges: Vec::new(),
                });
                plan
            }),
            note: String::new(),
            ai_generated,
        },
        ..UiSnapshot::default()
    }
}

/// Drive the app to the AI plan view via the Loading → Ready edge.
fn app_with_ai_plan(rows: usize) -> App {
    let mut app = App::new();
    app.update(ai_plan_snap(
        AiStatus::Loading {
            since_epoch: Epoch(1),
        },
        false,
        0,
    ));
    app.update(ai_plan_snap(
        AiStatus::Ready { epoch: Epoch(1) },
        true,
        rows,
    ));
    app
}

#[test]
fn plan_hover_temporarily_jumps_to_code_and_expansion_stays_open() {
    let mut snap = ai_plan_snap(AiStatus::Ready { epoch: Epoch(1) }, true, 2);
    snap.diff = DiffPane {
        title: "src/main.rs".into(),
        focused_symbol: None,
        rows: vec![
            DiffRow::HunkHeader("@@ -10,2 +10,2 @@ first".into()),
            DiffRow::Context {
                old_ln: 10,
                new_ln: 10,
                text: "first".into(),
            },
            DiffRow::HunkHeader("@@ -30,1 +30,2 @@ second".into()),
            DiffRow::Add {
                new_ln: 30,
                text: "linked".into(),
            },
            DiffRow::Context {
                old_ln: 30,
                new_ln: 31,
                text: "tail".into(),
            },
        ],
        current_hunk: 1,
        total_hunks: 2,
    };
    snap.semantic.plan.as_mut().unwrap().forms[0].nodes[0]
        .code_refs
        .push(PlanCodeRef { file: "src/main.rs".to_string(), hunk: 1, side: DiffSide::New, start_line: 30, end_line: 30 });
    let mut app = App::new();
    app.update(snap.clone());
    app.diff_scroll = 1;
    app.sync_current_hunk();
    let target = PlanNodeTarget {
        form: 0,
        id: "n0".into(),
    };

    app.apply(Action::HoverPlanNode(Some(target.clone())));
    assert_eq!(app.diff_scroll, 3, "hover jumps to the first linked row");
    assert_eq!(app.current_hunk, 2);
    app.apply(Action::TogglePlanNode(target.clone()));
    assert!(app.diagram.is_node_expanded(&target));

    // A live-draft publish may add or refine other boxes while this one remains valid.
    snap.semantic.plan.as_mut().unwrap().forms[0]
        .nodes
        .push(detailed("n2", "later", PlanNodeChange::Added, "arrived later"));
    app.update(snap);
    assert_eq!(app.hovered_plan_node.as_ref(), Some(&target));
    assert!(app.diagram.is_node_expanded(&target));

    app.apply(Action::HoverPlanNode(None));
    assert_eq!(
        app.diff_scroll, 1,
        "mouse-out restores the original position"
    );
    assert_eq!(app.current_hunk, 1);
    assert!(
        app.active_code_node().is_none(),
        "an open box is not highlighted"
    );
    assert!(app.diagram.is_node_expanded(&target), "mouse-out does not collapse the clicked box");
}

#[test]
fn ai_plan_scroll_navigates_and_clamps() {
    let mut app = app_with_ai_plan(5);
    app.apply(Action::Focus(Pane::Impact));
    for _ in 0..10 {
        app.apply(Action::Down);
    }
    assert_eq!(
        app.ai_plan_scroll, 10,
        "physical height is clamped by renderer"
    );
    for _ in 0..10 {
        app.apply(Action::Up);
    }
    assert_eq!(app.ai_plan_scroll, 0);
    app.apply(Action::Bottom);
    assert_eq!(app.ai_plan_scroll, 10_000);
    app.apply(Action::Top);
    assert_eq!(app.ai_plan_scroll, 0);
    app.apply(Action::PageDown);
    assert_eq!(app.ai_plan_scroll, 20);
    app.apply(Action::HalfPageUp);
    assert_eq!(app.ai_plan_scroll, 10);
    // A different plan resets the width-dependent physical scroll.
    app.apply(Action::Bottom);
    app.update(ai_plan_snap(AiStatus::Ready { epoch: Epoch(1) }, true, 2));
    assert_eq!(app.ai_plan_scroll, 0);
    // Empty plan: everything collapses to 0.
    app.update(ai_plan_snap(AiStatus::Ready { epoch: Epoch(1) }, true, 0));
    assert_eq!(app.ai_plan_scroll, 0);
    app.apply(Action::Down);
    assert_eq!(app.ai_plan_scroll, 0);
}

#[test]
fn combined_impact_scrolls_the_generated_half() {
    let mut app = app_with_ai_plan(5);
    app.apply(Action::Focus(Pane::Impact));
    app.apply(Action::Down);
    assert_eq!(app.ai_plan_scroll, 1);
    app.apply(Action::Bottom);
    assert_eq!(app.ai_plan_scroll, 10_000);
}

#[test]
fn page_keys_still_scroll_the_diff_when_it_is_focused() {
    let mut app = App::new();
    app.snapshot.diff.rows = (0..30)
        .map(|i| DiffRow::Context {
            old_ln: i as u32 + 1,
            new_ln: i as u32 + 1,
            text: format!("line {i}"),
        })
        .collect();
    app.focused = Pane::Diff;
    app.apply(Action::PageDown);
    assert_eq!(app.diff_scroll, 20);
    assert_eq!(app.ai_plan_scroll, 0);
}

/// must not slide the selection onto a different entity — the selected (file, symbol)
/// re-resolves by identity.
#[test]
fn selection_follows_the_entity_when_symbols_arrive() {
    // Two collapsed files; select the second (b.go).
    let mut app = App::new();
    app.update(UiSnapshot {
        files: vec![row("a.go", false, 0), row("b.go", false, 0)],
        ..UiSnapshot::default()
    });
    app.file_sel = 1;
    assert_eq!(app.selected_file_path(), Some("b.go"));
    // a.go's analysis lands: its symbols insert rows, shifting b.go's ordinal.
    let mut snap = app.snapshot.clone();
    snap.files[0].expanded = true;
    snap.files[0].semantic = FileSemanticLoad::Ready;
    snap.files[0].symbols = vec![
        SymbolRow {
            name: "NewSym".to_string(),
            change: "added",
            confidence: "",
            has_diagnostic: false,
            position: Some((1, 0)),
        },
        SymbolRow {
            name: "Other".to_string(),
            change: "modified",
            confidence: "",
            has_diagnostic: false,
            position: Some((3, 0)),
        },
    ];
    app.update(snap);
    // b.go is still selected (its flat index moved from 1 to 3).
    assert_eq!(app.selected_file_path(), Some("b.go"));
}

#[test]
fn diagram_layout_and_expansion_restore_when_returning_to_a_file() {
    fn selected_plan(file: &str) -> UiSnapshot {
        let mut snapshot = ai_plan_snap(AiStatus::Ready { epoch: Epoch(1) }, true, 2);
        snapshot.diff.title = file.to_string();
        snapshot.impact.selected_change = Some(SelectedChange {
            file: file.to_string(),
            label: file.to_string(),
            change: "modified",
            interpretation: String::new(),
            interpretation_source: InterpretationSource::Deterministic,
        });
        snapshot
    }

    let mut app = App::new();
    app.update(selected_plan("a.go"));
    let target = PlanNodeTarget {
        form: 0,
        id: "n0".to_string(),
    };
    app.apply(Action::MovePlanNode {
        target: target.clone(),
        x: 37,
        y: 19,
    });
    app.apply(Action::TogglePlanNode(target.clone()));
    app.ai_plan_scroll = 11;

    app.update(selected_plan("b.go"));
    assert!(app.diagram.positions().keys().is_empty());
    assert!(app.diagram.expanded_nodes().is_empty());
    assert_eq!(app.ai_plan_scroll, 0);

    app.update(selected_plan("a.go"));
    assert_eq!(
        app.diagram.positions().get(&target),
        Some(&DiagramPosition { x: 37, y: 19 })
    );
    assert!(app.diagram.is_node_expanded(&target));
    assert_eq!(app.ai_plan_scroll, 11);
}
