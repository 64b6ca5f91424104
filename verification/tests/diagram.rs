use codescope_tui::action::PlanNodeTarget;
use codescope_tui::diagram::{relationship_kind_name, DiagramPosition, DiagramState, DiagramViewport};
use codescope_tui::diagram_canvas::DiagramCanvas;
use codescope_tui::diagram_layout::canvas_node_lines;
use codescope_tui::plan::{
    DiffSide, EntityRef, Epoch, FormKind, LineRange, PlanCodeRef, PlanEdge, PlanEdgeKind, PlanEvidence, PlanNode,
    PlanNodeChange, VisualizationPlan, VizForm,
};
use codescope_tui::wrap::wrap_all;
use unicode_width::UnicodeWidthStr;

fn detailed(id: &str, label: &str, detail: &str) -> PlanNode {
    let mut node = PlanNode::new(id, label, PlanNodeChange::Modified);
    node.detail = Some(detail.to_string());
    node
}

fn code_node(id: &str, label: &str, file: &str) -> PlanNode {
    let mut node = PlanNode::new(id, label, PlanNodeChange::Modified);
    node.entity = Some(EntityRef { file: file.to_string(), symbol: None });
    node
}


fn live_shape() -> VisualizationPlan {
    let mut plan = VisualizationPlan::new(Epoch(7));
    let mut root = detailed("root", "diagram state", "compact state");
    root.expanded_detail = Some("expanded detail ".repeat(20));
    root.code_refs.push(PlanCodeRef {
        file: "src/diagram.rs".to_string(),
        hunk: 2,
        side: DiffSide::New,
        start_line: 10,
        end_line: 24,
    });
    root.children = vec![
        "state".into(),
        "canvas".into(),
        "routes".into(),
        "overlay".into(),
    ];
    plan.forms.push(VizForm {
        kind: FormKind::ChangedSymbolTree,
        nodes: vec![
            root,
            PlanNode::new("state", "state", PlanNodeChange::Modified),
            PlanNode::new("canvas", "canvas", PlanNodeChange::Modified),
            PlanNode::new("routes", "routes", PlanNodeChange::Modified),
            PlanNode::new("overlay", "overlay", PlanNodeChange::Modified),
        ],
        edges: vec![],
    });
    plan
}
fn built(plan: &VisualizationPlan, state: &DiagramState, w: u16) -> DiagramCanvas {
    DiagramCanvas::build_with_z_order(
        plan,
        DiagramViewport {
            width: w,
            height: 8,
        },
        state.positions(),
        state.expanded_nodes(),
        state.z_order(),
    )
}

#[test]
fn canvas_hides_evidence_descriptions_but_preserves_plan_grounding() {
    let mut plan = VisualizationPlan::new(Epoch(7));
    plan.intent = "Explain the reporter cleanup flow.".to_string();
    let evidence = PlanEvidence {
        file: "internal/reporter.go".to_string(),
        hunk: Some(0),
        symbol: Some("reportDeath".to_string()),
        range: Some(LineRange { start: 41, end: 44 }),
        reason: "unexpected deaths close the route before acknowledgement".to_string(),
    };
    plan.evidence.push(evidence.clone());

    let canvas = built(&plan, &DiagramState::default(), 96);

    assert_eq!(
        canvas.annotations,
        vec!["Explain the reporter cleanup flow."],
        "only the diagram title is projected above the canvas"
    );
    assert_eq!(
        plan.evidence,
        vec![evidence],
        "rendering must not remove grounding from the plan"
    );
}

#[test]
fn live_tree_canvas_has_nonoverlap_routes_and_expansion_without_source_footer() {
    let plan = live_shape();
    let state = DiagramState::default();
    let base = built(&plan, &state, 96);
    assert_eq!(base.nodes.len(), 5);
    assert_eq!(base.relationships.len(), 4);
    for (i, a) in base.nodes.iter().enumerate() {
        for b in &base.nodes[i + 1..] {
            assert!(
                a.rect.right() < b.rect.x
                    || b.rect.right() < a.rect.x
                    || a.rect.bottom() < b.rect.y
                    || b.rect.bottom() < a.rect.y
            );
        }
    }
    let root = PlanNodeTarget {
        form: 0,
        id: "root".into(),
    };
    let other = base
        .nodes
        .iter()
        .find(|n| n.target.id == "state")
        .unwrap()
        .rect;
    let mut expanded = state.clone();
    expanded.toggle_node(root.clone());
    let e = built(&plan, &expanded, 96);
    let rn = e.nodes.iter().find(|n| n.target == root).unwrap();
    let collapsed_root = base.nodes.iter().find(|n| n.target == root).unwrap();
    assert_eq!(
        (rn.rect.x, rn.rect.y),
        (collapsed_root.rect.x, collapsed_root.rect.y),
        "inline expansion preserves the box anchor",
    );
    assert!(rn.rect.height > collapsed_root.rect.height);
    assert_eq!(
        e.nodes.last().unwrap().target,
        root,
        "expanded box is raised above overlaps"
    );
    assert_eq!(
        e.nodes
            .iter()
            .find(|n| n.target.id == "state")
            .unwrap()
            .rect,
        other
    );
    let expanded_text = rn.lines.join("\n");
    assert!(expanded_text.contains("expanded detail"));
    assert!(!expanded_text.contains("Source"));
    assert!(!expanded_text.contains("src/diagram.rs:10-24"));

    let state_target = PlanNodeTarget {
        form: 0,
        id: "state".into(),
    };
    expanded.toggle_node(state_target.clone());
    assert!(expanded.is_node_expanded(&root));
    assert!(expanded.is_node_expanded(&state_target));
    let both_open = built(&plan, &expanded, 96);
    assert_eq!(
        both_open
            .nodes
            .iter()
            .find(|node| node.target == root)
            .unwrap()
            .lines,
        rn.lines,
        "opening another box retains the first box's complete expansion"
    );
    expanded.toggle_node(state_target.clone());
    assert!(expanded.is_node_expanded(&root));
    assert!(!expanded.is_node_expanded(&state_target));

    let edge = e.relationships[0].target.clone();
    let before = built(&plan, &expanded, 96);
    expanded.toggle_relationship(edge.clone());
    assert_eq!(before, built(&plan, &expanded, 96));
    assert!(
        e.relationship_overlay_in_viewport(&plan, &edge, 0, 8, 0)
            .is_none(),
        "a fully visible relationship has nothing to expand"
    );
    assert!(e
        .relationship_overlay_in_viewport(&plan, &edge, 0, 0, 0)
        .is_none());
}
#[test]
fn relationship_kind_names_are_truthful_and_exhaustive() {
    for (kind, expected) in [
        (PlanEdgeKind::FlowsTo, "flows to"),
        (PlanEdgeKind::Calls, "calls"),
        (PlanEdgeKind::Reads, "reads"),
        (PlanEdgeKind::Writes, "writes"),
        (PlanEdgeKind::Imports, "imports"),
        (PlanEdgeKind::Implements, "implements"),
        (PlanEdgeKind::Contains, "contains"),
    ] {
        assert_eq!(relationship_kind_name(kind), expected);
    }
}

#[test]
fn flows_to_renders_as_an_unverified_transition_with_a_fallback_overlay() {
    let mut plan = VisualizationPlan::new(Epoch(7));
    plan.forms.push(VizForm {
        kind: FormKind::Sequence,
        nodes: vec![
            code_node("request", "request", "src/request.rs"),
            code_node("handler", "handler", "src/handler.rs"),
        ],
        edges: vec![PlanEdge {
            from: "request".into(),
            to: "handler".into(),
            kind: PlanEdgeKind::FlowsTo,
            label: None,
        }],
    });

    let canvas = built(&plan, &DiagramState::default(), 40);
    let relationship = canvas
        .relationships
        .first()
        .expect("flow transition renders");
    assert!(
        relationship.label.is_empty(),
        "no compact label was supplied"
    );
    assert!(
        !relationship.verified,
        "renderer-native transitions are inferred and therefore dashed"
    );
    let overlay = canvas
        .relationship_overlay(&plan, &relationship.target)
        .expect("transition has a fallback overlay");
    assert!(overlay.lines.join("\n").contains("flows to"));
}

#[test]
fn compact_cards_wrap_all_title_and_detail_text_without_ellipsis() {
    let node = detailed(
        "reservation",
        "Validate launch reservation identity",
        "Skips empty nodes; requires launch UUID",
    );

    let lines = canvas_node_lines(&node, 18, false);
    let text = lines.join("\n");
    assert!(
        !text.contains('…'),
        "compact cards do not discard text: {text}"
    );
    for part in [
        "Validate launch",
        "reservation",
        "identity",
        "Skips empty",
        "nodes; requires",
        "launch UUID",
    ] {
        assert!(
            text.contains(part),
            "missing `{part}` from wrapped card: {text}"
        );
    }
    assert!(lines.len() > 5, "wrapped content grows the card");
    assert!(
        lines.iter().all(|line| UnicodeWidthStr::width(line.as_str()) == 18),
        "every boxed row retains the requested width"
    );
}

#[test]
fn vertical_relationship_labels_use_the_full_viewport_before_eliding() {
    let label = "reclaims expired conflicting ownership before publishing the reservation";
    let mut plan = VisualizationPlan::new(Epoch(7));
    plan.forms.push(VizForm {
        kind: FormKind::RelationshipFlow,
        nodes: ["validate", "reap", "publish"]
            .into_iter()
            .map(|id| PlanNode::new(id, id, PlanNodeChange::Modified))
            .collect(),
        edges: vec![
            PlanEdge {
                from: "validate".into(),
                to: "reap".into(),
                kind: PlanEdgeKind::FlowsTo,
                label: Some(label.into()),
            },
            PlanEdge {
                from: "reap".into(),
                to: "publish".into(),
                kind: PlanEdgeKind::FlowsTo,
                label: None,
            },
        ],
    });

    let canvas = built(&plan, &DiagramState::default(), 96);
    let relationship = &canvas.relationships[0];
    assert_eq!(relationship.label, label);
    assert_eq!(usize::from(relationship.label_rect.width), UnicodeWidthStr::width(label));
    assert!(
        relationship.label_rect.x < relationship.path[0].x
            && relationship.label_rect.right() > relationship.path[0].x,
        "a long-but-fitting label may span the route instead of being truncated"
    );
}

#[test]
fn offset_stacks_route_vertically_and_only_clipped_labels_expand_in_place() {
    let mut plan = VisualizationPlan::new(Epoch(7));
    plan.forms.push(VizForm {
        kind: FormKind::RelationshipFlow,
        nodes: vec![
            PlanNode::new("persist", "Persist state", PlanNodeChange::Modified),
            PlanNode::new("abort", "Abort update", PlanNodeChange::Modified),
        ],
        edges: vec![PlanEdge {
            from: "persist".into(),
            to: "abort".into(),
            kind: PlanEdgeKind::FlowsTo,
            label: Some("on persistence error".into()),
        }],
    });
    let persist = PlanNodeTarget {
        form: 0,
        id: "persist".into(),
    };
    let abort = PlanNodeTarget {
        form: 0,
        id: "abort".into(),
    };
    let mut stacked = DiagramState::default();
    stacked.move_node(persist.clone(), DiagramPosition { x: 5, y: 2 });
    stacked.move_node(abort.clone(), DiagramPosition { x: 12, y: 16 });
    let canvas = built(&plan, &stacked, 96);
    let source = canvas
        .nodes
        .iter()
        .find(|node| node.target == persist)
        .unwrap();
    let destination = canvas
        .nodes
        .iter()
        .find(|node| node.target == abort)
        .unwrap();
    let relationship = &canvas.relationships[0];
    assert_eq!(relationship.path.len(), 2);
    assert_eq!(relationship.path[0].x, relationship.path[1].x);
    assert!(relationship.label_rect.y > source.rect.bottom());
    assert!(relationship.label_rect.y < destination.rect.y);
    assert!(!relationship.has_hidden_label);
    assert!(canvas
        .relationship_at(DiagramPosition {
            x: relationship.label_rect.x,
            y: relationship.label_rect.y,
        })
        .is_none());
    assert!(canvas
        .relationship_overlay(&plan, &relationship.target)
        .is_none());

    // A narrow horizontal lane genuinely clips this description. Its expanded text owns
    // the same canvas anchor rather than jumping to the viewport origin.
    let label = "on persistence error, abort the state commit and retain the retry marker";
    plan.forms[0].edges[0].label = Some(label.into());
    let mut side_by_side = DiagramState::default();
    side_by_side.move_node(persist, DiagramPosition { x: 2, y: 2 });
    side_by_side.move_node(abort, DiagramPosition { x: 58, y: 2 });
    let clipped = built(&plan, &side_by_side, 96);
    let relationship = &clipped.relationships[0];
    assert!(relationship.has_hidden_label);
    assert!(relationship.label_rect.x > 0);
    assert_eq!(relationship.path[0].y, relationship.path[1].y);
    assert_eq!(
        clipped.relationship_at(DiagramPosition {
            x: relationship.label_rect.x,
            y: relationship.label_rect.y,
        }),
        Some(relationship.target.clone())
    );
    let overlay = clipped
        .relationship_overlay_in_viewport(&plan, &relationship.target, 0, 20, 0)
        .unwrap();
    assert_eq!(overlay.rect.x, relationship.label_rect.x);
    assert_eq!(overlay.rect.y, relationship.label_rect.y);
    assert_eq!(overlay.lines.join(" "), label);
}

#[test]
fn four_node_flow_uses_edge_order_instead_of_an_ambiguous_grid() {
    let mut plan = VisualizationPlan::new(Epoch(7));
    plan.forms.push(VizForm {
        kind: FormKind::RelationshipFlow,
        // Deliberately scramble document order: placement should follow relationships.
        nodes: ["third", "first", "fourth", "second"]
            .into_iter()
            .map(|id| PlanNode::new(id, id, PlanNodeChange::Modified))
            .collect(),
        edges: [
            ("first", "second"),
            ("second", "third"),
            ("third", "fourth"),
        ]
        .into_iter()
        .map(|(from, to)| PlanEdge {
            from: from.into(),
            to: to.into(),
            kind: PlanEdgeKind::FlowsTo,
            label: None,
        })
        .collect(),
    });

    let canvas = built(&plan, &DiagramState::default(), 96);
    let rect = |id: &str| {
        canvas
            .nodes
            .iter()
            .find(|node| node.target.id == id)
            .expect("flow node is placed")
            .rect
    };
    let ordered = [rect("first"), rect("second"), rect("third"), rect("fourth")];
    assert!(ordered.windows(2).all(|pair| pair[0].y < pair[1].y));
    assert!(ordered
        .windows(2)
        .all(|pair| pair[0].x + pair[0].width / 2 == pair[1].x + pair[1].width / 2));
    assert!(canvas.relationships.iter().all(|relationship| {
        relationship.path.len() == 2
            && relationship.path[0].x == relationship.path[1].x
            && relationship.path[0].y < relationship.path[1].y
    }));
}

#[test]
fn branching_flow_layers_sources_branches_and_sink() {
    let mut plan = VisualizationPlan::new(Epoch(7));
    plan.forms.push(VizForm {
        kind: FormKind::RelationshipFlow,
        nodes: ["sink", "right", "source", "left"]
            .into_iter()
            .map(|id| PlanNode::new(id, id, PlanNodeChange::Modified))
            .collect(),
        edges: [
            ("source", "left"),
            ("source", "right"),
            ("left", "sink"),
            ("right", "sink"),
        ]
        .into_iter()
        .map(|(from, to)| PlanEdge {
            from: from.into(),
            to: to.into(),
            kind: PlanEdgeKind::FlowsTo,
            label: None,
        })
        .collect(),
    });

    let canvas = built(&plan, &DiagramState::default(), 96);
    let rect = |id: &str| {
        canvas
            .nodes
            .iter()
            .find(|node| node.target.id == id)
            .expect("flow node is placed")
            .rect
    };
    let source = rect("source");
    let left = rect("left");
    let right = rect("right");
    let sink = rect("sink");
    assert!(source.y < left.y && left.y == right.y && right.y < sink.y);
    assert!(left.x.min(right.x) < source.x && source.x < left.x.max(right.x));
    assert_eq!(source.x, sink.x);
}

#[test]
fn move_parallel_optional_unicode_and_z_contracts() {
    let mut plan = live_shape();
    plan.forms[0].nodes[0].children.clear();
    plan.forms[0].edges = vec![
        PlanEdge {
            from: "state".into(),
            to: "canvas".into(),
            kind: PlanEdgeKind::Writes,
            label: None,
        },
        PlanEdge {
            from: "state".into(),
            to: "canvas".into(),
            kind: PlanEdgeKind::Writes,
            label: Some("é🙂 relationship".into()),
        },
    ];
    let mut state = DiagramState::default();
    let base = built(&plan, &state, 40);
    assert_eq!(base.relationships.len(), 2);
    assert_ne!(base.relationships[0].target, base.relationships[1].target);
    assert!(base.relationships[0].label.is_empty());
    let truthful = base
        .relationship_overlay_in_viewport(&plan, &base.relationships[0].target, 0, 8, 0)
        .unwrap();
    let text = truthful.lines.join("\n");
    assert!(text.contains("writes") && !text.contains("affects"));
    let a = PlanNodeTarget {
        form: 0,
        id: "state".into(),
    };
    let b = PlanNodeTarget {
        form: 0,
        id: "canvas".into(),
    };
    let mut resize_state = DiagramState::default();
    resize_state.move_node(a.clone(), DiagramPosition { x: 80, y: 2 });
    let narrow_x = built(&plan, &resize_state, 40)
        .nodes
        .iter()
        .find(|node| node.target == a)
        .unwrap()
        .rect
        .x;
    let wide_x = built(&plan, &resize_state, 120)
        .nodes
        .iter()
        .find(|node| node.target == a)
        .unwrap()
        .rect
        .x;
    assert!(narrow_x < 80, "narrow rendering clamps the derived X");
    assert_eq!(wide_x, 80, "widening restores the persisted requested X");
    assert_eq!(resize_state.positions().get(&a).unwrap().x, 80);

    let fixed = base.nodes.iter().find(|n| n.target == b).unwrap().rect;
    let route = base.relationships[0].path.clone();
    state.move_node(a.clone(), DiagramPosition { x: 4, y: 12 });
    let moved = built(&plan, &state, 40);
    assert_ne!(moved.relationships[0].path, route);
    assert_eq!(
        moved.nodes.iter().find(|n| n.target == b).unwrap().rect,
        fixed
    );
    state.move_node(b.clone(), DiagramPosition { x: 4, y: 12 });
    let overlap = built(&plan, &state, 40);
    assert_eq!(overlap.node_at(DiagramPosition { x: 4, y: 12 }), Some(b));
    assert!(built(&plan, &state, 1)
        .nodes
        .iter()
        .flat_map(|n| &n.lines)
        .all(|line| UnicodeWidthStr::width(line.as_str()) <= 1));
    assert_eq!(
        built(&plan, &state, 40)
            .nodes
            .iter()
            .find(|n| n.target == a)
            .unwrap()
            .rect
            .x,
        4
    );
    let mut scoped = DiagramState::default();
    scoped.sync_plan(&plan);
    scoped.move_node(a.clone(), DiagramPosition { x: 4, y: 4 });
    scoped.toggle_node(a.clone());
    scoped.sync_plan(&plan);
    assert!(scoped.positions().contains(&a));
    assert!(scoped.is_node_expanded(&a));
    let mut incremented = plan.clone();
    incremented.forms[0].nodes.push(PlanNode::new(
        "later",
        "incremental node",
        PlanNodeChange::Added,
    ));
    scoped.sync_plan(&incremented);
    assert!(
        scoped.positions().contains(&a),
        "adding a node to the live draft retains user placement"
    );
    assert!(
        scoped.is_node_expanded(&a),
        "adding a node to the live draft retains the open card"
    );
    let mut changed = incremented;
    changed.epoch = Epoch(8);
    scoped.sync_plan(&changed);
    assert!(
        scoped.positions().keys().is_empty()
            && scoped.z_order().is_empty()
            && scoped.expanded_nodes().is_empty()
    );
}
#[test]
fn expansion_keeps_nonincident_route_and_paged_overlay_content() {
    let mut plan = live_shape();
    plan.forms[0].edges.push(PlanEdge {
        from: "state".into(),
        to: "canvas".into(),
        kind: PlanEdgeKind::Writes,
        label: Some("unrelated".into()),
    });
    let state = DiagramState::default();
    let before = built(&plan, &state, 96);
    let unrelated = before.relationships[0].path.clone();
    let mut state = state;
    state.toggle_node(PlanNodeTarget {
        form: 0,
        id: "root".into(),
    });
    assert_eq!(built(&plan, &state, 96).relationships[0].path, unrelated);
    plan.forms[0].edges[0].label = Some("very long relationship ".repeat(80));
    let c = built(&plan, &DiagramState::default(), 40);
    let target = c.relationships[0].target.clone();
    let label_y = c.relationships[0].label_rect.y;
    let p0 = c
        .relationship_overlay_in_viewport(&plan, &target, label_y, 1, 0)
        .unwrap();
    let p1 = c
        .relationship_overlay_in_viewport(&plan, &target, label_y, 1, 1)
        .unwrap();
    assert_eq!(p0.rect.height, 1);
    assert_ne!(p0.lines, p1.lines);
    assert!(!p0.lines[0].starts_with("relationship details"));
    let max = c
        .relationship_overlay_in_viewport(&plan, &target, label_y, 3, usize::MAX)
        .unwrap();
    assert_eq!(max.scroll, max.max_scroll);
}
#[test]
fn width_sweep_and_unicode_wrap_are_lossless() {
    let mut plan = live_shape();
    plan.forms.push(VizForm {
        kind: FormKind::RelationshipFlow,
        nodes: vec![PlanNode::new(
            "second-form",
            "second form",
            PlanNodeChange::Unchanged,
        )],
        edges: vec![],
    });
    let state = DiagramState::default();
    for width in [18, 40, 96] {
        let c = built(&plan, &state, width);
        for (i, a) in c.nodes.iter().enumerate() {
            for b in &c.nodes[i + 1..] {
                assert!(
                    a.rect.right() < b.rect.x
                        || b.rect.right() < a.rect.x
                        || a.rect.bottom() < b.rect.y
                        || b.rect.bottom() < a.rect.y
                )
            }
        }
    }
    let token = "naïve🙂identifier".repeat(20);
    assert_eq!(wrap_all(&token, 12).concat(), token);
}
