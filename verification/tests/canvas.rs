use codescope_tui::action::PlanNodeTarget;
use codescope_tui::canvas::render_canvas;
use codescope_tui::canvas_grid::CanvasLine;
use codescope_tui::plan::{
    Epoch, FormKind, PlanEdge, PlanEdgeKind, PlanNode, PlanNodeChange, VisualizationPlan, VizForm,
};

fn detailed(id: &str, label: &str, detail: &str, expanded: &str) -> PlanNode {
    let mut node = PlanNode::new(id, label, PlanNodeChange::Modified);
    node.detail = Some(detail.to_string());
    node.expanded_detail = Some(expanded.to_string());
    node
}

fn plan() -> VisualizationPlan {
    let mut plan = VisualizationPlan::new(Epoch(1));
    plan.intent = "The old request path becomes a guarded request path.".to_string();
    plan.forms.push(VizForm {
        kind: FormKind::BeforeAfter,
        nodes: vec![
            detailed("old", "Old path", "sends immediately", "Sends the request immediately without checking readiness, downstream capacity, retry ownership, or cancellation state."),
            detailed("new", "Guarded path", "checks readiness", "Checks readiness before sending the request downstream."),
        ],
        edges: vec![PlanEdge {
            from: "old".to_string(),
            to: "new".to_string(),
            kind: PlanEdgeKind::Writes,
            label: Some("is replaced only after the readiness gate opens".to_string()),
        }],
    });
    plan
}

#[test]
fn connector_keeps_its_full_label_when_the_canvas_has_room() {
    let frame = render_canvas(&plan(), 140, 24, "", None, &Vec::new(), None);
    let text = frame
        .lines
        .iter()
        .map(CanvasLine::text)
        .collect::<Vec<_>>()
        .join("\n");
    assert!(
        text.contains("is replaced only after the readiness gate opens"),
        "complete relationship label: {text}"
    );
}

#[test]
fn expanded_render_uses_the_same_reserved_collision_footprint() {
    let target = PlanNodeTarget {
        form: 0,
        id: "old".to_string(),
    };
    let collapsed = render_canvas(&plan(), 100, 24, "", None, &Vec::new(), None);
    let expanded = render_canvas(
        &plan(),
        100,
        24,
        "",
        None,
        &vec![target.clone()],
        None,
    );
    let collapsed_node = collapsed
        .nodes
        .iter()
        .find(|node| node.target == target)
        .unwrap();
    let expanded_node = expanded
        .nodes
        .iter()
        .find(|node| node.target == target)
        .unwrap();
    assert_eq!(collapsed_node.footprint, expanded_node.footprint);
    assert!(
        expanded_node.screen_rect.unwrap().height > collapsed_node.screen_rect.unwrap().height
    );
}
