//! Generated visualization plans: what a plan node, edge and form hold.

use vstd::prelude::*;
use crate::text::same_text;

verus! {

/// A generation of the repository state; it grows with every refresh.
#[derive(Debug, Clone, Copy, PartialEq, Eq, Structural, Hash)]
pub struct Epoch(pub u64);

/// Which picture a form draws.
#[derive(Debug, Clone, Copy, PartialEq, Eq, Structural)]
pub enum FormKind {
    Sequence,
    ImpactSummary,
    FocusedDiff,
    BeforeAfter,
    ChangedSymbolTree,
    CallTree,
    TypeImplTree,
    RelationshipFlow,
}

/// What happened to the entity a node stands for.
#[derive(Debug, Clone, Copy, PartialEq, Eq, Structural)]
pub enum PlanNodeChange {
    Added,
    Modified,
    Removed,
    Unchanged,
}

/// What an edge between two nodes means.
#[derive(Debug, Clone, Copy, PartialEq, Eq, Structural)]
pub enum PlanEdgeKind {
    FlowsTo,
    Calls,
    Reads,
    Writes,
    Imports,
    Implements,
    Contains,
}

/// A side of a diff.
#[derive(Debug, Clone, Copy, PartialEq, Eq, Structural)]
pub enum DiffSide {
    Old,
    New,
}

/// Lines of one side of one hunk that a node is about.
#[derive(Debug, Clone, PartialEq, Eq)]
pub struct PlanCodeRef {
    pub file: String,
    /// Zero-based hunk inside the file's diff.
    pub hunk: u32,
    pub side: DiffSide,
    pub start_line: u32,
    pub end_line: u32,
}

/// The code entity that a node stands for.
#[derive(Debug, Clone, PartialEq, Eq)]
pub struct EntityRef {
    pub file: String,
    pub symbol: Option<String>,
}

/// One box of a form.
#[derive(Debug, Clone, PartialEq, Eq)]
pub struct PlanNode {
    /// Identity inside its form.
    pub id: String,
    pub label: String,
    pub change: PlanNodeChange,
    pub detail: Option<String>,
    pub expanded_detail: Option<String>,
    /// Identities of the nodes below this one.
    pub children: Vec<String>,
    pub code_refs: Vec<PlanCodeRef>,
    pub entity: Option<EntityRef>,
    /// Whether the plan asks for this node to stand out.
    pub highlight: bool,
}

/// One arrow of a form.
#[derive(Debug, Clone, PartialEq, Eq)]
pub struct PlanEdge {
    pub from: String,
    pub to: String,
    pub kind: PlanEdgeKind,
    pub label: Option<String>,
}

/// A range of lines, both ends included.
#[derive(Debug, Clone, Copy, PartialEq, Eq, Structural)]
pub struct LineRange {
    pub start: u32,
    pub end: u32,
}

/// What in the diff a plan rests on.
#[derive(Debug, Clone, PartialEq, Eq)]
pub struct PlanEvidence {
    pub file: String,
    pub hunk: Option<u32>,
    pub symbol: Option<String>,
    pub range: Option<LineRange>,
    pub reason: String,
}

/// One picture of a plan.
#[derive(Debug, Clone, PartialEq, Eq)]
pub struct VizForm {
    pub kind: FormKind,
    pub nodes: Vec<PlanNode>,
    pub edges: Vec<PlanEdge>,
}

/// A generated explanation of a change.
#[derive(Debug, Clone, PartialEq, Eq)]
pub struct VisualizationPlan {
    pub epoch: Epoch,
    pub intent: String,
    pub forms: Vec<VizForm>,
    pub evidence: Vec<PlanEvidence>,
}

impl PlanNode {
    /// A node without details, children, code links or entity.
    pub fn new(id: &str, label: &str, change: PlanNodeChange) -> (r: PlanNode)
        ensures
            r.id@ == id@,
            r.label@ == label@,
            r.change == change,
            r.detail is None,
            r.expanded_detail is None,
            r.children.len() == 0,
            r.code_refs.len() == 0,
            r.entity is None,
            !r.highlight,
    {
        PlanNode {
            id: id.to_owned(),
            label: label.to_owned(),
            change,
            detail: None,
            expanded_detail: None,
            children: Vec::new(),
            code_refs: Vec::new(),
            entity: None,
            highlight: false,
        }
    }
}

impl VisualizationPlan {
    /// A plan of `epoch` without any form.
    pub fn new(epoch: Epoch) -> (r: VisualizationPlan)
        ensures
            r.epoch == epoch,
            r.intent@ == Seq::<char>::empty(),
            r.forms.len() == 0,
            r.evidence.len() == 0,
    {
        VisualizationPlan { epoch, intent: String::new(), forms: Vec::new(), evidence: Vec::new() }
    }
}

/// Two optional texts with the same contents.
pub open spec fn equal_texts(a: Option<String>, b: Option<String>) -> bool {
    match (a, b) {
        (Some(x), Some(y)) => x@ == y@,
        (None, None) => true,
        _ => false,
    }
}

pub open spec fn equal_text_lists(a: Seq<String>, b: Seq<String>) -> bool {
    a.len() == b.len() && forall|i: int| 0 <= i < a.len() ==> #[trigger] a[i]@ == b[i]@
}

pub open spec fn equal_code_refs(a: PlanCodeRef, b: PlanCodeRef) -> bool {
    a.file@ == b.file@ && a.hunk == b.hunk && a.side == b.side && a.start_line == b.start_line && a.end_line
        == b.end_line
}

pub open spec fn equal_entities(a: Option<EntityRef>, b: Option<EntityRef>) -> bool {
    match (a, b) {
        (Some(x), Some(y)) => x.file@ == y.file@ && equal_texts(x.symbol, y.symbol),
        (None, None) => true,
        _ => false,
    }
}

pub open spec fn equal_nodes(a: PlanNode, b: PlanNode) -> bool {
    &&& a.id@ == b.id@
    &&& a.label@ == b.label@
    &&& a.change == b.change
    &&& equal_texts(a.detail, b.detail)
    &&& equal_texts(a.expanded_detail, b.expanded_detail)
    &&& equal_text_lists(a.children@, b.children@)
    &&& a.code_refs.len() == b.code_refs.len()
    &&& forall|i: int| 0 <= i < a.code_refs.len() ==> equal_code_refs(#[trigger] a.code_refs[i], b.code_refs[i])
    &&& equal_entities(a.entity, b.entity)
    &&& a.highlight == b.highlight
}

pub open spec fn equal_edges(a: PlanEdge, b: PlanEdge) -> bool {
    a.from@ == b.from@ && a.to@ == b.to@ && a.kind == b.kind && equal_texts(a.label, b.label)
}

pub open spec fn equal_evidence(a: PlanEvidence, b: PlanEvidence) -> bool {
    a.file@ == b.file@ && a.hunk == b.hunk && equal_texts(a.symbol, b.symbol) && a.range == b.range && a.reason@
        == b.reason@
}

pub open spec fn equal_forms(a: VizForm, b: VizForm) -> bool {
    &&& a.kind == b.kind
    &&& a.nodes.len() == b.nodes.len()
    &&& forall|i: int| 0 <= i < a.nodes.len() ==> equal_nodes(#[trigger] a.nodes[i], b.nodes[i])
    &&& a.edges.len() == b.edges.len()
    &&& forall|i: int| 0 <= i < a.edges.len() ==> equal_edges(#[trigger] a.edges[i], b.edges[i])
}

/// Two plans that say the same.
pub open spec fn equal_plans(a: VisualizationPlan, b: VisualizationPlan) -> bool {
    &&& a.epoch == b.epoch
    &&& a.intent@ == b.intent@
    &&& a.forms.len() == b.forms.len()
    &&& forall|i: int| 0 <= i < a.forms.len() ==> equal_forms(#[trigger] a.forms[i], b.forms[i])
    &&& a.evidence.len() == b.evidence.len()
    &&& forall|i: int| 0 <= i < a.evidence.len() ==> equal_evidence(#[trigger] a.evidence[i], b.evidence[i])
}

/// Two optional plans that say the same.
pub open spec fn equal_optional_plans(a: Option<VisualizationPlan>, b: Option<VisualizationPlan>) -> bool {
    match (a, b) {
        (Some(x), Some(y)) => equal_plans(x, y),
        (None, None) => true,
        _ => false,
    }
}

pub fn same_optional_text(a: &Option<String>, b: &Option<String>) -> (r: bool)
    ensures
        r == equal_texts(*a, *b),
{
    match (a, b) {
        (Some(x), Some(y)) => same_text(x.as_str(), y.as_str()),
        (None, None) => true,
        _ => false,
    }
}

fn same_text_list(a: &Vec<String>, b: &Vec<String>) -> (r: bool)
    ensures
        r == equal_text_lists(a@, b@),
{
    if a.len() != b.len() {
        return false;
    }
    let mut i: usize = 0;
    while i < a.len()
        invariant
            i <= a.len() == b.len(),
            forall|k: int| 0 <= k < i ==> #[trigger] a@[k]@ == b@[k]@,
        decreases a.len() - i,
    {
        if !same_text(a[i].as_str(), b[i].as_str()) {
            return false;
        }
        i = i + 1;
    }
    true
}

fn same_node(a: &PlanNode, b: &PlanNode) -> (r: bool)
    ensures
        r == equal_nodes(*a, *b),
{
    let entities: bool = match (&a.entity, &b.entity) {
        (Some(x), Some(y)) => same_text(x.file.as_str(), y.file.as_str()) && same_optional_text(&x.symbol, &y.symbol),
        (None, None) => true,
        _ => false,
    };
    if !entities || !same_text(a.id.as_str(), b.id.as_str()) || !same_text(a.label.as_str(), b.label.as_str())
        || a.change != b.change || !same_optional_text(&a.detail, &b.detail) || !same_optional_text(
        &a.expanded_detail,
        &b.expanded_detail,
    ) || !same_text_list(&a.children, &b.children) || a.highlight != b.highlight || a.code_refs.len()
        != b.code_refs.len() {
        return false;
    }
    let mut i: usize = 0;
    while i < a.code_refs.len()
        invariant
            i <= a.code_refs.len() == b.code_refs.len(),
            forall|k: int| 0 <= k < i ==> equal_code_refs(#[trigger] a.code_refs[k], b.code_refs[k]),
        decreases a.code_refs.len() - i,
    {
        let (x, y) = (&a.code_refs[i], &b.code_refs[i]);
        if !same_text(x.file.as_str(), y.file.as_str()) || x.hunk != y.hunk || x.side != y.side || x.start_line
            != y.start_line || x.end_line != y.end_line {
            return false;
        }
        i = i + 1;
    }
    true
}

fn same_form(a: &VizForm, b: &VizForm) -> (r: bool)
    ensures
        r == equal_forms(*a, *b),
{
    if a.kind != b.kind || a.nodes.len() != b.nodes.len() || a.edges.len() != b.edges.len() {
        return false;
    }
    let mut i: usize = 0;
    while i < a.nodes.len()
        invariant
            i <= a.nodes.len() == b.nodes.len(),
            forall|k: int| 0 <= k < i ==> equal_nodes(#[trigger] a.nodes[k], b.nodes[k]),
        decreases a.nodes.len() - i,
    {
        if !same_node(&a.nodes[i], &b.nodes[i]) {
            return false;
        }
        i = i + 1;
    }
    let mut j: usize = 0;
    while j < a.edges.len()
        invariant
            j <= a.edges.len() == b.edges.len(),
            forall|k: int| 0 <= k < j ==> equal_edges(#[trigger] a.edges[k], b.edges[k]),
        decreases a.edges.len() - j,
    {
        let (x, y) = (&a.edges[j], &b.edges[j]);
        if !same_text(x.from.as_str(), y.from.as_str()) || !same_text(x.to.as_str(), y.to.as_str()) || x.kind
            != y.kind || !same_optional_text(&x.label, &y.label) {
            return false;
        }
        j = j + 1;
    }
    true
}

/// Whether two plans say the same.
pub fn same_plan(a: &VisualizationPlan, b: &VisualizationPlan) -> (r: bool)
    ensures
        r == equal_plans(*a, *b),
{
    if a.epoch != b.epoch || !same_text(a.intent.as_str(), b.intent.as_str()) || a.forms.len() != b.forms.len()
        || a.evidence.len() != b.evidence.len() {
        return false;
    }
    let mut i: usize = 0;
    while i < a.forms.len()
        invariant
            i <= a.forms.len() == b.forms.len(),
            forall|k: int| 0 <= k < i ==> equal_forms(#[trigger] a.forms[k], b.forms[k]),
        decreases a.forms.len() - i,
    {
        if !same_form(&a.forms[i], &b.forms[i]) {
            return false;
        }
        i = i + 1;
    }
    let mut j: usize = 0;
    while j < a.evidence.len()
        invariant
            j <= a.evidence.len() == b.evidence.len(),
            forall|k: int| 0 <= k < j ==> equal_evidence(#[trigger] a.evidence[k], b.evidence[k]),
        decreases a.evidence.len() - j,
    {
        let (x, y) = (&a.evidence[j], &b.evidence[j]);
        if !same_text(x.file.as_str(), y.file.as_str()) || x.hunk != y.hunk || !same_optional_text(
            &x.symbol,
            &y.symbol,
        ) || x.range != y.range || !same_text(x.reason.as_str(), y.reason.as_str()) {
            return false;
        }
        j = j + 1;
    }
    true
}

/// Whether two optional plans say the same.
pub fn same_optional_plan(a: &Option<VisualizationPlan>, b: &Option<VisualizationPlan>) -> (r: bool)
    ensures
        r == equal_optional_plans(*a, *b),
{
    match (a, b) {
        (Some(x), Some(y)) => same_plan(x, y),
        (None, None) => true,
        _ => false,
    }
}

} // verus!
