//! Width-aware terminal diagrams for completed, validated plans.
//!
//! Plans carry structure, not pre-rendered rows. This module is the single layout boundary:
//! it turns that structure into boxes and relationship connectors for the pane width
//! available during the current frame. Connectors distinguish validator-verifiable
//! relationships from interpretation.

use vstd::prelude::*;
use crate::action::{PlanNodeTarget, PlanRelationshipTarget, RelationshipView, TargetView};
use crate::num::{monus, sat16};
use crate::plan::{Epoch, FormKind, PlanEdge, PlanEdgeKind, PlanNode, VisualizationPlan, VizForm};
use crate::snapshot::{ValidationReport, ValidationVerdict};
use crate::table::{copied_keys, held, holds, lemma_holds_push, Key, KeySet, Table};
use crate::text::{joined, same_text, texts};
use crate::wrap::{decimal, decimal_of};

verus! {

/// Semantic styling role for a span in a terminal diagram.
#[derive(Debug, Clone, Copy, PartialEq, Eq, Structural)]
pub enum DiagramRole {
    /// Behavioral title.
    Title,
    /// Intent sentence and node details.
    Text,
    /// Normal node border.
    Border,
    /// Border or label for the current selection.
    Selected,
    /// Node currently under the pointer; also links to highlighted diff rows.
    Hovered,
    /// Labeled connector or arrow.
    Arrow,
    /// Warning or generation-status message.
    Warning,
    /// Source evidence.
    Evidence,
    /// Low-emphasis separators and status.
    Muted,
}

/// One styled span in a physical terminal line.
#[derive(Debug, Clone, PartialEq, Eq)]
pub struct DiagramSpan {
    /// Visible text.
    pub text: String,
    /// Semantic style role.
    pub role: DiagramRole,
}

/// One already width-bounded physical terminal line.
#[derive(Debug, Clone, PartialEq, Eq)]
pub struct DiagramLine {
    /// Styled spans in display order.
    pub spans: Vec<DiagramSpan>,
}

/// A span, by contents.
#[verifier::ext_equal]
pub struct SpanView {
    pub text: Seq<char>,
    pub role: DiagramRole,
}

impl View for DiagramLine {
    type V = Seq<SpanView>;

    open spec fn view(&self) -> Seq<SpanView> {
        Seq::new(self.spans.len() as nat, |i: int| SpanView { text: self.spans[i].text@, role: self.spans[i].role })
    }
}

/// The text of a line, without its styles.
pub open spec fn line_text(spans: Seq<SpanView>) -> Seq<char>
    decreases spans.len(),
{
    if spans.len() == 0 {
        Seq::empty()
    } else {
        line_text(spans.drop_last()) + spans.last().text
    }
}

impl DiagramLine {
    /// A line of one span.
    pub fn plain(text: &str, role: DiagramRole) -> (r: DiagramLine)
        ensures
            r@ == seq![SpanView { text: text@, role }],
    {
        let mut spans: Vec<DiagramSpan> = Vec::new();
        spans.push(DiagramSpan { text: text.to_owned(), role });
        let r = DiagramLine { spans };
        proof {
            assert(r@ =~= seq![SpanView { text: text@, role }]);
        }
        r
    }

    /// Plain text representation.
    pub fn text(&self) -> (out: String)
        ensures
            out@ == line_text(self@),
    {
        let mut out = String::new();
        let mut i: usize = 0;
        proof {
            assert(line_text(self@.take(0)) =~= Seq::empty());
        }
        while i < self.spans.len()
            invariant
                i <= self.spans.len(),
                out@ == line_text(self@.take(i as int)),
            decreases self.spans.len() - i,
        {
            out.append(self.spans[i].text.as_str());
            proof {
                assert(self@.take(i + 1).drop_last() =~= self@.take(i as int));
                assert(self@.take(i + 1).last() == self@[i as int]);
            }
            i = i + 1;
        }
        proof {
            assert(self@.take(self.spans.len() as int) =~= self@);
        }
        out
    }
}

/// Whether validation took anything out of a plan.
pub open spec fn is_sanitized(report: Option<ValidationReport>) -> bool {
    report matches Some(r) && (r.verdict == ValidationVerdict::ValidWithDrops || r.dropped.len() > 0)
}

/// The warning about `n` dropped items.
pub open spec fn sanitized_warning(n: int) -> Seq<char> {
    "⚠ sanitized AI plan · "@ + decimal_of(n) + (if n == 1 { " item removed"@ } else { " items removed"@ })
}

/// Base warning rows for validator-sanitized plans. Rendering and retained geometry must
/// pass this exact list to [`DiagramCanvas::build_with_annotations`].
pub fn leading_annotations(report: &Option<ValidationReport>) -> (out: Vec<String>)
    ensures
        texts(out@) == (if is_sanitized(*report) {
            seq![sanitized_warning(report->0.dropped.len() as int)]
        } else {
            Seq::empty()
        }),
{
    let mut out: Vec<String> = Vec::new();
    match report {
        Some(r) => {
            if r.verdict == ValidationVerdict::ValidWithDrops || r.dropped.len() > 0 {
                let mut text = joined("⚠ sanitized AI plan · ", decimal(r.dropped.len() as u64).as_str());
                text.append(if r.dropped.len() == 1 { " item removed" } else { " items removed" });
                out.push(text);
                proof {
                    assert(texts(out@) =~= seq![sanitized_warning(r.dropped.len() as int)]);
                }
                return out;
            }
        },
        None => {},
    }
    proof {
        assert(texts(out@) =~= Seq::empty());
    }
    out
}

/// A content-local cell position in the generated-plan canvas.
#[derive(Debug, Clone, Copy, PartialEq, Eq, Structural, Hash)]
pub struct DiagramPosition {
    /// Horizontal cell from the generated content origin.
    pub x: u16,
    /// Vertical cell from the generated content origin.
    pub y: u16,
}

impl Default for DiagramPosition {
    fn default() -> (r: Self)
        ensures
            r == (DiagramPosition { x: 0, y: 0 }),
    {
        DiagramPosition { x: 0, y: 0 }
    }
}

impl View for DiagramPosition {
    type V = DiagramPosition;

    open spec fn view(&self) -> DiagramPosition {
        *self
    }
}

impl Key for DiagramPosition {
    fn same(&self, other: &Self) -> (r: bool) {
        self.x == other.x && self.y == other.y
    }

    fn copied(&self) -> (r: Self) {
        *self
    }
}

/// A rectangle in generated-plan content-local terminal cells.
#[derive(Debug, Clone, Copy, PartialEq, Eq, Structural)]
pub struct DiagramRect {
    pub x: u16,
    pub y: u16,
    pub width: u16,
    pub height: u16,
}

impl DiagramRect {
    /// Whether the cell at a position is inside, as far as `u16` reaches.
    pub open spec fn covers(self, p: DiagramPosition) -> bool {
        self.x <= p.x < sat16(self.x + self.width) && self.y <= p.y < sat16(self.y + self.height)
    }

    /// The last column.
    pub open spec fn right_spec(self) -> int {
        sat16(self.x + monus(self.width as int, 1))
    }

    /// The last row.
    pub open spec fn bottom_spec(self) -> int {
        sat16(self.y + monus(self.height as int, 1))
    }

    /// Whether this rectangle contains a content-local cell.
    pub fn contains(self, point: DiagramPosition) -> (r: bool)
        ensures
            r == self.covers(point),
    {
        point.x >= self.x && point.y >= self.y && point.x < self.x.saturating_add(self.width) && point.y
            < self.y.saturating_add(self.height)
    }

    /// Inclusive right cell.
    pub fn right(self) -> (r: u16)
        ensures
            r == self.right_spec(),
    {
        self.x.saturating_add(self.width.saturating_sub(1))
    }

    /// Inclusive bottom cell.
    pub fn bottom(self) -> (r: u16)
        ensures
            r == self.bottom_spec(),
    {
        self.y.saturating_add(self.height.saturating_sub(1))
    }
}

/// Available content cells while deriving a diagram canvas.
#[derive(Debug, Clone, Copy, PartialEq, Eq, Structural)]
pub struct DiagramViewport {
    /// Visible content width. Cards are horizontally clamped to this width.
    pub width: u16,
    /// Visible content height. It does not clamp y: the canvas can scroll vertically.
    pub height: u16,
}

/// Persistent, current-plan-only diagram interaction state.
///
/// Positions are keyed by plan-local ids, never labels. A plan refresh calls
/// [`DiagramState::sync_plan`] to remove stale entries while retaining every valid user move
/// and expansion.
#[derive(Debug, Clone)]
pub struct DiagramState {
    positions: Table<PlanNodeTarget, DiagramPosition>,
    z_order: Vec<PlanNodeTarget>,
    scope: Option<Epoch>,
    expanded_nodes: KeySet<PlanNodeTarget>,
    expanded_relationship: Option<PlanRelationshipTarget>,
    overlay_scroll: usize,
}

/// Diagram interaction state, by contents.
#[verifier::ext_equal]
pub struct StateView {
    pub positions: Map<TargetView, DiagramPosition>,
    pub z_order: Seq<TargetView>,
    pub scope: Option<Epoch>,
    pub expanded: Set<TargetView>,
    pub relationship: Option<RelationshipView>,
    pub overlay_scroll: int,
}

/// The nodes of a list, by contents.
pub open spec fn target_views(items: Seq<PlanNodeTarget>) -> Seq<TargetView> {
    Seq::new(items.len(), |i: int| items[i]@)
}

/// An optional relationship, by contents.
pub open spec fn optional_relationship(target: Option<PlanRelationshipTarget>) -> Option<RelationshipView> {
    match target {
        Some(t) => Some(t@),
        None => None,
    }
}

impl View for DiagramState {
    type V = StateView;

    closed spec fn view(&self) -> StateView {
        StateView {
            positions: self.positions@,
            z_order: target_views(self.z_order@),
            scope: self.scope,
            expanded: self.expanded_nodes@,
            relationship: optional_relationship(self.expanded_relationship),
            overlay_scroll: self.overlay_scroll as int,
        }
    }
}

/// State without any interaction.
pub open spec fn fresh_state() -> StateView {
    StateView {
        positions: Map::empty(),
        z_order: Seq::empty(),
        scope: None,
        expanded: Set::empty(),
        relationship: None,
        overlay_scroll: 0,
    }
}

/// Whether a target is a node of a plan.
pub open spec fn is_node(plan: VisualizationPlan, t: TargetView) -> bool {
    exists|f: int, n: int| #![trigger plan.forms[f].nodes[n]]
        0 <= f < plan.forms.len() && 0 <= n < plan.forms[f].nodes.len() && t == (TargetView {
            form: f,
            id: plan.forms[f].nodes[n].id@,
        })
}

/// A list without the targets that are not kept.
pub open spec fn keep_nodes(list: Seq<TargetView>, plan: VisualizationPlan) -> Seq<TargetView>
    decreases list.len(),
{
    if list.len() == 0 {
        Seq::empty()
    } else if is_node(plan, list.last()) {
        keep_nodes(list.drop_last(), plan).push(list.last())
    } else {
        keep_nodes(list.drop_last(), plan)
    }
}

/// A list without one target.
pub open spec fn without(list: Seq<TargetView>, t: TargetView) -> Seq<TargetView>
    decreases list.len(),
{
    if list.len() == 0 {
        Seq::empty()
    } else if list.last() == t {
        without(list.drop_last(), t)
    } else {
        without(list.drop_last(), t).push(list.last())
    }
}

/// State with all expansion closed.
pub open spec fn collapsed_state(s: StateView) -> StateView {
    StateView { expanded: Set::empty(), relationship: None, overlay_scroll: 0, ..s }
}

/// The state once it has seen a plan: everything is forgotten for another epoch, and only
/// what the plan no longer holds for the same.
pub open spec fn synced_state(s: StateView, plan: VisualizationPlan) -> StateView {
    if s.scope != Some(plan.epoch) {
        StateView {
            scope: Some(plan.epoch),
            positions: Map::empty(),
            z_order: Seq::empty(),
            ..collapsed_state(s)
        }
    } else {
        StateView {
            positions: Map::new(
                |t: TargetView| s.positions.dom().contains(t) && is_node(plan, t),
                |t: TargetView| s.positions[t],
            ),
            z_order: keep_nodes(s.z_order, plan),
            expanded: Set::new(|t: TargetView| s.expanded.contains(t) && is_node(plan, t)),
            relationship: match s.relationship {
                Some(r) => if relationship_in(plan, r) { Some(r) } else { None },
                None => None,
            },
            ..s
        }
    }
}

/// The state after a box has been put at a position and on top of the others.
pub open spec fn moved_state(s: StateView, t: TargetView, position: DiagramPosition) -> StateView {
    StateView { positions: s.positions.insert(t, position), z_order: without(s.z_order, t).push(t), ..s }
}

/// The state after a box has been opened (and raised, closing the overlay) or closed.
pub open spec fn expansion_state(s: StateView, t: TargetView, expanded: bool) -> StateView {
    if expanded {
        StateView {
            z_order: without(s.z_order, t).push(t),
            expanded: s.expanded.insert(t),
            relationship: None,
            ..s
        }
    } else {
        StateView { expanded: s.expanded.remove(t), ..s }
    }
}

/// The state after a box has been toggled.
pub open spec fn node_toggled(s: StateView, t: TargetView) -> StateView {
    expansion_state(s, t, !s.expanded.contains(t))
}

/// The state after a relationship overlay has been toggled.
pub open spec fn relationship_toggled(s: StateView, r: RelationshipView) -> StateView {
    StateView {
        relationship: if s.relationship == Some(r) { None } else { Some(r) },
        overlay_scroll: 0,
        ..s
    }
}

impl Default for DiagramState {
    fn default() -> (r: Self)
        ensures
            r@ == fresh_state(),
    {
        let r = DiagramState {
            positions: Table::new(),
            z_order: Vec::new(),
            scope: None,
            expanded_nodes: KeySet::new(),
            expanded_relationship: None,
            overlay_scroll: 0,
        };
        proof {
            assert(r@.z_order =~= Seq::empty());
        }
        r
    }
}

/// Whether a target is a node of a plan.
pub fn plan_has_node(plan: &VisualizationPlan, target: &PlanNodeTarget) -> (r: bool)
    ensures
        r == is_node(*plan, target@),
{
    if target.form >= plan.forms.len() {
        return false;
    }
    let nodes = &plan.forms[target.form].nodes;
    let mut n: usize = 0;
    while n < nodes.len()
        invariant
            n <= nodes.len(),
            target.form < plan.forms.len(),
            *nodes == plan.forms@[target.form as int].nodes,
            forall|k: int| 0 <= k < n ==> #[trigger] nodes@[k].id@ != target.id@,
        decreases nodes.len() - n,
    {
        if same_text(nodes[n].id.as_str(), target.id.as_str()) {
            proof {
                assert(plan.forms[target.form as int].nodes[n as int].id@ == target.id@);
                assert(target@ == (TargetView {
                    form: target.form as int,
                    id: plan.forms[target.form as int].nodes[n as int].id@,
                }));
            }
            return true;
        }
        n = n + 1;
    }
    proof {
        if is_node(*plan, target@) {
            let (f, k) = choose|f: int, k: int| #![trigger plan.forms[f].nodes[k]]
                0 <= f < plan.forms.len() && 0 <= k < plan.forms[f].nodes.len() && target@ == (TargetView {
                    form: f,
                    id: plan.forms[f].nodes[k].id@,
                });
            assert(nodes@[k].id@ == target.id@);
        }
    }
    false
}

/// The targets of a list that are nodes of a plan.
fn kept_targets(list: &Vec<PlanNodeTarget>, plan: &VisualizationPlan) -> (out: Vec<PlanNodeTarget>)
    ensures
        target_views(out@) == keep_nodes(target_views(list@), *plan),
{
    let ghost all = target_views(list@);
    let mut out: Vec<PlanNodeTarget> = Vec::new();
    let mut i: usize = 0;
    proof {
        assert(target_views(out@) =~= keep_nodes(all.take(0), *plan));
    }
    while i < list.len()
        invariant
            i <= list.len() == all.len(),
            all == target_views(list@),
            target_views(out@) == keep_nodes(all.take(i as int), *plan),
        decreases list.len() - i,
    {
        let ghost before = out@;
        proof {
            assert(all.take(i + 1).drop_last() =~= all.take(i as int));
            assert(all.take(i + 1).last() == list@[i as int]@);
        }
        if plan_has_node(plan, &list[i]) {
            out.push(list[i].copied());
            proof {
                assert(target_views(out@) =~= target_views(before).push(list@[i as int]@));
            }
        }
        i = i + 1;
    }
    proof {
        assert(all.take(list.len() as int) =~= all);
    }
    out
}

/// The targets of a list other than one.
fn other_targets(list: &Vec<PlanNodeTarget>, target: &PlanNodeTarget) -> (out: Vec<PlanNodeTarget>)
    ensures
        target_views(out@) == without(target_views(list@), target@),
{
    let ghost all = target_views(list@);
    let mut out: Vec<PlanNodeTarget> = Vec::new();
    let mut i: usize = 0;
    proof {
        assert(target_views(out@) =~= without(all.take(0), target@));
    }
    while i < list.len()
        invariant
            i <= list.len() == all.len(),
            all == target_views(list@),
            target_views(out@) == without(all.take(i as int), target@),
        decreases list.len() - i,
    {
        let ghost before = out@;
        proof {
            assert(all.take(i + 1).drop_last() =~= all.take(i as int));
            assert(all.take(i + 1).last() == list@[i as int]@);
        }
        if !list[i].same(target) {
            out.push(list[i].copied());
            proof {
                assert(target_views(out@) =~= target_views(before).push(list@[i as int]@));
            }
        }
        i = i + 1;
    }
    proof {
        assert(all.take(list.len() as int) =~= all);
    }
    out
}

/// The keys of positions that are no node of a plan.
fn gone_positions(positions: &Table<PlanNodeTarget, DiagramPosition>, plan: &VisualizationPlan) -> (drop: Vec<
    PlanNodeTarget,
>)
    ensures
        forall|t: TargetView| #![trigger holds(drop@, t)] holds(drop@, t) <==> positions@.dom().contains(t) && !is_node(
            *plan,
            t,
        ),
{
    let keys = positions.keys();
    let drop = gone_keys(&keys, plan);
    proof {
        assert forall|t: TargetView| #![trigger holds(drop@, t)] holds(drop@, t) <==> positions@.dom().contains(t)
            && !is_node(*plan, t) by {
            assert(holds(keys@, t) <==> positions@.dom().contains(t));
        }
    }
    drop
}

/// The keys of a list that are no node of a plan.
fn gone_keys(keys: &Vec<PlanNodeTarget>, plan: &VisualizationPlan) -> (drop: Vec<PlanNodeTarget>)
    ensures
        forall|t: TargetView| #![trigger holds(drop@, t)] holds(drop@, t) <==> holds(keys@, t) && !is_node(*plan, t),
{
    let mut drop: Vec<PlanNodeTarget> = Vec::new();
    let mut i: usize = 0;
    while i < keys.len()
        invariant
            i <= keys.len(),
            forall|t: TargetView| #![trigger holds(drop@, t)] holds(drop@, t) <==> holds(keys@.take(i as int), t)
                && !is_node(*plan, t),
        decreases keys.len() - i,
    {
        let ghost before = drop@;
        proof {
            assert(keys@.take(i + 1) =~= keys@.take(i as int).push(keys@[i as int]));
            lemma_holds_push(keys@.take(i as int), keys@[i as int]);
        }
        if !plan_has_node(plan, &keys[i]) {
            let copy = keys[i].copied();
            proof {
                lemma_holds_push(before, copy);
            }
            drop.push(copy);
        }
        proof {
            assert forall|t: TargetView| #![trigger holds(drop@, t)] holds(drop@, t) <==> holds(keys@.take(i + 1), t)
                && !is_node(*plan, t) by {
                assert(holds(before, t) <==> holds(keys@.take(i as int), t) && !is_node(*plan, t));
                assert(holds(keys@.take(i + 1), t) == (holds(keys@.take(i as int), t) || t == keys@[i as int]@));
            }
        }
        i = i + 1;
    }
    proof {
        assert(keys@.take(keys.len() as int) =~= keys@);
    }
    drop
}

impl DiagramState {
    /// A state with the same contents.
    pub fn copied(&self) -> (r: DiagramState)
        ensures
            r@ == self@,
    {
        let z_order = copied_keys(&self.z_order);
        proof {
            assert(target_views(z_order@) =~= target_views(self.z_order@));
        }
        DiagramState {
            positions: self.positions.copied(),
            z_order,
            scope: self.scope,
            expanded_nodes: self.expanded_nodes.copied(),
            expanded_relationship: match &self.expanded_relationship {
                Some(r) => Some(r.copied()),
                None => None,
            },
            overlay_scroll: self.overlay_scroll,
        }
    }

    /// Retain state belonging to `plan`. Missing positions are deliberately not inserted: the
    /// canvas seeds them from its actual current viewport.
    pub fn sync_plan(&mut self, plan: &VisualizationPlan)
        ensures
            final(self)@ == synced_state(old(self)@, *plan),
    {
        let same: bool = match self.scope {
            Some(epoch) => epoch == plan.epoch,
            None => false,
        };
        if !same {
            self.positions = Table::new();
            self.z_order = Vec::new();
            self.clear_expansion();
            self.scope = Some(plan.epoch);
            proof {
                assert(self@.z_order =~= Seq::empty());
            }
            return;
        }
        let ghost s = self@;
        let gone = gone_positions(&self.positions, plan);
        crate::table::remove_all(&mut self.positions, &gone);
        self.z_order = kept_targets(&self.z_order, plan);
        let closed = gone_keys(self.expanded_nodes.items(), plan);
        let ghost open = self.expanded_nodes@;
        let mut i: usize = 0;
        proof {
            assert(held(closed@.take(0)) =~= Set::empty());
            assert(self.expanded_nodes@ =~= open.difference(held(closed@.take(0))));
        }
        while i < closed.len()
            invariant
                i <= closed.len(),
                self.expanded_nodes@ == open.difference(held(closed@.take(i as int))),
                self.positions@ == s.positions.remove_keys(held(gone@)),
                target_views(self.z_order@) == keep_nodes(s.z_order, *plan),
                self.scope == s.scope,
                optional_relationship(self.expanded_relationship) == s.relationship,
                self.overlay_scroll == s.overlay_scroll,
            decreases closed.len() - i,
        {
            self.expanded_nodes.remove(&closed[i]);
            proof {
                assert(closed@.take(i + 1) =~= closed@.take(i as int).push(closed@[i as int]));
                lemma_holds_push(closed@.take(i as int), closed@[i as int]);
                assert(held(closed@.take(i + 1)) =~= held(closed@.take(i as int)).insert(closed@[i as int]@));
                assert(self.expanded_nodes@ =~= open.difference(held(closed@.take(i + 1))));
            }
            i = i + 1;
        }
        let lost: bool = match &self.expanded_relationship {
            Some(target) => !relationship_exists(plan, target),
            None => false,
        };
        if lost {
            self.expanded_relationship = None;
        }
        proof {
            let goal = synced_state(s, *plan);
            assert(closed@.take(closed.len() as int) =~= closed@);
            assert forall|t: TargetView| #[trigger] self.positions@.dom().contains(t) <==> goal.positions.dom().contains(
                t,
            ) by {
                assert(holds(gone@, t) <==> s.positions.dom().contains(t) && !is_node(*plan, t));
            }
            assert(self.positions@ =~= goal.positions);
            assert forall|t: TargetView| #[trigger] self.expanded_nodes@.contains(t) <==> goal.expanded.contains(t) by {
                assert(holds(closed@, t) <==> s.expanded.contains(t) && !is_node(*plan, t));
            }
            assert(self.expanded_nodes@ =~= goal.expanded);
            assert(self@ =~= goal);
        }
    }

    /// Persist a free X/Y location for one box. Build-time clamping makes it visible after a
    /// resize without destroying the requested location for a later wider viewport.
    pub fn move_node(&mut self, target: PlanNodeTarget, position: DiagramPosition)
        ensures
            final(self)@ == moved_state(old(self)@, target@, position),
    {
        self.positions.insert(target.copied(), position);
        self.raise(target);
    }

    fn raise(&mut self, target: PlanNodeTarget)
        ensures
            final(self)@ == (StateView { z_order: without(old(self)@.z_order, target@).push(target@), ..old(self)@ }),
    {
        let mut z_order = other_targets(&self.z_order, &target);
        let ghost before = z_order@;
        z_order.push(target);
        proof {
            assert(target_views(z_order@) =~= target_views(before).push(target@));
        }
        self.z_order = z_order;
    }

    /// Toggle one box's independently retained in-place expansion. Opening raises it and
    /// closes any relationship overlay, but never changes another box's expansion state.
    pub fn toggle_node(&mut self, target: PlanNodeTarget)
        ensures
            final(self)@ == node_toggled(old(self)@, target@),
    {
        let expanded: bool = !self.expanded_nodes.contains(&target);
        self.set_node_expanded(target, expanded);
    }

    /// Set one box's expansion without changing any other box.
    pub fn set_node_expanded(&mut self, target: PlanNodeTarget, expanded: bool)
        ensures
            final(self)@ == expansion_state(old(self)@, target@, expanded),
    {
        if expanded {
            self.raise(target.copied());
            let _ = self.expanded_nodes.insert(target);
            self.expanded_relationship = None;
        } else {
            self.expanded_nodes.remove(&target);
        }
    }

    /// Toggle one relationship overlay without changing boxes or base geometry.
    pub fn toggle_relationship(&mut self, target: PlanRelationshipTarget)
        ensures
            final(self)@ == relationship_toggled(old(self)@, target@),
    {
        let open: bool = match &self.expanded_relationship {
            Some(r) => r.same(&target),
            None => false,
        };
        self.expanded_relationship = if open { None } else { Some(target) };
        self.overlay_scroll = 0;
    }

    /// Current relationship-overlay line offset.
    pub fn overlay_scroll(&self) -> (offset: usize)
        ensures
            offset == self@.overlay_scroll,
    {
        self.overlay_scroll
    }

    /// Set the overlay's retained absolute page offset. The canvas clamps it for the current
    /// view.
    pub fn set_overlay_scroll(&mut self, offset: usize)
        ensures
            final(self)@ == (StateView { overlay_scroll: offset as int, ..old(self)@ }),
    {
        self.overlay_scroll = offset;
    }

    /// Close every node expansion and the relationship overlay.
    pub fn clear_expansion(&mut self)
        ensures
            final(self)@ == collapsed_state(old(self)@),
    {
        self.expanded_nodes = KeySet::new();
        self.expanded_relationship = None;
        self.overlay_scroll = 0;
    }

    /// The persistent positions, for pure canvas construction.
    pub fn positions(&self) -> (r: &Table<PlanNodeTarget, DiagramPosition>)
        ensures
            r@ == self@.positions,
    {
        &self.positions
    }

    /// Nodes in back-to-front order. A dragged node is raised above older boxes.
    pub fn z_order(&self) -> (r: &Vec<PlanNodeTarget>)
        ensures
            target_views(r@) == self@.z_order,
    {
        &self.z_order
    }

    /// Independently expanded nodes in the current plan.
    pub fn expanded_nodes(&self) -> (r: &KeySet<PlanNodeTarget>)
        ensures
            r@ == self@.expanded,
    {
        &self.expanded_nodes
    }

    /// Whether one node is independently expanded.
    pub fn is_node_expanded(&self, target: &PlanNodeTarget) -> (r: bool)
        ensures
            r == self@.expanded.contains(target@),
    {
        self.expanded_nodes.contains(target)
    }

    /// The expanded relationship, if any.
    pub fn expanded_relationship(&self) -> (r: Option<&PlanRelationshipTarget>)
        ensures
            match r {
                Some(t) => self@.relationship == Some(t@),
                None => self@.relationship is None,
            },
    {
        match &self.expanded_relationship {
            Some(t) => Some(t),
            None => None,
        }
    }
}

/// One edge of a form as it is drawn.
#[derive(Debug, Clone)]
pub struct CanvasEdge {
    pub from: String,
    pub to: String,
    /// Explicit compact description. Empty means the plan did not supply one.
    pub label: String,
    /// Truthful detail for an absent explicit description, used only in the full overlay.
    pub overlay_label: String,
    pub verified: bool,
}

/// An edge as it is drawn, by contents.
#[verifier::ext_equal]
pub struct EdgeView {
    pub from: Seq<char>,
    pub to: Seq<char>,
    pub label: Seq<char>,
    pub overlay_label: Seq<char>,
    pub verified: bool,
}

impl View for CanvasEdge {
    type V = EdgeView;

    open spec fn view(&self) -> EdgeView {
        EdgeView {
            from: self.from@,
            to: self.to@,
            label: self.label@,
            overlay_label: self.overlay_label@,
            verified: self.verified,
        }
    }
}

/// The edges of a list, by contents.
pub open spec fn edge_views(edges: Seq<CanvasEdge>) -> Seq<EdgeView> {
    Seq::new(edges.len(), |i: int| edges[i]@)
}

pub open spec fn kind_name(kind: PlanEdgeKind) -> Seq<char> {
    match kind {
        PlanEdgeKind::FlowsTo => "flows to"@,
        PlanEdgeKind::Calls => "calls"@,
        PlanEdgeKind::Reads => "reads"@,
        PlanEdgeKind::Writes => "writes"@,
        PlanEdgeKind::Imports => "imports"@,
        PlanEdgeKind::Implements => "implements"@,
        PlanEdgeKind::Contains => "contains"@,
    }
}

/// How a relationship of a kind reads.
pub fn relationship_kind_name(kind: PlanEdgeKind) -> (name: &'static str)
    ensures
        name@ == kind_name(kind),
{
    match kind {
        PlanEdgeKind::FlowsTo => "flows to",
        PlanEdgeKind::Calls => "calls",
        PlanEdgeKind::Reads => "reads",
        PlanEdgeKind::Writes => "writes",
        PlanEdgeKind::Imports => "imports",
        PlanEdgeKind::Implements => "implements",
        PlanEdgeKind::Contains => "contains",
    }
}

/// The first node of a list with an id, from node `i` on.
pub open spec fn node_index(nodes: Seq<PlanNode>, id: Seq<char>, i: int) -> Option<int>
    decreases nodes.len() - i,
{
    if 0 <= i < nodes.len() {
        if nodes[i].id@ == id {
            Some(i)
        } else {
            node_index(nodes, id, i + 1)
        }
    } else {
        None
    }
}

proof fn lemma_node_index(nodes: Seq<PlanNode>, id: Seq<char>, i: int)
    requires
        0 <= i,
    ensures
        match node_index(nodes, id, i) {
            Some(k) => i <= k < nodes.len() && nodes[k].id@ == id,
            None => forall|k: int| i <= k < nodes.len() ==> #[trigger] nodes[k].id@ != id,
        },
    decreases nodes.len() - i,
{
    if i < nodes.len() && nodes[i].id@ != id {
        lemma_node_index(nodes, id, i + 1);
    }
}

/// The first node of a list with an id.
pub fn find_node(nodes: &Vec<PlanNode>, id: &str) -> (r: Option<usize>)
    ensures
        match r {
            Some(k) => node_index(nodes@, id@, 0) == Some(k as int) && k < nodes.len() && nodes@[k as int].id@ == id@,
            None => node_index(nodes@, id@, 0) is None,
        },
{
    let mut i: usize = 0;
    while i < nodes.len()
        invariant
            i <= nodes.len(),
            node_index(nodes@, id@, 0) == node_index(nodes@, id@, i as int),
        decreases nodes.len() - i,
    {
        if same_text(nodes[i].id.as_str(), id) {
            return Some(i);
        }
        i = i + 1;
    }
    None
}

/// Whether facts about the code can back an edge: both ends are code entities, and the kind
/// is one that such facts have. A transition between steps has none.
pub open spec fn edge_verifiable(from: PlanNode, to: PlanNode, kind: PlanEdgeKind) -> bool {
    &&& from.entity is Some
    &&& to.entity is Some
    &&& kind == PlanEdgeKind::Calls || kind == PlanEdgeKind::Imports || kind == PlanEdgeKind::Implements || kind
        == PlanEdgeKind::Contains
}

/// Whether facts about the code can back an edge.
pub fn edge_verified(from: &PlanNode, to: &PlanNode, kind: PlanEdgeKind) -> (r: bool)
    ensures
        r == edge_verifiable(*from, *to, kind),
{
    from.entity.is_some() && to.entity.is_some() && matches!(
        kind,
        PlanEdgeKind::Calls | PlanEdgeKind::Imports | PlanEdgeKind::Implements | PlanEdgeKind::Contains
    )
}

/// An edge of the plan as it is drawn.
pub open spec fn explicit_edge(form: VizForm, e: PlanEdge) -> EdgeView {
    EdgeView {
        from: e.from@,
        to: e.to@,
        label: match e.label {
            Some(l) => l@,
            None => Seq::empty(),
        },
        overlay_label: match e.label {
            Some(l) => l@,
            None => kind_name(e.kind),
        },
        verified: match (node_index(form.nodes@, e.from@, 0), node_index(form.nodes@, e.to@, 0)) {
            (Some(a), Some(b)) => edge_verifiable(form.nodes[a], form.nodes[b], e.kind),
            _ => false,
        },
    }
}

/// An edge that the plan does not spell out.
pub open spec fn implied_edge(from: Seq<char>, to: Seq<char>, label: Seq<char>) -> EdgeView {
    EdgeView { from, to, label, overlay_label: label, verified: false }
}

/// Whether a list holds an edge between two nodes.
pub open spec fn connects(edges: Seq<EdgeView>, from: Seq<char>, to: Seq<char>) -> bool {
    exists|i: int| #![trigger edges[i]] 0 <= i < edges.len() && edges[i].from == from && edges[i].to == to
}

/// The edges with those to the first `c` children of a node, where they are missing.
pub open spec fn with_children(edges: Seq<EdgeView>, node: PlanNode, c: int) -> Seq<EdgeView>
    decreases c,
{
    if c <= 0 {
        edges
    } else {
        let before = with_children(edges, node, c - 1);
        let child = node.children[c - 1]@;
        if connects(before, node.id@, child) {
            before
        } else {
            before.push(implied_edge(node.id@, child, "contains"@))
        }
    }
}

/// The edges with those from the first `n` nodes to their children, where they are missing.
pub open spec fn with_containment(edges: Seq<EdgeView>, nodes: Seq<PlanNode>, n: int) -> Seq<EdgeView>
    decreases n,
{
    if n <= 0 {
        edges
    } else {
        let node = nodes[n - 1];
        with_children(with_containment(edges, nodes, n - 1), node, node.children.len() as int)
    }
}

/// All edges of a form as they are drawn: those of the plan, containment, and the step from
/// before to after where nothing else connects them.
pub open spec fn drawn_edges(form: VizForm) -> Seq<EdgeView> {
    let explicit = Seq::new(form.edges.len() as nat, |i: int| explicit_edge(form, form.edges[i]));
    let edges = with_containment(explicit, form.nodes@, form.nodes.len() as int);
    if form.kind == FormKind::BeforeAfter && edges.len() == 0 && form.nodes.len() >= 2 {
        edges.push(implied_edge(form.nodes[0].id@, form.nodes[1].id@, "becomes"@))
    } else {
        edges
    }
}

fn has_edge(edges: &Vec<CanvasEdge>, from: &str, to: &str) -> (r: bool)
    ensures
        r == connects(edge_views(edges@), from@, to@),
{
    let ghost all = edge_views(edges@);
    let mut i: usize = 0;
    while i < edges.len()
        invariant
            i <= edges.len() == all.len(),
            all == edge_views(edges@),
            forall|k: int| #![trigger all[k]] 0 <= k < i ==> !(all[k].from == from@ && all[k].to == to@),
        decreases edges.len() - i,
    {
        proof {
            assert(all[i as int] == edges@[i as int]@);
        }
        if same_text(edges[i].from.as_str(), from) && same_text(edges[i].to.as_str(), to) {
            return true;
        }
        i = i + 1;
    }
    false
}

fn make_implied(from: &str, to: &str, label: &str) -> (r: CanvasEdge)
    ensures
        r@ == implied_edge(from@, to@, label@),
{
    CanvasEdge {
        from: from.to_owned(),
        to: to.to_owned(),
        label: label.to_owned(),
        overlay_label: label.to_owned(),
        verified: false,
    }
}

/// All edges of a form as they are drawn.
pub fn normalized_edges(form: &VizForm) -> (out: Vec<CanvasEdge>)
    ensures
        edge_views(out@) == drawn_edges(*form),
{
    let mut edges: Vec<CanvasEdge> = Vec::new();
    let mut i: usize = 0;
    while i < form.edges.len()
        invariant
            i <= form.edges.len(),
            edges.len() == i,
            forall|k: int| 0 <= k < i ==> #[trigger] edges@[k]@ == explicit_edge(*form, form.edges[k]),
        decreases form.edges.len() - i,
    {
        let edge = &form.edges[i];
        let verified: bool = match (
            find_node(&form.nodes, edge.from.as_str()),
            find_node(&form.nodes, edge.to.as_str()),
        ) {
            (Some(a), Some(b)) => edge_verified(&form.nodes[a], &form.nodes[b], edge.kind),
            _ => false,
        };
        let (label, overlay_label): (String, String) = match &edge.label {
            Some(label) => (label.clone(), label.clone()),
            None => (String::new(), relationship_kind_name(edge.kind).to_owned()),
        };
        edges.push(
            CanvasEdge { from: edge.from.clone(), to: edge.to.clone(), label, overlay_label, verified },
        );
        i = i + 1;
    }
    let ghost explicit = Seq::new(form.edges.len() as nat, |k: int| explicit_edge(*form, form.edges[k]));
    proof {
        assert(edge_views(edges@) =~= explicit);
    }
    let mut n: usize = 0;
    while n < form.nodes.len()
        invariant
            n <= form.nodes.len(),
            edge_views(edges@) == with_containment(explicit, form.nodes@, n as int),
        decreases form.nodes.len() - n,
    {
        let node = &form.nodes[n];
        let ghost start = edge_views(edges@);
        let mut c: usize = 0;
        while c < node.children.len()
            invariant
                c <= node.children.len(),
                edge_views(edges@) == with_children(start, *node, c as int),
            decreases node.children.len() - c,
        {
            let ghost before = edges@;
            if !has_edge(&edges, node.id.as_str(), node.children[c].as_str()) {
                edges.push(make_implied(node.id.as_str(), node.children[c].as_str(), "contains"));
                proof {
                    assert(edge_views(edges@) =~= edge_views(before).push(
                        implied_edge(node.id@, node.children[c as int]@, "contains"@),
                    ));
                }
            }
            c = c + 1;
        }
        n = n + 1;
    }
    proof {
        assert(edge_views(edges@).len() == edges.len());
    }
    if form.kind == FormKind::BeforeAfter && edges.len() == 0 && form.nodes.len() >= 2 {
        let ghost before = edges@;
        edges.push(make_implied(form.nodes[0].id.as_str(), form.nodes[1].id.as_str(), "becomes"));
        proof {
            assert(edge_views(edges@) =~= edge_views(before).push(
                implied_edge(form.nodes[0].id@, form.nodes[1].id@, "becomes"@),
            ));
        }
    }
    edges
}

/// Whether a relationship is one of the edges that a plan draws.
pub open spec fn relationship_in(plan: VisualizationPlan, r: RelationshipView) -> bool {
    &&& 0 <= r.form < plan.forms.len()
    &&& 0 <= r.edge < drawn_edges(plan.forms[r.form]).len()
    &&& drawn_edges(plan.forms[r.form])[r.edge].from == r.from
    &&& drawn_edges(plan.forms[r.form])[r.edge].to == r.to
}

/// Whether a relationship target still resolves after including deterministic synthetic
/// edges.
pub fn relationship_exists(plan: &VisualizationPlan, target: &PlanRelationshipTarget) -> (r: bool)
    ensures
        r == relationship_in(*plan, target@),
{
    if target.form >= plan.forms.len() {
        return false;
    }
    let edges = normalized_edges(&plan.forms[target.form]);
    proof {
        assert(edge_views(edges@).len() == edges.len());
    }
    if target.edge >= edges.len() {
        return false;
    }
    proof {
        assert(edge_views(edges@)[target.edge as int] == edges@[target.edge as int]@);
    }
    same_text(edges[target.edge].from.as_str(), target.from.as_str()) && same_text(
        edges[target.edge].to.as_str(),
        target.to.as_str(),
    )
}

} // verus!
