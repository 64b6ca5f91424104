//! Application state and pure `Action` transitions. No I/O: the run loop feeds it
//! [`UiSnapshot`]s and [`Action`]s; rendering reads it.

use vstd::prelude::*;
use crate::action::{
    next_scope, optional_target, scope_after, Action, ActionView, DiffTextSelection, PlanNodeTarget,
    PlanRelationshipTarget, RelationshipView, StatusView, TargetView,
};
use crate::diagram::{
    collapsed_state, find_node, fresh_state, moved_state, node_index, node_toggled, relationship_exists,
    relationship_in, relationship_toggled, synced_state, DiagramPosition, DiagramState, StateView,
};
use crate::divider::{DividerId, DividerSizes};
use crate::file_rows::{
    directory_prefixes, first_visible, first_visible_spec, logical_count, logical_row_count, optional_row,
    optional_summary, prefixes_of, project, projection, resolve_logical, resolved, row_views, summary_of, ProjectedRow,
    RowView, SummaryView,
};
use crate::num::{clamp_int, cut_u16, low16, max_int, max_usize, min_int, min_u16, min_usize, monus, sat16, sat_u16};
use crate::plan::{equal_optional_plans, same_optional_plan, DiffSide, Epoch, PlanCodeRef, PlanNode};
use crate::scroll::{moved_by, ScrollRegionId};
use crate::snapshot::{
    equal_row_lists, equal_selections, is_blank, is_silent, same_rows, same_selection, AiSummaryKey, ChangeScope,
    DiffPane, DiffRow, FileRow, StatusMessage, SymbolRow, UiSnapshot,
};
use crate::table::{held, holds, lemma_holds_push, remove_all, Key, KeySet, Table};
use crate::text::{
    contains_text, ends_with_char, joined, lowercase_of, occurs_in, same_text, slices, starts_with, texts, without_last,
};
use crate::viewport::{
    first_object_row, first_position, optional_viewport, same_viewport, DiffPosition, ObjectKey, ObjectView,
    PositionView, ViewportKey, ViewportView,
};

verus! {

/// The three focusable panes.
#[derive(Debug, Clone, Copy, PartialEq, Eq, Structural)]
pub enum Pane {
    /// Left: changed files + symbols.
    Files,
    /// Center: focused diff.
    Diff,
    /// Bottom (full width): selected change, callers, downstream, generated breakdown.
    Impact,
}

impl Default for Pane {
    fn default() -> (r: Self)
        ensures
            r == Pane::Files,
    {
        Pane::Files
    }
}

/// Stable, repository-independent view preferences that may be restored between runs.
///
/// Selection, focus, scroll positions, zoom, open modals, and repository scope are
/// intentionally absent: those are session or repository state, not global preferences.
#[derive(Debug, Clone, Copy, PartialEq, Eq, Structural)]
pub struct UiPreferences {
    /// Whether long diff rows wrap instead of clipping and horizontally scrolling.
    pub diff_wrap: bool,
    /// Requested extent of every structural divider.
    pub dividers: DividerSizes,
}

impl Default for UiPreferences {
    fn default() -> (r: Self)
        ensures
            !r.diff_wrap,
            forall|id: DividerId| #[trigger] r.dividers.extent_of(id) == id.default_spec(),
    {
        UiPreferences { diff_wrap: false, dividers: DividerSizes::default() }
    }
}

/// What a diagram session is about.
#[derive(Debug, Clone, PartialEq, Eq)]
pub enum DiagramSessionTarget {
    Directory(String),
    File(String),
    Symbol { file: String, name: String },
}

/// Stable identity of one diagram viewport inside the current repository epoch.
#[derive(Debug, Clone, PartialEq, Eq)]
pub struct DiagramSessionKey {
    pub epoch: Epoch,
    pub scope: ChangeScope,
    pub target: DiagramSessionTarget,
}

/// What a diagram session is about, by contents.
#[verifier::ext_equal]
pub enum SessionTargetView {
    Directory(Seq<char>),
    File(Seq<char>),
    Symbol { file: Seq<char>, name: Seq<char> },
}

/// A diagram session, by contents.
#[verifier::ext_equal]
pub struct SessionView {
    pub epoch: Epoch,
    pub scope: ChangeScope,
    pub target: SessionTargetView,
}

impl View for DiagramSessionTarget {
    type V = SessionTargetView;

    open spec fn view(&self) -> SessionTargetView {
        match *self {
            DiagramSessionTarget::Directory(path) => SessionTargetView::Directory(path@),
            DiagramSessionTarget::File(path) => SessionTargetView::File(path@),
            DiagramSessionTarget::Symbol { file, name } => SessionTargetView::Symbol { file: file@, name: name@ },
        }
    }
}

impl View for DiagramSessionKey {
    type V = SessionView;

    open spec fn view(&self) -> SessionView {
        SessionView { epoch: self.epoch, scope: self.scope, target: self.target@ }
    }
}

impl Key for DiagramSessionKey {
    fn same(&self, other: &Self) -> (r: bool) {
        let target: bool = match (&self.target, &other.target) {
            (DiagramSessionTarget::Directory(a), DiagramSessionTarget::Directory(b)) => same_text(
                a.as_str(),
                b.as_str(),
            ),
            (DiagramSessionTarget::File(a), DiagramSessionTarget::File(b)) => same_text(a.as_str(), b.as_str()),
            (
                DiagramSessionTarget::Symbol { file: f, name: n },
                DiagramSessionTarget::Symbol { file: g, name: m },
            ) => same_text(f.as_str(), g.as_str()) && same_text(n.as_str(), m.as_str()),
            _ => false,
        };
        self.epoch == other.epoch && self.scope == other.scope && target
    }

    fn copied(&self) -> (r: Self) {
        let target = match &self.target {
            DiagramSessionTarget::Directory(path) => DiagramSessionTarget::Directory(path.clone()),
            DiagramSessionTarget::File(path) => DiagramSessionTarget::File(path.clone()),
            DiagramSessionTarget::Symbol { file, name } => DiagramSessionTarget::Symbol {
                file: file.clone(),
                name: name.clone(),
            },
        };
        DiagramSessionKey { epoch: self.epoch, scope: self.scope, target }
    }
}

/// What is kept of a diagram while another selection is shown.
#[derive(Debug, Clone)]
pub struct DiagramViewState {
    pub diagram: DiagramState,
    pub scroll: usize,
}

/// What is kept of a diagram, by contents.
#[verifier::ext_equal]
pub struct KeptView {
    pub diagram: StateView,
    pub scroll: int,
}

impl View for DiagramViewState {
    type V = KeptView;

    open spec fn view(&self) -> KeptView {
        KeptView { diagram: self.diagram@, scroll: self.scroll as int }
    }
}

/// The diagram session that a picture shows in a scope; none without a selected change.
pub open spec fn session_of(s: UiSnapshot, scope: ChangeScope) -> Option<SessionView> {
    match s.impact.selected_change {
        Some(selected) => Some(
            SessionView {
                epoch: s.epoch,
                scope,
                target: if s.diff.title@.len() > 0 && s.diff.title@.last() == '/' {
                    SessionTargetView::Directory(selected.file@)
                } else {
                    match s.diff.focused_symbol {
                        Some(name) => SessionTargetView::Symbol { file: selected.file@, name: name@ },
                        None => SessionTargetView::File(selected.file@),
                    }
                },
            },
        ),
        None => None,
    }
}

/// An optional session, by contents.
pub open spec fn optional_session(key: Option<DiagramSessionKey>) -> Option<SessionView> {
    match key {
        Some(k) => Some(k@),
        None => None,
    }
}

fn diagram_session_key(snapshot: &UiSnapshot) -> (key: Option<DiagramSessionKey>)
    ensures
        optional_session(key) == session_of(*snapshot, snapshot.scope),
{
    match &snapshot.impact.selected_change {
        Some(selected) => {
            let target = if ends_with_char(snapshot.diff.title.as_str(), '/') {
                DiagramSessionTarget::Directory(selected.file.clone())
            } else {
                match &snapshot.diff.focused_symbol {
                    Some(name) => DiagramSessionTarget::Symbol { file: selected.file.clone(), name: name.clone() },
                    None => DiagramSessionTarget::File(selected.file.clone()),
                }
            };
            Some(DiagramSessionKey { epoch: snapshot.epoch, scope: snapshot.scope, target })
        },
        None => None,
    }
}

/// View-state for the running app.
#[derive(Debug)]
pub struct App {
    /// The latest published snapshot.
    pub snapshot: UiSnapshot,
    /// Which pane has focus.
    pub focused: Pane,
    /// Selected row in the files pane (flattened file+symbol index).
    pub file_sel: usize,
    /// Directory rows are expanded by default; this set records only user-collapsed paths.
    pub collapsed_directories: KeySet<String>,
    /// Independent physical-row viewport used after wheel-scrolling Files.
    pub files_scroll: usize,
    /// `false` keeps keyboard selection visible; `true` lets the wheel inspect rows without
    /// changing selection or retargeting the diff/Impact panes.
    pub files_scroll_detached: bool,
    /// Vertical scroll of the diff pane (a logical-row anchor; the renderer maps it to a
    /// visual line).
    pub diff_scroll: u16,
    /// Horizontal scroll of the diff pane (raw mode: long lines are clipped + scrolled).
    pub diff_hscroll: u16,
    /// Mouse-selected display cells in the diff, retained after clipboard copy.
    pub diff_selection: Option<DiffTextSelection>,
    /// 1-based hunk under the diff scroll anchor; 0 when the diff has no hunks.
    pub current_hunk: usize,
    /// Requested extents of every draggable structural divider.
    pub dividers: DividerSizes,
    /// Whether the focused pane is zoomed to fill the whole body (`z`).
    pub zoomed: bool,
    /// Vertical scroll offset of the generated Impact rows.
    pub ai_plan_scroll: usize,
    /// Generated-plan node currently under the mouse. This is transient view state and
    /// drives both node emphasis and linked diff-row highlighting.
    pub hovered_plan_node: Option<PlanNodeTarget>,
    /// Diff position captured when the pointer first enters a generated-plan box. Hover may
    /// temporarily move the diff to linked code; leaving every box restores this anchor.
    pub diff_scroll_before_plan_hover: Option<u16>,
    /// Persistent free box positions and inline expansion state for the current plan.
    pub diagram: DiagramState,
    /// Per-selection interaction state retained while navigating within this session.
    pub diagram_sessions: Table<DiagramSessionKey, DiagramViewState>,
    /// Where each diff viewport was left while navigating within this session.
    pub diff_viewports: Table<ViewportKey, DiffPosition>,
    /// Independent offset for the deterministic incoming-callers list.
    pub callers_scroll: usize,
    /// Independent offset for the deterministic downstream-relationships list.
    pub downstream_scroll: usize,
    /// Whether the diff pane smart-wraps long lines (`W`); off = raw clip + h-scroll.
    pub diff_wrap: bool,
    /// Whether the help modal is open.
    pub show_help: bool,
    /// Frozen copy of the status message whose full detail overlay is open. Freezing it
    /// keeps an automatic retry from replacing the error while the user reads it.
    pub status_detail: Option<StatusMessage>,
    /// Whether the model picker modal is open.
    pub show_model_picker: bool,
    /// Selected row in the model picker (into the filtered list).
    pub model_sel: usize,
    /// Type-to-filter query of the model picker.
    pub model_query: String,
    /// Selected reasoning budget in the backend-published picker values.
    pub reasoning_effort_sel: usize,
    /// Whether the comparison-base picker modal is open.
    pub show_base_picker: bool,
    /// Selected row in the base picker (into the filtered list).
    pub base_sel: usize,
    /// Type-to-filter query of the base picker.
    pub base_query: String,
    /// Set when the user asked to quit.
    pub should_quit: bool,
}

/// The view state, by contents. Of the snapshot it holds what a user intent can change.
pub struct AppView {
    pub files: Seq<FileRow>,
    pub scope: ChangeScope,
    pub focused: Pane,
    pub file_sel: int,
    pub collapsed: Set<Seq<char>>,
    pub files_scroll: int,
    pub files_detached: bool,
    pub diff_scroll: int,
    pub diff_hscroll: int,
    pub diff_selection: Option<DiffTextSelection>,
    pub current_hunk: int,
    pub extents: Map<DividerId, int>,
    pub zoomed: bool,
    pub plan_scroll: int,
    pub hovered: Option<TargetView>,
    pub before_hover: Option<int>,
    pub diagram: StateView,
    pub sessions: Map<SessionView, KeptView>,
    pub viewports: Map<ViewportView, PositionView>,
    pub callers_scroll: int,
    pub downstream_scroll: int,
    pub diff_wrap: bool,
    pub show_help: bool,
    pub status_detail: Option<StatusView>,
    pub show_model_picker: bool,
    pub model_sel: int,
    pub model_query: Seq<char>,
    pub effort_sel: int,
    pub show_base_picker: bool,
    pub base_sel: int,
    pub base_query: Seq<char>,
    pub should_quit: bool,
}

/// The extent of every divider.
pub open spec fn extents_of(sizes: DividerSizes) -> Map<DividerId, int> {
    Map::new(|id: DividerId| true, |id: DividerId| sizes.extent_of(id) as int)
}

/// An optional status message, by contents.
pub open spec fn optional_status(status: Option<StatusMessage>) -> Option<StatusView> {
    match status {
        Some(s) => Some(s@),
        None => None,
    }
}

/// An optional row number.
pub open spec fn optional_int(n: Option<u16>) -> Option<int> {
    match n {
        Some(k) => Some(k as int),
        None => None,
    }
}

impl View for App {
    type V = AppView;

    open spec fn view(&self) -> AppView {
        app_view(*self)
    }
}

/// What the fields of an app say.
#[verifier::opaque]
pub open spec fn app_view(app: App) -> AppView {
    AppView {
        files: app.snapshot.files@,
        scope: app.snapshot.scope,
        focused: app.focused,
        file_sel: app.file_sel as int,
        collapsed: app.collapsed_directories@,
        files_scroll: app.files_scroll as int,
        files_detached: app.files_scroll_detached,
        diff_scroll: app.diff_scroll as int,
        diff_hscroll: app.diff_hscroll as int,
        diff_selection: app.diff_selection,
        current_hunk: app.current_hunk as int,
        extents: extents_of(app.dividers),
        zoomed: app.zoomed,
        plan_scroll: app.ai_plan_scroll as int,
        hovered: optional_target(app.hovered_plan_node),
        before_hover: optional_int(app.diff_scroll_before_plan_hover),
        diagram: app.diagram@,
        sessions: app.diagram_sessions@,
        viewports: app.diff_viewports@,
        callers_scroll: app.callers_scroll as int,
        downstream_scroll: app.downstream_scroll as int,
        diff_wrap: app.diff_wrap,
        show_help: app.show_help,
        status_detail: optional_status(app.status_detail),
        show_model_picker: app.show_model_picker,
        model_sel: app.model_sel as int,
        model_query: app.model_query@,
        effort_sel: app.reasoning_effort_sel as int,
        show_base_picker: app.show_base_picker,
        base_sel: app.base_sel as int,
        base_query: app.base_query@,
        should_quit: app.should_quit,
    }
}

/// Two pictures that agree in everything but file rows and scope.
pub open spec fn same_data(a: UiSnapshot, b: UiSnapshot) -> bool {
    b == (UiSnapshot { files: b.files, scope: b.scope, ..a })
}

/// The largest offset into the generated rows that is kept.
pub const MAX_GENERATED_SCROLL: usize = 10_000;

/// Whether the generated half has anything to scroll.
pub open spec fn has_generated(s: UiSnapshot) -> bool {
    s.semantic.plan is Some || s.impact.selected_change is Some
}

/// Those of the first `n` items whose lowercase form holds the lowercase form of the query.
pub open spec fn matching(items: Seq<Seq<char>>, query: Seq<char>, n: int) -> Seq<Seq<char>>
    decreases n,
{
    if n <= 0 {
        Seq::empty()
    } else if occurs_in(lowercase_of(items[n - 1]), lowercase_of(query)) {
        matching(items, query, n - 1).push(items[n - 1])
    } else {
        matching(items, query, n - 1)
    }
}

/// The candidates that a query leaves.
pub open spec fn candidates(items: Seq<String>, query: Seq<char>) -> Seq<Seq<char>> {
    matching(texts(items), query, items.len() as int)
}

/// Case-insensitive substring filter over picker candidates: the visible list while a
/// query is typed. An empty query returns everything.
pub fn filter_candidates<'a>(items: &'a [String], query: &str) -> (out: Vec<&'a str>)
    ensures
        slices(out@) == candidates(items@, query@),
        query@.len() == 0 ==> slices(out@) == texts(items@),
{
    let ghost all = texts(items@);
    let wanted = query.to_lowercase();
    let mut out: Vec<&'a str> = Vec::new();
    let mut i: usize = 0;
    proof {
        assert(slices(out@) =~= matching(all, query@, 0));
        assert(slices(out@) =~= all.take(0));
    }
    while i < items.len()
        invariant
            i <= items.len() == all.len(),
            all == texts(items@),
            wanted@ == lowercase_of(query@),
            query@.len() == 0 ==> wanted@.len() == 0,
            slices(out@) == matching(all, query@, i as int),
            query@.len() == 0 ==> slices(out@) == all.take(i as int),
        decreases items.len() - i,
    {
        let ghost before = out@;
        let item: &'a str = items[i].as_str();
        let lower = item.to_lowercase();
        proof {
            assert(all[i as int] == item@);
            if wanted@.len() == 0 {
                assert(lower@.subrange(0, 0) =~= wanted@);
                assert(crate::text::occurs_at(lower@, wanted@, 0));
            }
        }
        if contains_text(lower.as_str(), wanted.as_str()) {
            out.push(item);
            proof {
                assert(slices(out@) =~= slices(before).push(item@));
            }
        }
        proof {
            assert(all.take(i + 1) =~= all.take(i as int).push(all[i as int]));
        }
        i = i + 1;
    }
    proof {
        assert(all.take(all.len() as int) =~= all);
    }
    out
}

/// How many of the first `n` rows are hunk headers.
pub open spec fn headers(rows: Seq<DiffRow>, n: int) -> int
    decreases n,
{
    if n <= 0 {
        0
    } else {
        headers(rows, n - 1) + if rows[n - 1] is HunkHeader { 1int } else { 0int }
    }
}

/// The hunk under a scroll anchor: the hunk headers at or before it, within the total.
pub open spec fn hunk_at(diff: DiffPane, scroll: int) -> int {
    if diff.total_hunks == 0 {
        0
    } else {
        clamp_int(headers(diff.rows@, min_int(scroll + 1, diff.rows.len() as int)), 1, diff.total_hunks as int)
    }
}

/// The row of the `k`-th hunk header from row `i` on.
pub open spec fn header_row(rows: Seq<DiffRow>, i: int, k: int) -> Option<int>
    decreases rows.len() - i,
{
    if 0 <= i < rows.len() {
        if rows[i] is HunkHeader && k == 1 {
            Some(i)
        } else if rows[i] is HunkHeader {
            header_row(rows, i + 1, k - 1)
        } else {
            header_row(rows, i + 1, k)
        }
    } else {
        None
    }
}

/// The node of the shown plan that a target names.
pub open spec fn plan_node_of(s: UiSnapshot, t: TargetView) -> Option<PlanNode> {
    match s.semantic.plan {
        Some(plan) => if 0 <= t.form < plan.forms.len() {
            match node_index(plan.forms[t.form].nodes@, t.id, 0) {
                Some(k) => Some(plan.forms[t.form].nodes[k]),
                None => None,
            }
        } else {
            None
        },
        None => None,
    }
}

/// The line of a diff row on one side.
pub open spec fn side_line(row: DiffRow, side: DiffSide) -> Option<int> {
    match (side, row) {
        (DiffSide::Old, DiffRow::Del { old_ln, .. }) => Some(old_ln as int),
        (DiffSide::Old, DiffRow::Context { old_ln, .. }) => Some(old_ln as int),
        (DiffSide::New, DiffRow::Add { new_ln, .. }) => Some(new_ln as int),
        (DiffSide::New, DiffRow::Context { new_ln, .. }) => Some(new_ln as int),
        _ => None,
    }
}

/// Whether a code reference covers a row of hunk `hunk` of the diff of a file.
pub open spec fn links(r: PlanCodeRef, title: Seq<char>, row: DiffRow, hunk: int) -> bool {
    r.file@ == title && r.hunk == hunk && match side_line(row, r.side) {
        Some(line) => r.start_line <= line <= r.end_line,
        None => false,
    }
}

/// Whether one of the code references of a node covers row `i`: the row is no header, the
/// hunk is the one it stands in, and its line on the reference's side is in range.
pub open spec fn is_linked(diff: DiffPane, refs: Seq<PlanCodeRef>, i: int) -> bool {
    !(diff.rows[i] is HunkHeader) && exists|k: int|
        0 <= k < refs.len() && links(#[trigger] refs[k], diff.title@, diff.rows[i], hunk_of(diff.rows@, i))
}

/// The zero-based hunk that row `i` stands in; -1 before the first header.
pub open spec fn hunk_of(rows: Seq<DiffRow>, i: int) -> int {
    min_int(headers(rows, i), 0x1_0000_0000) - 1
}

/// The first row from `i` on that a node links to.
pub open spec fn linked_row(diff: DiffPane, refs: Seq<PlanCodeRef>, i: int) -> Option<int>
    decreases diff.rows.len() - i,
{
    if 0 <= i < diff.rows.len() {
        if is_linked(diff, refs, i) {
            Some(i)
        } else {
            linked_row(diff, refs, i + 1)
        }
    } else {
        None
    }
}

pub(crate) fn row_line(row: &DiffRow, side: DiffSide) -> (line: Option<u32>)
    ensures
        match line {
            Some(n) => side_line(*row, side) == Some(n as int),
            None => side_line(*row, side) is None,
        },
{
    match (side, row) {
        (DiffSide::Old, DiffRow::Del { old_ln, .. }) => Some(*old_ln),
        (DiffSide::Old, DiffRow::Context { old_ln, .. }) => Some(*old_ln),
        (DiffSide::New, DiffRow::Add { new_ln, .. }) => Some(*new_ln),
        (DiffSide::New, DiffRow::Context { new_ln, .. }) => Some(*new_ln),
        _ => None,
    }
}

/// Whether a node links to row `i`, which stands in hunk `hunk` and is no header.
pub fn row_is_linked(diff: &DiffPane, refs: &Vec<PlanCodeRef>, i: usize, hunk: Option<u32>) -> (r: bool)
    requires
        i < diff.rows.len(),
        !(diff.rows@[i as int] is HunkHeader),
        match hunk {
            Some(h) => hunk_of(diff.rows@, i as int) == h,
            None => hunk_of(diff.rows@, i as int) == -1,
        },
    ensures
        r == is_linked(*diff, refs@, i as int),
{
    let mut k: usize = 0;
    while k < refs.len()
        invariant
            k <= refs.len(),
            i < diff.rows.len(),
            !(diff.rows@[i as int] is HunkHeader),
            match hunk {
                Some(h) => hunk_of(diff.rows@, i as int) == h,
                None => hunk_of(diff.rows@, i as int) == -1,
            },
            forall|j: int| 0 <= j < k ==> !links(
                #[trigger] refs@[j],
                diff.title@,
                diff.rows@[i as int],
                hunk_of(diff.rows@, i as int),
            ),
        decreases refs.len() - k,
    {
        let code_ref = &refs[k];
        let here: bool = match hunk {
            Some(h) => h == code_ref.hunk,
            None => false,
        };
        if here && same_text(code_ref.file.as_str(), diff.title.as_str()) {
            match row_line(&diff.rows[i], code_ref.side) {
                Some(line) => {
                    if line >= code_ref.start_line && line <= code_ref.end_line {
                        proof {
                            assert(links(
                                refs@[k as int],
                                diff.title@,
                                diff.rows@[i as int],
                                hunk_of(diff.rows@, i as int),
                            ));
                        }
                        return true;
                    }
                },
                None => {},
            }
        }
        k = k + 1;
    }
    false
}

/// First logical diff row covered by one of `node`'s exact code references in the
/// currently displayed file. Hunk identity is included so repeated source line numbers in
/// a combined diff cannot make hover jump to the wrong change.
pub fn first_linked_diff_row(diff: &DiffPane, node: &PlanNode) -> (r: Option<usize>)
    ensures
        match r {
            Some(i) => linked_row(*diff, node.code_refs@, 0) == Some(i as int),
            None => linked_row(*diff, node.code_refs@, 0) is None,
        },
{
    let mut hunk: Option<u32> = None;
    let mut i: usize = 0;
    while i < diff.rows.len()
        invariant
            i <= diff.rows.len(),
            0 <= headers(diff.rows@, i as int),
            match hunk {
                Some(h) => hunk_of(diff.rows@, i as int) == h,
                None => hunk_of(diff.rows@, i as int) == -1,
            },
            linked_row(*diff, node.code_refs@, 0) == linked_row(*diff, node.code_refs@, i as int),
        decreases diff.rows.len() - i,
    {
        match &diff.rows[i] {
            DiffRow::HunkHeader(_) => {
                hunk = match hunk {
                    Some(h) => Some(h.saturating_add(1)),
                    None => Some(0),
                };
            },
            _ => {
                if row_is_linked(diff, &node.code_refs, i, hunk) {
                    return Some(i);
                }
            },
        }
        i = i + 1;
    }
    None
}

/// The hunk headers among the first `n` rows.
fn count_headers(rows: &Vec<DiffRow>, n: usize) -> (count: usize)
    requires
        n <= rows.len(),
    ensures
        count == headers(rows@, n as int),
        count <= n,
{
    let mut count: usize = 0;
    let mut i: usize = 0;
    while i < n
        invariant
            i <= n <= rows.len(),
            count == headers(rows@, i as int),
            count <= i,
        decreases n - i,
    {
        match &rows[i] {
            DiffRow::HunkHeader(_) => {
                count = count + 1;
            },
            _ => {},
        }
        i = i + 1;
    }
    count
}

/// The first place of a text in a list, from place `i` on.
pub open spec fn place_of(items: Seq<Seq<char>>, item: Seq<char>, i: int) -> Option<int>
    decreases items.len() - i,
{
    if 0 <= i < items.len() {
        if items[i] == item {
            Some(i)
        } else {
            place_of(items, item, i + 1)
        }
    } else {
        None
    }
}

/// The place of a text in a list; the first place where it is missing.
pub open spec fn place_or_first(items: Seq<String>, item: Seq<char>) -> int {
    match place_of(texts(items), item, 0) {
        Some(k) => k,
        None => 0,
    }
}

fn find_text(items: &Vec<String>, item: &str) -> (place: usize)
    ensures
        place == place_or_first(items@, item@),
{
    let ghost all = texts(items@);
    let mut i: usize = 0;
    while i < items.len()
        invariant
            i <= items.len() == all.len(),
            all == texts(items@),
            place_of(all, item@, 0) == place_of(all, item@, i as int),
        decreases items.len() - i,
    {
        proof {
            assert(all[i as int] == items@[i as int]@);
        }
        if same_text(items[i].as_str(), item) {
            return i;
        }
        i = i + 1;
    }
    0
}

/// A place moved by `delta` inside a list.
pub open spec fn stepped(cur: int, delta: int, len: int) -> int {
    if len == 0 { 0 } else { clamp_int(cur + delta, 0, len - 1) }
}

fn step(cur: usize, delta: i32, len: usize) -> (r: usize)
    ensures
        r == stepped(cur as int, delta as int, len as int),
{
    if len == 0 {
        return 0;
    }
    moved_by(cur, delta, len - 1)
}

/// The first row from `i` on with an identity.
pub open spec fn row_of_key(rows: Seq<RowView>, files: Seq<FileRow>, key: SummaryView, i: int) -> Option<int>
    decreases rows.len() - i,
{
    if 0 <= i < rows.len() {
        if summary_of(rows[i], files) == Some(key) {
            Some(i)
        } else {
            row_of_key(rows, files, key, i + 1)
        }
    } else {
        None
    }
}

/// The selection of the row with an identity; the nearest valid selection where it is gone.
pub open spec fn restored(v: AppView, key: SummaryView) -> AppView {
    let rows = projection(v.files, v.collapsed);
    let fallback = min_int(v.file_sel, monus(logical_count(v.files, v.collapsed), 1));
    AppView {
        file_sel: match row_of_key(rows, v.files, key, 0) {
            Some(k) => match rows[k].logical() {
                Some(logical) => logical,
                None => fallback,
            },
            None => fallback,
        },
        ..v
    }
}

/// The identity of the selected row.
pub open spec fn selected_key(v: AppView) -> Option<SummaryView> {
    match resolved(v.files, v.collapsed, v.file_sel) {
        Some(row) => summary_of(row, v.files),
        None => None,
    }
}

/// The expansion command for the selected directory, file, or symbol owner.
pub open spec fn tree_toggle(v: AppView) -> Option<ActionView> {
    match resolved(v.files, v.collapsed, v.file_sel) {
        Some(RowView::Directory { path, .. }) => Some(
            ActionView::SetDirectoryExpanded { path, expanded: v.collapsed.contains(path) },
        ),
        Some(RowView::File { file_index, .. }) => if file_index < v.files.len() {
            Some(
                ActionView::SetFileExpanded {
                    path: v.files[file_index].path@,
                    expanded: !v.files[file_index].expanded,
                },
            )
        } else {
            None
        },
        Some(RowView::Symbol { file_index, .. }) => if file_index < v.files.len() {
            Some(ActionView::SetFileExpanded { path: v.files[file_index].path@, expanded: false })
        } else {
            None
        },
        _ => None,
    }
}

/// Everything that points into the shown data, moved into its bounds.
pub open spec fn clamped(v: AppView, s: UiSnapshot) -> AppView {
    AppView {
        file_sel: min_int(v.file_sel, monus(logical_count(v.files, v.collapsed), 1)),
        files_scroll: min_int(v.files_scroll, monus(projection(v.files, v.collapsed).len() as int, 1)),
        diff_scroll: min_int(v.diff_scroll, low16(monus(s.diff.rows.len() as int, 1))),
        current_hunk: if s.diff.total_hunks == 0 {
            0
        } else {
            clamp_int(v.current_hunk, 1, s.diff.total_hunks as int)
        },
        model_sel: min_int(
            v.model_sel,
            monus(candidates(s.available_models@, v.model_query).len() as int, 1),
        ),
        base_sel: min_int(v.base_sel, monus(candidates(s.available_bases@, v.base_query).len() as int, 1)),
        plan_scroll: if has_generated(s) { min_int(v.plan_scroll, MAX_GENERATED_SCROLL as int) } else { 0 },
        callers_scroll: min_int(v.callers_scroll, monus(s.impact.callers.rows.len() as int, 1)),
        downstream_scroll: min_int(v.downstream_scroll, monus(s.impact.downstream.rows.len() as int, 1)),
        ..v
    }
}

/// The state with the diff anchored at a row and the hunk cursor under it.
pub open spec fn anchored(v: AppView, s: UiSnapshot, scroll: int) -> AppView {
    AppView { diff_scroll: scroll, current_hunk: hunk_at(s.diff, scroll), ..v }
}

/// The diff moved by rows.
pub open spec fn diff_moved(v: AppView, s: UiSnapshot, delta: int) -> AppView {
    anchored(v, s, low16(clamp_int(v.diff_scroll + delta, 0, monus(s.diff.rows.len() as int, 1))))
}

/// The generated rows moved.
pub open spec fn plan_moved(v: AppView, s: UiSnapshot, delta: int) -> AppView {
    AppView {
        plan_scroll: if !has_generated(s) {
            0
        } else if delta < 0 {
            monus(v.plan_scroll, -delta)
        } else {
            min_int(v.plan_scroll + delta, MAX_GENERATED_SCROLL as int)
        },
        ..v
    }
}

/// The generated rows moved to an offset.
pub open spec fn plan_moved_to(v: AppView, s: UiSnapshot, offset: int) -> AppView {
    AppView { plan_scroll: if has_generated(s) { min_int(offset, MAX_GENERATED_SCROLL as int) } else { 0 }, ..v }
}

/// One step of the selection in an open picker, else in the focused pane.
pub open spec fn selection_moved(v: AppView, s: UiSnapshot, delta: int) -> AppView {
    if v.show_model_picker {
        AppView {
            model_sel: stepped(
                v.model_sel,
                delta,
                candidates(s.available_models@, v.model_query).len() as int,
            ),
            ..v
        }
    } else if v.show_base_picker {
        AppView {
            base_sel: stepped(v.base_sel, delta, candidates(s.available_bases@, v.base_query).len() as int),
            ..v
        }
    } else {
        match v.focused {
            Pane::Files => AppView {
                file_sel: stepped(v.file_sel, delta, logical_count(v.files, v.collapsed)),
                files_detached: false,
                ..v
            },
            Pane::Impact => plan_moved(v, s, delta),
            Pane::Diff => diff_moved(v, s, delta),
        }
    }
}

/// A page scrolls the generated breakdown when Impact is focused, otherwise the diff.
pub open spec fn paged(v: AppView, s: UiSnapshot, delta: int) -> AppView {
    if v.focused == Pane::Impact { plan_moved(v, s, delta) } else { diff_moved(v, s, delta) }
}

pub open spec fn at_top(v: AppView, s: UiSnapshot) -> AppView {
    match v.focused {
        Pane::Files => AppView { file_sel: 0, files_detached: false, ..v },
        Pane::Impact => plan_moved_to(v, s, 0),
        Pane::Diff => anchored(v, s, 0),
    }
}

pub open spec fn at_bottom(v: AppView, s: UiSnapshot) -> AppView {
    match v.focused {
        Pane::Files => AppView {
            file_sel: monus(logical_count(v.files, v.collapsed), 1),
            files_detached: false,
            ..v
        },
        Pane::Impact => plan_moved_to(v, s, usize::MAX as int),
        Pane::Diff => anchored(v, s, low16(monus(s.diff.rows.len() as int, 1))),
    }
}

/// The state with a row index under which a file is found.
pub open spec fn file_place(files: Seq<FileRow>, path: Seq<char>, i: int) -> Option<int>
    decreases files.len() - i,
{
    if 0 <= i < files.len() {
        if files[i].path@ == path {
            Some(i)
        } else {
            file_place(files, path, i + 1)
        }
    } else {
        None
    }
}

/// The first file of a path opened or closed.
pub open spec fn file_expanded(v: AppView, path: Seq<char>, expanded: bool) -> AppView {
    AppView {
        files: match file_place(v.files, path, 0) {
            Some(k) => v.files.update(k, FileRow { expanded, ..v.files[k] }),
            None => v.files,
        },
        files_detached: false,
        ..v
    }
}

/// Leaving every box: the diff returns to where it was before the first one.
pub open spec fn hover_left(v: AppView, s: UiSnapshot) -> AppView {
    match v.before_hover {
        Some(original) => anchored(AppView { before_hover: None, hovered: None, ..v }, s, original),
        None => AppView { hovered: None, ..v },
    }
}

/// The hover resolved against the shown plan: the diff stands at the node's first linked row,
/// else where it stood before; where the node is gone, the hover is left.
pub open spec fn hover_refreshed(v: AppView, s: UiSnapshot) -> AppView {
    match v.hovered {
        Some(t) => match plan_node_of(s, t) {
            Some(node) => anchored(
                v,
                s,
                match linked_row(s.diff, node.code_refs@, 0) {
                    Some(row) => sat16(row),
                    None => match v.before_hover {
                        Some(original) => original,
                        None => v.diff_scroll,
                    },
                },
            ),
            None => hover_left(v, s),
        },
        None => v,
    }
}

/// The pointer over a node, or over none.
pub open spec fn hovered_over(v: AppView, s: UiSnapshot, target: Option<TargetView>) -> AppView {
    let t = match target {
        Some(x) => if plan_node_of(s, x) is Some { target } else { None },
        None => None,
    };
    if t == v.hovered {
        v
    } else if t is Some {
        hover_refreshed(
            AppView {
                hovered: t,
                before_hover: if v.hovered is None { Some(v.diff_scroll) } else { v.before_hover },
                ..v
            },
            s,
        )
    } else {
        hover_left(v, s)
    }
}

/// A box of the shown plan toggled.
pub open spec fn box_toggled(v: AppView, s: UiSnapshot, t: TargetView) -> AppView {
    if plan_node_of(s, t) is Some { AppView { diagram: node_toggled(v.diagram, t), ..v } } else { v }
}

/// Whether the shown plan has a relationship.
pub open spec fn plan_relates(s: UiSnapshot, r: RelationshipView) -> bool {
    match s.semantic.plan {
        Some(plan) => relationship_in(plan, r),
        None => false,
    }
}

/// A region moved to an absolute offset.
pub open spec fn region_moved(v: AppView, s: UiSnapshot, region: ScrollRegionId, offset: int) -> AppView {
    match region {
        ScrollRegionId::Files => AppView { files_scroll: offset, files_detached: true, ..v },
        ScrollRegionId::Diff => anchored(v, s, sat16(offset)),
        ScrollRegionId::Callers => AppView { callers_scroll: offset, ..v },
        ScrollRegionId::Downstream => AppView { downstream_scroll: offset, ..v },
        ScrollRegionId::GeneratedImpact => hovered_over(AppView { plan_scroll: offset, ..v }, s, None),
    }
}

/// The sessions with the shown one kept.
pub open spec fn kept_sessions(v: AppView, s: UiSnapshot) -> Map<SessionView, KeptView> {
    match session_of(s, v.scope) {
        Some(key) => v.sessions.insert(key, KeptView { diagram: v.diagram, scroll: v.plan_scroll }),
        None => v.sessions,
    }
}

/// Another scope: selection, scrolling and the diagram start over, and the diagram that was
/// shown is kept.
pub open spec fn rescoped(v: AppView, s: UiSnapshot, scope: ChangeScope) -> AppView {
    AppView {
        sessions: kept_sessions(v, s),
        scope,
        file_sel: 0,
        files_scroll: 0,
        files_detached: false,
        diff_scroll: 0,
        diff_hscroll: 0,
        callers_scroll: 0,
        downstream_scroll: 0,
        plan_scroll: 0,
        hovered: None,
        before_hover: None,
        diagram: fresh_state(),
        current_hunk: if s.diff.total_hunks > 0 { 1 } else { 0 },
        ..v
    }
}

/// A jump over hunks: the cursor moves, and the diff is anchored at its header.
pub open spec fn hunk_jumped(v: AppView, s: UiSnapshot, delta: int) -> AppView {
    let total = s.diff.total_hunks as int;
    let next = clamp_int(v.current_hunk + delta, 1, total);
    if total == 0 {
        v
    } else {
        AppView {
            current_hunk: next,
            diff_scroll: match header_row(s.diff.rows@, 0, next) {
                Some(row) => low16(row),
                None => v.diff_scroll,
            },
            ..v
        }
    }
}

/// The diff shifted sideways; wrapped rows have no horizontal state.
pub open spec fn shifted(v: AppView, delta: int) -> AppView {
    if v.diff_wrap {
        v
    } else {
        AppView { diff_hscroll: clamp_int(v.diff_hscroll + delta, 0, 65535), diff_selection: None, ..v }
    }
}

/// The path that has to be visible for an entity of the tree.
pub open spec fn entity_path(key: SummaryView) -> Seq<char> {
    match key {
        SummaryView::Directory(path) => path,
        SummaryView::File(path) => path,
        SummaryView::Symbol { file, .. } => file,
    }
}

/// The tree opened down to an entity, and the entity selected.
pub open spec fn focused_on(v: AppView, key: SummaryView) -> AppView {
    let above = prefixes_of(entity_path(key));
    let opened = AppView {
        focused: Pane::Files,
        collapsed: Set::new(|d: Seq<char>| v.collapsed.contains(d) && !above.contains(d)),
        files_detached: false,
        ..v
    };
    restored(
        match key {
            SummaryView::Symbol { file, .. } => file_expanded(opened, file, true),
            _ => opened,
        },
        key,
    )
}

/// The status detail opened on the footer's message, or closed.
pub open spec fn status_toggled(v: AppView, s: UiSnapshot) -> AppView {
    AppView {
        status_detail: if v.status_detail is Some || s.status.text@.len() == 0 { None } else { Some(s.status@) },
        ..v
    }
}

/// A directory row opened or closed.
pub open spec fn directory_expanded(v: AppView, path: Seq<char>, expanded: bool) -> AppView {
    AppView {
        collapsed: if expanded { v.collapsed.remove(path) } else { v.collapsed.insert(path) },
        files_detached: false,
        ..v
    }
}

/// A row selected with the pointer, the rows on screen left where they are.
pub open spec fn row_selected(v: AppView, logical_index: int, viewport_offset: int) -> AppView {
    AppView {
        focused: Pane::Files,
        file_sel: min_int(logical_index, monus(logical_count(v.files, v.collapsed), 1)),
        files_scroll: viewport_offset,
        files_detached: true,
        ..v
    }
}

/// A box of the shown plan put at a position.
pub open spec fn box_moved(v: AppView, s: UiSnapshot, t: TargetView, position: DiagramPosition) -> AppView {
    AppView {
        focused: Pane::Impact,
        diagram: if plan_node_of(s, t) is Some { moved_state(v.diagram, t, position) } else { v.diagram },
        ..v
    }
}

/// The overlay of a relationship of the shown plan toggled.
pub open spec fn overlay_toggled(v: AppView, s: UiSnapshot, r: RelationshipView) -> AppView {
    AppView {
        focused: Pane::Impact,
        diagram: if plan_relates(s, r) { relationship_toggled(v.diagram, r) } else { v.diagram },
        ..v
    }
}

/// The overlay at a page offset.
pub open spec fn overlay_scrolled(v: AppView, offset: int) -> AppView {
    AppView { diagram: StateView { overlay_scroll: offset, ..v.diagram }, ..v }
}

/// The box under the pointer toggled; without one, nothing changes.
pub open spec fn hovered_toggled(v: AppView, s: UiSnapshot) -> AppView {
    match v.hovered {
        Some(t) => box_toggled(v, s, t),
        None => v,
    }
}

/// The diff shifted back, or every box closed.
pub open spec fn shrunk(v: AppView) -> AppView {
    match v.focused {
        Pane::Diff => shifted(v, -8),
        Pane::Impact => AppView { diagram: collapsed_state(v.diagram), ..v },
        Pane::Files => v,
    }
}

/// The diff shifted on, or the box under the pointer toggled.
pub open spec fn grown(v: AppView, s: UiSnapshot) -> AppView {
    match v.focused {
        Pane::Diff => shifted(v, 8),
        Pane::Impact => hovered_toggled(v, s),
        Pane::Files => v,
    }
}

/// The model picker closed, or opened at the model and budget in use.
pub open spec fn model_picker_toggled(v: AppView, s: UiSnapshot) -> AppView {
    if v.show_model_picker {
        AppView { show_model_picker: false, model_query: Seq::empty(), ..v }
    } else {
        AppView {
            show_model_picker: true,
            model_query: Seq::empty(),
            model_sel: place_or_first(s.available_models@, s.ai_model@),
            effort_sel: place_or_first(s.available_reasoning_efforts@, s.ai_reasoning_effort@),
            ..v
        }
    }
}

/// The next or previous budget; both ends are neighbours.
pub open spec fn effort_cycled(v: AppView, s: UiSnapshot, forward: bool) -> AppView {
    let len = s.available_reasoning_efforts.len() as int;
    if len == 0 {
        v
    } else if forward {
        AppView { effort_sel: (v.effort_sel + 1) % len, ..v }
    } else {
        AppView { effort_sel: if v.effort_sel == 0 { len - 1 } else { v.effort_sel - 1 }, ..v }
    }
}

/// The base picker opened or closed, without a query.
pub open spec fn base_picker_toggled(v: AppView) -> AppView {
    AppView { show_base_picker: !v.show_base_picker, base_sel: 0, base_query: Seq::empty(), ..v }
}

/// A text with a character added, or without its last one.
pub open spec fn edited(text: Seq<char>, input: Option<char>) -> Seq<char> {
    match input {
        Some(c) => text.push(c),
        None => if text.len() == 0 { text } else { text.drop_last() },
    }
}

/// The query of the open picker edited; input without an open picker is inert.
pub open spec fn query_edited(v: AppView, input: Option<char>) -> AppView {
    if v.show_model_picker {
        AppView { model_query: edited(v.model_query, input), ..v }
    } else if v.show_base_picker {
        AppView { base_query: edited(v.base_query, input), ..v }
    } else {
        v
    }
}

/// The scope that an intent asks for, from the current one.
pub open spec fn scope_asked(scope: ChangeScope, action: ActionView) -> ChangeScope {
    match action {
        ActionView::ScopeStaged => ChangeScope::Staged,
        ActionView::ScopeUnstaged => ChangeScope::Unstaged,
        ActionView::ScopeBranch => ChangeScope::Branch,
        ActionView::ScopeWorking => ChangeScope::Working,
        _ => scope_after(scope),
    }
}

/// What an intent aimed at one row or one region does.
#[verifier::opaque]
pub open spec fn aimed(v: AppView, s: UiSnapshot, action: ActionView) -> AppView {
    match action {
        ActionView::SelectFileRow { logical_index, viewport_offset } => row_selected(
            v,
            logical_index,
            viewport_offset,
        ),
        ActionView::AgentFocus(key) => focused_on(v, key),
        ActionView::ScrollRegion { region, offset } => region_moved(v, s, region, offset),
        _ => v,
    }
}

/// What an intent to move the selection or a scroll position does.
#[verifier::opaque]
pub open spec fn navigated(v: AppView, s: UiSnapshot, action: ActionView) -> AppView {
    match action {
        ActionView::Down => selection_moved(v, s, 1),
        ActionView::Up => selection_moved(v, s, -1),
        ActionView::HalfPageDown => paged(v, s, 10),
        ActionView::HalfPageUp => paged(v, s, -10),
        ActionView::PageDown => paged(v, s, 20),
        ActionView::PageUp => paged(v, s, -20),
        ActionView::Top => at_top(v, s),
        ActionView::Bottom => at_bottom(v, s),
        ActionView::NextHunk => hunk_jumped(v, s, 1),
        ActionView::PrevHunk => hunk_jumped(v, s, -1),
        _ => v,
    }
}

/// What an intent on the box under the pointer does.
#[verifier::opaque]
pub open spec fn pointed(v: AppView, s: UiSnapshot, action: ActionView) -> AppView {
    match action {
        ActionView::ToggleExpand => if v.focused == Pane::Impact { hovered_toggled(v, s) } else { v },
        ActionView::HoverPlanNode(target) => hovered_over(v, s, target),
        ActionView::TogglePlanNode(t) => box_toggled(AppView { focused: Pane::Impact, ..v }, s, t),
        _ => v,
    }
}

/// What an intent on the generated plan does.
#[verifier::opaque]
pub open spec fn redrawn(v: AppView, s: UiSnapshot, action: ActionView) -> AppView {
    match action {
        ActionView::MovePlanNode { target, x, y } => box_moved(v, s, target, DiagramPosition { x, y }),
        ActionView::TogglePlanRelationship(r) => overlay_toggled(v, s, r),
        ActionView::ScrollPlanRelationshipOverlay { offset } => overlay_scrolled(v, offset),
        ActionView::Collapse => shrunk(v),
        ActionView::Expand => grown(v, s),
        _ => v,
    }
}

/// What an intent in a picker does.
#[verifier::opaque]
pub open spec fn picked(v: AppView, s: UiSnapshot, action: ActionView) -> AppView {
    match action {
        ActionView::ModelPicker => model_picker_toggled(v, s),
        ActionView::ReasoningEffortPrevious => effort_cycled(v, s, false),
        ActionView::ReasoningEffortNext => effort_cycled(v, s, true),
        ActionView::BasePicker => base_picker_toggled(v),
        ActionView::PickerInput(c) => query_edited(v, Some(c)),
        ActionView::PickerBackspace => query_edited(v, None),
        _ => v,
    }
}

/// What an intent on the diff pane or a divider does.
#[verifier::opaque]
pub open spec fn adjusted(v: AppView, action: ActionView) -> AppView {
    match action {
        ActionView::ToggleWrap => AppView { diff_wrap: !v.diff_wrap, diff_selection: None, ..v },
        ActionView::ResetHScroll => AppView { diff_hscroll: 0, diff_selection: None, ..v },
        ActionView::SetDiffSelection(selection) => AppView {
            focused: Pane::Diff,
            diff_selection: Some(selection),
            ..v
        },
        ActionView::ClearDiffSelection => AppView { focused: Pane::Diff, diff_selection: None, ..v },
        ActionView::CommitDiffSelection { selection, .. } => AppView {
            focused: Pane::Diff,
            diff_selection: Some(selection),
            ..v
        },
        ActionView::ScrollDiffHorizontal { delta } => shifted(v, delta as int),
        ActionView::ResizeDivider { divider, extent } => AppView {
            extents: v.extents.insert(divider, max_int(extent as int, divider.minimum_spec() as int)),
            ..v
        },
        _ => v,
    }
}

/// What an intent on the view itself does. What the dispatcher does leaves it as it is.
#[verifier::opaque]
pub open spec fn viewed(v: AppView, s: UiSnapshot, action: ActionView) -> AppView {
    match action {
        ActionView::Quit => AppView { should_quit: true, ..v },
        ActionView::ToggleHelp => AppView { show_help: !v.show_help, ..v },
        ActionView::ToggleStatusDetail => status_toggled(v, s),
        ActionView::OpenStatusDetail(status) => AppView { status_detail: Some(status), ..v },
        ActionView::SetFileExpanded { path, expanded } => file_expanded(v, path, expanded),
        ActionView::SetDirectoryExpanded { path, expanded } => directory_expanded(v, path, expanded),
        ActionView::Focus(pane) => AppView { focused: pane, ..v },
        ActionView::ToggleZoom => AppView { zoomed: !v.zoomed, ..v },
        _ => v,
    }
}

/// The view state after an intent, before it is moved into bounds.
pub open spec fn changed(v: AppView, s: UiSnapshot, action: ActionView) -> AppView {
    match action {
        ActionView::Down
        | ActionView::Up
        | ActionView::HalfPageDown
        | ActionView::HalfPageUp
        | ActionView::PageDown
        | ActionView::PageUp
        | ActionView::Top
        | ActionView::Bottom
        | ActionView::NextHunk
        | ActionView::PrevHunk => navigated(v, s, action),
        ActionView::SelectFileRow { .. } | ActionView::AgentFocus(_) | ActionView::ScrollRegion { .. } => aimed(
            v,
            s,
            action,
        ),
        ActionView::ScopeStaged
        | ActionView::ScopeUnstaged
        | ActionView::ScopeBranch
        | ActionView::ScopeWorking
        | ActionView::ScopeCycle => rescoped(v, s, scope_asked(v.scope, action)),
        ActionView::ToggleExpand | ActionView::HoverPlanNode(_) | ActionView::TogglePlanNode(_) => pointed(v, s, action),
        ActionView::MovePlanNode { .. }
        | ActionView::TogglePlanRelationship(_)
        | ActionView::ScrollPlanRelationshipOverlay { .. }
        | ActionView::Collapse
        | ActionView::Expand => redrawn(v, s, action),
        ActionView::ModelPicker
        | ActionView::ReasoningEffortPrevious
        | ActionView::ReasoningEffortNext
        | ActionView::BasePicker
        | ActionView::PickerInput(_)
        | ActionView::PickerBackspace => picked(v, s, action),
        ActionView::ToggleWrap
        | ActionView::ResetHScroll
        | ActionView::SetDiffSelection(_)
        | ActionView::ClearDiffSelection
        | ActionView::CommitDiffSelection { .. }
        | ActionView::ScrollDiffHorizontal { .. }
        | ActionView::ResizeDivider { .. } => adjusted(v, action),
        _ => viewed(v, s, action),
    }
}

/// The view state after an intent, in bounds, with the diff still where it was.
pub open spec fn acted(v: AppView, s: UiSnapshot, action: ActionView) -> AppView {
    clamped(changed(v, s, action), s)
}

/// The view state after an intent. Where another viewport is shown than before, the diff
/// stands where that one was left.
pub open spec fn applied(v: AppView, s: UiSnapshot, action: ActionView) -> AppView {
    settled(viewport_of(v, s), position_in(v), acted(v, s, action), s)
}

/// The language-server object under the selection, where the diff shows its file.
pub open spec fn shown_object(v: AppView, s: UiSnapshot) -> Option<SymbolRow> {
    match selected_symbol(v) {
        Some((f, k)) => if v.files[f].path@ == s.diff.title@ { Some(v.files[f].symbols[k]) } else { None },
        None => None,
    }
}

/// The viewport that the diff pane shows; none while it has no rows.
pub open spec fn viewport_of(v: AppView, s: UiSnapshot) -> Option<ViewportView> {
    if s.diff.rows.len() == 0 {
        None
    } else {
        Some(
            ViewportView {
                scope: v.scope,
                file: s.diff.title@,
                object: match shown_object(v, s) {
                    Some(symbol) => Some(ObjectView { name: symbol.name@, position: symbol.position }),
                    None => None,
                },
            },
        )
    }
}

/// Where the shown viewport stands, apart from a jump to the code of a hovered box.
pub open spec fn position_in(v: AppView) -> PositionView {
    PositionView {
        row: match v.before_hover {
            Some(original) => if v.hovered is Some { original } else { v.diff_scroll },
            None => v.diff_scroll,
        },
        column: v.diff_hscroll,
    }
}

/// Where a viewport is shown: where it was left, else where it begins.
pub open spec fn position_of(v: AppView, s: UiSnapshot, key: ViewportView) -> PositionView {
    let kept = if v.viewports.dom().contains(key) {
        v.viewports[key]
    } else {
        first_position(s.diff.rows@, shown_object(v, s))
    };
    PositionView {
        row: min_int(kept.row, low16(monus(s.diff.rows.len() as int, 1))),
        column: if v.diff_wrap { 0 } else { kept.column },
    }
}

/// The diff at a position; a hovered box keeps showing its code, and leaving it leads there.
pub open spec fn positioned(v: AppView, s: UiSnapshot, at: PositionView) -> AppView {
    let w = AppView { diff_hscroll: at.column, ..v };
    if v.hovered is Some {
        hover_refreshed(AppView { before_hover: Some(at.row), ..w }, s)
    } else {
        anchored(w, s, at.row)
    }
}

/// The state once the viewport `left`, which stood at `at`, may have given way to another:
/// its position is kept, and the one that is shown now stands at its own.
#[verifier::opaque]
pub open spec fn settled(left: Option<ViewportView>, at: PositionView, v: AppView, s: UiSnapshot) -> AppView {
    let key = viewport_of(v, s);
    if left == key {
        v
    } else {
        let w = match left {
            Some(k) => AppView { viewports: v.viewports.insert(k, at), ..v },
            None => v,
        };
        match key {
            Some(k) => positioned(w, s, position_of(w, s, k)),
            None => w,
        }
    }
}

/// The state of a fresh app.
pub open spec fn fresh(v: AppView) -> bool {
    &&& v.files.len() == 0
    &&& v.scope == ChangeScope::Branch
    &&& v.focused == Pane::Files
    &&& v.file_sel == 0 && v.files_scroll == 0 && v.diff_scroll == 0 && v.diff_hscroll == 0 && v.current_hunk == 0
    &&& v.plan_scroll == 0 && v.callers_scroll == 0 && v.downstream_scroll == 0
    &&& v.collapsed == Set::<Seq<char>>::empty()
    &&& !v.files_detached && !v.zoomed
    &&& v.diff_selection is None && v.hovered is None && v.before_hover is None && v.status_detail is None
    &&& v.diagram == fresh_state()
    &&& v.sessions == Map::<SessionView, KeptView>::empty()
    &&& v.viewports == Map::<ViewportView, PositionView>::empty()
    &&& !v.show_help && !v.show_model_picker && !v.show_base_picker && !v.should_quit
    &&& v.model_sel == 0 && v.base_sel == 0 && v.effort_sel == 0
    &&& v.model_query.len() == 0 && v.base_query.len() == 0
}

/// The extents of a fresh app.
pub open spec fn default_extents() -> Map<DividerId, int> {
    Map::new(|id: DividerId| true, |id: DividerId| id.default_spec() as int)
}

/// Where the diff settles depends on no file row and no scope of the picture itself.
proof fn lemma_settled_same_data(
    left: Option<ViewportView>,
    at: PositionView,
    v: AppView,
    a: UiSnapshot,
    b: UiSnapshot,
)
    requires
        same_data(a, b),
    ensures
        settled(left, at, v, a) == settled(left, at, v, b),
{
    reveal(settled);
}

impl Default for App {
    fn default() -> (r: Self)
        ensures
            fresh(r@),
            is_blank(r.snapshot),
            is_silent(r.snapshot.status),
            !r@.diff_wrap,
            r@.extents == default_extents(),
    {
        proof {
            reveal(app_view);
        }
        let r = App {
            snapshot: UiSnapshot::default(),
            focused: Pane::Files,
            file_sel: 0,
            collapsed_directories: KeySet::new(),
            files_scroll: 0,
            files_scroll_detached: false,
            diff_scroll: 0,
            diff_hscroll: 0,
            diff_selection: None,
            current_hunk: 0,
            dividers: DividerSizes::default(),
            zoomed: false,
            ai_plan_scroll: 0,
            hovered_plan_node: None,
            diff_scroll_before_plan_hover: None,
            diagram: DiagramState::default(),
            diagram_sessions: Table::new(),
            diff_viewports: Table::new(),
            callers_scroll: 0,
            downstream_scroll: 0,
            diff_wrap: false,
            show_help: false,
            status_detail: None,
            show_model_picker: false,
            model_sel: 0,
            model_query: String::new(),
            reasoning_effort_sel: 0,
            show_base_picker: false,
            base_sel: 0,
            base_query: String::new(),
            should_quit: false,
        };
        proof {
            assert(r@.extents =~= default_extents());
        }
        r
    }
}

fn copy_status(status: &StatusMessage) -> (r: StatusMessage)
    ensures
        r@ == status@,
{
    StatusMessage {
        text: status.text.clone(),
        detail: match &status.detail {
            Some(d) => Some(d.clone()),
            None => None,
        },
        level: status.level,
    }
}

fn same_target(a: &Option<PlanNodeTarget>, b: &Option<PlanNodeTarget>) -> (r: bool)
    ensures
        r == (optional_target(*a) == optional_target(*b)),
{
    match (a, b) {
        (Some(x), Some(y)) => x.same(y),
        (None, None) => true,
        _ => false,
    }
}

fn same_session(a: &Option<DiagramSessionKey>, b: &Option<DiagramSessionKey>) -> (r: bool)
    ensures
        r == (optional_session(*a) == optional_session(*b)),
{
    match (a, b) {
        (Some(x), Some(y)) => x.same(y),
        (None, None) => true,
        _ => false,
    }
}

impl App {
    /// A fresh app (branch scope, raw diff mode, files pane at the default width).
    pub fn new() -> (r: App)
        ensures
            fresh(r@),
            is_blank(r.snapshot),
            is_silent(r.snapshot.status),
            !r@.diff_wrap,
            r@.extents == default_extents(),
    {
        proof {
            reveal(app_view);
        }
        App::default()
    }

    /// Build a fresh app with global, repository-independent view preferences restored.
    pub fn with_preferences(preferences: UiPreferences) -> (r: App)
        ensures
            fresh(r@),
            is_blank(r.snapshot),
            is_silent(r.snapshot.status),
            r.diff_wrap == preferences.diff_wrap,
            r.dividers == preferences.dividers,
    {
        proof {
            reveal(app_view);
        }
        let mut r = App::default();
        r.diff_wrap = preferences.diff_wrap;
        r.dividers = preferences.dividers;
        r
    }

    /// Capture only the stable view preferences suitable for global persistence.
    pub fn preferences(&self) -> (r: UiPreferences)
        ensures
            r == (UiPreferences { diff_wrap: self.diff_wrap, dividers: self.dividers }),
    {
        proof {
            reveal(app_view);
        }
        UiPreferences { diff_wrap: self.diff_wrap, dividers: self.dividers }
    }

    /// Model candidates matching the picker's filter query (the visible list).
    pub fn filtered_models(&self) -> (r: Vec<&str>)
        ensures
            slices(r@) == candidates(self.snapshot.available_models@, self@.model_query),
    {
        proof {
            reveal(app_view);
        }
        filter_candidates(self.snapshot.available_models.as_slice(), self.model_query.as_str())
    }

    /// Base candidates matching the picker's filter query (the visible list).
    pub fn filtered_bases(&self) -> (r: Vec<&str>)
        ensures
            slices(r@) == candidates(self.snapshot.available_bases@, self@.base_query),
    {
        proof {
            reveal(app_view);
        }
        filter_candidates(self.snapshot.available_bases.as_slice(), self.base_query.as_str())
    }

    /// Reasoning budget currently highlighted in the model picker.
    pub fn selected_reasoning_effort(&self) -> (r: &str)
        ensures
            r@ == (if self.reasoning_effort_sel < self.snapshot.available_reasoning_efforts.len() {
                self.snapshot.available_reasoning_efforts[self.reasoning_effort_sel as int]@
            } else if self.snapshot.ai_reasoning_effort@.len() == 0 {
                "default"@
            } else {
                self.snapshot.ai_reasoning_effort@
            }),
    {
        proof {
            reveal(app_view);
        }
        if self.reasoning_effort_sel < self.snapshot.available_reasoning_efforts.len() {
            self.snapshot.available_reasoning_efforts[self.reasoning_effort_sel].as_str()
        } else if self.snapshot.ai_reasoning_effort.as_str().is_empty() {
            "default"
        } else {
            self.snapshot.ai_reasoning_effort.as_str()
        }
    }

    /// Current physical changed-tree projection.
    pub fn projected_file_rows(&self) -> (rows: Vec<ProjectedRow>)
        ensures
            row_views(rows@) == projection(self@.files, self@.collapsed),
    {
        proof {
            reveal(app_view);
        }
        project(self.snapshot.files.as_slice(), &self.collapsed_directories)
    }

    fn selected_projected_row(&self) -> (row: Option<ProjectedRow>)
        ensures
            optional_row(row) == resolved(self@.files, self@.collapsed, self@.file_sel),
    {
        proof {
            reveal(app_view);
        }
        resolve_logical(self.snapshot.files.as_slice(), &self.collapsed_directories, self.file_sel)
    }

    /// Flattened directory+file+symbol row count.
    pub fn flat_file_rows(&self) -> (count: usize)
        ensures
            count == logical_count(self@.files, self@.collapsed),
    {
        proof {
            reveal(app_view);
        }
        logical_row_count(self.snapshot.files.as_slice(), &self.collapsed_directories)
    }

    /// The first row of the files viewport.
    pub open spec fn first_visible_row(v: AppView, capacity: int) -> int {
        let rows = projection(v.files, v.collapsed);
        if v.files_detached {
            min_int(v.files_scroll, monus(rows.len() as int, capacity))
        } else {
            first_visible_spec(rows, v.file_sel, capacity)
        }
    }

    /// Physical first row for the files viewport. Keyboard navigation follows selection;
    /// a mouse-wheel inspection uses its independent offset until selection moves again.
    pub fn files_first_visible(&self, capacity: usize) -> (first: usize)
        ensures
            first == App::first_visible_row(self@, capacity as int),
    {
        proof {
            reveal(app_view);
        }
        if self.files_scroll_detached {
            let rows = self.projected_file_rows();
            proof {
                assert(row_views(rows@).len() == rows.len());
            }
            min_usize(self.files_scroll, rows.len().saturating_sub(capacity))
        } else {
            first_visible(self.snapshot.files.as_slice(), &self.collapsed_directories, self.file_sel, capacity)
        }
    }

    /// Resolve one plan-local UI target against the currently displayed generated plan.
    pub fn plan_node(&self, target: &PlanNodeTarget) -> (r: Option<&PlanNode>)
        ensures
            match r {
                Some(node) => plan_node_of(self.snapshot, target@) == Some(*node),
                None => plan_node_of(self.snapshot, target@) is None,
            },
    {
        proof {
            reveal(app_view);
        }
        match &self.snapshot.semantic.plan {
            Some(plan) => {
                if target.form >= plan.forms.len() {
                    return None;
                }
                let nodes = &plan.forms[target.form].nodes;
                match find_node(nodes, target.id.as_str()) {
                    Some(k) => Some(&nodes[k]),
                    None => None,
                }
            },
            None => None,
        }
    }

    /// The currently hovered generated-plan node, when its target still resolves.
    pub fn hovered_node(&self) -> (r: Option<&PlanNode>)
        ensures
            match (self@.hovered, r) {
                (Some(t), Some(node)) => plan_node_of(self.snapshot, t) == Some(*node),
                (Some(t), None) => plan_node_of(self.snapshot, t) is None,
                (None, _) => r is None,
            },
    {
        proof {
            reveal(app_view);
        }
        match &self.hovered_plan_node {
            Some(target) => self.plan_node(target),
            None => None,
        }
    }

    /// Node whose code links are active. Expansion is persistent presentation state, but
    /// source highlighting is deliberately transient and follows only the mouse pointer.
    pub fn active_code_node(&self) -> (r: Option<&PlanNode>)
        ensures
            match (self@.hovered, r) {
                (Some(t), Some(node)) => plan_node_of(self.snapshot, t) == Some(*node),
                (Some(t), None) => plan_node_of(self.snapshot, t) is None,
                (None, _) => r is None,
            },
    {
        proof {
            reveal(app_view);
        }
        self.hovered_node()
    }

    fn plan_relationship_exists(&self, target: &PlanRelationshipTarget) -> (r: bool)
        ensures
            r == plan_relates(self.snapshot, target@),
    {
        proof {
            reveal(app_view);
        }
        match &self.snapshot.semantic.plan {
            Some(plan) => relationship_exists(plan, target),
            None => false,
        }
    }

    /// Recompute `current_hunk` from the scroll anchor: the number of hunk-header rows at
    /// or before the anchor (the 1-based index of the hunk the user is looking at), or 0
    /// when the diff has no hunks.
    pub fn sync_current_hunk(&mut self)
        ensures
            final(self)@ == anchored(old(self)@, old(self).snapshot, old(self)@.diff_scroll),
            final(self).snapshot == old(self).snapshot,
    {
        proof {
            reveal(app_view);
        }
        let total: usize = self.snapshot.diff.total_hunks;
        if total == 0 {
            self.current_hunk = 0;
            return;
        }
        // An anchor sitting exactly on a header row is that hunk.
        let upto: usize = min_usize(self.diff_scroll as usize + 1, self.snapshot.diff.rows.len());
        let seen: usize = count_headers(&self.snapshot.diff.rows, upto);
        self.current_hunk = if seen < 1 {
            1
        } else if seen > total {
            total
        } else {
            seen
        };
    }

    fn has_generated_rows(&self) -> (r: bool)
        ensures
            r == has_generated(self.snapshot),
    {
        proof {
            reveal(app_view);
        }
        self.snapshot.semantic.plan.is_some() || self.snapshot.impact.selected_change.is_some()
    }

    fn clamp(&mut self)
        ensures
            final(self)@ == clamped(old(self)@, old(self).snapshot),
            final(self).snapshot == old(self).snapshot,
    {
        proof {
            reveal(app_view);
        }
        let selectable: usize = self.flat_file_rows();
        let rows = self.projected_file_rows();
        proof {
            assert(row_views(rows@).len() == rows.len());
        }
        let models: usize = self.count_models();
        let bases: usize = self.count_bases();
        let generated: bool = self.has_generated_rows();
        let total: usize = self.snapshot.diff.total_hunks;
        let last_row: u16 = cut_u16(self.snapshot.diff.rows.len().saturating_sub(1));
        let callers: usize = self.snapshot.impact.callers.rows.len();
        let downstream: usize = self.snapshot.impact.downstream.rows.len();
        self.file_sel = min_usize(self.file_sel, selectable.saturating_sub(1));
        self.files_scroll = min_usize(self.files_scroll, rows.len().saturating_sub(1));
        self.diff_scroll = min_u16(self.diff_scroll, last_row);
        // Keep the hunk cursor inside the snapshot's (immutable) total.
        self.current_hunk = if total == 0 {
            0
        } else {
            max_usize(min_usize(self.current_hunk, total), 1)
        };
        self.model_sel = min_usize(self.model_sel, models.saturating_sub(1));
        self.base_sel = min_usize(self.base_sel, bases.saturating_sub(1));
        self.ai_plan_scroll = if generated { min_usize(self.ai_plan_scroll, MAX_GENERATED_SCROLL) } else { 0 };
        self.callers_scroll = min_usize(self.callers_scroll, callers.saturating_sub(1));
        self.downstream_scroll = min_usize(self.downstream_scroll, downstream.saturating_sub(1));
    }

    fn count_models(&self) -> (n: usize)
        ensures
            n == candidates(self.snapshot.available_models@, self@.model_query).len(),
    {
        proof {
            reveal(app_view);
        }
        let list = self.filtered_models();
        proof {
            assert(slices(list@).len() == list.len());
        }
        list.len()
    }

    fn count_bases(&self) -> (n: usize)
        ensures
            n == candidates(self.snapshot.available_bases@, self@.base_query).len(),
    {
        proof {
            reveal(app_view);
        }
        let list = self.filtered_bases();
        proof {
            assert(slices(list@).len() == list.len());
        }
        list.len()
    }

    fn scroll_diff(&mut self, delta: i32)
        ensures
            final(self)@ == diff_moved(old(self)@, old(self).snapshot, delta as int),
            final(self).snapshot == old(self).snapshot,
    {
        proof {
            reveal(app_view);
        }
        let last: usize = self.snapshot.diff.rows.len().saturating_sub(1);
        self.diff_scroll = cut_u16(moved_by(self.diff_scroll as usize, delta, last));
        self.sync_current_hunk();
    }

    fn scroll_ai_plan(&mut self, delta: i32)
        requires
            -1000 < delta,
        ensures
            final(self)@ == plan_moved(old(self)@, old(self).snapshot, delta as int),
            final(self).snapshot == old(self).snapshot,
    {
        proof {
            reveal(app_view);
        }
        if !self.has_generated_rows() {
            self.ai_plan_scroll = 0;
            return;
        }
        if delta < 0 {
            self.ai_plan_scroll = self.ai_plan_scroll.saturating_sub((-delta) as usize);
        } else {
            self.ai_plan_scroll = min_usize(self.ai_plan_scroll.saturating_add(delta as usize), MAX_GENERATED_SCROLL);
        }
    }

    fn scroll_ai_plan_to(&mut self, offset: usize)
        ensures
            final(self)@ == plan_moved_to(old(self)@, old(self).snapshot, offset as int),
            final(self).snapshot == old(self).snapshot,
    {
        proof {
            reveal(app_view);
        }
        self.ai_plan_scroll = if self.has_generated_rows() { min_usize(offset, MAX_GENERATED_SCROLL) } else { 0 };
    }

    fn move_sel(&mut self, delta: i32)
        requires
            -1000 < delta,
        ensures
            final(self)@ == selection_moved(old(self)@, old(self).snapshot, delta as int),
            final(self).snapshot == old(self).snapshot,
    {
        proof {
            reveal(app_view);
        }
        if self.show_model_picker {
            let len: usize = self.count_models();
            self.model_sel = step(self.model_sel, delta, len);
            return;
        }
        if self.show_base_picker {
            let len: usize = self.count_bases();
            self.base_sel = step(self.base_sel, delta, len);
            return;
        }
        match self.focused {
            Pane::Files => {
                let len: usize = self.flat_file_rows();
                self.file_sel = step(self.file_sel, delta, len);
                self.files_scroll_detached = false;
            },
            // The left relationship stack is fixed; movement in the combined Impact
            // pane scrolls the generated breakdown on the right.
            Pane::Impact => self.scroll_ai_plan(delta),
            Pane::Diff => self.scroll_diff(delta),
        }
    }

    /// Page keys scroll the generated breakdown when Impact is focused, otherwise diff.
    fn page(&mut self, delta: i32)
        requires
            -1000 < delta,
        ensures
            final(self)@ == paged(old(self)@, old(self).snapshot, delta as int),
            final(self).snapshot == old(self).snapshot,
    {
        proof {
            reveal(app_view);
        }
        if self.focused == Pane::Impact {
            self.scroll_ai_plan(delta);
        } else {
            self.scroll_diff(delta);
        }
    }

    fn top(&mut self)
        ensures
            final(self)@ == at_top(old(self)@, old(self).snapshot),
            final(self).snapshot == old(self).snapshot,
    {
        proof {
            reveal(app_view);
        }
        match self.focused {
            Pane::Files => {
                self.file_sel = 0;
                self.files_scroll_detached = false;
            },
            Pane::Impact => self.scroll_ai_plan_to(0),
            Pane::Diff => {
                self.diff_scroll = 0;
                self.sync_current_hunk();
            },
        }
    }

    fn bottom(&mut self)
        ensures
            final(self)@ == at_bottom(old(self)@, old(self).snapshot),
            final(self).snapshot == old(self).snapshot,
    {
        proof {
            reveal(app_view);
        }
        match self.focused {
            Pane::Files => {
                self.file_sel = self.flat_file_rows().saturating_sub(1);
                self.files_scroll_detached = false;
            },
            Pane::Impact => self.scroll_ai_plan_to(usize::MAX),
            Pane::Diff => {
                self.diff_scroll = cut_u16(self.snapshot.diff.rows.len().saturating_sub(1));
                self.sync_current_hunk();
            },
        }
    }

    fn leave_plan_hover(&mut self)
        ensures
            final(self)@ == hover_left(old(self)@, old(self).snapshot),
            final(self).snapshot == old(self).snapshot,
    {
        proof {
            reveal(app_view);
        }
        self.hovered_plan_node = None;
        match self.diff_scroll_before_plan_hover {
            Some(original) => {
                self.diff_scroll_before_plan_hover = None;
                self.diff_scroll = original;
                self.sync_current_hunk();
            },
            None => {},
        }
    }

    /// Re-resolve the hover after an incremental plan publish. A retained node keeps its
    /// emphasis/expansion; removal restores the diff position captured on pointer entry.
    fn refresh_plan_hover(&mut self)
        ensures
            final(self)@ == hover_refreshed(old(self)@, old(self).snapshot),
            final(self).snapshot == old(self).snapshot,
    {
        proof {
            reveal(app_view);
        }
        let target: PlanNodeTarget = match &self.hovered_plan_node {
            Some(t) => t.copied(),
            None => {
                return;
            },
        };
        let anchor: Option<usize> = match self.plan_node(&target) {
            Some(node) => first_linked_diff_row(&self.snapshot.diff, node),
            None => {
                self.leave_plan_hover();
                return;
            },
        };
        match anchor {
            Some(row) => {
                self.diff_scroll = sat_u16(row);
            },
            None => match self.diff_scroll_before_plan_hover {
                Some(original) => {
                    self.diff_scroll = original;
                },
                None => {},
            },
        }
        self.sync_current_hunk();
    }

    /// Apply transient box hover, including a reversible jump to its first linked diff row.
    fn set_plan_hover(&mut self, target: Option<PlanNodeTarget>)
        ensures
            final(self)@ == hovered_over(old(self)@, old(self).snapshot, optional_target(target)),
            final(self).snapshot == old(self).snapshot,
    {
        proof {
            reveal(app_view);
        }
        let target: Option<PlanNodeTarget> = match target {
            Some(t) => if self.plan_node(&t).is_some() { Some(t) } else { None },
            None => None,
        };
        if same_target(&target, &self.hovered_plan_node) {
            return;
        }
        if target.is_none() {
            self.leave_plan_hover();
            return;
        }
        if self.hovered_plan_node.is_none() {
            self.diff_scroll_before_plan_hover = Some(self.diff_scroll);
        }
        self.hovered_plan_node = target;
        self.refresh_plan_hover();
    }

    fn toggle_plan_node(&mut self, target: PlanNodeTarget)
        ensures
            final(self)@ == box_toggled(old(self)@, old(self).snapshot, target@),
            final(self).snapshot == old(self).snapshot,
    {
        proof {
            reveal(app_view);
        }
        if self.plan_node(&target).is_some() {
            self.diagram.toggle_node(target);
        }
    }

    /// Toggle the box under the pointer; without one, nothing happens.
    fn toggle_hovered(&mut self)
        ensures
            final(self)@ == hovered_toggled(old(self)@, old(self).snapshot),
            final(self).snapshot == old(self).snapshot,
    {
        proof {
            reveal(app_view);
        }
        let target: Option<PlanNodeTarget> = match &self.hovered_plan_node {
            Some(t) => Some(t.copied()),
            None => None,
        };
        match target {
            Some(t) => self.toggle_plan_node(t),
            None => {},
        }
    }

    fn scroll_list(&mut self, region: ScrollRegionId, offset: usize)
        requires
            region == ScrollRegionId::Files || region == ScrollRegionId::Callers || region
                == ScrollRegionId::Downstream,
        ensures
            final(self)@ == region_moved(old(self)@, old(self).snapshot, region, offset as int),
            final(self).snapshot == old(self).snapshot,
    {
        proof {
            reveal(app_view);
        }
        match region {
            ScrollRegionId::Files => {
                self.files_scroll = offset;
                self.files_scroll_detached = true;
            },
            ScrollRegionId::Callers => {
                self.callers_scroll = offset;
            },
            _ => {
                self.downstream_scroll = offset;
            },
        }
    }

    fn scroll_diff_to(&mut self, offset: usize)
        ensures
            final(self)@ == anchored(old(self)@, old(self).snapshot, sat16(offset as int)),
            final(self).snapshot == old(self).snapshot,
    {
        proof {
            reveal(app_view);
        }
        self.diff_scroll = sat_u16(offset);
        self.sync_current_hunk();
    }

    fn scroll_generated_to(&mut self, offset: usize)
        ensures
            final(self)@ == hovered_over(
                AppView { plan_scroll: offset as int, ..old(self)@ },
                old(self).snapshot,
                None,
            ),
            final(self).snapshot == old(self).snapshot,
    {
        proof {
            reveal(app_view);
        }
        self.ai_plan_scroll = offset;
        self.set_plan_hover(None);
    }

    fn set_scroll_region(&mut self, region: ScrollRegionId, offset: usize)
        ensures
            final(self)@ == region_moved(old(self)@, old(self).snapshot, region, offset as int),
            final(self).snapshot == old(self).snapshot,
    {
        match region {
            ScrollRegionId::Diff => self.scroll_diff_to(offset),
            ScrollRegionId::GeneratedImpact => self.scroll_generated_to(offset),
            _ => self.scroll_list(region, offset),
        }
    }

    fn keep_session(&mut self)
        ensures
            final(self)@ == (AppView { sessions: kept_sessions(old(self)@, old(self).snapshot), ..old(self)@ }),
            final(self).snapshot == old(self).snapshot,
    {
        proof {
            reveal(app_view);
        }
        match diagram_session_key(&self.snapshot) {
            Some(key) => {
                let kept = DiagramViewState { diagram: self.diagram.copied(), scroll: self.ai_plan_scroll };
                self.diagram_sessions.insert(key, kept);
            },
            None => {},
        }
    }

    fn set_scope(&mut self, scope: ChangeScope)
        ensures
            final(self)@ == rescoped(old(self)@, old(self).snapshot, scope),
            same_data(old(self).snapshot, final(self).snapshot),
    {
        proof {
            reveal(app_view);
        }
        self.keep_session();
        self.snapshot.scope = scope;
        self.file_sel = 0;
        self.files_scroll = 0;
        self.files_scroll_detached = false;
        self.diff_scroll = 0;
        self.diff_hscroll = 0;
        self.callers_scroll = 0;
        self.downstream_scroll = 0;
        self.ai_plan_scroll = 0;
        self.hovered_plan_node = None;
        self.diff_scroll_before_plan_hover = None;
        self.diagram = DiagramState::default();
        self.current_hunk = if self.snapshot.diff.total_hunks > 0 { 1 } else { 0 };
    }

    fn find_file(&self, path: &str) -> (r: Option<usize>)
        ensures
            match r {
                Some(k) => file_place(self@.files, path@, 0) == Some(k as int) && k < self.snapshot.files.len(),
                None => file_place(self@.files, path@, 0) is None,
            },
    {
        proof {
            reveal(app_view);
        }
        let mut i: usize = 0;
        while i < self.snapshot.files.len()
            invariant
                i <= self.snapshot.files.len(),
                file_place(self@.files, path@, 0) == file_place(self@.files, path@, i as int),
            decreases self.snapshot.files.len() - i,
        {
            proof {
                reveal(app_view);
            }
            if same_text(self.snapshot.files[i].path.as_str(), path) {
                return Some(i);
            }
            i = i + 1;
        }
        None
    }

    /// Optimistically apply the targeted expansion command so the frame the user sees
    /// matches their keypress; the next snapshot reconciles it. Idempotent.
    fn set_file_expanded(&mut self, path: &str, expanded: bool)
        ensures
            final(self)@ == file_expanded(old(self)@, path@, expanded),
            same_data(old(self).snapshot, final(self).snapshot),
    {
        proof {
            reveal(app_view);
        }
        match self.find_file(path) {
            Some(k) => {
                self.snapshot.files[k].expanded = expanded;
            },
            None => {},
        }
        self.files_scroll_detached = false;
    }

    /// Re-resolve a directory/file/symbol identity against the current tree projection.
    fn restore_selection(&mut self, key: &AiSummaryKey)
        ensures
            final(self)@ == restored(old(self)@, key@),
            final(self).snapshot == old(self).snapshot,
    {
        proof {
            reveal(app_view);
        }
        let rows = self.projected_file_rows();
        let ghost all = row_views(rows@);
        let ghost files = self@.files;
        let fallback: usize = min_usize(self.file_sel, self.flat_file_rows().saturating_sub(1));
        let mut i: usize = 0;
        while i < rows.len()
            invariant
                i <= rows.len() == all.len(),
                all == row_views(rows@),
                *self == *old(self),
                files == self.snapshot.files@,
                row_of_key(all, files, key@, 0) == row_of_key(all, files, key@, i as int),
                all == projection(self@.files, self@.collapsed),
                fallback == min_int(self@.file_sel, monus(logical_count(self@.files, self@.collapsed), 1)),
            decreases rows.len() - i,
        {
            proof {
                reveal(app_view);
            }
            proof {
                assert(all[i as int] == rows@[i as int]@);
            }
            let here: bool = match rows[i].summary_key(self.snapshot.files.as_slice()) {
                Some(found) => found.same(key),
                None => false,
            };
            if here {
                self.file_sel = match rows[i].logical_index() {
                    Some(logical) => logical,
                    None => fallback,
                };
                return;
            }
            i = i + 1;
        }
        self.file_sel = fallback;
    }

    /// The hunk after or before the current one.
    fn neighbour_hunk(&self, forward: bool) -> (next: usize)
        requires
            self.snapshot.diff.total_hunks > 0,
        ensures
            next == clamp_int(
                self@.current_hunk + (if forward { 1int } else { -1 }),
                1,
                self.snapshot.diff.total_hunks as int,
            ),
    {
        proof {
            reveal(app_view);
        }
        let wanted: usize = if forward {
            self.current_hunk.saturating_add(1)
        } else {
            self.current_hunk.saturating_sub(1)
        };
        max_usize(min_usize(wanted, self.snapshot.diff.total_hunks), 1)
    }

    fn jump_hunk(&mut self, forward: bool)
        ensures
            final(self)@ == hunk_jumped(old(self)@, old(self).snapshot, if forward { 1 } else { -1 }),
            final(self).snapshot == old(self).snapshot,
    {
        if self.snapshot.diff.total_hunks == 0 {
            return;
        }
        let next: usize = self.neighbour_hunk(forward);
        // Anchor the scroll to the hunk's header row so the jump is visible.
        let header: Option<usize> = find_header(&self.snapshot.diff.rows, next);
        proof {
            reveal(app_view);
        }
        self.current_hunk = next;
        match header {
            Some(row) => {
                self.diff_scroll = cut_u16(row);
            },
            None => {},
        }
    }

    fn shift_diff(&mut self, delta: i32)
        requires
            -65536 < delta < 65536,
        ensures
            final(self)@ == shifted(old(self)@, delta as int),
            final(self).snapshot == old(self).snapshot,
    {
        proof {
            reveal(app_view);
        }
        // Wrapped mode has no hidden horizontal state.
        if self.diff_wrap {
            return;
        }
        let moved: i32 = self.diff_hscroll as i32 + delta;
        self.diff_hscroll = if moved < 0 {
            0
        } else if moved > 65535 {
            65535
        } else {
            moved as u16
        };
        self.diff_selection = None;
    }

    fn focus_entity(&mut self, target: &AiSummaryKey)
        ensures
            final(self)@ == focused_on(old(self)@, target@),
            same_data(old(self).snapshot, final(self).snapshot),
    {
        proof {
            reveal(app_view);
        }
        self.focused = Pane::Files;
        self.files_scroll_detached = false;
        let path: &str = match target {
            AiSummaryKey::Directory(path) => path.as_str(),
            AiSummaryKey::File(path) => path.as_str(),
            AiSummaryKey::Symbol { file, .. } => file.as_str(),
        };
        let above = directory_prefixes(path);
        open_directories(&mut self.collapsed_directories, &above);
        match target {
            AiSummaryKey::Symbol { file, .. } => self.set_file_expanded(file.as_str(), true),
            _ => {},
        }
        self.restore_selection(target);
    }

    fn toggle_model_picker(&mut self)
        ensures
            final(self)@ == model_picker_toggled(old(self)@, old(self).snapshot),
            final(self).snapshot == old(self).snapshot,
    {
        proof {
            reveal(app_view);
        }
        self.show_model_picker = !self.show_model_picker;
        self.model_query = String::new();
        if self.show_model_picker {
            self.model_sel = find_text(&self.snapshot.available_models, self.snapshot.ai_model.as_str());
            self.reasoning_effort_sel = find_text(
                &self.snapshot.available_reasoning_efforts,
                self.snapshot.ai_reasoning_effort.as_str(),
            );
        }
    }

    fn cycle_effort(&mut self, forward: bool)
        ensures
            final(self)@ == effort_cycled(old(self)@, old(self).snapshot, forward),
            final(self).snapshot == old(self).snapshot,
    {
        proof {
            reveal(app_view);
        }
        let len: usize = self.snapshot.available_reasoning_efforts.len();
        if len == 0 {
            return;
        }
        let sel: usize = self.reasoning_effort_sel;
        if !forward {
            self.reasoning_effort_sel = if sel == 0 { len - 1 } else { sel - 1 };
            return;
        }
        proof {
            assert((sel as int + 1) % (len as int) == ((sel as int % len as int) + 1) % (len as int)) by {
                vstd::arithmetic::div_mod::lemma_add_mod_noop(sel as int, 1, len as int);
                vstd::arithmetic::div_mod::lemma_add_mod_noop(sel as int % len as int, 1, len as int);
                vstd::arithmetic::div_mod::lemma_mod_twice(sel as int, len as int);
            }
        }
        let place: usize = sel % len;
        self.reasoning_effort_sel = if place + 1 == len { 0 } else { place + 1 };
        proof {
            if place + 1 < len {
                vstd::arithmetic::div_mod::lemma_small_mod((place + 1) as nat, len as nat);
            } else {
                vstd::arithmetic::div_mod::lemma_mod_self_0(len as int);
            }
        }
    }

    fn edit_query(&mut self, input: Option<char>)
        ensures
            final(self)@ == query_edited(old(self)@, input),
            final(self).snapshot == old(self).snapshot,
    {
        proof {
            reveal(app_view);
        }
        if self.show_model_picker {
            match input {
                Some(c) => self.model_query.push(c),
                None => {
                    self.model_query = without_last(self.model_query.as_str());
                },
            }
        } else if self.show_base_picker {
            match input {
                Some(c) => self.base_query.push(c),
                None => {
                    self.base_query = without_last(self.base_query.as_str());
                },
            }
        }
    }

    fn resize_divider(&mut self, divider: DividerId, extent: u16)
        ensures
            final(self)@ == (AppView {
                extents: old(self)@.extents.insert(
                    divider,
                    max_int(extent as int, divider.minimum_spec() as int),
                ),
                ..old(self)@
            }),
            final(self).snapshot == old(self).snapshot,
    {
        proof {
            reveal(app_view);
        }
        let ghost before = self@.extents;
        self.dividers.set(divider, extent);
        proof {
            assert(self@.extents =~= before.insert(
                divider,
                max_int(extent as int, divider.minimum_spec() as int),
            ));
        }
    }

    fn quit(&mut self)
        ensures
            final(self)@ == (AppView { should_quit: true, ..old(self)@ }),
            final(self).snapshot == old(self).snapshot,
    {
        proof {
            reveal(app_view);
        }
        self.should_quit = true;
    }

    fn toggle_help(&mut self)
        ensures
            final(self)@ == (AppView { show_help: !old(self)@.show_help, ..old(self)@ }),
            final(self).snapshot == old(self).snapshot,
    {
        proof {
            reveal(app_view);
        }
        self.show_help = !self.show_help;
    }

    fn toggle_status_detail(&mut self)
        ensures
            final(self)@ == status_toggled(old(self)@, old(self).snapshot),
            final(self).snapshot == old(self).snapshot,
    {
        proof {
            reveal(app_view);
        }
        self.status_detail = if self.status_detail.is_some() || self.snapshot.status.text.as_str().is_empty() {
            None
        } else {
            Some(copy_status(&self.snapshot.status))
        };
    }

    fn open_status_detail(&mut self, status: StatusMessage)
        ensures
            final(self)@ == (AppView { status_detail: Some(status@), ..old(self)@ }),
            final(self).snapshot == old(self).snapshot,
    {
        proof {
            reveal(app_view);
        }
        self.status_detail = Some(status);
    }

    fn set_directory_expanded(&mut self, path: String, expanded: bool)
        ensures
            final(self)@ == directory_expanded(old(self)@, path@, expanded),
            final(self).snapshot == old(self).snapshot,
    {
        proof {
            reveal(app_view);
        }
        if expanded {
            self.collapsed_directories.remove(&path);
        } else {
            let _ = self.collapsed_directories.insert(path);
        }
        self.files_scroll_detached = false;
    }

    fn focus(&mut self, pane: Pane)
        ensures
            final(self)@ == (AppView { focused: pane, ..old(self)@ }),
            final(self).snapshot == old(self).snapshot,
    {
        proof {
            reveal(app_view);
        }
        self.focused = pane;
    }

    fn toggle_zoom(&mut self)
        ensures
            final(self)@ == (AppView { zoomed: !old(self)@.zoomed, ..old(self)@ }),
            final(self).snapshot == old(self).snapshot,
    {
        proof {
            reveal(app_view);
        }
        self.zoomed = !self.zoomed;
    }

    fn toggle_wrap(&mut self)
        ensures
            final(self)@ == (AppView { diff_wrap: !old(self)@.diff_wrap, diff_selection: None, ..old(self)@ }),
            final(self).snapshot == old(self).snapshot,
    {
        proof {
            reveal(app_view);
        }
        self.diff_wrap = !self.diff_wrap;
        self.diff_selection = None;
    }

    fn reset_hscroll(&mut self)
        ensures
            final(self)@ == (AppView { diff_hscroll: 0, diff_selection: None, ..old(self)@ }),
            final(self).snapshot == old(self).snapshot,
    {
        proof {
            reveal(app_view);
        }
        self.diff_hscroll = 0;
        self.diff_selection = None;
    }

    fn select_diff(&mut self, selection: Option<DiffTextSelection>)
        ensures
            final(self)@ == (AppView { focused: Pane::Diff, diff_selection: selection, ..old(self)@ }),
            final(self).snapshot == old(self).snapshot,
    {
        proof {
            reveal(app_view);
        }
        self.focused = Pane::Diff;
        self.diff_selection = selection;
    }

    /// Select a file/symbol row by logical index and focus Files, with the rows left where
    /// the click saw them.
    fn select_file_row(&mut self, logical_index: usize, viewport_offset: usize)
        ensures
            final(self)@ == row_selected(old(self)@, logical_index as int, viewport_offset as int),
            final(self).snapshot == old(self).snapshot,
    {
        proof {
            reveal(app_view);
        }
        let last: usize = self.flat_file_rows().saturating_sub(1);
        self.focused = Pane::Files;
        self.file_sel = min_usize(logical_index, last);
        self.files_scroll = viewport_offset;
        self.files_scroll_detached = true;
    }

    fn move_plan_node(&mut self, target: PlanNodeTarget, position: DiagramPosition)
        ensures
            final(self)@ == box_moved(old(self)@, old(self).snapshot, target@, position),
            final(self).snapshot == old(self).snapshot,
    {
        proof {
            reveal(app_view);
        }
        let known: bool = self.plan_node(&target).is_some();
        self.focused = Pane::Impact;
        if known {
            self.diagram.move_node(target, position);
        }
    }

    fn toggle_plan_relationship(&mut self, target: PlanRelationshipTarget)
        ensures
            final(self)@ == overlay_toggled(old(self)@, old(self).snapshot, target@),
            final(self).snapshot == old(self).snapshot,
    {
        proof {
            reveal(app_view);
        }
        let known: bool = self.plan_relationship_exists(&target);
        self.focused = Pane::Impact;
        if known {
            self.diagram.toggle_relationship(target);
        }
    }

    fn scroll_overlay(&mut self, offset: usize)
        ensures
            final(self)@ == overlay_scrolled(old(self)@, offset as int),
            final(self).snapshot == old(self).snapshot,
    {
        proof {
            reveal(app_view);
        }
        self.diagram.set_overlay_scroll(offset);
    }

    fn close_boxes(&mut self)
        ensures
            final(self)@ == (AppView { diagram: collapsed_state(old(self)@.diagram), ..old(self)@ }),
            final(self).snapshot == old(self).snapshot,
    {
        proof {
            reveal(app_view);
        }
        self.diagram.clear_expansion();
    }

    /// `h`: shift the diff back or close every box; the files tree is dispatcher-owned.
    fn collapse(&mut self)
        ensures
            final(self)@ == shrunk(old(self)@),
            final(self).snapshot == old(self).snapshot,
    {
        proof {
            reveal(app_view);
        }
        match self.focused {
            Pane::Diff => self.shift_diff(-8),
            Pane::Impact => self.close_boxes(),
            Pane::Files => {},
        }
    }

    /// `l`: shift the diff on or toggle the box under the pointer.
    fn expand(&mut self)
        ensures
            final(self)@ == grown(old(self)@, old(self).snapshot),
            final(self).snapshot == old(self).snapshot,
    {
        proof {
            reveal(app_view);
        }
        match self.focused {
            Pane::Diff => self.shift_diff(8),
            Pane::Impact => self.toggle_hovered(),
            Pane::Files => {},
        }
    }

    /// Space: in Impact, toggle the box under the pointer.
    fn toggle_expand(&mut self)
        ensures
            final(self)@ == (if old(self)@.focused == Pane::Impact {
                hovered_toggled(old(self)@, old(self).snapshot)
            } else {
                old(self)@
            }),
            final(self).snapshot == old(self).snapshot,
    {
        proof {
            reveal(app_view);
        }
        if self.focused == Pane::Impact {
            self.toggle_hovered();
        }
    }

    fn click_plan_node(&mut self, target: PlanNodeTarget)
        ensures
            final(self)@ == box_toggled(
                AppView { focused: Pane::Impact, ..old(self)@ },
                old(self).snapshot,
                target@,
            ),
            final(self).snapshot == old(self).snapshot,
    {
        proof {
            reveal(app_view);
        }
        self.focused = Pane::Impact;
        self.toggle_plan_node(target);
    }

    fn toggle_base_picker(&mut self)
        ensures
            final(self)@ == base_picker_toggled(old(self)@),
            final(self).snapshot == old(self).snapshot,
    {
        proof {
            reveal(app_view);
        }
        self.show_base_picker = !self.show_base_picker;
        self.base_sel = 0;
        self.base_query = String::new();
    }

    /// Apply an action to the view state. I/O actions change nothing here; the dispatcher
    /// observes them separately.
    pub fn apply(&mut self, action: Action)
        ensures
            final(self)@ == applied(old(self)@, old(self).snapshot, action@),
            same_data(old(self).snapshot, final(self).snapshot),
    {
        let left = self.viewport_key();
        let at: DiffPosition = self.diff_position();
        self.act(action);
        proof {
            lemma_settled_same_data(optional_viewport(left), at@, self@, old(self).snapshot, self.snapshot);
        }
        self.settle(left, at);
    }

    fn act(&mut self, action: Action)
        ensures
            final(self)@ == acted(old(self)@, old(self).snapshot, action@),
            same_data(old(self).snapshot, final(self).snapshot),
    {
        self.change(action);
        self.clamp();
    }

    /// The language-server object under the selection, where the diff shows its file.
    fn object_in_diff(&self) -> (r: Option<&SymbolRow>)
        ensures
            match (shown_object(self@, self.snapshot), r) {
                (Some(symbol), Some(row)) => *row == symbol,
                (None, None) => true,
                _ => false,
            },
    {
        match self.selected_file_symbol() {
            Some((file, Some(symbol))) => if same_text(file.path.as_str(), self.snapshot.diff.title.as_str()) {
                Some(symbol)
            } else {
                None
            },
            _ => None,
        }
    }

    fn viewport_key(&self) -> (r: Option<ViewportKey>)
        ensures
            optional_viewport(r) == viewport_of(self@, self.snapshot),
    {
        proof {
            reveal(app_view);
        }
        if self.snapshot.diff.rows.len() == 0 {
            return None;
        }
        let object = match self.object_in_diff() {
            Some(symbol) => Some(ObjectKey { name: symbol.name.clone(), position: symbol.position }),
            None => None,
        };
        Some(ViewportKey { scope: self.snapshot.scope, file: self.snapshot.diff.title.clone(), object })
    }

    fn diff_position(&self) -> (r: DiffPosition)
        ensures
            r@ == position_in(self@),
    {
        proof {
            reveal(app_view);
        }
        let row: u16 = match self.diff_scroll_before_plan_hover {
            Some(original) => if self.hovered_plan_node.is_some() { original } else { self.diff_scroll },
            None => self.diff_scroll,
        };
        DiffPosition { row, column: self.diff_hscroll }
    }

    fn first_diff_position(&self) -> (r: DiffPosition)
        ensures
            r@ == first_position(self.snapshot.diff.rows@, shown_object(self@, self.snapshot)),
    {
        let row: u16 = match self.object_in_diff() {
            Some(symbol) => match first_object_row(&self.snapshot.diff.rows, symbol) {
                Some(i) => sat_u16(i),
                None => 0,
            },
            None => 0,
        };
        DiffPosition { row, column: 0 }
    }

    fn position_for(&self, key: &ViewportKey) -> (r: DiffPosition)
        ensures
            r@ == position_of(self@, self.snapshot, key@),
    {
        proof {
            reveal(app_view);
        }
        let kept: DiffPosition = match self.diff_viewports.get(key) {
            Some(at) => *at,
            None => self.first_diff_position(),
        };
        DiffPosition {
            row: min_u16(kept.row, cut_u16(self.snapshot.diff.rows.len().saturating_sub(1))),
            column: if self.diff_wrap { 0 } else { kept.column },
        }
    }

    fn keep_viewport(&mut self, key: ViewportKey, at: DiffPosition)
        ensures
            final(self)@ == (AppView { viewports: old(self)@.viewports.insert(key@, at@), ..old(self)@ }),
            final(self).snapshot == old(self).snapshot,
    {
        proof {
            reveal(app_view);
        }
        self.diff_viewports.insert(key, at);
    }

    fn show_at(&mut self, at: DiffPosition)
        ensures
            final(self)@ == positioned(old(self)@, old(self).snapshot, at@),
            final(self).snapshot == old(self).snapshot,
    {
        proof {
            reveal(app_view);
        }
        self.diff_hscroll = at.column;
        if self.hovered_plan_node.is_some() {
            self.diff_scroll_before_plan_hover = Some(at.row);
            self.refresh_plan_hover();
        } else {
            self.diff_scroll = at.row;
            self.sync_current_hunk();
        }
    }

    /// Bring back where the shown viewport was left, once it is another one than `left`,
    /// which stood at `at`.
    fn settle(&mut self, left: Option<ViewportKey>, at: DiffPosition)
        ensures
            final(self)@ == settled(optional_viewport(left), at@, old(self)@, old(self).snapshot),
            final(self).snapshot == old(self).snapshot,
    {
        proof {
            reveal(settled);
        }
        let shown = self.viewport_key();
        if same_viewport(&left, &shown) {
            return;
        }
        match left {
            Some(key) => self.keep_viewport(key, at),
            None => {},
        }
        match shown {
            Some(key) => {
                let to: DiffPosition = self.position_for(&key);
                self.show_at(to);
            },
            None => {},
        }
    }

    /// The scope that an intent asks for.
    fn asked_scope(&self, action: &Action) -> (scope: ChangeScope)
        ensures
            scope == scope_asked(self@.scope, action@),
    {
        proof {
            reveal(app_view);
        }
        match action {
            Action::ScopeStaged => ChangeScope::Staged,
            Action::ScopeUnstaged => ChangeScope::Unstaged,
            Action::ScopeBranch => ChangeScope::Branch,
            Action::ScopeWorking => ChangeScope::Working,
            _ => next_scope(self.snapshot.scope),
        }
    }

    /// Go to one row or one offset.
    fn aim(&mut self, action: Action)
        ensures
            final(self)@ == aimed(old(self)@, old(self).snapshot, action@),
            same_data(old(self).snapshot, final(self).snapshot),
    {
        proof {
            reveal(aimed);
        }
        match action {
            Action::SelectFileRow { logical_index, viewport_offset } => self.select_file_row(
                logical_index,
                viewport_offset,
            ),
            Action::AgentFocus(target) => self.focus_entity(&target),
            Action::ScrollRegion { region, offset } => self.set_scroll_region(region, offset),
            _ => {},
        }
    }

    /// Move the selection or a scroll position.
    fn navigate(&mut self, action: Action)
        ensures
            final(self)@ == navigated(old(self)@, old(self).snapshot, action@),
            same_data(old(self).snapshot, final(self).snapshot),
    {
        proof {
            reveal(navigated);
        }
        match action {
            Action::Down => self.move_sel(1),
            Action::Up => self.move_sel(-1),
            Action::HalfPageDown => self.page(10),
            Action::HalfPageUp => self.page(-10),
            Action::PageDown => self.page(20),
            Action::PageUp => self.page(-20),
            Action::Top => self.top(),
            Action::Bottom => self.bottom(),
            Action::NextHunk => self.jump_hunk(true),
            Action::PrevHunk => self.jump_hunk(false),
            _ => {},
        }
    }

    /// Apply an intent on the box under the pointer.
    fn point(&mut self, action: Action)
        ensures
            final(self)@ == pointed(old(self)@, old(self).snapshot, action@),
            same_data(old(self).snapshot, final(self).snapshot),
    {
        proof {
            reveal(pointed);
        }
        match action {
            Action::ToggleExpand => self.toggle_expand(),
            Action::HoverPlanNode(target) => self.set_plan_hover(target),
            Action::TogglePlanNode(target) => self.click_plan_node(target),
            _ => {},
        }
    }

    /// Apply an intent on the generated plan.
    fn redraw(&mut self, action: Action)
        ensures
            final(self)@ == redrawn(old(self)@, old(self).snapshot, action@),
            same_data(old(self).snapshot, final(self).snapshot),
    {
        proof {
            reveal(redrawn);
        }
        match action {
            Action::MovePlanNode { target, x, y } => self.move_plan_node(target, DiagramPosition { x, y }),
            Action::TogglePlanRelationship(target) => self.toggle_plan_relationship(target),
            Action::ScrollPlanRelationshipOverlay { offset } => self.scroll_overlay(offset),
            Action::Collapse => self.collapse(),
            Action::Expand => self.expand(),
            _ => {},
        }
    }

    /// Apply an intent in a picker.
    fn pick(&mut self, action: Action)
        ensures
            final(self)@ == picked(old(self)@, old(self).snapshot, action@),
            same_data(old(self).snapshot, final(self).snapshot),
    {
        proof {
            reveal(picked);
        }
        match action {
            Action::ModelPicker => self.toggle_model_picker(),
            Action::ReasoningEffortPrevious => self.cycle_effort(false),
            Action::ReasoningEffortNext => self.cycle_effort(true),
            Action::BasePicker => self.toggle_base_picker(),
            Action::PickerInput(c) => self.edit_query(Some(c)),
            Action::PickerBackspace => self.edit_query(None),
            _ => {},
        }
    }

    /// Apply an intent on the diff pane or a divider.
    fn adjust(&mut self, action: Action)
        ensures
            final(self)@ == adjusted(old(self)@, action@),
            same_data(old(self).snapshot, final(self).snapshot),
    {
        proof {
            reveal(adjusted);
        }
        match action {
            Action::ToggleWrap => self.toggle_wrap(),
            Action::ResetHScroll => self.reset_hscroll(),
            Action::SetDiffSelection(selection) => self.select_diff(Some(selection)),
            Action::ClearDiffSelection => self.select_diff(None),
            Action::CommitDiffSelection { selection, .. } => self.select_diff(Some(selection)),
            Action::ScrollDiffHorizontal { delta } => self.shift_diff(delta as i32),
            Action::ResizeDivider { divider, extent } => self.resize_divider(divider, extent),
            _ => {},
        }
    }

    /// Apply an intent on the view itself.
    fn change_view(&mut self, action: Action)
        ensures
            final(self)@ == viewed(old(self)@, old(self).snapshot, action@),
            same_data(old(self).snapshot, final(self).snapshot),
    {
        proof {
            reveal(viewed);
        }
        match action {
            Action::Quit => self.quit(),
            Action::ToggleHelp => self.toggle_help(),
            Action::ToggleStatusDetail => self.toggle_status_detail(),
            Action::OpenStatusDetail(status) => self.open_status_detail(status),
            Action::SetFileExpanded { path, expanded } => self.set_file_expanded(path.as_str(), expanded),
            Action::SetDirectoryExpanded { path, expanded } => self.set_directory_expanded(path, expanded),
            Action::Focus(pane) => self.focus(pane),
            Action::ToggleZoom => self.toggle_zoom(),
            _ => {},
        }
    }

    fn change(&mut self, action: Action)
        ensures
            final(self)@ == changed(old(self)@, old(self).snapshot, action@),
            same_data(old(self).snapshot, final(self).snapshot),
    {
        match action {
            Action::Down
            | Action::Up
            | Action::HalfPageDown
            | Action::HalfPageUp
            | Action::PageDown
            | Action::PageUp
            | Action::Top
            | Action::Bottom
            | Action::NextHunk
            | Action::PrevHunk => self.navigate(action),
            Action::SelectFileRow { .. } | Action::AgentFocus(_) | Action::ScrollRegion { .. } => self.aim(action),
            Action::ScopeStaged
            | Action::ScopeUnstaged
            | Action::ScopeBranch
            | Action::ScopeWorking
            | Action::ScopeCycle => {
                let scope: ChangeScope = self.asked_scope(&action);
                self.set_scope(scope);
            },
            Action::ToggleExpand | Action::HoverPlanNode(_) | Action::TogglePlanNode(_) => self.point(action),
            Action::MovePlanNode { .. }
            | Action::TogglePlanRelationship(_)
            | Action::ScrollPlanRelationshipOverlay { .. }
            | Action::Collapse
            | Action::Expand => self.redraw(action),
            Action::ModelPicker
            | Action::ReasoningEffortPrevious
            | Action::ReasoningEffortNext
            | Action::BasePicker
            | Action::PickerInput(_)
            | Action::PickerBackspace => self.pick(action),
            Action::ToggleWrap
            | Action::ResetHScroll
            | Action::SetDiffSelection(_)
            | Action::ClearDiffSelection
            | Action::CommitDiffSelection { .. }
            | Action::ScrollDiffHorizontal { .. }
            | Action::ResizeDivider { .. } => self.adjust(action),
            _ => self.change_view(action),
        }
    }
}

/// The row of the `k`-th hunk header.
fn find_header(rows: &Vec<DiffRow>, k: usize) -> (r: Option<usize>)
    requires
        k >= 1,
    ensures
        match r {
            Some(i) => header_row(rows@, 0, k as int) == Some(i as int),
            None => header_row(rows@, 0, k as int) is None,
        },
{
    let mut left: usize = k;
    let mut i: usize = 0;
    while i < rows.len()
        invariant
            i <= rows.len(),
            left >= 1,
            header_row(rows@, 0, k as int) == header_row(rows@, i as int, left as int),
        decreases rows.len() - i,
    {
        match &rows[i] {
            DiffRow::HunkHeader(_) => {
                if left == 1 {
                    return Some(i);
                }
                left = left - 1;
            },
            _ => {},
        }
        i = i + 1;
    }
    None
}

/// Open every directory of a list.
fn open_directories(collapsed: &mut KeySet<String>, paths: &Vec<String>)
    ensures
        final(collapsed)@ == Set::new(|d: Seq<char>| old(collapsed)@.contains(d) && !texts(paths@).contains(d)),
{
    let ghost all = texts(paths@);
    let ghost start = collapsed@;
    let mut i: usize = 0;
    while i < paths.len()
        invariant
            i <= paths.len() == all.len(),
            all == texts(paths@),
            forall|d: Seq<char>| #[trigger] collapsed@.contains(d) == (start.contains(d) && !all.take(i as int).contains(
                d,
            )),
        decreases paths.len() - i,
    {
        let ghost before = collapsed@;
        collapsed.remove(&paths[i]);
        proof {
            assert(all.take(i + 1) =~= all.take(i as int).push(all[i as int]));
            assert forall|d: Seq<char>| #[trigger] collapsed@.contains(d) == (start.contains(d) && !all.take(
                i + 1,
            ).contains(d)) by {
                assert(before.contains(d) == (start.contains(d) && !all.take(i as int).contains(d)));
                if all.take(i as int).contains(d) {
                    let k = choose|k: int| 0 <= k < i && all.take(i as int)[k] == d;
                    assert(all.take(i + 1)[k] == d);
                }
                if d == all[i as int] {
                    assert(all.take(i + 1)[i as int] == d);
                }
            }
        }
        i = i + 1;
    }
    proof {
        assert(all.take(all.len() as int) =~= all);
        assert(collapsed@ =~= Set::new(|d: Seq<char>| start.contains(d) && !all.contains(d)));
    }
}

impl App {
    /// The `(path, desired expanded)` pair for a selected file or symbol. Directory rows
    /// return `None`; use [`App::tree_toggle_action`] when both kinds are accepted.
    pub fn file_toggle_target(&self) -> (r: Option<(String, bool)>)
        ensures
            match (tree_toggle(self@), r) {
                (Some(ActionView::SetFileExpanded { path, expanded }), Some(target)) => target.0@ == path && target.1
                    == expanded,
                (Some(ActionView::SetFileExpanded { .. }), None) => false,
                (_, _) => r is None,
            },
    {
        proof {
            reveal(app_view);
        }
        match self.tree_toggle_action() {
            Some(Action::SetFileExpanded { path, expanded }) => Some((path, expanded)),
            _ => None,
        }
    }

    /// Expansion command for the selected directory, file, or symbol owner.
    pub fn tree_toggle_action(&self) -> (r: Option<Action>)
        ensures
            match r {
                Some(action) => tree_toggle(self@) == Some(action@),
                None => tree_toggle(self@) is None,
            },
    {
        proof {
            reveal(app_view);
        }
        match self.selected_projected_row() {
            Some(ProjectedRow::Directory { path, .. }) => {
                let expanded: bool = self.collapsed_directories.contains(&path);
                Some(Action::SetDirectoryExpanded { path, expanded })
            },
            Some(ProjectedRow::File { file_index, .. }) => if file_index < self.snapshot.files.len() {
                let file = &self.snapshot.files[file_index];
                Some(Action::SetFileExpanded { path: file.path.clone(), expanded: !file.expanded })
            } else {
                None
            },
            Some(ProjectedRow::Symbol { file_index, .. }) => if file_index < self.snapshot.files.len() {
                let file = &self.snapshot.files[file_index];
                Some(Action::SetFileExpanded { path: file.path.clone(), expanded: false })
            } else {
                None
            },
            _ => None,
        }
    }

    /// The index into `snapshot.files` of the file under the flattened files-pane
    /// selection (symbol rows map to their file's index).
    pub fn selected_file_index(&self) -> (r: Option<usize>)
        ensures
            match r {
                Some(i) => selected_file(self@) == Some(i as int),
                None => selected_file(self@) is None,
            },
    {
        proof {
            reveal(app_view);
        }
        match self.selected_projected_row() {
            Some(ProjectedRow::File { file_index, .. }) => Some(file_index),
            Some(ProjectedRow::Symbol { file_index, .. }) => Some(file_index),
            _ => None,
        }
    }

    /// The selected file's repo-relative path (symbol rows map to their owning file).
    pub fn selected_file_path(&self) -> (r: Option<&str>)
        ensures
            match (selected_file(self@), r) {
                (Some(i), Some(path)) => i < self@.files.len() && path@ == self@.files[i].path@,
                (Some(i), None) => i >= self@.files.len(),
                (None, _) => r is None,
            },
    {
        proof {
            reveal(app_view);
        }
        match self.selected_file_index() {
            Some(i) => if i < self.snapshot.files.len() {
                Some(self.snapshot.files[i].path.as_str())
            } else {
                None
            },
            None => None,
        }
    }

    /// Repo-relative directory or file path represented by the selected tree row.
    pub fn selected_tree_path(&self) -> (r: Option<String>)
        ensures
            match r {
                Some(path) => selected_path(self@) == Some(path@),
                None => selected_path(self@) is None,
            },
    {
        proof {
            reveal(app_view);
        }
        match self.selected_projected_row() {
            Some(ProjectedRow::Directory { path, .. }) => Some(path),
            _ => match self.selected_file_path() {
                Some(path) => Some(path.to_owned()),
                None => None,
            },
        }
    }

    /// The symbol name when the files-pane selection sits on a symbol row.
    pub fn selected_symbol_name(&self) -> (r: Option<&str>)
        ensures
            match (selected_symbol(self@), r) {
                (Some((f, k)), Some(name)) => name@ == self@.files[f].symbols[k].name@,
                (None, None) => true,
                _ => false,
            },
    {
        proof {
            reveal(app_view);
        }
        match self.selected_projected_row() {
            Some(ProjectedRow::Symbol { file_index, symbol_index, .. }) => {
                if file_index >= self.snapshot.files.len() {
                    return None;
                }
                let file = &self.snapshot.files[file_index];
                if symbol_index >= file.symbols.len() {
                    return None;
                }
                Some(file.symbols[symbol_index].name.as_str())
            },
            _ => None,
        }
    }

    /// The file row and the symbol row (when the selection is on a symbol) under the
    /// flattened files-pane selection.
    pub fn selected_file_symbol(&self) -> (r: Option<(&FileRow, Option<&SymbolRow>)>)
        ensures
            match (resolved(self@.files, self@.collapsed, self@.file_sel), r) {
                (Some(RowView::File { file_index, .. }), Some((file, symbol))) => file_index < self@.files.len()
                    && *file == self@.files[file_index] && symbol is None,
                (Some(RowView::File { file_index, .. }), None) => file_index >= self@.files.len(),
                (Some(RowView::Symbol { .. }), Some((file, symbol))) => match (selected_symbol(self@), symbol) {
                    (Some((f, k)), Some(row)) => *file == self@.files[f] && *row == self@.files[f].symbols[k],
                    _ => false,
                },
                (Some(RowView::Symbol { .. }), None) => selected_symbol(self@) is None,
                (_, _) => r is None,
            },
    {
        proof {
            reveal(app_view);
        }
        match self.selected_projected_row() {
            Some(ProjectedRow::File { file_index, .. }) => if file_index < self.snapshot.files.len() {
                Some((&self.snapshot.files[file_index], None))
            } else {
                None
            },
            Some(ProjectedRow::Symbol { file_index, symbol_index, .. }) => {
                if file_index >= self.snapshot.files.len() {
                    return None;
                }
                let file = &self.snapshot.files[file_index];
                if symbol_index >= file.symbols.len() {
                    return None;
                }
                Some((file, Some(&file.symbols[symbol_index])))
            },
            _ => None,
        }
    }

    /// Stable summary identity of the selected directory/file/symbol row.
    pub fn selected_summary_key(&self) -> (r: Option<AiSummaryKey>)
        ensures
            optional_summary(r) == selected_key(self@),
    {
        proof {
            reveal(app_view);
        }
        match self.selected_projected_row() {
            Some(row) => row.summary_key(self.snapshot.files.as_slice()),
            None => None,
        }
    }
}

/// The file that the selected row belongs to.
pub open spec fn selected_file(v: AppView) -> Option<int> {
    match resolved(v.files, v.collapsed, v.file_sel) {
        Some(RowView::File { file_index, .. }) => Some(file_index),
        Some(RowView::Symbol { file_index, .. }) => Some(file_index),
        _ => None,
    }
}

/// The path of the selected row.
pub open spec fn selected_path(v: AppView) -> Option<Seq<char>> {
    match resolved(v.files, v.collapsed, v.file_sel) {
        Some(RowView::Directory { path, .. }) => Some(path),
        _ => match selected_file(v) {
            Some(i) => if i < v.files.len() { Some(v.files[i].path@) } else { None },
            None => None,
        },
    }
}

/// The file and the symbol of a selected symbol row.
pub open spec fn selected_symbol(v: AppView) -> Option<(int, int)> {
    match resolved(v.files, v.collapsed, v.file_sel) {
        Some(RowView::Symbol { file_index, symbol_index, .. }) => if file_index < v.files.len() && symbol_index
            < v.files[file_index].symbols.len() {
            Some((file_index, symbol_index))
        } else {
            None
        },
        _ => None,
    }
}

/// Whether a picture shows another file in the diff pane.
pub open spec fn is_retargeted(a: UiSnapshot, b: UiSnapshot) -> bool {
    a.diff.title@ != b.diff.title@
}

/// Whether a picture selects another change.
pub open spec fn is_reselected(a: UiSnapshot, b: UiSnapshot) -> bool {
    !equal_selections(a.impact.selected_change, b.impact.selected_change)
}

/// Whether a picture shows another plan.
pub open spec fn is_replanned(a: UiSnapshot, b: UiSnapshot) -> bool {
    !equal_optional_plans(a.semantic.plan, b.semantic.plan)
}

/// Whether the generated half of a picture starts over.
pub open spec fn is_regenerated(a: UiSnapshot, b: UiSnapshot) -> bool {
    ||| a.semantic.note@ != b.semantic.note@
    ||| is_replanned(a, b)
    ||| is_reselected(a, b)
    ||| (!a.ai_activity.active && b.ai_activity.active)
}

/// The diff pane once another picture is shown: another file starts at the top, and other
/// rows end a text selection.
pub open spec fn diff_retargeted(v: AppView, a: UiSnapshot, b: UiSnapshot) -> AppView {
    let w = if is_retargeted(a, b) || !equal_row_lists(a.diff.rows@, b.diff.rows@) {
        AppView { diff_selection: None, ..v }
    } else {
        v
    };
    if is_retargeted(a, b) {
        AppView {
            diff_scroll: 0,
            diff_hscroll: 0,
            current_hunk: if b.diff.total_hunks > 0 { 1 } else { 0 },
            hovered: None,
            before_hover: None,
            ..w
        }
    } else if v.current_hunk == 0 && b.diff.total_hunks > 0 {
        AppView { current_hunk: 1, ..w }
    } else {
        w
    }
}

/// What was kept of a session; nothing for one that was never shown.
pub open spec fn kept_of(sessions: Map<SessionView, KeptView>, key: Option<SessionView>) -> KeptView {
    match key {
        Some(k) => if sessions.dom().contains(k) {
            sessions[k]
        } else {
            KeptView { diagram: fresh_state(), scroll: 0 }
        },
        None => KeptView { diagram: fresh_state(), scroll: 0 },
    }
}

/// The sessions of one epoch.
pub open spec fn current_sessions(sessions: Map<SessionView, KeptView>, epoch: Epoch) -> Map<SessionView, KeptView> {
    Map::new(
        |k: SessionView| sessions.dom().contains(k) && k.epoch == epoch,
        |k: SessionView| sessions[k],
    )
}

/// The diagram once another picture is shown: another selection keeps the shown diagram and
/// brings back its own, and sessions of other epochs are forgotten.
pub open spec fn session_changed(v: AppView, a: UiSnapshot, b: UiSnapshot) -> AppView {
    let next = session_of(b, b.scope);
    let w = if session_of(a, v.scope) != next {
        let sessions = kept_sessions(v, a);
        let kept = kept_of(sessions, next);
        AppView {
            sessions,
            diagram: kept.diagram,
            plan_scroll: kept.scroll,
            hovered: None,
            before_hover: None,
            ..v
        }
    } else {
        v
    };
    AppView { sessions: current_sessions(w.sessions, b.epoch), ..w }
}

/// Whether a directory still holds a changed file.
pub open spec fn holds_file(files: Seq<FileRow>, directory: Seq<char>) -> bool {
    exists|f: int| 0 <= f < files.len() && (directory + "/"@).is_prefix_of(#[trigger] files[f].path@)
}

/// The picture itself replaced; collapsed directories without a file are forgotten.
pub open spec fn data_replaced(v: AppView, b: UiSnapshot) -> AppView {
    AppView {
        files: b.files@,
        scope: b.scope,
        collapsed: Set::new(|d: Seq<char>| v.collapsed.contains(d) && holds_file(b.files@, d)),
        ..v
    }
}

/// The generated half once another picture is shown.
pub open spec fn generated_changed(v: AppView, b: UiSnapshot, regenerated: bool, restart: bool) -> AppView {
    if regenerated {
        AppView {
            plan_scroll: if restart { 0 } else { v.plan_scroll },
            diagram: match b.semantic.plan {
                Some(plan) => synced_state(v.diagram, plan),
                None => v.diagram,
            },
            ..v
        }
    } else {
        v
    }
}

/// The relationship lists start over for another selected change.
pub open spec fn lists_reset(v: AppView, reselected: bool) -> AppView {
    if reselected { AppView { callers_scroll: 0, downstream_scroll: 0, ..v } } else { v }
}

/// The state with another picture in it.
#[verifier::opaque]
pub open spec fn shown(v: AppView, a: UiSnapshot, b: UiSnapshot) -> AppView {
    data_replaced(session_changed(diff_retargeted(v, a, b), a, b), b)
}

/// The state moved into the bounds of a new picture.
#[verifier::opaque]
pub open spec fn renewed(v: AppView, b: UiSnapshot, regenerated: bool, restart: bool, reselected: bool) -> AppView {
    clamped(lists_reset(generated_changed(v, b, regenerated, restart), reselected), b)
}

/// The hover in a new picture, and the selection on the row of its entity.
#[verifier::opaque]
pub open spec fn rejoined(v: AppView, b: UiSnapshot, same_target: bool, key: Option<SummaryView>) -> AppView {
    let w = if same_target { hover_refreshed(v, b) } else { v };
    match key {
        Some(k) => restored(w, k),
        None => w,
    }
}

/// The state in a new picture, with the diff of another file at its top.
pub open spec fn swapped(v: AppView, a: UiSnapshot, b: UiSnapshot) -> AppView {
    let same_session = session_of(a, v.scope) == session_of(b, b.scope);
    rejoined(
        renewed(
            shown(v, a, b),
            b,
            is_regenerated(a, b),
            is_replanned(a, b) && same_session,
            is_reselected(a, b),
        ),
        b,
        !is_retargeted(a, b) && !is_reselected(a, b),
        selected_key(v),
    )
}

/// The view state once another picture is shown. The selected row is the same entity as
/// before, wherever its row now is, and another viewport stands where it was left.
pub open spec fn updated(v: AppView, a: UiSnapshot, b: UiSnapshot) -> AppView {
    settled(viewport_of(v, a), position_in(v), swapped(v, a, b), b)
}

impl App {
    fn retarget_diff(&mut self, snapshot: &UiSnapshot)
        ensures
            final(self)@ == diff_retargeted(old(self)@, old(self).snapshot, *snapshot),
            final(self).snapshot == old(self).snapshot,
    {
        proof {
            reveal(app_view);
        }
        let retargeted: bool = !same_text(self.snapshot.diff.title.as_str(), snapshot.diff.title.as_str());
        let rows_changed: bool = !same_rows(&self.snapshot.diff.rows, &snapshot.diff.rows);
        if retargeted || rows_changed {
            self.diff_selection = None;
        }
        if retargeted {
            self.diff_scroll = 0;
            self.diff_hscroll = 0;
            self.current_hunk = if snapshot.diff.total_hunks > 0 { 1 } else { 0 };
            self.hovered_plan_node = None;
            self.diff_scroll_before_plan_hover = None;
        } else if self.current_hunk == 0 && snapshot.diff.total_hunks > 0 {
            // First diff for this path (hunks just arrived): start at hunk 1.
            self.current_hunk = 1;
        }
    }

    fn kept_session(&self, key: &Option<DiagramSessionKey>) -> (kept: DiagramViewState)
        ensures
            kept@ == kept_of(self@.sessions, optional_session(*key)),
    {
        proof {
            reveal(app_view);
        }
        match key {
            Some(k) => match self.diagram_sessions.get(k) {
                Some(state) => DiagramViewState { diagram: state.diagram.copied(), scroll: state.scroll },
                None => DiagramViewState { diagram: DiagramState::default(), scroll: 0 },
            },
            None => DiagramViewState { diagram: DiagramState::default(), scroll: 0 },
        }
    }

    fn restore_session(&mut self, kept: DiagramViewState)
        ensures
            final(self)@ == (AppView {
                diagram: kept@.diagram,
                plan_scroll: kept@.scroll,
                hovered: None,
                before_hover: None,
                ..old(self)@
            }),
            final(self).snapshot == old(self).snapshot,
    {
        proof {
            reveal(app_view);
        }
        self.diagram = kept.diagram;
        self.ai_plan_scroll = kept.scroll;
        self.hovered_plan_node = None;
        self.diff_scroll_before_plan_hover = None;
    }

    fn forget_sessions(&mut self, epoch: Epoch)
        ensures
            final(self)@ == (AppView { sessions: current_sessions(old(self)@.sessions, epoch), ..old(self)@ }),
            final(self).snapshot == old(self).snapshot,
    {
        proof {
            reveal(app_view);
        }
        retain_epoch(&mut self.diagram_sessions, epoch);
    }

    fn change_session(&mut self, snapshot: &UiSnapshot)
        ensures
            final(self)@ == session_changed(old(self)@, old(self).snapshot, *snapshot),
            final(self).snapshot == old(self).snapshot,
    {
        if !self.keeps_session(snapshot) {
            self.keep_session();
            let kept = self.kept_session(&diagram_session_key(snapshot));
            self.restore_session(kept);
        }
        self.forget_sessions(snapshot.epoch);
    }

    fn replace_data(&mut self, snapshot: UiSnapshot)
        ensures
            final(self)@ == data_replaced(old(self)@, snapshot),
            final(self).snapshot == snapshot,
    {
        proof {
            reveal(app_view);
        }
        self.snapshot = snapshot;
        retain_directories(&mut self.collapsed_directories, self.snapshot.files.as_slice());
    }

    fn change_generated(&mut self, regenerated: bool, restart: bool)
        ensures
            final(self)@ == generated_changed(old(self)@, old(self).snapshot, regenerated, restart),
            final(self).snapshot == old(self).snapshot,
    {
        proof {
            reveal(app_view);
        }
        if regenerated {
            if restart {
                self.ai_plan_scroll = 0;
            }
            match &self.snapshot.semantic.plan {
                Some(plan) => self.diagram.sync_plan(plan),
                None => {},
            }
        }
    }

    fn reset_lists(&mut self)
        ensures
            final(self)@ == (AppView { callers_scroll: 0, downstream_scroll: 0, ..old(self)@ }),
            final(self).snapshot == old(self).snapshot,
    {
        proof {
            reveal(app_view);
        }
        self.callers_scroll = 0;
        self.downstream_scroll = 0;
    }

    /// Whether another picture shows the same diagram session.
    fn keeps_session(&self, snapshot: &UiSnapshot) -> (r: bool)
        ensures
            r == (session_of(self.snapshot, self@.scope) == session_of(*snapshot, snapshot.scope)),
    {
        proof {
            reveal(app_view);
        }
        same_session(&diagram_session_key(&self.snapshot), &diagram_session_key(snapshot))
    }

    fn show(&mut self, snapshot: UiSnapshot)
        ensures
            final(self)@ == shown(old(self)@, old(self).snapshot, snapshot),
            final(self).snapshot == snapshot,
    {
        proof {
            reveal(shown);
        }
        self.retarget_diff(&snapshot);
        self.change_session(&snapshot);
        self.replace_data(snapshot);
    }

    fn renew(&mut self, regenerated: bool, restart: bool, reselected: bool)
        ensures
            final(self)@ == renewed(old(self)@, old(self).snapshot, regenerated, restart, reselected),
            final(self).snapshot == old(self).snapshot,
    {
        proof {
            reveal(renewed);
        }
        self.change_generated(regenerated, restart);
        if reselected {
            self.reset_lists();
        }
        self.clamp();
    }

    fn rejoin(&mut self, same_target: bool, key: Option<AiSummaryKey>)
        ensures
            final(self)@ == rejoined(old(self)@, old(self).snapshot, same_target, optional_summary(key)),
            final(self).snapshot == old(self).snapshot,
    {
        proof {
            reveal(rejoined);
        }
        if same_target {
            self.refresh_plan_hover();
        }
        match key {
            Some(k) => self.restore_selection(&k),
            None => {},
        }
    }

    fn swap(&mut self, snapshot: UiSnapshot)
        ensures
            final(self)@ == swapped(old(self)@, old(self).snapshot, snapshot),
            final(self).snapshot == snapshot,
    {
        let retargeted: bool = !same_text(self.snapshot.diff.title.as_str(), snapshot.diff.title.as_str());
        let reselected: bool = !same_selection(
            &self.snapshot.impact.selected_change,
            &snapshot.impact.selected_change,
        );
        let replanned: bool = !same_optional_plan(&self.snapshot.semantic.plan, &snapshot.semantic.plan);
        let noted: bool = !same_text(self.snapshot.semantic.note.as_str(), snapshot.semantic.note.as_str());
        let started: bool = !self.snapshot.ai_activity.active && snapshot.ai_activity.active;
        let regenerated: bool = noted || replanned || reselected || started;
        let same_session: bool = self.keeps_session(&snapshot);
        let keep = self.selected_summary_key();
        self.show(snapshot);
        self.renew(regenerated, replanned && same_session, reselected);
        self.rejoin(!retargeted && !reselected, keep);
    }

    /// Replace the snapshot, clamping selection into the new bounds.
    ///
    /// The diff pane follows the files-pane selection: when it is retargeted to a different
    /// file or object, it stands where that one was left instead of keeping the scroll offset
    /// of the old one; the first time at the top of a file, and at the first changed row of an
    /// object. Selection identity survives the swap: directory insertion and asynchronously
    /// arriving symbols both shift flat indices.
    pub fn update(&mut self, snapshot: UiSnapshot)
        ensures
            final(self)@ == updated(old(self)@, old(self).snapshot, snapshot),
            final(self).snapshot == snapshot,
    {
        let left = self.viewport_key();
        let at: DiffPosition = self.diff_position();
        self.swap(snapshot);
        self.settle(left, at);
    }
}

/// Forget the sessions of other epochs.
fn retain_epoch(sessions: &mut Table<DiagramSessionKey, DiagramViewState>, epoch: Epoch)
    ensures
        final(sessions)@ == current_sessions(old(sessions)@, epoch),
{
    let ghost start = sessions@;
    let keys = sessions.keys();
    let mut gone: Vec<DiagramSessionKey> = Vec::new();
    let mut i: usize = 0;
    while i < keys.len()
        invariant
            i <= keys.len(),
            forall|k: SessionView| #![trigger holds(gone@, k)] holds(gone@, k) <==> k.epoch != epoch && holds(
                keys@.take(i as int),
                k,
            ),
        decreases keys.len() - i,
    {
        let ghost before = gone@;
        proof {
            assert(keys@.take(i + 1) =~= keys@.take(i as int).push(keys@[i as int]));
            lemma_holds_push(keys@.take(i as int), keys@[i as int]);
        }
        if keys[i].epoch != epoch {
            let copy = keys[i].copied();
            proof {
                lemma_holds_push(before, copy);
            }
            gone.push(copy);
            proof {
                assert forall|k: SessionView| #![trigger holds(gone@, k)] holds(gone@, k) <==> k.epoch != epoch
                    && holds(keys@.take(i + 1), k) by {
                    assert(holds(before, k) <==> k.epoch != epoch && holds(keys@.take(i as int), k));
                    assert(holds(gone@, k) == (holds(before, k) || k == copy@));
                    assert(holds(keys@.take(i + 1), k) == (holds(keys@.take(i as int), k) || k == keys@[i as int]@));
                }
            }
        } else {
            proof {
                assert forall|k: SessionView| #![trigger holds(gone@, k)] holds(gone@, k) <==> k.epoch != epoch
                    && holds(keys@.take(i + 1), k) by {
                    assert(holds(before, k) <==> k.epoch != epoch && holds(keys@.take(i as int), k));
                    assert(holds(keys@.take(i + 1), k) == (holds(keys@.take(i as int), k) || k == keys@[i as int]@));
                }
            }
        }
        i = i + 1;
    }
    proof {
        assert(keys@.take(keys.len() as int) =~= keys@);
    }
    remove_all(sessions, &gone);
    proof {
        let kept = current_sessions(start, epoch);
        assert forall|k: SessionView| sessions@.dom().contains(k) == #[trigger] kept.dom().contains(k) by {
            assert(holds(gone@, k) <==> k.epoch != epoch && holds(keys@, k));
            assert(holds(keys@, k) <==> start.dom().contains(k));
            assert(held(gone@).contains(k) == holds(gone@, k));
        }
        assert(sessions@ =~= kept);
    }
}

/// Whether a directory still holds a changed file.
fn directory_holds_file(files: &[FileRow], directory: &str) -> (r: bool)
    ensures
        r == holds_file(files@, directory@),
{
    let prefix = joined(directory, "/");
    let mut f: usize = 0;
    while f < files.len()
        invariant
            f <= files.len(),
            prefix@ == directory@ + "/"@,
            forall|k: int| 0 <= k < f ==> !prefix@.is_prefix_of(#[trigger] files@[k].path@),
        decreases files.len() - f,
    {
        if starts_with(files[f].path.as_str(), prefix.as_str()) {
            return true;
        }
        f = f + 1;
    }
    false
}

/// Forget collapsed directories without a changed file.
fn retain_directories(collapsed: &mut KeySet<String>, files: &[FileRow])
    ensures
        final(collapsed)@ == Set::new(|d: Seq<char>| old(collapsed)@.contains(d) && holds_file(files@, d)),
{
    let ghost start = collapsed@;
    let mut kept: KeySet<String> = KeySet::new();
    let items = collapsed.items();
    let mut i: usize = 0;
    while i < items.len()
        invariant
            i <= items.len(),
            forall|d: Seq<char>| #[trigger] kept@.contains(d) <==> holds_file(files@, d) && holds(
                items@.take(i as int),
                d,
            ),
        decreases items.len() - i,
    {
        let ghost before = kept@;
        proof {
            assert(items@.take(i + 1) =~= items@.take(i as int).push(items@[i as int]));
            lemma_holds_push(items@.take(i as int), items@[i as int]);
        }
        if directory_holds_file(files, items[i].as_str()) {
            let _ = kept.insert(items[i].copied());
        }
        proof {
            assert forall|d: Seq<char>| #[trigger] kept@.contains(d) <==> holds_file(files@, d) && holds(
                items@.take(i + 1),
                d,
            ) by {
                assert(before.contains(d) <==> holds_file(files@, d) && holds(items@.take(i as int), d));
                assert(holds(items@.take(i + 1), d) == (holds(items@.take(i as int), d) || d == items@[i as int]@));
            }
        }
        i = i + 1;
    }
    proof {
        assert(items@.take(items.len() as int) =~= items@);
        assert forall|d: Seq<char>| #[trigger] kept@.contains(d) == (start.contains(d) && holds_file(files@, d)) by {
            assert(start.contains(d) <==> holds(items@, d));
        }
        assert(kept@ =~= Set::new(|d: Seq<char>| start.contains(d) && holds_file(files@, d)));
    }
    *collapsed = kept;
}

} // verus!
