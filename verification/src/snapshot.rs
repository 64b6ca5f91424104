//! The immutable picture of a review that the interface shows.

use vstd::prelude::*;
use crate::plan::{Epoch, VisualizationPlan};
use crate::text::same_text;

verus! {

/// Which changes are compared.
#[derive(Debug, Clone, Copy, PartialEq, Eq, Structural, Hash)]
pub enum ChangeScope {
    /// The branch against its base.
    Branch,
    Staged,
    Unstaged,
    /// All uncommitted changes.
    Working,
}

/// How far the analysis of one file has come.
#[derive(Debug, Clone, Copy, PartialEq, Eq, Structural)]
pub enum FileSemanticLoad {
    Unloaded,
    Loading,
    Ready,
    Unsupported,
    Failed,
}

/// One changed symbol of a file.
#[derive(Debug, Clone, PartialEq, Eq)]
pub struct SymbolRow {
    pub name: String,
    pub change: &'static str,
    pub confidence: &'static str,
    pub has_diagnostic: bool,
    /// Line and column of the identifier.
    pub position: Option<(u32, u32)>,
}

/// One changed file.
#[derive(Debug, Clone, PartialEq, Eq)]
pub struct FileRow {
    pub path: String,
    pub status: &'static str,
    pub changed_symbol_count: usize,
    pub added_lines: usize,
    pub removed_lines: usize,
    pub symbols: Vec<SymbolRow>,
    pub expanded: bool,
    pub semantic: FileSemanticLoad,
}

/// Stable identity of a selectable row of the changed tree.
#[derive(Debug, Clone, PartialEq, Eq)]
pub enum AiSummaryKey {
    Directory(String),
    File(String),
    Symbol { file: String, name: String, position: Option<(u32, u32)> },
}

/// One line of the diff pane.
#[derive(Debug, Clone, PartialEq, Eq)]
pub enum DiffRow {
    /// A `@@` hunk header.
    HunkHeader(String),
    /// An added line.
    Add { new_ln: u32, text: String },
    /// A removed line.
    Del { old_ln: u32, text: String },
    /// An unchanged line.
    Context { old_ln: u32, new_ln: u32, text: String },
}

/// The diff of the selected file.
#[derive(Debug, Clone, PartialEq, Eq)]
pub struct DiffPane {
    /// Repo-relative path; a directory ends with a slash.
    pub title: String,
    pub focused_symbol: Option<String>,
    pub rows: Vec<DiffRow>,
    pub current_hunk: usize,
    pub total_hunks: usize,
}

/// Where the text about a selected change comes from.
#[derive(Debug, Clone, Copy, PartialEq, Eq, Structural)]
pub enum InterpretationSource {
    Deterministic,
    Generated,
}

/// What is selected, and what happened to it.
#[derive(Debug, Clone, PartialEq, Eq)]
pub struct SelectedChange {
    pub file: String,
    pub label: String,
    pub change: &'static str,
    pub interpretation: String,
    pub interpretation_source: InterpretationSource,
}

/// How far a relationship list has been loaded.
#[derive(Debug, Clone, Copy, PartialEq, Eq, Structural)]
pub enum ImpactLoadState {
    Idle,
    Loading,
    Ready,
    Unavailable,
}

/// One caller or downstream relationship.
#[derive(Debug, Clone, PartialEq, Eq)]
pub struct ImpactRow {
    pub label: String,
    pub relation: &'static str,
    pub changed: bool,
    pub has_diagnostic: bool,
}

/// One relationship list.
#[derive(Debug, Clone, PartialEq, Eq)]
pub struct ImpactList {
    pub rows: Vec<ImpactRow>,
    pub state: ImpactLoadState,
    /// Whether some relationships are known to be missing.
    pub partial: bool,
}

/// The relationships of the selected change.
#[derive(Debug, Clone, PartialEq, Eq)]
pub struct ImpactPane {
    pub selected_change: Option<SelectedChange>,
    pub callers: ImpactList,
    pub downstream: ImpactList,
    pub note: String,
}

/// What the validation of a plan concluded.
#[derive(Debug, Clone, Copy, PartialEq, Eq, Structural)]
pub enum ValidationVerdict {
    Valid,
    ValidWithDrops,
    Rejected,
}

/// One item that validation took out of a plan.
#[derive(Debug, Clone, PartialEq, Eq)]
pub struct DroppedItem {
    pub subject: String,
    pub reason: String,
}

/// What validation made of a plan.
#[derive(Debug, Clone, PartialEq, Eq)]
pub struct ValidationReport {
    pub verdict: ValidationVerdict,
    pub dropped: Vec<DroppedItem>,
}

/// The generated half of the Impact pane.
#[derive(Debug, Clone, PartialEq, Eq)]
pub struct SemanticPane {
    pub report: Option<ValidationReport>,
    pub plan: Option<VisualizationPlan>,
    pub note: String,
    pub ai_generated: bool,
}

/// What the generator is doing.
#[derive(Debug, Clone, PartialEq, Eq)]
pub enum AiStatus {
    Idle,
    Disabled,
    WaitingForSymbols { epoch: Epoch },
    WaitingForRelations { epoch: Epoch },
    Debouncing { epoch: Epoch },
    Queued { epoch: Epoch, position: usize },
    Loading { since_epoch: Epoch },
    Ready { epoch: Epoch },
    Stale { epoch: Epoch },
    Failed { reason: String },
}

/// What the language server is doing.
#[derive(Debug, Clone, Copy, PartialEq, Eq, Structural)]
pub enum LsStatus {
    Starting,
    Indexing,
    Ready,
    Degraded,
    Failed,
}

/// How serious a status message is.
#[derive(Debug, Clone, Copy, PartialEq, Eq, Structural)]
pub enum StatusLevel {
    Info,
    Warning,
    Error,
}

/// The message in the footer.
#[derive(Debug, Clone, PartialEq, Eq)]
pub struct StatusMessage {
    pub text: String,
    /// The whole message, where `text` is a short form of it.
    pub detail: Option<String>,
    pub level: StatusLevel,
}

/// Which repository is reviewed.
#[derive(Debug, Clone, PartialEq, Eq)]
pub struct RepoInfo {
    pub repo_name: String,
    pub branch: String,
    pub base: Option<String>,
}

/// Tokens spent on generation.
#[derive(Debug, Clone, Copy, PartialEq, Eq, Structural)]
pub struct AiTokens {
    pub input: u64,
    pub output: u64,
}

/// Whether a generator run is under way.
#[derive(Debug, Clone, Copy, PartialEq, Eq, Structural)]
pub struct AiActivity {
    pub active: bool,
}

/// The parsed change of one file.
#[derive(Debug, Clone, PartialEq, Eq)]
pub struct FileChange {
    pub path: String,
    /// The change in serialised form; absent where it could not be serialised.
    pub parsed: Option<Vec<u8>>,
}

/// The unified diff text of one file.
#[derive(Debug, Clone, PartialEq, Eq)]
pub struct UnifiedDiffSection {
    pub path: String,
    pub text: String,
}

/// A complete parsed comparison.
#[derive(Debug, Clone, PartialEq, Eq)]
pub struct ChangeSet {
    pub scope: ChangeScope,
    pub files: Vec<FileChange>,
    pub diff_sections: Option<Vec<UnifiedDiffSection>>,
}

/// The part of a diff that the user has selected.
#[derive(Debug, Clone, PartialEq, Eq)]
pub struct SelectedDiffContext {
    pub file: String,
    pub text: String,
}

/// Everything the interface shows.
#[derive(Debug, Clone, PartialEq, Eq)]
pub struct UiSnapshot {
    pub files: Vec<FileRow>,
    pub diff: DiffPane,
    pub impact: ImpactPane,
    pub semantic: SemanticPane,
    pub ai: AiStatus,
    pub epoch: Epoch,
    pub scope: ChangeScope,
    pub status: StatusMessage,
    pub ls: LsStatus,
    pub repo: RepoInfo,
    pub base_ref: String,
    pub available_bases: Vec<String>,
    pub base_candidates_truncated: bool,
    pub available_models: Vec<String>,
    pub ai_model: String,
    pub ai_provider: String,
    pub ai_reasoning_effort: String,
    pub available_reasoning_efforts: Vec<String>,
    pub model_list_loading: bool,
    pub model_list_error: Option<String>,
    pub ai_tokens: AiTokens,
    pub refreshing: bool,
    pub ai_activity: AiActivity,
    pub agent_changeset: Option<ChangeSet>,
    pub agent_changeset_epoch: Epoch,
}

impl Default for DiffPane {
    fn default() -> (r: Self)
        ensures
            r.title@ == Seq::<char>::empty(),
            r.focused_symbol is None,
            r.rows.len() == 0,
            r.current_hunk == 0,
            r.total_hunks == 0,
    {
        DiffPane { title: String::new(), focused_symbol: None, rows: Vec::new(), current_hunk: 0, total_hunks: 0 }
    }
}

impl Default for ImpactList {
    fn default() -> (r: Self)
        ensures
            is_idle(r),
    {
        ImpactList { rows: Vec::new(), state: ImpactLoadState::Idle, partial: false }
    }
}

impl Default for ImpactPane {
    fn default() -> (r: Self)
        ensures
            r.selected_change is None,
            is_idle(r.callers),
            is_idle(r.downstream),
            r.note@ == Seq::<char>::empty(),
    {
        ImpactPane {
            selected_change: None,
            callers: ImpactList::default(),
            downstream: ImpactList::default(),
            note: String::new(),
        }
    }
}

impl Default for SemanticPane {
    fn default() -> (r: Self)
        ensures
            r.report is None,
            r.plan is None,
            r.note@ == Seq::<char>::empty(),
            !r.ai_generated,
    {
        SemanticPane { report: None, plan: None, note: String::new(), ai_generated: false }
    }
}

impl Default for StatusMessage {
    fn default() -> (r: Self)
        ensures
            is_silent(r),
    {
        StatusMessage { text: String::new(), detail: None, level: StatusLevel::Info }
    }
}

/// A relationship list before anything was asked.
pub open spec fn is_idle(list: ImpactList) -> bool {
    list.rows.len() == 0 && list.state == ImpactLoadState::Idle && !list.partial
}

/// A footer without a message.
pub open spec fn is_silent(status: StatusMessage) -> bool {
    status.text@ == Seq::<char>::empty() && status.detail is None && status.level == StatusLevel::Info
}

/// The picture before anything has been scanned, whatever the footer says.
pub open spec fn is_blank(s: UiSnapshot) -> bool {
    &&& s.files.len() == 0
    &&& s.diff.title@ == Seq::<char>::empty()
    &&& s.diff.focused_symbol is None
    &&& s.diff.rows.len() == 0
    &&& s.diff.current_hunk == 0
    &&& s.diff.total_hunks == 0
    &&& s.impact.selected_change is None
    &&& is_idle(s.impact.callers)
    &&& is_idle(s.impact.downstream)
    &&& s.impact.note@ == Seq::<char>::empty()
    &&& s.semantic.report is None
    &&& s.semantic.plan is None
    &&& s.semantic.note@ == Seq::<char>::empty()
    &&& !s.semantic.ai_generated
    &&& s.ai == AiStatus::Idle
    &&& s.epoch == Epoch(0)
    &&& s.scope == ChangeScope::Branch
    &&& s.ls == LsStatus::Starting
    &&& s.repo.repo_name@ == Seq::<char>::empty()
    &&& s.repo.branch@ == Seq::<char>::empty()
    &&& s.repo.base is None
    &&& s.base_ref@ == Seq::<char>::empty()
    &&& s.available_bases.len() == 0
    &&& !s.base_candidates_truncated
    &&& s.available_models.len() == 0
    &&& s.ai_model@ == Seq::<char>::empty()
    &&& s.ai_provider@ == Seq::<char>::empty()
    &&& s.ai_reasoning_effort@ == "default"@
    &&& s.available_reasoning_efforts.len() == 0
    &&& !s.model_list_loading
    &&& s.model_list_error is None
    &&& s.ai_tokens == (AiTokens { input: 0, output: 0 })
    &&& !s.refreshing
    &&& !s.ai_activity.active
    &&& s.agent_changeset is None
    &&& s.agent_changeset_epoch == Epoch(0)
}

impl Default for UiSnapshot {
    fn default() -> (r: Self)
        ensures
            is_blank(r),
            is_silent(r.status),
    {
        UiSnapshot {
            files: Vec::new(),
            diff: DiffPane::default(),
            impact: ImpactPane::default(),
            semantic: SemanticPane::default(),
            ai: AiStatus::Idle,
            epoch: Epoch(0),
            scope: ChangeScope::Branch,
            status: StatusMessage::default(),
            ls: LsStatus::Starting,
            repo: RepoInfo { repo_name: String::new(), branch: String::new(), base: None },
            base_ref: String::new(),
            available_bases: Vec::new(),
            base_candidates_truncated: false,
            available_models: Vec::new(),
            ai_model: String::new(),
            ai_provider: String::new(),
            ai_reasoning_effort: "default".to_owned(),
            available_reasoning_efforts: Vec::new(),
            model_list_loading: false,
            model_list_error: None,
            ai_tokens: AiTokens { input: 0, output: 0 },
            refreshing: false,
            ai_activity: AiActivity { active: false },
            agent_changeset: None,
            agent_changeset_epoch: Epoch(0),
        }
    }
}

impl UiSnapshot {
    /// The picture shown while the repository is scanned for the first time.
    pub fn placeholder() -> (r: UiSnapshot)
        ensures
            is_blank(r),
            r.status.text@ == "scanning repository…"@,
            r.status.detail is None,
            r.status.level == StatusLevel::Info,
    {
        let mut snapshot = UiSnapshot::default();
        snapshot.status = StatusMessage {
            text: "scanning repository…".to_owned(),
            detail: None,
            level: StatusLevel::Info,
        };
        snapshot
    }

    /// The failure behind the generated pane's banner: present exactly while generation has
    /// failed, with the whole reason as its detail.
    pub fn ai_failure_status(&self) -> (r: Option<StatusMessage>)
        ensures
            r is Some == (self.ai is Failed),
            r matches Some(status) ==> {
                &&& status.text@ == "AI generation failed"@
                &&& status.detail is Some
                &&& status.detail->0@ == self.ai->reason@
                &&& status.level == StatusLevel::Warning
            },
    {
        match &self.ai {
            AiStatus::Failed { reason } => Some(
                StatusMessage {
                    text: "AI generation failed".to_owned(),
                    detail: Some(reason.clone()),
                    level: StatusLevel::Warning,
                },
            ),
            _ => None,
        }
    }
}

impl ImpactPane {
    /// Whether there is a relationship to list, or one may still come.
    pub open spec fn relationships_spec(&self) -> bool {
        ||| self.callers.rows.len() > 0
        ||| self.downstream.rows.len() > 0
        ||| self.callers.state == ImpactLoadState::Loading
        ||| self.downstream.state == ImpactLoadState::Loading
    }

    /// Whether the relationship stack has anything to show beside the generated half.
    pub fn has_relationships(&self) -> (r: bool)
        ensures
            r == self.relationships_spec(),
    {
        self.callers.rows.len() > 0 || self.downstream.rows.len() > 0 || self.callers.state
            == ImpactLoadState::Loading || self.downstream.state == ImpactLoadState::Loading
    }
}

/// Two diff rows with the same contents.
pub open spec fn equal_rows(a: DiffRow, b: DiffRow) -> bool {
    match (a, b) {
        (DiffRow::HunkHeader(x), DiffRow::HunkHeader(y)) => x@ == y@,
        (DiffRow::Add { new_ln: l, text: x }, DiffRow::Add { new_ln: m, text: y }) => l == m && x@ == y@,
        (DiffRow::Del { old_ln: l, text: x }, DiffRow::Del { old_ln: m, text: y }) => l == m && x@ == y@,
        (
            DiffRow::Context { old_ln: l, new_ln: n, text: x },
            DiffRow::Context { old_ln: m, new_ln: o, text: y },
        ) => l == m && n == o && x@ == y@,
        _ => false,
    }
}

/// Two lists of diff rows with the same contents.
pub open spec fn equal_row_lists(a: Seq<DiffRow>, b: Seq<DiffRow>) -> bool {
    a.len() == b.len() && forall|i: int| 0 <= i < a.len() ==> equal_rows(#[trigger] a[i], b[i])
}

fn same_row(a: &DiffRow, b: &DiffRow) -> (r: bool)
    ensures
        r == equal_rows(*a, *b),
{
    match (a, b) {
        (DiffRow::HunkHeader(x), DiffRow::HunkHeader(y)) => same_text(x.as_str(), y.as_str()),
        (DiffRow::Add { new_ln: l, text: x }, DiffRow::Add { new_ln: m, text: y }) => *l == *m && same_text(
            x.as_str(),
            y.as_str(),
        ),
        (DiffRow::Del { old_ln: l, text: x }, DiffRow::Del { old_ln: m, text: y }) => *l == *m && same_text(
            x.as_str(),
            y.as_str(),
        ),
        (
            DiffRow::Context { old_ln: l, new_ln: n, text: x },
            DiffRow::Context { old_ln: m, new_ln: o, text: y },
        ) => *l == *m && *n == *o && same_text(x.as_str(), y.as_str()),
        _ => false,
    }
}

/// Whether two lists of diff rows hold the same.
pub fn same_rows(a: &Vec<DiffRow>, b: &Vec<DiffRow>) -> (r: bool)
    ensures
        r == equal_row_lists(a@, b@),
{
    if a.len() != b.len() {
        return false;
    }
    let mut i: usize = 0;
    while i < a.len()
        invariant
            i <= a.len() == b.len(),
            forall|k: int| 0 <= k < i ==> equal_rows(#[trigger] a@[k], b@[k]),
        decreases a.len() - i,
    {
        if !same_row(&a[i], &b[i]) {
            return false;
        }
        i = i + 1;
    }
    true
}

/// Two optional selections that say the same.
pub open spec fn equal_selections(a: Option<SelectedChange>, b: Option<SelectedChange>) -> bool {
    match (a, b) {
        (Some(x), Some(y)) => {
            &&& x.file@ == y.file@
            &&& x.label@ == y.label@
            &&& x.change@ == y.change@
            &&& x.interpretation@ == y.interpretation@
            &&& x.interpretation_source == y.interpretation_source
        },
        (None, None) => true,
        _ => false,
    }
}

/// Whether two optional selections say the same.
pub fn same_selection(a: &Option<SelectedChange>, b: &Option<SelectedChange>) -> (r: bool)
    ensures
        r == equal_selections(*a, *b),
{
    match (a, b) {
        (Some(x), Some(y)) => same_text(x.file.as_str(), y.file.as_str()) && same_text(
            x.label.as_str(),
            y.label.as_str(),
        ) && same_text(x.change, y.change) && same_text(x.interpretation.as_str(), y.interpretation.as_str())
            && x.interpretation_source == y.interpretation_source,
        (None, None) => true,
        _ => false,
    }
}

} // verus!
