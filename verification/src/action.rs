//! User intents, and the modeless keymap as a pure function.
//!
//! The library is read-only, so there is a single "normal" mode. Vim keys and arrows both
//! work; `?` opens the help modal.

use vstd::prelude::*;
use crate::app::{app_view, tree_toggle, App, AppView, Pane, UiPreferences};
use crate::divider::DividerId;
use crate::event::{KeyCode, KeyEvent, KeyEventKind};
use crate::file_rows::SummaryView;
use crate::review::ReviewTarget;
use crate::scroll::ScrollRegionId;
use crate::snapshot::{AiSummaryKey, ChangeScope, SelectedDiffContext, StatusLevel, StatusMessage};
use crate::table::Key;
use crate::text::same_text;

verus! {

/// Stable identity of one node of the current plan.
///
/// Node ids are local to a form, so the form index is part of every target.
#[derive(Debug, Clone, PartialEq, Eq, Hash)]
pub struct PlanNodeTarget {
    /// Zero-based form index inside the plan.
    pub form: usize,
    /// Plan-local node id.
    pub id: String,
}

/// A plan node, by contents.
#[verifier::ext_equal]
pub struct TargetView {
    pub form: int,
    pub id: Seq<char>,
}

impl View for PlanNodeTarget {
    type V = TargetView;

    open spec fn view(&self) -> TargetView {
        TargetView { form: self.form as int, id: self.id@ }
    }
}

impl Key for PlanNodeTarget {
    fn same(&self, other: &Self) -> (r: bool) {
        self.form == other.form && same_text(self.id.as_str(), other.id.as_str())
    }

    fn copied(&self) -> (r: Self) {
        PlanNodeTarget { form: self.form, id: self.id.clone() }
    }
}

/// Stable identity of one displayed relationship inside the current plan.
#[derive(Debug, Clone, PartialEq, Eq, Hash)]
pub struct PlanRelationshipTarget {
    /// Zero-based form index inside the plan.
    pub form: usize,
    /// Zero-based edge index inside the form. This distinguishes parallel edges with the
    /// same endpoints, which can have distinct labels and interaction state.
    pub edge: usize,
    /// Source plan-local node id.
    pub from: String,
    /// Destination plan-local node id.
    pub to: String,
}

/// A relationship, by contents.
#[verifier::ext_equal]
pub struct RelationshipView {
    pub form: int,
    pub edge: int,
    pub from: Seq<char>,
    pub to: Seq<char>,
}

impl View for PlanRelationshipTarget {
    type V = RelationshipView;

    open spec fn view(&self) -> RelationshipView {
        RelationshipView { form: self.form as int, edge: self.edge as int, from: self.from@, to: self.to@ }
    }
}

impl Key for PlanRelationshipTarget {
    fn same(&self, other: &Self) -> (r: bool) {
        self.form == other.form && self.edge == other.edge && same_text(self.from.as_str(), other.from.as_str())
            && same_text(self.to.as_str(), other.to.as_str())
    }

    fn copied(&self) -> (r: Self) {
        PlanRelationshipTarget {
            form: self.form,
            edge: self.edge,
            from: self.from.clone(),
            to: self.to.clone(),
        }
    }
}

/// An optional node, by contents.
pub open spec fn optional_target(t: Option<PlanNodeTarget>) -> Option<TargetView> {
    match t {
        Some(x) => Some(x@),
        None => None,
    }
}

/// Display-cell position inside the fully laid-out diff text.
#[derive(Debug, Clone, Copy, PartialEq, Eq, Structural)]
pub struct DiffTextPoint {
    /// Physical wrapped/raw display row.
    pub row: usize,
    /// Display-cell column, including the dual line-number gutter.
    pub column: usize,
}

/// One retained linear selection in the rendered diff.
#[derive(Debug, Clone, Copy, PartialEq, Eq, Structural)]
pub struct DiffTextSelection {
    /// Gesture anchor.
    pub start: DiffTextPoint,
    /// Current/released endpoint.
    pub end: DiffTextPoint,
}

impl Default for DiffTextPoint {
    fn default() -> (r: Self)
        ensures
            r == (DiffTextPoint { row: 0, column: 0 }),
    {
        DiffTextPoint { row: 0, column: 0 }
    }
}

impl Default for DiffTextSelection {
    fn default() -> (r: Self)
        ensures
            r.start == (DiffTextPoint { row: 0, column: 0 }),
            r.end == r.start,
    {
        DiffTextSelection { start: DiffTextPoint { row: 0, column: 0 }, end: DiffTextPoint { row: 0, column: 0 } }
    }
}

/// A user intent. The dispatcher turns these into work; [`crate::app::App::apply`] turns
/// them into view state.
#[derive(Debug, Clone, PartialEq)]
pub enum Action {
    /// Quit (terminal restored by the caller).
    Quit,
    /// Toggle the help modal.
    ToggleHelp,
    /// Open/close the full status-message detail overlay. Mouse clicks produce this;
    /// `Esc` closes the overlay once open.
    ToggleStatusDetail,
    /// Open a particular frozen diagnostic, such as the retained failure behind the
    /// generated-pane failure banner. Unlike `ToggleStatusDetail`, this does not depend
    /// on whichever transient message currently occupies the footer.
    OpenStatusDetail(StatusMessage),
    /// Focus a pane directly (`1`/`2`/`3`).
    Focus(Pane),
    /// Tab on the files pane: set the expansion of the file the selection is on now. The
    /// path is resolved at keypress time and carried with the command. Idempotent.
    SetFileExpanded {
        /// Repo-relative path of the file row.
        path: String,
        /// The desired expansion state.
        expanded: bool,
    },
    /// Expand or collapse a synthesized changed-directory row. This is local view state.
    SetDirectoryExpanded {
        /// Repo-relative directory without a trailing slash.
        path: String,
        /// Desired expansion state.
        expanded: bool,
    },
    /// Move the selection/scroll down by one.
    Down,
    /// Move the selection/scroll up by one.
    Up,
    HalfPageDown,
    HalfPageUp,
    PageDown,
    PageUp,
    Top,
    Bottom,
    /// Activate the selection.
    Activate,
    /// The files-pane selection moved: the diff pane retargets to the selected file. Never
    /// produced by [`map_key`].
    SelectionChanged {
        /// Selected changed file; `None` when the file list is empty.
        file: Option<String>,
        /// Selected symbol (name, identifier line, identifier col) when the selection sits
        /// on a symbol row with a position.
        symbol: Option<(String, u32, u32)>,
    },
    /// The files-pane selection moved to a directory summary scope.
    DirectorySelectionChanged {
        /// Repo-relative directory without a trailing slash.
        directory: String,
    },
    /// A local control client asked the running UI to focus a changed-tree entity.
    AgentFocus(AiSummaryKey),
    /// Apply one atomic command to the shared diagram draft.
    AgentDiagram {
        /// Identity returned through the published snapshot after the dispatcher applies it.
        request_id: u64,
        /// The mutation in serialised form.
        command: String,
    },
    /// Record a controller edit that could not be decoded.
    AgentDiagramRejected {
        /// Identity returned through the published snapshot after the dispatcher rejects it.
        request_id: u64,
        /// Bounded operation/subject label.
        detail: String,
        /// Scrubbed parse failure.
        error: String,
    },
    /// The user selected a changed symbol; the dispatcher lazily expands its callers/callees.
    SelectSymbol {
        /// Repo-relative file of the symbol.
        file: String,
        /// Symbol name.
        name: String,
        /// Line (0-based) of the symbol's identifier.
        line: u32,
        /// Column (0-based, utf-8) of the identifier.
        col: u32,
    },
    /// Expand / collapse the selected tree node.
    ToggleExpand,
    /// Toggle the explicit review mark on the selected directory or file.
    ToggleReviewed,
    /// Mouse: toggle one review marker without changing the files-pane selection.
    ToggleReviewedTarget(ReviewTarget),
    /// Collapse the selected node.
    Collapse,
    /// Expand the selected node.
    Expand,
    ScopeStaged,
    ScopeUnstaged,
    ScopeBranch,
    ScopeWorking,
    /// Cycle scope (branch → staged → unstaged → working).
    ScopeCycle,
    /// Refresh repository state from Git and the working tree.
    RefreshGit,
    /// Generate or regenerate output for the currently selected directory, file, or symbol.
    GenerateAi,
    /// Toggle between manual-trigger and automatic selection-following generation.
    ToggleAiGenerationMode,
    /// Open/close the model picker modal.
    ModelPicker,
    /// Apply the model picker's staged model and reasoning budget together.
    AiSettingsSelected {
        /// Provider model id, or empty while the run loop resolves the highlighted row.
        model: String,
        /// Reasoning budget, or empty while the run loop resolves the staged control.
        reasoning_effort: String,
    },
    /// Move to the previous reasoning budget while the model picker is open.
    ReasoningEffortPrevious,
    /// Move to the next reasoning budget while the model picker is open.
    ReasoningEffortNext,
    /// Open/close the comparison-base picker modal.
    BasePicker,
    /// The user picked a base ref in the picker (the dispatcher applies it).
    BaseSelected(String),
    /// A typed character appended to the open picker's filter query.
    PickerInput(char),
    /// Backspace in the open picker's filter query.
    PickerBackspace,
    NextHunk,
    PrevHunk,
    /// Toggle zoom of the focused pane into the whole main area (`z`).
    ToggleZoom,
    /// Toggle smart wrap in the diff pane (`W`); raw mode clips + h-scrolls.
    ToggleWrap,
    /// Reset the diff pane's horizontal scroll to zero (`0`).
    ResetHScroll,
    /// Mouse motion: set the generated-plan node currently under the pointer. `None`
    /// clears transient hover and its linked diff highlighting.
    HoverPlanNode(Option<PlanNodeTarget>),
    /// Mouse click: expand or collapse one generated-plan box in place.
    TogglePlanNode(PlanNodeTarget),
    /// Mouse drag: move one generated-plan box to this content-local top-left position.
    MovePlanNode {
        /// Box being moved.
        target: PlanNodeTarget,
        /// Requested content-local column.
        x: u16,
        /// Requested content-local row.
        y: u16,
    },
    /// Mouse click: show or hide clipped relationship text in an in-place canvas overlay.
    TogglePlanRelationship(PlanRelationshipTarget),
    /// Mouse wheel: set the absolute page offset of the visible relationship overlay.
    ScrollPlanRelationshipOverlay {
        /// Clamped overlay line offset from the complete relationship text.
        offset: usize,
    },
    /// Mouse drag preview: update the visible diff text selection.
    SetDiffSelection(DiffTextSelection),
    /// Mouse click: clear the retained diff highlight without copying anything.
    ClearDiffSelection,
    /// Mouse release: retain the selection and copy this exact visible text.
    CommitDiffSelection {
        /// Final selection range.
        selection: DiffTextSelection,
        /// Text extracted from the same retained diff frame.
        text: String,
    },
    /// Publish or clear the retained diff excerpt for local agent clients.
    SetAgentDiffSelection(Option<SelectedDiffContext>),
    /// Mouse: select the file/symbol row at this logical index (and focus Files), keeping
    /// the rows on screen where they are.
    SelectFileRow {
        /// The logical (selectable) row index.
        logical_index: usize,
        /// The first row that was on screen.
        viewport_offset: usize,
    },
    /// Mouse wheel: set the independently scrollable region under the pointer. This is
    /// absolute because the retained frame geometry owns the displayed/clamped origin.
    ScrollRegion {
        /// Stable region identity.
        region: ScrollRegionId,
        /// New absolute row offset, already clamped to the rendered content.
        offset: usize,
    },
    /// Horizontal wheel: shift an unwrapped diff without focusing it.
    ScrollDiffHorizontal {
        /// Columns to the right.
        delta: i16,
    },
    /// Mouse drag: set any registered divider's leading/trailing extent (clamped).
    ResizeDivider {
        /// Stable structural divider identity.
        divider: DividerId,
        /// Absolute requested extent in terminal cells.
        extent: u16,
    },
    /// Persist the stable global view preferences. Never produced by a key mapping.
    PersistUiPreferences(UiPreferences),
    /// The key did not map to an action.
    Nothing,
}

/// A status message, by contents.
#[verifier::ext_equal]
pub struct StatusView {
    pub text: Seq<char>,
    pub detail: Option<Seq<char>>,
    pub level: StatusLevel,
}

/// An optional text, by contents.
pub open spec fn optional_text(t: Option<String>) -> Option<Seq<char>> {
    match t {
        Some(x) => Some(x@),
        None => None,
    }
}

impl View for StatusMessage {
    type V = StatusView;

    open spec fn view(&self) -> StatusView {
        StatusView { text: self.text@, detail: optional_text(self.detail), level: self.level }
    }
}

/// A user intent, by contents.
#[verifier::ext_equal]
pub enum ActionView {
    Quit,
    ToggleHelp,
    ToggleStatusDetail,
    OpenStatusDetail(StatusView),
    Focus(Pane),
    SetFileExpanded { path: Seq<char>, expanded: bool },
    SetDirectoryExpanded { path: Seq<char>, expanded: bool },
    Down,
    Up,
    HalfPageDown,
    HalfPageUp,
    PageDown,
    PageUp,
    Top,
    Bottom,
    Activate,
    SelectionChanged { file: Option<Seq<char>>, symbol: Option<(Seq<char>, u32, u32)> },
    DirectorySelectionChanged { directory: Seq<char> },
    AgentFocus(SummaryView),
    AgentDiagram { request_id: u64, command: Seq<char> },
    AgentDiagramRejected { request_id: u64, detail: Seq<char>, error: Seq<char> },
    SelectSymbol { file: Seq<char>, name: Seq<char>, line: u32, col: u32 },
    ToggleExpand,
    ToggleReviewed,
    ToggleReviewedTarget(SummaryView),
    Collapse,
    Expand,
    ScopeStaged,
    ScopeUnstaged,
    ScopeBranch,
    ScopeWorking,
    ScopeCycle,
    RefreshGit,
    GenerateAi,
    ToggleAiGenerationMode,
    ModelPicker,
    AiSettingsSelected { model: Seq<char>, reasoning_effort: Seq<char> },
    ReasoningEffortPrevious,
    ReasoningEffortNext,
    BasePicker,
    BaseSelected(Seq<char>),
    PickerInput(char),
    PickerBackspace,
    NextHunk,
    PrevHunk,
    ToggleZoom,
    ToggleWrap,
    ResetHScroll,
    HoverPlanNode(Option<TargetView>),
    TogglePlanNode(TargetView),
    MovePlanNode { target: TargetView, x: u16, y: u16 },
    TogglePlanRelationship(RelationshipView),
    ScrollPlanRelationshipOverlay { offset: int },
    SetDiffSelection(DiffTextSelection),
    ClearDiffSelection,
    CommitDiffSelection { selection: DiffTextSelection, text: Seq<char> },
    SetAgentDiffSelection(Option<(Seq<char>, Seq<char>)>),
    SelectFileRow { logical_index: int, viewport_offset: int },
    ScrollRegion { region: ScrollRegionId, offset: int },
    ScrollDiffHorizontal { delta: i16 },
    ResizeDivider { divider: DividerId, extent: u16 },
    PersistUiPreferences(UiPreferences),
    Nothing,
}

impl View for Action {
    type V = ActionView;

    open spec fn view(&self) -> ActionView {
        match *self {
            Action::Quit => ActionView::Quit,
            Action::ToggleHelp => ActionView::ToggleHelp,
            Action::ToggleStatusDetail => ActionView::ToggleStatusDetail,
            Action::OpenStatusDetail(status) => ActionView::OpenStatusDetail(status@),
            Action::Focus(pane) => ActionView::Focus(pane),
            Action::SetFileExpanded { path, expanded } => ActionView::SetFileExpanded { path: path@, expanded },
            Action::SetDirectoryExpanded { path, expanded } => ActionView::SetDirectoryExpanded {
                path: path@,
                expanded,
            },
            Action::Down => ActionView::Down,
            Action::Up => ActionView::Up,
            Action::HalfPageDown => ActionView::HalfPageDown,
            Action::HalfPageUp => ActionView::HalfPageUp,
            Action::PageDown => ActionView::PageDown,
            Action::PageUp => ActionView::PageUp,
            Action::Top => ActionView::Top,
            Action::Bottom => ActionView::Bottom,
            Action::Activate => ActionView::Activate,
            Action::SelectionChanged { file, symbol } => ActionView::SelectionChanged {
                file: optional_text(file),
                symbol: match symbol {
                    Some(s) => Some((s.0@, s.1, s.2)),
                    None => None,
                },
            },
            Action::DirectorySelectionChanged { directory } => ActionView::DirectorySelectionChanged {
                directory: directory@,
            },
            Action::AgentFocus(key) => ActionView::AgentFocus(key@),
            Action::AgentDiagram { request_id, command } => ActionView::AgentDiagram {
                request_id,
                command: command@,
            },
            Action::AgentDiagramRejected { request_id, detail, error } => ActionView::AgentDiagramRejected {
                request_id,
                detail: detail@,
                error: error@,
            },
            Action::SelectSymbol { file, name, line, col } => ActionView::SelectSymbol {
                file: file@,
                name: name@,
                line,
                col,
            },
            Action::ToggleExpand => ActionView::ToggleExpand,
            Action::ToggleReviewed => ActionView::ToggleReviewed,
            Action::ToggleReviewedTarget(target) => ActionView::ToggleReviewedTarget(target@),
            Action::Collapse => ActionView::Collapse,
            Action::Expand => ActionView::Expand,
            Action::ScopeStaged => ActionView::ScopeStaged,
            Action::ScopeUnstaged => ActionView::ScopeUnstaged,
            Action::ScopeBranch => ActionView::ScopeBranch,
            Action::ScopeWorking => ActionView::ScopeWorking,
            Action::ScopeCycle => ActionView::ScopeCycle,
            Action::RefreshGit => ActionView::RefreshGit,
            Action::GenerateAi => ActionView::GenerateAi,
            Action::ToggleAiGenerationMode => ActionView::ToggleAiGenerationMode,
            Action::ModelPicker => ActionView::ModelPicker,
            Action::AiSettingsSelected { model, reasoning_effort } => ActionView::AiSettingsSelected {
                model: model@,
                reasoning_effort: reasoning_effort@,
            },
            Action::ReasoningEffortPrevious => ActionView::ReasoningEffortPrevious,
            Action::ReasoningEffortNext => ActionView::ReasoningEffortNext,
            Action::BasePicker => ActionView::BasePicker,
            Action::BaseSelected(base) => ActionView::BaseSelected(base@),
            Action::PickerInput(c) => ActionView::PickerInput(c),
            Action::PickerBackspace => ActionView::PickerBackspace,
            Action::NextHunk => ActionView::NextHunk,
            Action::PrevHunk => ActionView::PrevHunk,
            Action::ToggleZoom => ActionView::ToggleZoom,
            Action::ToggleWrap => ActionView::ToggleWrap,
            Action::ResetHScroll => ActionView::ResetHScroll,
            Action::HoverPlanNode(target) => ActionView::HoverPlanNode(optional_target(target)),
            Action::TogglePlanNode(target) => ActionView::TogglePlanNode(target@),
            Action::MovePlanNode { target, x, y } => ActionView::MovePlanNode { target: target@, x, y },
            Action::TogglePlanRelationship(target) => ActionView::TogglePlanRelationship(target@),
            Action::ScrollPlanRelationshipOverlay { offset } => ActionView::ScrollPlanRelationshipOverlay {
                offset: offset as int,
            },
            Action::SetDiffSelection(selection) => ActionView::SetDiffSelection(selection),
            Action::ClearDiffSelection => ActionView::ClearDiffSelection,
            Action::CommitDiffSelection { selection, text } => ActionView::CommitDiffSelection {
                selection,
                text: text@,
            },
            Action::SetAgentDiffSelection(context) => ActionView::SetAgentDiffSelection(
                match context {
                    Some(c) => Some((c.file@, c.text@)),
                    None => None,
                },
            ),
            Action::SelectFileRow { logical_index, viewport_offset } => ActionView::SelectFileRow {
                logical_index: logical_index as int,
                viewport_offset: viewport_offset as int,
            },
            Action::ScrollRegion { region, offset } => ActionView::ScrollRegion { region, offset: offset as int },
            Action::ScrollDiffHorizontal { delta } => ActionView::ScrollDiffHorizontal { delta },
            Action::ResizeDivider { divider, extent } => ActionView::ResizeDivider { divider, extent },
            Action::PersistUiPreferences(preferences) => ActionView::PersistUiPreferences(preferences),
            Action::Nothing => ActionView::Nothing,
        }
    }
}

/// What a held key repeats: navigation only.
pub open spec fn repeat_action(code: KeyCode, v: AppView) -> ActionView {
    let picker = v.show_model_picker || v.show_base_picker;
    if v.status_detail is Some || v.show_help {
        ActionView::Nothing
    } else if code == KeyCode::Up || (code == KeyCode::Char('k') && !picker) {
        ActionView::Up
    } else if code == KeyCode::Down || (code == KeyCode::Char('j') && !picker) {
        ActionView::Down
    } else {
        ActionView::Nothing
    }
}

/// What a key means in a picker with these ways to close and to select.
pub open spec fn picker_action(key: KeyEvent, close: ActionView, select: ActionView) -> ActionView {
    match key.code {
        KeyCode::Esc => close,
        KeyCode::Up => ActionView::Up,
        KeyCode::Down => ActionView::Down,
        KeyCode::Enter => select,
        KeyCode::Backspace => ActionView::PickerBackspace,
        KeyCode::Char(c) => if key.modifiers.control || key.modifiers.alt || key.modifiers.super_key {
            ActionView::Nothing
        } else {
            ActionView::PickerInput(c)
        },
        _ => ActionView::Nothing,
    }
}

/// What a key without control means while no modal is open.
pub open spec fn normal_action(code: KeyCode, v: AppView) -> ActionView {
    match code {
        KeyCode::Esc => if v.zoomed { ActionView::ToggleZoom } else { ActionView::Nothing },
        KeyCode::Tab => match tree_toggle(v) {
            Some(action) => if v.focused == Pane::Files { action } else { ActionView::Nothing },
            None => ActionView::Nothing,
        },
        KeyCode::Down => ActionView::Down,
        KeyCode::Up => ActionView::Up,
        KeyCode::Enter => ActionView::Activate,
        KeyCode::Left => ActionView::Collapse,
        KeyCode::Right => ActionView::Expand,
        KeyCode::PageDown => ActionView::PageDown,
        KeyCode::PageUp => ActionView::PageUp,
        KeyCode::Home => ActionView::Top,
        KeyCode::End => ActionView::Bottom,
        KeyCode::Char(c) => letter_action(c, v.focused),
        _ => ActionView::Nothing,
    }
}

/// What a letter means while no modal is open.
pub open spec fn letter_action(c: char, focused: Pane) -> ActionView {
    if c == 'q' || c == 'Q' {
        ActionView::Quit
    } else if c == '?' {
        ActionView::ToggleHelp
    } else if c == '1' {
        ActionView::Focus(Pane::Files)
    } else if c == '2' {
        ActionView::Focus(Pane::Diff)
    } else if c == '3' {
        ActionView::Focus(Pane::Impact)
    } else if c == 's' {
        ActionView::ScopeStaged
    } else if c == 'u' {
        ActionView::ScopeUnstaged
    } else if c == 'B' {
        ActionView::ScopeBranch
    } else if c == 'w' {
        ActionView::ScopeWorking
    } else if c == 'S' {
        ActionView::ScopeCycle
    } else if c == 'g' {
        ActionView::RefreshGit
    } else if c == 'a' {
        ActionView::GenerateAi
    } else if c == 'A' {
        ActionView::ToggleAiGenerationMode
    } else if c == 'm' {
        ActionView::ModelPicker
    } else if c == 'b' {
        ActionView::BasePicker
    } else if c == 'j' {
        ActionView::Down
    } else if c == 'k' {
        ActionView::Up
    } else if c == ' ' {
        ActionView::ToggleExpand
    } else if c == 'h' {
        ActionView::Collapse
    } else if c == 'l' {
        ActionView::Expand
    } else if c == 'n' {
        ActionView::NextHunk
    } else if c == 'N' {
        ActionView::PrevHunk
    } else if c == 'z' {
        ActionView::ToggleZoom
    } else if c == 'v' && focused == Pane::Files {
        ActionView::ToggleReviewed
    } else if c == 'W' {
        ActionView::ToggleWrap
    } else if c == '0' {
        ActionView::ResetHScroll
    } else if c == 'G' {
        ActionView::Bottom
    } else {
        ActionView::Nothing
    }
}

/// What a key press means: the topmost open modal first, then control keys, then the rest.
pub open spec fn press_action(key: KeyEvent, v: AppView) -> ActionView {
    if v.status_detail is Some {
        if key.code == KeyCode::Esc { ActionView::ToggleStatusDetail } else { ActionView::Nothing }
    } else if v.show_help {
        if key.code == KeyCode::Esc || key.code == KeyCode::Char('?') {
            ActionView::ToggleHelp
        } else {
            ActionView::Nothing
        }
    } else if v.show_model_picker {
        if key.code == KeyCode::Left {
            ActionView::ReasoningEffortPrevious
        } else if key.code == KeyCode::Right {
            ActionView::ReasoningEffortNext
        } else {
            picker_action(
                key,
                ActionView::ModelPicker,
                ActionView::AiSettingsSelected { model: Seq::empty(), reasoning_effort: Seq::empty() },
            )
        }
    } else if v.show_base_picker {
        picker_action(key, ActionView::BasePicker, ActionView::BaseSelected(Seq::empty()))
    } else if key.modifiers.control {
        if key.code == KeyCode::Char('c') {
            ActionView::Quit
        } else if key.code == KeyCode::Char('d') {
            ActionView::HalfPageDown
        } else if key.code == KeyCode::Char('u') {
            ActionView::HalfPageUp
        } else {
            ActionView::Nothing
        }
    } else {
        normal_action(key.code, v)
    }
}

/// What a key event means.
pub open spec fn key_action(key: KeyEvent, v: AppView) -> ActionView {
    match key.kind {
        KeyEventKind::Release => ActionView::Nothing,
        KeyEventKind::Repeat => repeat_action(key.code, v),
        KeyEventKind::Press => press_action(key, v),
    }
}

/// Map a key event to an [`Action`] in the current app context.
///
/// Returns [`Action::Nothing`] for release events and unmapped keys; repeat events only
/// navigate. When the help modal is open, any key other than `?`/`Esc` is swallowed.
pub fn map_key(key: KeyEvent, app: &App) -> (action: Action)
    ensures
        action@ == key_action(key, app@),
{
    proof {
        reveal(app_view);
    }
    if key.kind == KeyEventKind::Release {
        return Action::Nothing;
    }
    if key.kind == KeyEventKind::Repeat {
        if app.status_detail.is_some() || app.show_help {
            return Action::Nothing;
        }
        // Repeats are navigation-only: holding an arrow (or j/k outside a picker) should
        // move continuously, while commands and toggles must still fire once per press.
        let picker: bool = app.show_model_picker || app.show_base_picker;
        return match key.code {
            KeyCode::Up => Action::Up,
            KeyCode::Down => Action::Down,
            KeyCode::Char(c) => if c == 'k' && !picker {
                Action::Up
            } else if c == 'j' && !picker {
                Action::Down
            } else {
                Action::Nothing
            },
            _ => Action::Nothing,
        };
    }
    if app.status_detail.is_some() {
        return match key.code {
            KeyCode::Esc => Action::ToggleStatusDetail,
            _ => Action::Nothing,
        };
    }
    if app.show_help {
        return match key.code {
            KeyCode::Esc => Action::ToggleHelp,
            KeyCode::Char(c) => if c == '?' { Action::ToggleHelp } else { Action::Nothing },
            _ => Action::Nothing,
        };
    }
    if app.show_model_picker {
        return match key.code {
            KeyCode::Left => Action::ReasoningEffortPrevious,
            KeyCode::Right => Action::ReasoningEffortNext,
            _ => picker_key(
                key,
                Action::ModelPicker,
                Action::AiSettingsSelected { model: String::new(), reasoning_effort: String::new() },
            ),
        };
    }
    if app.show_base_picker {
        return picker_key(key, Action::BasePicker, Action::BaseSelected(String::new()));
    }
    if key.modifiers.control {
        return match key.code {
            KeyCode::Char(c) => if c == 'c' {
                Action::Quit
            } else if c == 'd' {
                Action::HalfPageDown
            } else if c == 'u' {
                Action::HalfPageUp
            } else {
                Action::Nothing
            },
            _ => Action::Nothing,
        };
    }
    match key.code {
        // Esc exits a pinned zoom; otherwise it is deliberately inert (modals handle
        // their own Esc above).
        KeyCode::Esc => if app.zoomed { Action::ToggleZoom } else { Action::Nothing },
        // Tab controls file expansion, not focus cycling.
        KeyCode::Tab => if app.focused == Pane::Files {
            match app.tree_toggle_action() {
                Some(action) => action,
                None => Action::Nothing,
            }
        } else {
            Action::Nothing
        },
        KeyCode::Down => Action::Down,
        KeyCode::Up => Action::Up,
        KeyCode::Enter => Action::Activate,
        KeyCode::Left => Action::Collapse,
        KeyCode::Right => Action::Expand,
        KeyCode::PageDown => Action::PageDown,
        KeyCode::PageUp => Action::PageUp,
        KeyCode::Home => Action::Top,
        KeyCode::End => Action::Bottom,
        KeyCode::Char(c) => letter_key(c, app.focused),
        _ => Action::Nothing,
    }
}

fn letter_key(c: char, focused: Pane) -> (action: Action)
    ensures
        action@ == letter_action(c, focused),
{
    match c {
        'q' | 'Q' => Action::Quit,
        '?' => Action::ToggleHelp,
        '1' => Action::Focus(Pane::Files),
        '2' => Action::Focus(Pane::Diff),
        '3' => Action::Focus(Pane::Impact),
        's' => Action::ScopeStaged,
        'u' => Action::ScopeUnstaged,
        'B' => Action::ScopeBranch,
        'w' => Action::ScopeWorking,
        'S' => Action::ScopeCycle,
        'g' => Action::RefreshGit,
        'a' => Action::GenerateAi,
        'A' => Action::ToggleAiGenerationMode,
        'm' => Action::ModelPicker,
        'b' => Action::BasePicker,
        'j' => Action::Down,
        'k' => Action::Up,
        ' ' => Action::ToggleExpand,
        'h' => Action::Collapse,
        'l' => Action::Expand,
        'n' => Action::NextHunk,
        'N' => Action::PrevHunk,
        'z' => Action::ToggleZoom,
        'v' => if focused == Pane::Files { Action::ToggleReviewed } else { Action::Nothing },
        'W' => Action::ToggleWrap,
        '0' => Action::ResetHScroll,
        'G' => Action::Bottom,
        _ => Action::Nothing,
    }
}

/// Keys while a picker modal is open. A searchable picker is a text field: arrows navigate,
/// every plain character is filter input (j/k included), Backspace deletes, Enter accepts,
/// Esc cancels.
fn picker_key(key: KeyEvent, close: Action, select: Action) -> (action: Action)
    ensures
        action@ == picker_action(key, close@, select@),
{
    match key.code {
        KeyCode::Esc => close,
        KeyCode::Up => Action::Up,
        KeyCode::Down => Action::Down,
        KeyCode::Enter => select,
        KeyCode::Backspace => Action::PickerBackspace,
        KeyCode::Char(c) => if key.modifiers.control || key.modifiers.alt || key.modifiers.super_key {
            Action::Nothing
        } else {
            Action::PickerInput(c)
        },
        _ => Action::Nothing,
    }
}

/// The scope after `scope` in the cycle.
pub open spec fn scope_after(scope: ChangeScope) -> ChangeScope {
    match scope {
        ChangeScope::Branch => ChangeScope::Staged,
        ChangeScope::Staged => ChangeScope::Unstaged,
        ChangeScope::Unstaged => ChangeScope::Working,
        ChangeScope::Working => ChangeScope::Branch,
    }
}

/// Cycle order for [`Action::ScopeCycle`].
pub fn next_scope(scope: ChangeScope) -> (r: ChangeScope)
    ensures
        r == scope_after(scope),
{
    match scope {
        ChangeScope::Branch => ChangeScope::Staged,
        ChangeScope::Staged => ChangeScope::Unstaged,
        ChangeScope::Unstaged => ChangeScope::Working,
        ChangeScope::Working => ChangeScope::Branch,
    }
}

/// Four steps of the cycle visit every scope and come back.
pub proof fn law_scope_cycle_visits_every_scope(from: ChangeScope, to: ChangeScope)
    ensures
        scope_after(scope_after(scope_after(scope_after(from)))) == from,
        ({
            let a = scope_after(from);
            let b = scope_after(a);
            let c = scope_after(b);
            to == from || to == a || to == b || to == c
        }),
{
}

/// An open modal swallows every key that is not its own: nothing behind it is reached.
pub proof fn law_modals_swallow_keys(key: KeyEvent, v: AppView)
    ensures
        v.status_detail is Some ==> key_action(key, v) == ActionView::Nothing || key_action(key, v)
            == ActionView::ToggleStatusDetail,
        v.status_detail is None && v.show_help ==> key_action(key, v) == ActionView::Nothing || key_action(key, v)
            == ActionView::ToggleHelp,
        v.status_detail is None && !v.show_help && v.show_base_picker && !v.show_model_picker ==> {
            let a = key_action(key, v);
            a == ActionView::Nothing || a == ActionView::BasePicker || a == ActionView::Up || a == ActionView::Down || a
                == ActionView::BaseSelected(Seq::empty()) || a == ActionView::PickerBackspace || a is PickerInput
        },
{
}

/// A released key does nothing, and a held key only moves.
pub proof fn law_only_presses_command(key: KeyEvent, v: AppView)
    requires
        key.kind != KeyEventKind::Press,
    ensures
        key.kind == KeyEventKind::Release ==> key_action(key, v) == ActionView::Nothing,
        key_action(key, v) == ActionView::Nothing || key_action(key, v) == ActionView::Up || key_action(key, v)
            == ActionView::Down,
{
}

} // verus!
