//! What each key is for, key by key, and that every intent is shown as itself.

use vstd::prelude::*;
use crate::action::{key_action, scope_after, Action, ActionView};
use crate::app::{AppView, Pane};
use crate::event::{KeyCode, KeyEvent, KeyEventKind};
use crate::snapshot::ChangeScope;

verus! {

/// Whether no dialog is open.
pub open spec fn no_modal(v: AppView) -> bool {
    v.status_detail is None && !v.show_help && !v.show_model_picker && !v.show_base_picker
}

/// A key that is pressed without control.
pub open spec fn is_plain_press(key: KeyEvent) -> bool {
    key.kind == KeyEventKind::Press && !key.modifiers.control
}

/// With control, `c` quits, `d` pages half down and `u` half up; nothing else is bound.
pub proof fn law_control_keys(key: KeyEvent, v: AppView)
    requires
        no_modal(v),
        key.kind == KeyEventKind::Press,
        key.modifiers.control,
    ensures
        key.code == KeyCode::Char('c') ==> key_action(key, v) == ActionView::Quit,
        key.code == KeyCode::Char('d') ==> key_action(key, v) == ActionView::HalfPageDown,
        key.code == KeyCode::Char('u') ==> key_action(key, v) == ActionView::HalfPageUp,
        key.code != KeyCode::Char('c') && key.code != KeyCode::Char('d') && key.code != KeyCode::Char('u')
            ==> key_action(key, v) == ActionView::Nothing,
{
}

/// Arrows and vim keys move, page keys page, `Home`/`End`/`G` go to the ends, and `n`/`N` walk
/// the hunks.
pub proof fn law_movement_keys(key: KeyEvent, v: AppView)
    requires
        no_modal(v),
        is_plain_press(key),
    ensures
        key.code == KeyCode::Down || key.code == KeyCode::Char('j') ==> key_action(key, v) == ActionView::Down,
        key.code == KeyCode::Up || key.code == KeyCode::Char('k') ==> key_action(key, v) == ActionView::Up,
        key.code == KeyCode::Left || key.code == KeyCode::Char('h') ==> key_action(key, v) == ActionView::Collapse,
        key.code == KeyCode::Right || key.code == KeyCode::Char('l') ==> key_action(key, v) == ActionView::Expand,
        key.code == KeyCode::PageDown ==> key_action(key, v) == ActionView::PageDown,
        key.code == KeyCode::PageUp ==> key_action(key, v) == ActionView::PageUp,
        key.code == KeyCode::Home ==> key_action(key, v) == ActionView::Top,
        key.code == KeyCode::End || key.code == KeyCode::Char('G') ==> key_action(key, v) == ActionView::Bottom,
        key.code == KeyCode::Char('n') ==> key_action(key, v) == ActionView::NextHunk,
        key.code == KeyCode::Char('N') ==> key_action(key, v) == ActionView::PrevHunk,
        key.code == KeyCode::Enter ==> key_action(key, v) == ActionView::Activate,
        key.code == KeyCode::Char(' ') ==> key_action(key, v) == ActionView::ToggleExpand,
{
}

/// The number keys focus the panes from left to right and below, and letters choose what is
/// compared.
pub proof fn law_pane_and_scope_keys(key: KeyEvent, v: AppView)
    requires
        no_modal(v),
        is_plain_press(key),
    ensures
        key.code == KeyCode::Char('1') ==> key_action(key, v) == ActionView::Focus(Pane::Files),
        key.code == KeyCode::Char('2') ==> key_action(key, v) == ActionView::Focus(Pane::Diff),
        key.code == KeyCode::Char('3') ==> key_action(key, v) == ActionView::Focus(Pane::Impact),
        key.code == KeyCode::Char('s') ==> key_action(key, v) == ActionView::ScopeStaged,
        key.code == KeyCode::Char('u') ==> key_action(key, v) == ActionView::ScopeUnstaged,
        key.code == KeyCode::Char('B') ==> key_action(key, v) == ActionView::ScopeBranch,
        key.code == KeyCode::Char('w') ==> key_action(key, v) == ActionView::ScopeWorking,
        key.code == KeyCode::Char('S') ==> key_action(key, v) == ActionView::ScopeCycle,
{
}

/// Letters that command or toggle something.
pub proof fn law_command_keys(key: KeyEvent, v: AppView)
    requires
        no_modal(v),
        is_plain_press(key),
    ensures
        key.code == KeyCode::Char('q') || key.code == KeyCode::Char('Q') ==> key_action(key, v) == ActionView::Quit,
        key.code == KeyCode::Char('?') ==> key_action(key, v) == ActionView::ToggleHelp,
        key.code == KeyCode::Char('g') ==> key_action(key, v) == ActionView::RefreshGit,
        key.code == KeyCode::Char('a') ==> key_action(key, v) == ActionView::GenerateAi,
        key.code == KeyCode::Char('A') ==> key_action(key, v) == ActionView::ToggleAiGenerationMode,
        key.code == KeyCode::Char('m') ==> key_action(key, v) == ActionView::ModelPicker,
        key.code == KeyCode::Char('b') ==> key_action(key, v) == ActionView::BasePicker,
        key.code == KeyCode::Char('z') ==> key_action(key, v) == ActionView::ToggleZoom,
        key.code == KeyCode::Char('W') ==> key_action(key, v) == ActionView::ToggleWrap,
        key.code == KeyCode::Char('0') ==> key_action(key, v) == ActionView::ResetHScroll,
        key.code == KeyCode::Char('v') && v.focused == Pane::Files ==> key_action(key, v) == ActionView::ToggleReviewed,
        key.code == KeyCode::Char('v') && v.focused != Pane::Files ==> key_action(key, v) == ActionView::Nothing,
        key.code == KeyCode::Esc && v.zoomed ==> key_action(key, v) == ActionView::ToggleZoom,
        key.code == KeyCode::Esc && !v.zoomed ==> key_action(key, v) == ActionView::Nothing,
        key.code == KeyCode::BackTab ==> key_action(key, v) == ActionView::Nothing,
{
}

/// A letter without a meaning does nothing.
pub proof fn law_other_letters_are_inert(key: KeyEvent, c: char, v: AppView)
    requires
        no_modal(v),
        is_plain_press(key),
        key.code == KeyCode::Char(c),
        c != 'q' && c != 'Q' && c != '?' && c != '1' && c != '2' && c != '3' && c != 's' && c != 'u' && c != 'B' && c
            != 'w' && c != 'S' && c != 'g' && c != 'a' && c != 'A' && c != 'm' && c != 'b' && c != 'j' && c != 'k' && c
            != ' ' && c != 'h' && c != 'l' && c != 'n' && c != 'N' && c != 'z' && c != 'v' && c != 'W' && c != '0' && c
            != 'G',
    ensures
        key_action(key, v) == ActionView::Nothing,
{
}

/// In a picker `Esc` closes it, arrows move, `Enter` selects, `Backspace` and plain characters
/// edit the query; in the model picker left and right change the reasoning budget.
pub proof fn law_picker_keys(key: KeyEvent, c: char, v: AppView)
    requires
        v.status_detail is None,
        !v.show_help,
        v.show_model_picker || v.show_base_picker,
        key.kind == KeyEventKind::Press,
    ensures
        key.code == KeyCode::Up ==> key_action(key, v) == ActionView::Up,
        key.code == KeyCode::Down ==> key_action(key, v) == ActionView::Down,
        key.code == KeyCode::Backspace ==> key_action(key, v) == ActionView::PickerBackspace,
        key.code == KeyCode::Char(c) && !key.modifiers.control && !key.modifiers.alt && !key.modifiers.super_key
            ==> key_action(key, v) == ActionView::PickerInput(c),
        key.code == KeyCode::Char(c) && (key.modifiers.control || key.modifiers.alt || key.modifiers.super_key)
            ==> key_action(key, v) == ActionView::Nothing,
        v.show_model_picker && key.code == KeyCode::Esc ==> key_action(key, v) == ActionView::ModelPicker,
        v.show_model_picker && key.code == KeyCode::Left ==> key_action(key, v)
            == ActionView::ReasoningEffortPrevious,
        v.show_model_picker && key.code == KeyCode::Right ==> key_action(key, v) == ActionView::ReasoningEffortNext,
        v.show_model_picker && key.code == KeyCode::Enter ==> key_action(key, v) is AiSettingsSelected,
        !v.show_model_picker && key.code == KeyCode::Esc ==> key_action(key, v) == ActionView::BasePicker,
        !v.show_model_picker && key.code == KeyCode::Enter ==> key_action(key, v) is BaseSelected,
        !v.show_model_picker && (key.code == KeyCode::Left || key.code == KeyCode::Right) ==> key_action(key, v)
            == ActionView::Nothing,
{
}

/// `Esc` closes the topmost dialog, and `?` the help it opened.
pub proof fn law_dialog_keys(key: KeyEvent, v: AppView)
    requires
        key.kind == KeyEventKind::Press,
    ensures
        v.status_detail is Some && key.code == KeyCode::Esc ==> key_action(key, v) == ActionView::ToggleStatusDetail,
        v.status_detail is None && v.show_help && (key.code == KeyCode::Esc || key.code == KeyCode::Char('?'))
            ==> key_action(key, v) == ActionView::ToggleHelp,
{
}

/// A held arrow keeps moving in its direction, and so do `j` and `k` outside pickers, where
/// they are text.
pub proof fn law_held_keys_keep_moving(key: KeyEvent, v: AppView)
    requires
        v.status_detail is None,
        !v.show_help,
        key.kind == KeyEventKind::Repeat,
    ensures
        key.code == KeyCode::Down ==> key_action(key, v) == ActionView::Down,
        key.code == KeyCode::Up ==> key_action(key, v) == ActionView::Up,
        no_modal(v) && key.code == KeyCode::Char('j') ==> key_action(key, v) == ActionView::Down,
        no_modal(v) && key.code == KeyCode::Char('k') ==> key_action(key, v) == ActionView::Up,
        !no_modal(v) && (key.code == KeyCode::Char('j') || key.code == KeyCode::Char('k')) ==> key_action(key, v)
            == ActionView::Nothing,
{
}

/// The comparison cycle goes from the branch over staged and unstaged to all uncommitted
/// changes and back.
pub proof fn law_scope_cycle_order()
    ensures
        scope_after(ChangeScope::Branch) == ChangeScope::Staged,
        scope_after(ChangeScope::Staged) == ChangeScope::Unstaged,
        scope_after(ChangeScope::Unstaged) == ChangeScope::Working,
        scope_after(ChangeScope::Working) == ChangeScope::Branch,
{
}

/// Every intent without data is shown as itself, so a contract on what is shown is one on the
/// intent.
pub proof fn law_intents_are_shown_as_themselves(action: Action)
    ensures
        (action is Quit) == (action@ is Quit),
        (action is ToggleHelp) == (action@ is ToggleHelp),
        (action is ToggleStatusDetail) == (action@ is ToggleStatusDetail),
        (action is Down) == (action@ is Down),
        (action is Up) == (action@ is Up),
        (action is HalfPageDown) == (action@ is HalfPageDown),
        (action is HalfPageUp) == (action@ is HalfPageUp),
        (action is PageDown) == (action@ is PageDown),
        (action is PageUp) == (action@ is PageUp),
        (action is Top) == (action@ is Top),
        (action is Bottom) == (action@ is Bottom),
        (action is Activate) == (action@ is Activate),
        (action is ToggleExpand) == (action@ is ToggleExpand),
        (action is Collapse) == (action@ is Collapse),
        (action is Expand) == (action@ is Expand),
        (action is ScopeStaged) == (action@ is ScopeStaged),
        (action is ScopeUnstaged) == (action@ is ScopeUnstaged),
        (action is ScopeBranch) == (action@ is ScopeBranch),
        (action is ScopeWorking) == (action@ is ScopeWorking),
        (action is ScopeCycle) == (action@ is ScopeCycle),
        (action is RefreshGit) == (action@ is RefreshGit),
        (action is GenerateAi) == (action@ is GenerateAi),
        (action is ToggleAiGenerationMode) == (action@ is ToggleAiGenerationMode),
        (action is ModelPicker) == (action@ is ModelPicker),
        (action is ReasoningEffortPrevious) == (action@ is ReasoningEffortPrevious),
        (action is ReasoningEffortNext) == (action@ is ReasoningEffortNext),
        (action is BasePicker) == (action@ is BasePicker),
        (action is PickerBackspace) == (action@ is PickerBackspace),
        (action is NextHunk) == (action@ is NextHunk),
        (action is PrevHunk) == (action@ is PrevHunk),
        (action is ToggleZoom) == (action@ is ToggleZoom),
        (action is ToggleWrap) == (action@ is ToggleWrap),
        (action is ResetHScroll) == (action@ is ResetHScroll),
        (action is ClearDiffSelection) == (action@ is ClearDiffSelection),
        (action is ToggleReviewed) == (action@ is ToggleReviewed),
        (action is Nothing) == (action@ is Nothing),
{
}

/// An intent with data is shown with that data.
pub proof fn law_intent_data_is_shown(action: Action)
    ensures
        action matches Action::Focus(pane) ==> action@ == ActionView::Focus(pane),
        action matches Action::PickerInput(c) ==> action@ == ActionView::PickerInput(c),
        action matches Action::SetFileExpanded { path, expanded } ==> action@ == (ActionView::SetFileExpanded {
            path: path@,
            expanded,
        }),
        action matches Action::SetDirectoryExpanded { path, expanded } ==> action@
            == (ActionView::SetDirectoryExpanded { path: path@, expanded }),
        action matches Action::SelectFileRow { logical_index, viewport_offset } ==> action@
            == (ActionView::SelectFileRow {
            logical_index: logical_index as int,
            viewport_offset: viewport_offset as int,
        }),
        action matches Action::ScrollRegion { region, offset } ==> action@ == (ActionView::ScrollRegion {
            region,
            offset: offset as int,
        }),
        action matches Action::ScrollDiffHorizontal { delta } ==> action@ == (ActionView::ScrollDiffHorizontal {
            delta,
        }),
        action matches Action::ResizeDivider { divider, extent } ==> action@ == (ActionView::ResizeDivider {
            divider,
            extent,
        }),
        action matches Action::MovePlanNode { target, x, y } ==> action@ == (ActionView::MovePlanNode {
            target: target@,
            x,
            y,
        }),
        action matches Action::TogglePlanNode(target) ==> action@ == ActionView::TogglePlanNode(target@),
        action matches Action::TogglePlanRelationship(target) ==> action@
            == ActionView::TogglePlanRelationship(target@),
        action matches Action::SetDiffSelection(selection) ==> action@ == ActionView::SetDiffSelection(selection),
        action matches Action::CommitDiffSelection { selection, text } ==> action@
            == (ActionView::CommitDiffSelection { selection, text: text@ }),
        action matches Action::ToggleReviewedTarget(target) ==> action@ == ActionView::ToggleReviewedTarget(target@),
        action matches Action::BaseSelected(base) ==> action@ == ActionView::BaseSelected(base@),
        action matches Action::AiSettingsSelected { model, reasoning_effort } ==> action@
            == (ActionView::AiSettingsSelected { model: model@, reasoning_effort: reasoning_effort@ }),
        action matches Action::OpenStatusDetail(status) ==> action@ == ActionView::OpenStatusDetail(status@),
        action matches Action::AgentFocus(key) ==> action@ == ActionView::AgentFocus(key@),
{
}

} // verus!
