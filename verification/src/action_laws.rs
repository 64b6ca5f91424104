//! What each intent does to the workspace, in numbers and directions.

use vstd::prelude::*;
use crate::action::ActionView;
use crate::app::{
    acted, adjusted, aimed, app_view, applied, candidates, file_place, header_row, headers, hunk_at, matching,
    navigated, picked, place_of, pointed, position_in, redrawn, settled, viewed, viewport_of, App, AppView, Pane,
};
use crate::app_laws::lemma_settled_keeps;
use crate::diagram::fresh_state;
use crate::divider::DividerId;
use crate::scroll::ScrollRegionId;
use crate::snapshot::{ChangeScope, DiffPane, DiffRow, FileRow, UiSnapshot};
use crate::text::{lowercase_of, occurs_at, texts};

verus! {

/// The state of an app is what its fields hold.
pub proof fn law_state_is_what_the_fields_hold(app: App)
    ensures
        app@.files == app.snapshot.files@,
        app@.scope == app.snapshot.scope,
        app@.focused == app.focused,
        app@.file_sel == app.file_sel,
        app@.collapsed == app.collapsed_directories@,
        app@.files_scroll == app.files_scroll,
        app@.files_detached == app.files_scroll_detached,
        app@.diff_scroll == app.diff_scroll,
        app@.diff_hscroll == app.diff_hscroll,
        app@.diff_selection == app.diff_selection,
        app@.current_hunk == app.current_hunk,
        forall|id: DividerId| #[trigger] app@.extents[id] == app.dividers.extent_of(id),
        app@.zoomed == app.zoomed,
        app@.plan_scroll == app.ai_plan_scroll,
        app@.callers_scroll == app.callers_scroll,
        app@.downstream_scroll == app.downstream_scroll,
        app@.diff_wrap == app.diff_wrap,
        app@.show_help == app.show_help,
        app@.show_model_picker == app.show_model_picker,
        app@.model_sel == app.model_sel,
        app@.model_query == app.model_query@,
        app@.effort_sel == app.reasoning_effort_sel,
        app@.show_base_picker == app.show_base_picker,
        app@.base_sel == app.base_sel,
        app@.base_query == app.base_query@,
        app@.should_quit == app.should_quit,
        app@.hovered is Some == app.hovered_plan_node is Some,
        app@.status_detail is Some == app.status_detail is Some,
{
    reveal(app_view);
}

/// Where the tree and the scope stay, the diff stays where the intent put it.
proof fn lemma_not_resettled(v: AppView, s: UiSnapshot, action: ActionView)
    requires
        ({
            let w = acted(v, s, action);
            w.file_sel == v.file_sel && w.files == v.files && w.collapsed == v.collapsed && w.scope == v.scope
        }),
    ensures
        applied(v, s, action) == acted(v, s, action),
{
    reveal(settled);
}

/// A state whose diff position lies in the shown rows, with no picker open.
pub open spec fn diff_in_view(v: AppView, s: UiSnapshot) -> bool {
    &&& !v.show_model_picker && !v.show_base_picker
    &&& 0 <= v.diff_scroll < s.diff.rows.len() <= 0x1_0000
    &&& 0 <= v.file_sel < selectable_rows(v)
}

/// How many rows of the tree can be selected.
pub open spec fn selectable_rows(v: AppView) -> int {
    crate::file_rows::logical_count(v.files, v.collapsed)
}

/// Forward by `n` as far as `last`.
pub open spec fn forward(from: int, n: int, last: int) -> int {
    if from + n <= last { from + n } else { last }
}

/// Back by `n` as far as the start.
pub open spec fn back(from: int, n: int) -> int {
    if from >= n { from - n } else { 0 }
}

/// Paging moves the diff ten or twenty rows, down with the Down keys and up with the Up keys,
/// as far as its ends, unless the Impact pane is focused.
pub proof fn law_pages_move_the_diff(v: AppView, s: UiSnapshot)
    requires
        diff_in_view(v, s),
        v.focused != Pane::Impact,
    ensures
        ({
            let last = s.diff.rows.len() - 1;
            &&& applied(v, s, ActionView::HalfPageDown).diff_scroll == forward(v.diff_scroll, 10, last)
            &&& applied(v, s, ActionView::HalfPageUp).diff_scroll == back(v.diff_scroll, 10)
            &&& applied(v, s, ActionView::PageDown).diff_scroll == forward(v.diff_scroll, 20, last)
            &&& applied(v, s, ActionView::PageUp).diff_scroll == back(v.diff_scroll, 20)
        }),
{
    reveal(navigated);
    lemma_not_resettled(v, s, ActionView::HalfPageDown);
    lemma_not_resettled(v, s, ActionView::HalfPageUp);
    lemma_not_resettled(v, s, ActionView::PageDown);
    lemma_not_resettled(v, s, ActionView::PageUp);
}

/// Away from the ends, paging up undoes paging down.
pub proof fn law_paging_up_undoes_paging_down(v: AppView, s: UiSnapshot)
    requires
        diff_in_view(v, s),
        v.focused != Pane::Impact,
        v.diff_scroll + 20 < s.diff.rows.len(),
    ensures
        applied(applied(v, s, ActionView::PageDown), s, ActionView::PageUp).diff_scroll == v.diff_scroll,
        applied(applied(v, s, ActionView::HalfPageDown), s, ActionView::HalfPageUp).diff_scroll == v.diff_scroll,
        applied(applied(v, s, ActionView::HalfPageDown), s, ActionView::HalfPageDown).diff_scroll == applied(
            v,
            s,
            ActionView::PageDown,
        ).diff_scroll,
{
    reveal(navigated);
    law_pages_move_the_diff(v, s);
    lemma_not_resettled(v, s, ActionView::HalfPageDown);
    lemma_not_resettled(v, s, ActionView::PageDown);
    law_pages_move_the_diff(applied(v, s, ActionView::PageDown), s);
    law_pages_move_the_diff(applied(v, s, ActionView::HalfPageDown), s);
}

/// In the diff pane one step moves one row, and the ends are the first and the last row.
pub proof fn law_steps_move_the_diff(v: AppView, s: UiSnapshot)
    requires
        diff_in_view(v, s),
        v.focused == Pane::Diff,
    ensures
        ({
            let last = s.diff.rows.len() - 1;
            &&& applied(v, s, ActionView::Down).diff_scroll == forward(v.diff_scroll, 1, last)
            &&& applied(v, s, ActionView::Up).diff_scroll == back(v.diff_scroll, 1)
            &&& applied(v, s, ActionView::Top).diff_scroll == 0
            &&& applied(v, s, ActionView::Bottom).diff_scroll == last
        }),
{
    reveal(navigated);
    lemma_not_resettled(v, s, ActionView::Down);
    lemma_not_resettled(v, s, ActionView::Up);
    lemma_not_resettled(v, s, ActionView::Top);
    lemma_not_resettled(v, s, ActionView::Bottom);
}

/// In the files pane one step selects the next or previous row, the ends are the first and the
/// last one, and the pane follows the selection again.
pub proof fn law_steps_move_the_selection(v: AppView, s: UiSnapshot)
    requires
        !v.show_model_picker,
        !v.show_base_picker,
        v.focused == Pane::Files,
        0 <= v.file_sel < selectable_rows(v),
    ensures
        ({
            let last = selectable_rows(v) - 1;
            &&& applied(v, s, ActionView::Down).file_sel == forward(v.file_sel, 1, last)
            &&& applied(v, s, ActionView::Up).file_sel == back(v.file_sel, 1)
            &&& applied(v, s, ActionView::Top).file_sel == 0
            &&& applied(v, s, ActionView::Bottom).file_sel == last
            &&& !applied(v, s, ActionView::Down).files_detached
            &&& !applied(v, s, ActionView::Up).files_detached
            &&& !applied(v, s, ActionView::Top).files_detached
            &&& !applied(v, s, ActionView::Bottom).files_detached
        }),
{
    reveal(navigated);
    let (l, at) = (viewport_of(v, s), position_in(v));
    lemma_settled_keeps(l, at, acted(v, s, ActionView::Down), s);
    lemma_settled_keeps(l, at, acted(v, s, ActionView::Up), s);
    lemma_settled_keeps(l, at, acted(v, s, ActionView::Top), s);
    lemma_settled_keeps(l, at, acted(v, s, ActionView::Bottom), s);
}

/// In the Impact pane steps and pages scroll the generated view, and `Bottom` goes to its end,
/// wherever the renderer finds it.
pub proof fn law_steps_move_the_generated_view(v: AppView, s: UiSnapshot)
    requires
        !v.show_model_picker,
        !v.show_base_picker,
        v.focused == Pane::Impact,
        s.semantic.plan is Some || s.impact.selected_change is Some,
        0 <= v.plan_scroll <= 10_000,
        0 <= v.file_sel < selectable_rows(v),
    ensures
        applied(v, s, ActionView::Down).plan_scroll == forward(v.plan_scroll, 1, 10_000),
        applied(v, s, ActionView::Up).plan_scroll == back(v.plan_scroll, 1),
        applied(v, s, ActionView::HalfPageDown).plan_scroll == forward(v.plan_scroll, 10, 10_000),
        applied(v, s, ActionView::HalfPageUp).plan_scroll == back(v.plan_scroll, 10),
        applied(v, s, ActionView::PageDown).plan_scroll == forward(v.plan_scroll, 20, 10_000),
        applied(v, s, ActionView::PageUp).plan_scroll == back(v.plan_scroll, 20),
        applied(v, s, ActionView::Top).plan_scroll == 0,
        applied(v, s, ActionView::Bottom).plan_scroll == 10_000,
        applied(v, s, ActionView::PageDown).diff_scroll == acted(v, s, ActionView::Nothing).diff_scroll,
{
    reveal(navigated);
    reveal(viewed);
    lemma_not_resettled(v, s, ActionView::Down);
    lemma_not_resettled(v, s, ActionView::Up);
    lemma_not_resettled(v, s, ActionView::HalfPageDown);
    lemma_not_resettled(v, s, ActionView::HalfPageUp);
    lemma_not_resettled(v, s, ActionView::PageDown);
    lemma_not_resettled(v, s, ActionView::PageUp);
    lemma_not_resettled(v, s, ActionView::Top);
    lemma_not_resettled(v, s, ActionView::Bottom);
}

/// In an open picker a step moves over the matching candidates, and nothing behind it moves.
pub proof fn law_steps_move_the_picker(v: AppView, s: UiSnapshot)
    requires
        v.show_model_picker || v.show_base_picker,
        0 <= v.model_sel < candidates(s.available_models@, v.model_query).len(),
        0 <= v.base_sel < candidates(s.available_bases@, v.base_query).len(),
        0 <= v.file_sel < selectable_rows(v),
    ensures
        ({
            let models = candidates(s.available_models@, v.model_query).len() - 1;
            let bases = candidates(s.available_bases@, v.base_query).len() - 1;
            let (down, up) = (applied(v, s, ActionView::Down), applied(v, s, ActionView::Up));
            &&& v.show_model_picker ==> down.model_sel == forward(v.model_sel, 1, models) && up.model_sel == back(
                v.model_sel,
                1,
            ) && down.base_sel == v.base_sel && up.base_sel == v.base_sel
            &&& !v.show_model_picker ==> down.base_sel == forward(v.base_sel, 1, bases) && up.base_sel == back(
                v.base_sel,
                1,
            ) && down.model_sel == v.model_sel && up.model_sel == v.model_sel
            &&& down.file_sel == v.file_sel && up.file_sel == v.file_sel
        }),
{
    reveal(navigated);
    lemma_not_resettled(v, s, ActionView::Down);
    lemma_not_resettled(v, s, ActionView::Up);
}

/// How many of the rows are hunk headers.
pub open spec fn header_count(rows: Seq<DiffRow>) -> int {
    rows.filter(|row: DiffRow| row is HunkHeader).len() as int
}

pub proof fn lemma_headers_count(rows: Seq<DiffRow>, n: int)
    requires
        0 <= n <= rows.len(),
    ensures
        headers(rows, n) == header_count(rows.take(n)),
    decreases n,
{
    reveal(Seq::filter);
    if n > 0 {
        lemma_headers_count(rows, n - 1);
        assert(rows.take(n).drop_last() =~= rows.take(n - 1));
        assert(rows.take(n).last() == rows[n - 1]);
    }
}

/// The hunk cursor is the hunk that the anchor stands in: as many headers as there are at or
/// before it, from the first hunk on.
pub proof fn law_cursor_is_the_hunk_under_the_anchor(diff: DiffPane, scroll: int)
    requires
        0 <= scroll < diff.rows.len(),
        diff.total_hunks == header_count(diff.rows@),
        diff.total_hunks > 0,
    ensures
        ({
            let above = header_count(diff.rows@.take(scroll + 1));
            hunk_at(diff, scroll) == if above == 0 { 1 } else { above }
        }),
{
    lemma_headers_count(diff.rows@, scroll + 1);
    lemma_headers_count(diff.rows@, diff.rows.len() as int);
    lemma_headers_grow(diff.rows@, scroll + 1, diff.rows.len() as int);
    assert(diff.rows@.take(diff.rows.len() as int) =~= diff.rows@);
}

proof fn lemma_headers_grow(rows: Seq<DiffRow>, a: int, b: int)
    requires
        0 <= a <= b,
    ensures
        0 <= headers(rows, a) <= headers(rows, b),
    decreases b,
{
    if a < b {
        lemma_headers_grow(rows, a, b - 1);
    } else if b > 0 {
        lemma_headers_grow(rows, b - 1, b - 1);
    }
}

proof fn lemma_header_row(rows: Seq<DiffRow>, i: int, k: int)
    requires
        0 <= i <= rows.len(),
        k >= 1,
    ensures
        match header_row(rows, i, k) {
            Some(r) => i <= r < rows.len() && rows[r] is HunkHeader && headers(rows, r) == headers(rows, i) + k - 1,
            None => headers(rows, rows.len() as int) - headers(rows, i) < k,
        },
    decreases rows.len() - i,
{
    if i < rows.len() {
        if rows[i] is HunkHeader {
            if k > 1 {
                lemma_header_row(rows, i + 1, k - 1);
            }
        } else {
            lemma_header_row(rows, i + 1, k);
        }
    }
}

/// A hunk jump goes one hunk on or back, within the hunks there are, and puts the diff on the
/// header of that hunk.
pub proof fn law_hunk_jumps_land_on_headers(v: AppView, s: UiSnapshot, forward: bool)
    requires
        0 < s.diff.total_hunks == header_count(s.diff.rows@),
        s.diff.rows.len() <= 0x1_0000,
        1 <= v.current_hunk <= s.diff.total_hunks,
        0 <= v.file_sel < selectable_rows(v),
    ensures
        ({
            let total = s.diff.total_hunks as int;
            let w = applied(v, s, if forward { ActionView::NextHunk } else { ActionView::PrevHunk });
            &&& forward && v.current_hunk < total ==> w.current_hunk == v.current_hunk + 1
            &&& !forward && v.current_hunk > 1 ==> w.current_hunk == v.current_hunk - 1
            &&& forward && v.current_hunk == total ==> w.current_hunk == total
            &&& !forward && v.current_hunk == 1 ==> w.current_hunk == 1
            &&& 0 <= w.diff_scroll < s.diff.rows.len()
            &&& s.diff.rows[w.diff_scroll] is HunkHeader
            &&& header_count(s.diff.rows@.take(w.diff_scroll)) == w.current_hunk - 1
        }),
{
    reveal(navigated);
    let action = if forward { ActionView::NextHunk } else { ActionView::PrevHunk };
    lemma_not_resettled(v, s, action);
    let w = acted(v, s, action);
    let rows = s.diff.rows@;
    let n = rows.len() as int;
    assert(rows.take(n) =~= rows);
    lemma_headers_count(rows, n);
    lemma_header_row(rows, 0, w.current_hunk);
    let r = header_row(rows, 0, w.current_hunk)->0;
    assert(header_row(rows, 0, w.current_hunk) is Some);
    lemma_headers_count(rows, r);
}

/// Each scope intent shows its own comparison from the top: the first row is selected, every
/// scroll position and the diagram start over.
pub proof fn law_scope_intents(v: AppView, s: UiSnapshot, action: ActionView)
    requires
        action is ScopeStaged || action is ScopeUnstaged || action is ScopeBranch || action is ScopeWorking || action
            is ScopeCycle,
    ensures
        ({
            let w = applied(v, s, action);
            &&& action is ScopeStaged ==> w.scope == ChangeScope::Staged
            &&& action is ScopeUnstaged ==> w.scope == ChangeScope::Unstaged
            &&& action is ScopeBranch ==> w.scope == ChangeScope::Branch
            &&& action is ScopeWorking ==> w.scope == ChangeScope::Working
            &&& action is ScopeCycle && v.scope == ChangeScope::Branch ==> w.scope == ChangeScope::Staged
            &&& action is ScopeCycle && v.scope == ChangeScope::Staged ==> w.scope == ChangeScope::Unstaged
            &&& action is ScopeCycle && v.scope == ChangeScope::Unstaged ==> w.scope == ChangeScope::Working
            &&& action is ScopeCycle && v.scope == ChangeScope::Working ==> w.scope == ChangeScope::Branch
            &&& w.file_sel == 0 && w.files_scroll == 0 && !w.files_detached
            &&& w.callers_scroll == 0 && w.downstream_scroll == 0 && w.plan_scroll == 0
            &&& w.hovered is None
            &&& w.diagram == fresh_state()
        }),
{
    reveal(settled);
    lemma_settled_keeps(viewport_of(v, s), position_in(v), acted(v, s, action), s);
}

/// What moving changes.
proof fn lemma_navigated_frame(v: AppView, s: UiSnapshot, action: ActionView)
    ensures
        ({
            let w = navigated(v, s, action);
            w == (AppView {
                file_sel: w.file_sel,
                files_detached: w.files_detached,
                diff_scroll: w.diff_scroll,
                current_hunk: w.current_hunk,
                plan_scroll: w.plan_scroll,
                model_sel: w.model_sel,
                base_sel: w.base_sel,
                ..v
            })
        }),
{
    reveal(navigated);
}

/// What an intent on a box changes.
proof fn lemma_pointed_frame(v: AppView, s: UiSnapshot, action: ActionView)
    ensures
        ({
            let w = pointed(v, s, action);
            w == (AppView {
                focused: w.focused,
                diff_scroll: w.diff_scroll,
                current_hunk: w.current_hunk,
                hovered: w.hovered,
                before_hover: w.before_hover,
                diagram: w.diagram,
                ..v
            })
        }),
{
    reveal(pointed);
}

/// What an intent on the plan changes.
proof fn lemma_redrawn_frame(v: AppView, s: UiSnapshot, action: ActionView)
    ensures
        ({
            let w = redrawn(v, s, action);
            w == (AppView {
                focused: w.focused,
                diff_hscroll: w.diff_hscroll,
                diff_selection: w.diff_selection,
                diagram: w.diagram,
                ..v
            })
        }),
{
    reveal(redrawn);
}

/// What an intent aimed at a row or a region changes.
proof fn lemma_aimed_frame(v: AppView, s: UiSnapshot, action: ActionView)
    ensures
        ({
            let w = aimed(v, s, action);
            &&& w == (AppView {
                files: w.files,
                focused: w.focused,
                file_sel: w.file_sel,
                collapsed: w.collapsed,
                files_scroll: w.files_scroll,
                files_detached: w.files_detached,
                diff_scroll: w.diff_scroll,
                current_hunk: w.current_hunk,
                plan_scroll: w.plan_scroll,
                hovered: w.hovered,
                before_hover: w.before_hover,
                callers_scroll: w.callers_scroll,
                downstream_scroll: w.downstream_scroll,
                ..v
            })
            &&& !(action is AgentFocus) ==> w.files == v.files && w.collapsed == v.collapsed
        }),
{
    reveal(aimed);
}

/// An intent changes only what it is about.
pub proof fn law_intents_leave_the_rest_alone(v: AppView, s: UiSnapshot, action: ActionView)
    ensures
        ({
            let w = applied(v, s, action);
            &&& w.should_quit == (v.should_quit || action is Quit)
            &&& w.show_help == if action is ToggleHelp { !v.show_help } else { v.show_help }
            &&& w.zoomed == if action is ToggleZoom { !v.zoomed } else { v.zoomed }
            &&& w.diff_wrap == if action is ToggleWrap { !v.diff_wrap } else { v.diff_wrap }
            &&& w.show_model_picker == if action is ModelPicker { !v.show_model_picker } else { v.show_model_picker }
            &&& w.show_base_picker == if action is BasePicker { !v.show_base_picker } else { v.show_base_picker }
            &&& !(action is ResizeDivider) ==> w.extents == v.extents
            &&& !(action is ScopeStaged || action is ScopeUnstaged || action is ScopeBranch || action is ScopeWorking
                || action is ScopeCycle) ==> w.scope == v.scope
            &&& !(action is ToggleStatusDetail || action is OpenStatusDetail) ==> w.status_detail == v.status_detail
            &&& !(action is SetDirectoryExpanded || action is AgentFocus) ==> w.collapsed == v.collapsed
            &&& !(action is SetFileExpanded || action is AgentFocus) ==> w.files == v.files
            &&& !(action is PickerInput || action is PickerBackspace || action is ModelPicker) ==> w.model_query
                == v.model_query
            &&& !(action is PickerInput || action is PickerBackspace || action is BasePicker) ==> w.base_query
                == v.base_query
            &&& !(action is ReasoningEffortNext || action is ReasoningEffortPrevious || action is ModelPicker)
                ==> w.effort_sel == v.effort_sel
        }),
{
    lemma_navigated_frame(v, s, action);
    lemma_aimed_frame(v, s, action);
    lemma_pointed_frame(v, s, action);
    lemma_redrawn_frame(v, s, action);
    reveal(picked);
    reveal(adjusted);
    reveal(viewed);
    lemma_settled_keeps(viewport_of(v, s), position_in(v), acted(v, s, action), s);
}

/// Which pane has the focus: the one asked for, the one that was clicked, else the same.
pub proof fn law_focus_goes_where_it_is_asked(v: AppView, s: UiSnapshot, action: ActionView)
    ensures
        ({
            let w = applied(v, s, action);
            &&& action matches ActionView::Focus(pane) ==> w.focused == pane
            &&& action is SelectFileRow || action is AgentFocus ==> w.focused == Pane::Files
            &&& action is SetDiffSelection || action is ClearDiffSelection || action is CommitDiffSelection
                ==> w.focused == Pane::Diff
            &&& action is TogglePlanNode || action is MovePlanNode || action is TogglePlanRelationship ==> w.focused
                == Pane::Impact
            &&& !(action is Focus || action is SelectFileRow || action is AgentFocus || action is SetDiffSelection
                || action is ClearDiffSelection || action is CommitDiffSelection || action is TogglePlanNode || action
                is MovePlanNode || action is TogglePlanRelationship) ==> w.focused == v.focused
        }),
{
    lemma_navigated_frame(v, s, action);
    reveal(aimed);
    reveal(pointed);
    reveal(redrawn);
    reveal(picked);
    reveal(adjusted);
    reveal(viewed);
    lemma_settled_keeps(viewport_of(v, s), position_in(v), acted(v, s, action), s);
}

/// A click on a row selects that row and leaves the rows on screen where they are; a wheel over
/// the files leaves the selection.
pub proof fn law_pointing_at_rows(v: AppView, s: UiSnapshot, row: int, offset: int)
    requires
        0 <= row < selectable_rows(v),
        0 <= v.file_sel < selectable_rows(v),
        0 <= offset < crate::file_rows::projection(v.files, v.collapsed).len(),
    ensures
        ({
            let w = applied(v, s, ActionView::SelectFileRow { logical_index: row, viewport_offset: offset });
            &&& w.file_sel == row
            &&& w.files_scroll == offset
            &&& w.files_detached
        }),
        ({
            let w = applied(v, s, ActionView::ScrollRegion { region: ScrollRegionId::Files, offset });
            &&& w.file_sel == v.file_sel
            &&& w.files_scroll == offset
            &&& w.files_detached
        }),
{
    reveal(aimed);
    let (l, at) = (viewport_of(v, s), position_in(v));
    lemma_settled_keeps(
        l,
        at,
        acted(v, s, ActionView::SelectFileRow { logical_index: row, viewport_offset: offset }),
        s,
    );
    lemma_settled_keeps(l, at, acted(v, s, ActionView::ScrollRegion { region: ScrollRegionId::Files, offset }), s);
}

/// Scrolling a region puts that region at the offset and leaves the others.
pub proof fn law_regions_scroll_on_their_own(v: AppView, s: UiSnapshot, offset: int)
    requires
        0 <= v.file_sel < selectable_rows(v),
        0 <= offset,
    ensures
        offset < s.diff.rows.len() <= 0x1_0000 ==> applied(
            v,
            s,
            ActionView::ScrollRegion { region: ScrollRegionId::Diff, offset },
        ).diff_scroll == offset,
        offset < s.impact.callers.rows.len() ==> applied(
            v,
            s,
            ActionView::ScrollRegion { region: ScrollRegionId::Callers, offset },
        ).callers_scroll == offset,
        offset < s.impact.downstream.rows.len() ==> applied(
            v,
            s,
            ActionView::ScrollRegion { region: ScrollRegionId::Downstream, offset },
        ).downstream_scroll == offset,
        offset <= 10_000 && (s.semantic.plan is Some || s.impact.selected_change is Some) ==> applied(
            v,
            s,
            ActionView::ScrollRegion { region: ScrollRegionId::GeneratedImpact, offset },
        ).plan_scroll == offset,
{
    reveal(aimed);
    lemma_not_resettled(v, s, ActionView::ScrollRegion { region: ScrollRegionId::Diff, offset });
    lemma_not_resettled(v, s, ActionView::ScrollRegion { region: ScrollRegionId::Callers, offset });
    lemma_not_resettled(v, s, ActionView::ScrollRegion { region: ScrollRegionId::Downstream, offset });
    lemma_not_resettled(v, s, ActionView::ScrollRegion { region: ScrollRegionId::GeneratedImpact, offset });
}

/// The unwrapped diff shifts right by a positive distance and left by a negative one, and by
/// eight columns with the arrow keys; a wrapped diff does not shift. `0` shifts it back.
pub proof fn law_diff_shifts_sideways(v: AppView, s: UiSnapshot, delta: i16)
    requires
        0 <= v.diff_hscroll <= 60_000,
        0 <= v.file_sel < selectable_rows(v),
    ensures
        ({
            let w = applied(v, s, ActionView::ScrollDiffHorizontal { delta });
            &&& v.diff_wrap ==> w.diff_hscroll == v.diff_hscroll
            &&& !v.diff_wrap && 0 <= delta <= 5000 ==> w.diff_hscroll == v.diff_hscroll + delta
            &&& !v.diff_wrap && delta < 0 ==> w.diff_hscroll == back(v.diff_hscroll, -delta)
        }),
        v.focused == Pane::Diff && !v.diff_wrap ==> {
            &&& applied(v, s, ActionView::Expand).diff_hscroll == v.diff_hscroll + 8
            &&& applied(v, s, ActionView::Collapse).diff_hscroll == back(v.diff_hscroll, 8)
        },
        applied(v, s, ActionView::ResetHScroll).diff_hscroll == 0,
{
    reveal(adjusted);
    reveal(redrawn);
    lemma_not_resettled(v, s, ActionView::ScrollDiffHorizontal { delta });
    lemma_not_resettled(v, s, ActionView::Expand);
    lemma_not_resettled(v, s, ActionView::Collapse);
    lemma_not_resettled(v, s, ActionView::ResetHScroll);
}

/// A text selection is what was selected, and wrapping or shifting ends it.
pub proof fn law_text_selection_is_kept(v: AppView, s: UiSnapshot, selection: crate::action::DiffTextSelection, text: Seq<char>)
    requires
        0 <= v.file_sel < selectable_rows(v),
    ensures
        applied(v, s, ActionView::SetDiffSelection(selection)).diff_selection == Some(selection),
        applied(v, s, ActionView::CommitDiffSelection { selection, text }).diff_selection == Some(selection),
        applied(v, s, ActionView::ClearDiffSelection).diff_selection is None,
        applied(v, s, ActionView::ToggleWrap).diff_selection is None,
        applied(v, s, ActionView::ResetHScroll).diff_selection is None,
{
    reveal(adjusted);
    lemma_not_resettled(v, s, ActionView::SetDiffSelection(selection));
    lemma_not_resettled(v, s, ActionView::CommitDiffSelection { selection, text });
    lemma_not_resettled(v, s, ActionView::ClearDiffSelection);
    lemma_not_resettled(v, s, ActionView::ToggleWrap);
    lemma_not_resettled(v, s, ActionView::ResetHScroll);
}

/// A resized divider has the extent that was asked for, not less than its floor, and no other
/// divider changes.
pub proof fn law_resizing_is_about_one_divider(v: AppView, s: UiSnapshot, divider: DividerId, extent: u16, other: DividerId)
    ensures
        ({
            let w = applied(v, s, ActionView::ResizeDivider { divider, extent });
            &&& extent >= divider.minimum_spec() ==> w.extents[divider] == extent
            &&& extent < divider.minimum_spec() ==> w.extents[divider] == divider.minimum_spec()
            &&& other != divider ==> w.extents[other] == v.extents[other]
        }),
{
    reveal(adjusted);
    let action = ActionView::ResizeDivider { divider, extent };
    lemma_settled_keeps(viewport_of(v, s), position_in(v), acted(v, s, action), s);
}

/// Collapsing a directory hides it from the open ones and expanding brings it back; no other
/// directory changes.
pub proof fn law_directories_open_and_close(v: AppView, s: UiSnapshot, path: Seq<char>, other: Seq<char>)
    ensures
        ({
            let closed = applied(v, s, ActionView::SetDirectoryExpanded { path, expanded: false });
            let open = applied(v, s, ActionView::SetDirectoryExpanded { path, expanded: true });
            &&& closed.collapsed.contains(path)
            &&& !open.collapsed.contains(path)
            &&& other != path ==> closed.collapsed.contains(other) == v.collapsed.contains(other)
            &&& other != path ==> open.collapsed.contains(other) == v.collapsed.contains(other)
        }),
{
    reveal(viewed);
    let (l, at) = (viewport_of(v, s), position_in(v));
    lemma_settled_keeps(l, at, acted(v, s, ActionView::SetDirectoryExpanded { path, expanded: false }), s);
    lemma_settled_keeps(l, at, acted(v, s, ActionView::SetDirectoryExpanded { path, expanded: true }), s);
}

proof fn lemma_file_place(files: Seq<FileRow>, path: Seq<char>, i: int)
    requires
        0 <= i,
    ensures
        match file_place(files, path, i) {
            Some(k) => i <= k < files.len() && files[k].path@ == path && forall|j: int|
                #![trigger files[j]]
                i <= j < k ==> files[j].path@ != path,
            None => forall|j: int| #![trigger files[j]] i <= j < files.len() ==> files[j].path@ != path,
        },
    decreases files.len() - i,
{
    if i < files.len() && files[i].path@ != path {
        lemma_file_place(files, path, i + 1);
    }
}

/// Expanding a file opens that file, collapsing closes it, and every other row stays as it is.
pub proof fn law_files_open_and_close(v: AppView, s: UiSnapshot, k: int, expanded: bool)
    requires
        0 <= k < v.files.len(),
        forall|j: int| #![trigger v.files[j]] 0 <= j < v.files.len() && j != k ==> v.files[j].path@ != v.files[k].path@,
    ensures
        ({
            let w = applied(v, s, ActionView::SetFileExpanded { path: v.files[k].path@, expanded });
            &&& w.files.len() == v.files.len()
            &&& w.files[k] == (FileRow { expanded, ..v.files[k] })
            &&& forall|j: int| #![trigger w.files[j]] 0 <= j < v.files.len() && j != k ==> w.files[j] == v.files[j]
        }),
{
    reveal(viewed);
    let path = v.files[k].path@;
    lemma_file_place(v.files, path, 0);
    assert(file_place(v.files, path, 0) == Some(k));
    let action = ActionView::SetFileExpanded { path, expanded };
    lemma_settled_keeps(viewport_of(v, s), position_in(v), acted(v, s, action), s);
}

/// The status detail opens on the message of the footer, and closes again; an empty footer has
/// nothing to open.
pub proof fn law_status_detail_opens_on_the_message(v: AppView, s: UiSnapshot, status: crate::action::StatusView)
    ensures
        v.status_detail is None && s.status.text@.len() > 0 ==> applied(v, s, ActionView::ToggleStatusDetail).status_detail
            == Some(s.status@),
        v.status_detail is None && s.status.text@.len() == 0 ==> applied(v, s, ActionView::ToggleStatusDetail).status_detail
            is None,
        v.status_detail is Some ==> applied(v, s, ActionView::ToggleStatusDetail).status_detail is None,
        applied(v, s, ActionView::OpenStatusDetail(status)).status_detail == Some(status),
{
    reveal(viewed);
    let (l, at) = (viewport_of(v, s), position_in(v));
    lemma_settled_keeps(l, at, acted(v, s, ActionView::ToggleStatusDetail), s);
    lemma_settled_keeps(l, at, acted(v, s, ActionView::OpenStatusDetail(status)), s);
}

proof fn lemma_place_of(items: Seq<Seq<char>>, item: Seq<char>, i: int)
    requires
        0 <= i,
    ensures
        match place_of(items, item, i) {
            Some(k) => i <= k < items.len() && items[k] == item,
            None => forall|j: int| #![trigger items[j]] i <= j < items.len() ==> items[j] != item,
        },
    decreases items.len() - i,
{
    if i < items.len() && items[i] != item {
        lemma_place_of(items, item, i + 1);
    }
}

/// The model picker opens on the model and the reasoning budget in use, without a query, where
/// the list without a query holds every model.
pub proof fn law_model_picker_opens_on_the_current_choice(v: AppView, s: UiSnapshot)
    requires
        !v.show_model_picker,
        candidates(s.available_models@, Seq::empty()).len() == s.available_models.len(),
        0 <= v.file_sel < selectable_rows(v),
    ensures
        ({
            let w = applied(v, s, ActionView::ModelPicker);
            &&& w.model_query.len() == 0
            &&& texts(s.available_models@).contains(s.ai_model@) ==> 0 <= w.model_sel < s.available_models.len()
                && s.available_models[w.model_sel]@ == s.ai_model@
            &&& texts(s.available_reasoning_efforts@).contains(s.ai_reasoning_effort@) ==> 0 <= w.effort_sel
                < s.available_reasoning_efforts.len() && s.available_reasoning_efforts[w.effort_sel]@
                == s.ai_reasoning_effort@
        }),
        applied(applied(v, s, ActionView::ModelPicker), s, ActionView::ModelPicker).model_query.len() == 0,
{
    reveal(picked);
    lemma_not_resettled(v, s, ActionView::ModelPicker);
    lemma_not_resettled(applied(v, s, ActionView::ModelPicker), s, ActionView::ModelPicker);
    lemma_place_of(texts(s.available_models@), s.ai_model@, 0);
    lemma_place_of(texts(s.available_reasoning_efforts@), s.ai_reasoning_effort@, 0);
}

/// The reasoning budgets form a ring: next goes on by one, the last is followed by the first,
/// and previous undoes next.
pub proof fn law_budgets_form_a_ring(v: AppView, s: UiSnapshot)
    requires
        0 <= v.effort_sel < s.available_reasoning_efforts.len(),
        0 <= v.file_sel < selectable_rows(v),
    ensures
        ({
            let len = s.available_reasoning_efforts.len();
            let next = applied(v, s, ActionView::ReasoningEffortNext);
            let previous = applied(v, s, ActionView::ReasoningEffortPrevious);
            &&& v.effort_sel + 1 < len ==> next.effort_sel == v.effort_sel + 1
            &&& v.effort_sel + 1 == len ==> next.effort_sel == 0
            &&& v.effort_sel > 0 ==> previous.effort_sel == v.effort_sel - 1
            &&& v.effort_sel == 0 ==> previous.effort_sel == len - 1
        }),
{
    reveal(picked);
    lemma_not_resettled(v, s, ActionView::ReasoningEffortNext);
    lemma_not_resettled(v, s, ActionView::ReasoningEffortPrevious);
    let len = s.available_reasoning_efforts.len() as int;
    assert((v.effort_sel + 1) % len == if v.effort_sel + 1 == len { 0 } else { v.effort_sel + 1 }) by (nonlinear_arith)
        requires
            0 <= v.effort_sel < len,
    ;
}

/// Typing adds the character at the end of the query of the open picker, backspace takes the
/// last one away, and the other picker's query stays.
pub proof fn law_queries_are_typed(v: AppView, s: UiSnapshot, c: char)
    requires
        v.show_model_picker || v.show_base_picker,
    ensures
        ({
            let typed = applied(v, s, ActionView::PickerInput(c));
            let erased = applied(v, s, ActionView::PickerBackspace);
            &&& v.show_model_picker ==> typed.model_query == v.model_query.push(c) && typed.base_query == v.base_query
            &&& !v.show_model_picker ==> typed.base_query == v.base_query.push(c) && typed.model_query == v.model_query
            &&& v.show_model_picker && v.model_query.len() > 0 ==> erased.model_query == v.model_query.drop_last()
            &&& !v.show_model_picker && v.base_query.len() > 0 ==> erased.base_query == v.base_query.drop_last()
            &&& applied(typed, s, ActionView::PickerBackspace).model_query == v.model_query
            &&& applied(typed, s, ActionView::PickerBackspace).base_query == v.base_query
        }),
{
    reveal(picked);
    let (l, at) = (viewport_of(v, s), position_in(v));
    let typed = applied(v, s, ActionView::PickerInput(c));
    lemma_settled_keeps(l, at, acted(v, s, ActionView::PickerInput(c)), s);
    lemma_settled_keeps(l, at, acted(v, s, ActionView::PickerBackspace), s);
    lemma_settled_keeps(viewport_of(typed, s), position_in(typed), acted(typed, s, ActionView::PickerBackspace), s);
    assert(v.model_query.push(c).drop_last() =~= v.model_query);
    assert(v.base_query.push(c).drop_last() =~= v.base_query);
}

/// Whether a candidate holds the query somewhere, whatever the case.
pub open spec fn holds_query(item: Seq<char>, query: Seq<char>) -> bool {
    exists|i: int|
        0 <= i && i + lowercase_of(query).len() <= lowercase_of(item).len() && #[trigger] lowercase_of(item).subrange(
            i,
            i + lowercase_of(query).len(),
        ) == lowercase_of(query)
}

/// A picker lists the candidates that hold the query, all of them, in their order.
pub proof fn law_pickers_list_the_matches(items: Seq<String>, query: Seq<char>)
    ensures
        candidates(items, query) == texts(items).filter(|item: Seq<char>| holds_query(item, query)),
{
    lemma_matching_is_filter(texts(items), query, items.len() as int);
    assert(texts(items).take(items.len() as int) =~= texts(items));
}

proof fn lemma_matching_is_filter(items: Seq<Seq<char>>, query: Seq<char>, n: int)
    requires
        0 <= n <= items.len(),
    ensures
        matching(items, query, n) == items.take(n).filter(|item: Seq<char>| holds_query(item, query)),
    decreases n,
{
    reveal(Seq::filter);
    if n > 0 {
        lemma_matching_is_filter(items, query, n - 1);
        assert(items.take(n).drop_last() =~= items.take(n - 1));
        let (a, b) = (lowercase_of(items[n - 1]), lowercase_of(query));
        assert(crate::text::occurs_in(a, b) == holds_query(items[n - 1], query)) by {
            if crate::text::occurs_in(a, b) {
                let i = choose|i: int| #[trigger] occurs_at(a, b, i);
                assert(a.subrange(i, i + b.len()) =~= b);
            }
            if holds_query(items[n - 1], query) {
                let i = choose|i: int|
                    0 <= i && i + b.len() <= a.len() && #[trigger] a.subrange(i, i + b.len()) == b;
                assert(occurs_at(a, b, i));
            }
        }
    }
}

} // verus!
