//! What holds of the view state whatever the user does.

use vstd::prelude::*;
use crate::action::{ActionView, TargetView};
use crate::app::{
    acted, adjusted, aimed, applied, candidates, clamped, has_generated, hovered_over, hunk_at, is_regenerated,
    kept_sessions, linked_row, navigated, picked, pointed, position_in, redrawn, rejoined, renewed, restored,
    row_of_key, selected_key, session_changed, session_of, settled, shown, shown_object, swapped, updated, viewed,
    viewport_of, MAX_GENERATED_SCROLL, App, AppView, KeptView, SessionView, UiPreferences,
};
use crate::diagram::{synced_state, StateView};
use crate::file_rows::{law_logical_index_resolves, logical_count, projection, row_at, summary_of, SummaryView};
use crate::num::{low16, min_int, monus};
use crate::plan::PlanCodeRef;
use crate::scroll::ScrollRegionId;
use crate::snapshot::UiSnapshot;
use crate::viewport::{law_object_row_is_first, object_row, PositionView, ViewportView};

verus! {

/// Everything that points into the shown data points at something that is there.
pub open spec fn in_bounds(v: AppView, s: UiSnapshot) -> bool {
    &&& v.file_sel <= monus(logical_count(v.files, v.collapsed), 1)
    &&& v.files_scroll <= monus(projection(v.files, v.collapsed).len() as int, 1)
    &&& v.diff_scroll <= monus(s.diff.rows.len() as int, 1)
    &&& (s.diff.total_hunks == 0 ==> v.current_hunk == 0)
    &&& (s.diff.total_hunks > 0 ==> 1 <= v.current_hunk <= s.diff.total_hunks)
    &&& v.model_sel <= monus(candidates(s.available_models@, v.model_query).len() as int, 1)
    &&& v.base_sel <= monus(candidates(s.available_bases@, v.base_query).len() as int, 1)
    &&& v.plan_scroll <= MAX_GENERATED_SCROLL
    &&& (!has_generated(s) ==> v.plan_scroll == 0)
    &&& v.callers_scroll <= monus(s.impact.callers.rows.len() as int, 1)
    &&& v.downstream_scroll <= monus(s.impact.downstream.rows.len() as int, 1)
}

proof fn lemma_linked_row(s: UiSnapshot, refs: Seq<PlanCodeRef>, i: int)
    ensures
        linked_row(s.diff, refs, i) matches Some(row) ==> row < s.diff.rows.len(),
    decreases s.diff.rows.len() - i,
{
    if 0 <= i < s.diff.rows.len() {
        lemma_linked_row(s, refs, i + 1);
    }
}

/// After any intent, every selection and scroll position is inside the shown data.
pub proof fn law_apply_stays_in_bounds(v: AppView, s: UiSnapshot, action: ActionView)
    ensures
        in_bounds(applied(v, s, action), s),
{
    reveal(settled);
    assert forall|refs: Seq<PlanCodeRef>| #[trigger] linked_row(s.diff, refs, 0) matches Some(row) ==> row
        < s.diff.rows.len() by {
        lemma_linked_row(s, refs, 0);
    }
    assert(low16(monus(s.diff.rows.len() as int, 1)) <= monus(s.diff.rows.len() as int, 1));
}

/// A state inside its bounds is left as it is by the step that moves it there.
pub proof fn law_clamping_is_idempotent(v: AppView, s: UiSnapshot)
    ensures
        clamped(clamped(v, s), s) == clamped(v, s),
{
}

/// What the dispatcher does changes nothing of a view state that is in bounds.
pub proof fn law_dispatched_intents_are_inert(v: AppView, s: UiSnapshot, action: ActionView)
    requires
        clamped(v, s) == v,
        action is AiSettingsSelected || action is BaseSelected || action is PersistUiPreferences
            || action is SelectSymbol || action is SelectionChanged || action is DirectorySelectionChanged
            || action is AgentDiagram || action is AgentDiagramRejected || action is RefreshGit
            || action is GenerateAi || action is ToggleAiGenerationMode || action is ToggleReviewed
            || action is ToggleReviewedTarget || action is SetAgentDiffSelection || action is Activate
            || action is Nothing,
    ensures
        applied(v, s, action) == v,
{
    reveal(viewed);
    reveal(settled);
}

/// Scrolling a region with the wheel moves neither the focus nor a valid selection.
pub proof fn law_wheel_keeps_focus_and_selection(v: AppView, s: UiSnapshot, region: ScrollRegionId, offset: int)
    requires
        v.file_sel <= monus(logical_count(v.files, v.collapsed), 1),
    ensures
        ({
            let w = applied(v, s, ActionView::ScrollRegion { region, offset });
            w.focused == v.focused && w.file_sel == v.file_sel && w.files == v.files && w.collapsed == v.collapsed
        }),
{
    reveal(aimed);
    reveal(settled);
}

/// What an intent does to flags does not depend on where the diff settles.
proof fn lemma_applied_flags(v: AppView, s: UiSnapshot, action: ActionView)
    ensures
        applied(v, s, action).zoomed == acted(v, s, action).zoomed,
        applied(v, s, action).diff_wrap == acted(v, s, action).diff_wrap,
        applied(v, s, action).show_help == acted(v, s, action).show_help,
{
    lemma_settled_keeps(viewport_of(v, s), position_in(v), acted(v, s, action), s);
}

/// Zooming, wrapping and the help twice come back.
pub proof fn law_toggles_come_back(v: AppView, s: UiSnapshot)
    ensures
        applied(applied(v, s, ActionView::ToggleZoom), s, ActionView::ToggleZoom).zoomed == v.zoomed,
        applied(applied(v, s, ActionView::ToggleWrap), s, ActionView::ToggleWrap).diff_wrap == v.diff_wrap,
        applied(applied(v, s, ActionView::ToggleHelp), s, ActionView::ToggleHelp).show_help == v.show_help,
{
    assert forall|w: AppView|
        #![trigger acted(w, s, ActionView::ToggleZoom)]
        #![trigger acted(w, s, ActionView::ToggleWrap)]
        #![trigger acted(w, s, ActionView::ToggleHelp)]
        acted(w, s, ActionView::ToggleZoom).zoomed == !w.zoomed && acted(w, s, ActionView::ToggleWrap).diff_wrap
            == !w.diff_wrap && acted(w, s, ActionView::ToggleHelp).show_help == !w.show_help by {
        reveal(viewed);
        reveal(adjusted);
    }
    lemma_applied_flags(v, s, ActionView::ToggleZoom);
    lemma_applied_flags(applied(v, s, ActionView::ToggleZoom), s, ActionView::ToggleZoom);
    lemma_applied_flags(v, s, ActionView::ToggleWrap);
    lemma_applied_flags(applied(v, s, ActionView::ToggleWrap), s, ActionView::ToggleWrap);
    lemma_applied_flags(v, s, ActionView::ToggleHelp);
    lemma_applied_flags(applied(v, s, ActionView::ToggleHelp), s, ActionView::ToggleHelp);
}

/// Pointing at a box and away again leaves the diff where it was.
pub proof fn law_leaving_a_box_restores_the_diff(v: AppView, s: UiSnapshot, t: TargetView)
    requires
        v.hovered is None,
        v.before_hover is None,
    ensures
        ({
            let w = hovered_over(hovered_over(v, s, Some(t)), s, None);
            &&& w.diff_scroll == v.diff_scroll
            &&& w.hovered is None
            &&& w.before_hover is None
            &&& v.current_hunk == hunk_at(s.diff, v.diff_scroll) ==> w == v
        }),
{
}

/// What no new picture changes.
proof fn lemma_update_keeps(v: AppView, a: UiSnapshot, b: UiSnapshot)
    ensures
        ({
            let w = updated(v, a, b);
            w.diff_wrap == v.diff_wrap && w.extents == v.extents && w.focused == v.focused && w.zoomed == v.zoomed
                && w.show_help == v.show_help && w.show_model_picker == v.show_model_picker && w.show_base_picker
                == v.show_base_picker && w.status_detail == v.status_detail
        }),
        swapped(v, a, b).viewports == v.viewports,
{
    reveal(shown);
    reveal(renewed);
    reveal(rejoined);
    lemma_settled_keeps(viewport_of(v, a), position_in(v), swapped(v, a, b), b);
}

/// Another viewport moves the diff and leaves the rest of the state as it is.
pub proof fn lemma_settled_keeps(left: Option<ViewportView>, at: PositionView, v: AppView, s: UiSnapshot)
    ensures
        ({
            let w = settled(left, at, v, s);
            &&& w == (AppView {
                diff_scroll: w.diff_scroll,
                diff_hscroll: w.diff_hscroll,
                current_hunk: w.current_hunk,
                hovered: w.hovered,
                before_hover: w.before_hover,
                viewports: w.viewports,
                ..v
            })
            &&& viewport_of(w, s) == viewport_of(v, s)
            &&& shown_object(w, s) == shown_object(v, s)
            &&& selected_key(w) == selected_key(v)
            &&& w.viewports == (if left is Some && left != viewport_of(v, s) {
                v.viewports.insert(left->0, at)
            } else {
                v.viewports
            })
        }),
{
    reveal(settled);
}

/// The open status detail is frozen: no new picture replaces or closes it.
pub proof fn law_status_detail_is_frozen(v: AppView, a: UiSnapshot, b: UiSnapshot)
    ensures
        updated(v, a, b).status_detail == v.status_detail,
{
    lemma_update_keeps(v, a, b);
}

/// A new picture changes no stable preference and no open modal.
pub proof fn law_update_keeps_preferences(v: AppView, a: UiSnapshot, b: UiSnapshot)
    ensures
        ({
            let w = updated(v, a, b);
            w.diff_wrap == v.diff_wrap && w.extents == v.extents && w.focused == v.focused && w.zoomed == v.zoomed
                && w.show_help == v.show_help && w.show_model_picker == v.show_model_picker && w.show_base_picker
                == v.show_base_picker
        }),
{
    lemma_update_keeps(v, a, b);
}

/// Preferences come back from an app that was made with them.
pub proof fn law_preferences_come_back(app: App, preferences: UiPreferences)
    requires
        app.diff_wrap == preferences.diff_wrap,
        app.dividers == preferences.dividers,
    ensures
        (UiPreferences { diff_wrap: app.diff_wrap, dividers: app.dividers }) == preferences,
{
}

proof fn lemma_row_of_key(rows: Seq<crate::file_rows::RowView>, files: Seq<crate::snapshot::FileRow>, key: SummaryView, i: int)
    requires
        0 <= i,
    ensures
        match row_of_key(rows, files, key, i) {
            Some(k) => i <= k < rows.len() && summary_of(rows[k], files) == Some(key),
            None => forall|j: int| #![trigger rows[j]] i <= j < rows.len() ==> summary_of(rows[j], files) != Some(key),
        },
    decreases rows.len() - i,
{
    if i < rows.len() && summary_of(rows[i], files) != Some(key) {
        lemma_row_of_key(rows, files, key, i + 1);
    }
}

/// Restoring a selection that still has a row selects that entity.
pub proof fn law_restoring_selects_the_entity(v: AppView, key: SummaryView)
    ensures
        row_of_key(projection(v.files, v.collapsed), v.files, key, 0) is Some ==> selected_key(restored(v, key))
            == Some(key),
{
    let rows = projection(v.files, v.collapsed);
    lemma_row_of_key(rows, v.files, key, 0);
    match row_of_key(rows, v.files, key, 0) {
        Some(k) => {
            let row = rows[k];
            assert(row.logical() is Some);
            let logical = row.logical()->0;
            law_logical_index_resolves(v.files, v.collapsed, logical);
            assert(row_at(rows, logical, 0) == Some(k));
        },
        None => {},
    }
}

/// The selection follows its entity: as long as the entity has a row in the new picture, it
/// is the selected one.
pub proof fn law_selection_follows_the_entity(v: AppView, a: UiSnapshot, b: UiSnapshot, key: SummaryView)
    requires
        selected_key(v) == Some(key),
    ensures
        ({
            let w = updated(v, a, b);
            row_of_key(projection(w.files, w.collapsed), w.files, key, 0) is Some ==> selected_key(w) == Some(key)
        }),
{
    reveal(shown);
    reveal(renewed);
    reveal(rejoined);
    let x = swapped(v, a, b);
    lemma_settled_keeps(viewport_of(v, a), position_in(v), x, b);
    let w3 = choose|w3: AppView| x == restored(w3, key) && w3.files == x.files && w3.collapsed == x.collapsed;
    law_restoring_selects_the_entity(w3, key);
}

/// What a new picture makes of the diagram: that of its session, in step with its plan.
proof fn lemma_updated_diagram(v: AppView, a: UiSnapshot, b: UiSnapshot)
    ensures
        ({
            let w = updated(v, a, b);
            let shown_now = session_changed(v, a, b);
            let same_session = session_of(a, v.scope) == session_of(b, b.scope);
            &&& w.scope == b.scope
            &&& w.sessions == shown_now.sessions
            &&& w.diagram == in_step(shown_now.diagram, a, b)
            &&& has_generated(b) && !same_session ==> w.plan_scroll == min_int(
                shown_now.plan_scroll,
                MAX_GENERATED_SCROLL as int,
            )
        }),
{
    reveal(shown);
    reveal(renewed);
    reveal(rejoined);
    lemma_settled_keeps(viewport_of(v, a), position_in(v), swapped(v, a, b), b);
}

/// A diagram in a new picture: boxes and relationships that a changed plan no longer has are
/// forgotten.
pub open spec fn in_step(diagram: StateView, a: UiSnapshot, b: UiSnapshot) -> StateView {
    match b.semantic.plan {
        Some(plan) => if is_regenerated(a, b) { synced_state(diagram, plan) } else { diagram },
        None => diagram,
    }
}

/// A diagram comes back: after another selection of the same epoch has been shown, the first
/// one shows its boxes, expansion and scroll position as they were left, but for what its
/// plan no longer has.
pub proof fn law_diagram_comes_back(
    v: AppView,
    a: UiSnapshot,
    b: UiSnapshot,
    c: UiSnapshot,
    first: SessionView,
    second: SessionView,
)
    requires
        session_of(a, v.scope) == Some(first),
        session_of(b, b.scope) == Some(second),
        session_of(c, c.scope) == Some(first),
        first != second,
        first.epoch == second.epoch,
    ensures
        ({
            let w = updated(updated(v, a, b), b, c);
            &&& w.diagram == in_step(v.diagram, b, c)
            &&& w.plan_scroll == min_int(v.plan_scroll, MAX_GENERATED_SCROLL as int)
            &&& (c.semantic.plan matches Some(plan) ==> synced_state(v.diagram, plan) == v.diagram) ==> w.diagram
                == v.diagram
        }),
{
    assert(first.epoch == a.epoch && second.epoch == b.epoch && first.epoch == c.epoch);
    let v1 = updated(v, a, b);
    lemma_updated_diagram(v, a, b);
    assert(v1.sessions.dom().contains(first));
    assert(v1.sessions[first] == (KeptView { diagram: v.diagram, scroll: v.plan_scroll }));
    lemma_updated_diagram(v1, b, c);
    let sessions = kept_sessions(v1, b);
    assert(sessions.dom().contains(first) && sessions[first] == v1.sessions[first]);
}

/// A position with a row that is shown.
pub open spec fn is_shown(at: PositionView, s: UiSnapshot) -> bool {
    at.row <= low16(monus(s.diff.rows.len() as int, 1))
}

/// A viewport that was left and is shown again stands where it stood.
proof fn lemma_position_comes_back(
    left: Option<ViewportView>,
    from: PositionView,
    v: AppView,
    s: UiSnapshot,
    key: ViewportView,
    at: PositionView,
)
    requires
        viewport_of(v, s) == Some(key),
        left != Some(key),
        v.viewports.dom().contains(key),
        v.viewports[key] == at,
        is_shown(at, s),
    ensures
        position_in(settled(left, from, v, s)).row == at.row,
        !v.diff_wrap ==> position_in(settled(left, from, v, s)) == at,
{
    reveal(settled);
}

/// Each file and each object remembers its scroll position: once a picture of something else
/// has been shown, a picture of the first one again shows it where it was left.
pub proof fn law_diff_position_comes_back(v: AppView, a: UiSnapshot, b: UiSnapshot, c: UiSnapshot, key: ViewportView)
    requires
        viewport_of(v, a) == Some(key),
        viewport_of(updated(v, a, b), b) != Some(key),
        viewport_of(updated(updated(v, a, b), b, c), c) == Some(key),
        is_shown(position_in(v), c),
    ensures
        ({
            let w = updated(updated(v, a, b), b, c);
            &&& position_in(w).row == position_in(v).row
            &&& !v.diff_wrap ==> position_in(w) == position_in(v)
        }),
{
    let v1 = updated(v, a, b);
    lemma_update_keeps(v, a, b);
    lemma_settled_keeps(viewport_of(v, a), position_in(v), swapped(v, a, b), b);
    assert(v1.viewports == v.viewports.insert(key, position_in(v)));
    lemma_update_keeps(v1, b, c);
    lemma_settled_keeps(viewport_of(v1, b), position_in(v1), swapped(v1, b, c), c);
    let x = swapped(v1, b, c);
    assert(x.diff_wrap == v.diff_wrap);
    lemma_position_comes_back(viewport_of(v1, b), position_in(v1), x, c, key, position_in(v));
}

proof fn lemma_acted_keeps_viewports(v: AppView, s: UiSnapshot, action: ActionView)
    ensures
        acted(v, s, action).viewports == v.viewports,
{
    reveal(navigated);
    reveal(aimed);
    reveal(pointed);
    reveal(redrawn);
    reveal(picked);
    reveal(adjusted);
    reveal(viewed);
}

/// Moving the selection onto an object and away again leaves the diff where it was.
pub proof fn law_moving_away_and_back_keeps_the_diff(
    v: AppView,
    s: UiSnapshot,
    away: ActionView,
    back: ActionView,
    key: ViewportView,
)
    requires
        viewport_of(v, s) == Some(key),
        viewport_of(applied(v, s, away), s) != Some(key),
        viewport_of(applied(applied(v, s, away), s, back), s) == Some(key),
        is_shown(position_in(v), s),
    ensures
        position_in(applied(applied(v, s, away), s, back)).row == position_in(v).row,
{
    let v1 = applied(v, s, away);
    lemma_acted_keeps_viewports(v, s, away);
    lemma_settled_keeps(viewport_of(v, s), position_in(v), acted(v, s, away), s);
    let x = acted(v1, s, back);
    lemma_acted_keeps_viewports(v1, s, back);
    lemma_settled_keeps(viewport_of(v1, s), position_in(v1), x, s);
    lemma_position_comes_back(viewport_of(v1, s), position_in(v1), x, s, key, position_in(v));
}

/// An object that was never shown before stands at its first changed row.
proof fn lemma_object_opens(left: Option<ViewportView>, at: PositionView, v: AppView, s: UiSnapshot, key: ViewportView)
    requires
        viewport_of(v, s) == Some(key),
        left != Some(key),
        !v.viewports.dom().contains(key),
        s.diff.rows.len() <= 0x1_0000,
        shown_object(v, s) matches Some(symbol) && object_row(s.diff.rows@, symbol) is Some,
    ensures
        position_in(settled(left, at, v, s)).row == object_row(s.diff.rows@, shown_object(v, s)->0)->0,
{
    reveal(settled);
    law_object_row_is_first(s.diff.rows@, shown_object(v, s)->0);
}

/// Moving the selection onto an object that was not shown before brings its first changed row
/// into the diff.
pub proof fn law_selecting_an_object_shows_its_change(v: AppView, s: UiSnapshot, action: ActionView)
    requires
        s.diff.rows.len() <= 0x1_0000,
        viewport_of(applied(v, s, action), s) != viewport_of(v, s),
        viewport_of(applied(v, s, action), s) matches Some(key) && !v.viewports.dom().contains(key),
        shown_object(applied(v, s, action), s) matches Some(symbol) && object_row(s.diff.rows@, symbol) is Some,
    ensures
        ({
            let w = applied(v, s, action);
            position_in(w).row == object_row(s.diff.rows@, shown_object(w, s)->0)->0
        }),
{
    let x = acted(v, s, action);
    lemma_acted_keeps_viewports(v, s, action);
    lemma_settled_keeps(viewport_of(v, s), position_in(v), x, s);
    lemma_object_opens(viewport_of(v, s), position_in(v), x, s, viewport_of(x, s)->0);
}

/// A picture of an object that was not shown before shows its first changed row.
pub proof fn law_opening_an_object_shows_its_change(v: AppView, a: UiSnapshot, b: UiSnapshot)
    requires
        b.diff.rows.len() <= 0x1_0000,
        viewport_of(updated(v, a, b), b) != viewport_of(v, a),
        viewport_of(updated(v, a, b), b) matches Some(key) && !v.viewports.dom().contains(key),
        shown_object(updated(v, a, b), b) matches Some(symbol) && object_row(b.diff.rows@, symbol) is Some,
    ensures
        ({
            let w = updated(v, a, b);
            position_in(w).row == object_row(b.diff.rows@, shown_object(w, b)->0)->0
        }),
{
    let x = swapped(v, a, b);
    lemma_update_keeps(v, a, b);
    lemma_settled_keeps(viewport_of(v, a), position_in(v), x, b);
    lemma_object_opens(viewport_of(v, a), position_in(v), x, b, viewport_of(x, b)->0);
}

} // verus!
