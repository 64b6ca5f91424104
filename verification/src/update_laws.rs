//! What a new picture makes of the state: what it replaces, what it keeps and what begins anew.

use vstd::prelude::*;
use crate::action::{ActionView, TargetView};
use crate::action_laws::header_count;
use crate::app::{
    clamped, fresh, has_generated, hovered_over, hunk_of, is_linked, linked_row, links, plan_node_of, position_in,
    position_of, rejoined, renewed, selected_file, selected_path, selected_symbol, session_of, settled, shown,
    shown_object, swapped, tree_toggle, updated, viewport_of, App, AppView, Pane, SessionTargetView, SessionView,
};
use crate::app_laws::lemma_settled_keeps;
use crate::file_rows::{logical_count, projection, resolved, row_at, RowView};
use crate::plan::{equal_edges, equal_forms, equal_nodes, equal_plans, DiffSide, PlanCodeRef, VisualizationPlan};
use crate::snapshot::{
    equal_row_lists, is_blank, AiStatus, ChangeScope, DiffPane, DiffRow, LsStatus, SelectedChange, UiSnapshot,
};
use crate::viewport::{ObjectView, ViewportView};

verus! {

/// Whether two selected changes say the same, field by field.
pub open spec fn same_change(a: Option<SelectedChange>, b: Option<SelectedChange>) -> bool {
    if a is Some && b is Some {
        (a->0).file@ == (b->0).file@ && (a->0).label@ == (b->0).label@ && (a->0).change@ == (b->0).change@ && (
        a->0).interpretation@ == (b->0).interpretation@ && (a->0).interpretation_source == (b->0).interpretation_source
    } else {
        a is None && b is None
    }
}

/// A new picture is shown: its files and its scope take the place of the old ones, and a
/// directory stays collapsed as long as it holds a file.
pub proof fn law_new_pictures_are_shown(v: AppView, a: UiSnapshot, b: UiSnapshot, d: Seq<char>)
    ensures
        ({
            let w = updated(v, a, b);
            &&& w.files == b.files@
            &&& w.scope == b.scope
            &&& w.collapsed.contains(d) ==> v.collapsed.contains(d)
            &&& forall|f: int|
                0 <= f < b.files.len() && v.collapsed.contains(d) && d.len() < #[trigger] b.files[f].path@.len()
                    && b.files[f].path@.take(d.len() as int) == d && b.files[f].path@[d.len() as int] == '/'
                    ==> w.collapsed.contains(d)
            &&& w.collapsed.contains(d) ==> exists|f: int|
                0 <= f < b.files.len() && d.len() < #[trigger] b.files[f].path@.len() && b.files[f].path@.take(
                    d.len() as int,
                ) == d
        }),
{
    reveal(shown);
    reveal(renewed);
    reveal(rejoined);
    reveal_strlit("/");
    let x = swapped(v, a, b);
    lemma_settled_keeps(viewport_of(v, a), position_in(v), x, b);
    let n = d.len() as int;
    assert(x.collapsed.contains(d) == (v.collapsed.contains(d) && crate::app::holds_file(b.files@, d)));
    assert forall|f: int|
        0 <= f < b.files.len() && v.collapsed.contains(d) && d.len() < #[trigger] b.files[f].path@.len()
            && b.files[f].path@.take(n) == d && b.files[f].path@[n] == '/' implies x.collapsed.contains(d) by {
        let path = b.files[f].path@;
        assert((d + "/"@).is_prefix_of(path)) by {
            assert(path.subrange(0, n + 1) =~= path.take(n) + "/"@);
        }
        assert(b.files@[f].path@ == path);
    }
    if x.collapsed.contains(d) {
        let f = choose|f: int| 0 <= f < b.files@.len() && (d + "/"@).is_prefix_of(#[trigger] b.files@[f].path@);
        let path = b.files[f].path@;
        assert(path.take(n) =~= (d + "/"@).take(n));
        assert((d + "/"@).take(n) =~= d);
    }
}

/// The lists of callers and of what lies downstream begin anew with another selected change, and
/// only then.
pub proof fn law_lists_begin_with_another_change(v: AppView, a: UiSnapshot, b: UiSnapshot)
    requires
        0 <= v.callers_scroll,
        0 <= v.downstream_scroll,
    ensures
        ({
            let w = updated(v, a, b);
            let same = same_change(a.impact.selected_change, b.impact.selected_change);
            &&& !same ==> w.callers_scroll == 0 && w.downstream_scroll == 0
            &&& same && v.callers_scroll < b.impact.callers.rows.len() ==> w.callers_scroll == v.callers_scroll
            &&& same && v.downstream_scroll < b.impact.downstream.rows.len() ==> w.downstream_scroll == v.downstream_scroll
            &&& w.callers_scroll <= v.callers_scroll && w.downstream_scroll <= v.downstream_scroll
            &&& w.callers_scroll == 0 || w.callers_scroll < b.impact.callers.rows.len()
            &&& w.downstream_scroll == 0 || w.downstream_scroll < b.impact.downstream.rows.len()
        }),
{
    reveal(shown);
    reveal(renewed);
    reveal(rejoined);
    lemma_settled_keeps(viewport_of(v, a), position_in(v), swapped(v, a, b), b);
}

/// A selection of text lasts as long as the text it was made in.
pub proof fn law_text_selection_lasts_with_its_text(v: AppView, a: UiSnapshot, b: UiSnapshot)
    ensures
        a.diff.title@ != b.diff.title@ ==> updated(v, a, b).diff_selection is None,
        a.diff.rows.len() != b.diff.rows.len() ==> updated(v, a, b).diff_selection is None,
        a.diff.title@ == b.diff.title@ && equal_row_lists(a.diff.rows@, b.diff.rows@) ==> updated(v, a, b).diff_selection
            == v.diff_selection,
{
    reveal(shown);
    reveal(renewed);
    reveal(rejoined);
    lemma_settled_keeps(viewport_of(v, a), position_in(v), swapped(v, a, b), b);
}

/// Rows are the same where they are of one kind with the same lines and the same text.
pub proof fn law_rows_are_compared_in_full(a: Seq<DiffRow>, b: Seq<DiffRow>, i: int)
    requires
        equal_row_lists(a, b),
        0 <= i < a.len(),
    ensures
        a.len() == b.len(),
        a[i] is HunkHeader <==> b[i] is HunkHeader,
        a[i] is Add <==> b[i] is Add,
        a[i] is Del <==> b[i] is Del,
        a[i] is Context <==> b[i] is Context,
        a[i] is HunkHeader ==> a[i]->HunkHeader_0@ == b[i]->HunkHeader_0@,
        a[i] is Add ==> a[i]->Add_text@ == b[i]->Add_text@ && a[i]->Add_new_ln == b[i]->Add_new_ln,
        a[i] is Del ==> a[i]->Del_text@ == b[i]->Del_text@ && a[i]->Del_old_ln == b[i]->Del_old_ln,
        a[i] is Context ==> a[i]->Context_text@ == b[i]->Context_text@ && a[i]->Context_old_ln == b[i]->Context_old_ln
            && a[i]->Context_new_ln == b[i]->Context_new_ln,
{
    assert(crate::snapshot::equal_rows(a[i], b[i]));
}

/// Another plan for the same selection starts at its top; anything else keeps the generated view
/// where it is.
pub proof fn law_another_plan_starts_at_its_top(v: AppView, a: UiSnapshot, b: UiSnapshot)
    requires
        session_of(a, v.scope) == session_of(b, b.scope),
        has_generated(b),
        0 <= v.plan_scroll,
    ensures
        a.semantic.plan is None && b.semantic.plan is Some ==> updated(v, a, b).plan_scroll == 0,
        a.semantic.plan is Some && b.semantic.plan is Some && (a.semantic.plan->0).intent@ != (b.semantic.plan->0).intent@
            ==> updated(v, a, b).plan_scroll == 0,
        a.semantic.plan is None && b.semantic.plan is None && v.plan_scroll <= 10_000 ==> updated(v, a, b).plan_scroll
            == v.plan_scroll,
        updated(v, a, b).plan_scroll <= v.plan_scroll,
{
    reveal(shown);
    reveal(renewed);
    reveal(rejoined);
    lemma_settled_keeps(viewport_of(v, a), position_in(v), swapped(v, a, b), b);
}

/// A session is a selected change of one generation in one scope: a directory, a file or one
/// symbol of a file.
pub proof fn law_sessions_are_told_apart(s: UiSnapshot, scope: ChangeScope)
    ensures
        s.impact.selected_change is None ==> session_of(s, scope) is None,
        s.impact.selected_change is Some ==> {
            let key = session_of(s, scope)->0;
            let file = (s.impact.selected_change->0).file@;
            let directory = s.diff.title@.len() > 0 && s.diff.title@[s.diff.title@.len() - 1] == '/';
            &&& session_of(s, scope) is Some
            &&& key.epoch == s.epoch && key.scope == scope
            &&& directory ==> key.target == SessionTargetView::Directory(file)
            &&& !directory && s.diff.focused_symbol is None ==> key.target == SessionTargetView::File(file)
            &&& !directory && s.diff.focused_symbol is Some ==> key.target == SessionTargetView::Symbol {
                file,
                name: (s.diff.focused_symbol->0)@,
            }
        },
{
}

/// Code is linked to a node where a reference of the node names its file, its hunk, its side and
/// a range of lines that holds it.
pub proof fn law_links_are_to_lines(r: PlanCodeRef, title: Seq<char>, row: DiffRow, hunk: int)
    ensures
        links(r, title, row, hunk) ==> r.file@ == title && r.hunk == hunk,
        row is HunkHeader ==> !links(r, title, row, hunk),
        r.file@ == title && r.hunk == hunk && row is Add ==> (links(r, title, row, hunk) <==> r.side == DiffSide::New
            && r.start_line <= row->Add_new_ln && row->Add_new_ln <= r.end_line),
        r.file@ == title && r.hunk == hunk && row is Del ==> (links(r, title, row, hunk) <==> r.side == DiffSide::Old
            && r.start_line <= row->Del_old_ln && row->Del_old_ln <= r.end_line),
        r.file@ == title && r.hunk == hunk && row is Context && r.side == DiffSide::Old ==> (links(r, title, row, hunk)
            <==> r.start_line <= row->Context_old_ln && row->Context_old_ln <= r.end_line),
        r.file@ == title && r.hunk == hunk && row is Context && r.side == DiffSide::New ==> (links(r, title, row, hunk)
            <==> r.start_line <= row->Context_new_ln && row->Context_new_ln <= r.end_line),
{
}

proof fn lemma_linked_row(diff: DiffPane, refs: Seq<PlanCodeRef>, i: int, k: int)
    requires
        0 <= i <= k < diff.rows.len(),
        is_linked(diff, refs, k),
        forall|j: int| i <= j < k ==> !#[trigger] is_linked(diff, refs, j),
    ensures
        linked_row(diff, refs, i) == Some(k),
    decreases k - i,
{
    if i < k {
        assert(!is_linked(diff, refs, i));
        lemma_linked_row(diff, refs, i + 1, k);
    }
}

/// Pointing at a box brings the first row that is linked to it into the diff; the place that was
/// shown before is kept, and leaving the box leads back to it.
pub proof fn law_pointing_shows_the_code(v: AppView, s: UiSnapshot, t: TargetView, k: int)
    requires
        v.hovered is None,
        plan_node_of(s, t) is Some,
        0 <= k < s.diff.rows.len(),
        k <= 65535,
        is_linked(s.diff, (plan_node_of(s, t)->0).code_refs@, k),
        forall|j: int| 0 <= j < k ==> !#[trigger] is_linked(s.diff, (plan_node_of(s, t)->0).code_refs@, j),
    ensures
        ({
            let w = hovered_over(v, s, Some(t));
            let back = hovered_over(w, s, None);
            &&& w.hovered == Some(t)
            &&& w.diff_scroll == k
            &&& w.before_hover == Some(v.diff_scroll)
            &&& back.hovered is None
            &&& back.before_hover is None
            &&& back.diff_scroll == v.diff_scroll
        }),
{
    lemma_linked_row(s.diff, (plan_node_of(s, t)->0).code_refs@, 0, k);
}

/// A box without linked code leaves the diff where it is, and from box to box the first place is
/// kept.
pub proof fn law_pointing_keeps_the_first_place(v: AppView, s: UiSnapshot, t: TargetView)
    requires
        v.hovered is Some,
        v.hovered != Some(t),
        plan_node_of(s, t) is Some,
        v.before_hover is Some,
    ensures
        hovered_over(v, s, Some(t)).before_hover == v.before_hover,
        hovered_over(v, s, Some(t)).hovered == Some(t),
        linked_row(s.diff, (plan_node_of(s, t)->0).code_refs@, 0) is None ==> hovered_over(v, s, Some(t)).diff_scroll
            == v.before_hover->0,
{
}

/// The diff that is shown is told apart by scope, file and object.
pub proof fn law_viewports_are_told_apart(v: AppView, s: UiSnapshot)
    ensures
        s.diff.rows.len() == 0 ==> viewport_of(v, s) is None,
        s.diff.rows.len() > 0 ==> {
            let key = viewport_of(v, s)->0;
            &&& viewport_of(v, s) is Some
            &&& key.scope == v.scope && key.file == s.diff.title@
            &&& shown_object(v, s) is Some ==> key.object == Some(
                ObjectView { name: (shown_object(v, s)->0).name@, position: (shown_object(v, s)->0).position },
            )
            &&& shown_object(v, s) is None ==> key.object is None
        },
        selected_symbol(v) is Some && v.files[(selected_symbol(v)->0).0].path@ == s.diff.title@ ==> shown_object(v, s)
            == Some(v.files[(selected_symbol(v)->0).0].symbols[(selected_symbol(v)->0).1]),
        selected_symbol(v) is Some && v.files[(selected_symbol(v)->0).0].path@ != s.diff.title@ ==> shown_object(v, s)
            is None,
        selected_symbol(v) is None ==> shown_object(v, s) is None,
{
}

/// A viewport is shown where it was left, as far as it still has the row; without wrapping also
/// at the column.
pub proof fn law_viewports_are_shown_where_left(v: AppView, s: UiSnapshot, key: ViewportView)
    requires
        v.viewports.dom().contains(key),
        0 < s.diff.rows.len() <= 65536,
    ensures
        ({
            let at = position_of(v, s, key);
            let kept = v.viewports[key];
            &&& kept.row < s.diff.rows.len() ==> at.row == kept.row
            &&& kept.row >= s.diff.rows.len() ==> at.row == s.diff.rows.len() - 1
            &&& !v.diff_wrap ==> at.column == kept.column
            &&& v.diff_wrap ==> at.column == 0
        }),
{
}

/// What is selected: the file of the selected row, or of the selected symbol; its path, or that
/// of a directory.
pub proof fn law_selection_names_its_row(v: AppView, row: RowView)
    requires
        resolved(v.files, v.collapsed, v.file_sel) == Some(row),
    ensures
        row is File ==> selected_file(v) == Some(row->File_file_index),
        row is Symbol ==> selected_file(v) == Some(row->Symbol_file_index),
        row is Directory || row is Note ==> selected_file(v) is None,
        row is Directory ==> selected_path(v) == Some(row->Directory_path),
        row is File && row->File_file_index < v.files.len() ==> selected_path(v) == Some(
            v.files[row->File_file_index].path@,
        ),
        row is Symbol && row->Symbol_file_index < v.files.len() ==> selected_path(v) == Some(
            v.files[row->Symbol_file_index].path@,
        ),
        row is Symbol && row->Symbol_file_index < v.files.len() && row->Symbol_symbol_index
            < v.files[row->Symbol_file_index].symbols.len() ==> selected_symbol(v) == Some(
            (row->Symbol_file_index, row->Symbol_symbol_index),
        ),
        !(row is Symbol) ==> selected_symbol(v) is None,
{
}

/// The list of files is shown from where it was scrolled, or so that the selection is its last
/// row at most; it never shows less than a page while there is one.
pub proof fn law_list_shows_a_full_page(v: AppView, capacity: int)
    requires
        0 < capacity,
        0 <= v.files_scroll,
    ensures
        ({
            let rows = projection(v.files, v.collapsed);
            let first = App::first_visible_row(v, capacity);
            let at = row_at(rows, v.file_sel, 0);
            &&& 0 <= first
            &&& rows.len() >= capacity ==> first + capacity <= rows.len()
            &&& rows.len() < capacity ==> first == 0
            &&& v.files_detached && v.files_scroll + capacity <= rows.len() ==> first == v.files_scroll
            &&& !v.files_detached && at is Some && at->0 < capacity ==> first == 0
            &&& !v.files_detached && at is Some && capacity <= at->0 < rows.len() ==> first == at->0 + 1 - capacity
        }),
{
}

/// Positions that a new picture no longer has become the last ones it has.
pub proof fn law_positions_are_held_to_the_picture(v: AppView, s: UiSnapshot)
    requires
        0 <= v.file_sel,
        0 <= v.diff_scroll,
        0 < s.diff.rows.len() <= 65536,
    ensures
        ({
            let w = clamped(v, s);
            &&& v.diff_scroll < s.diff.rows.len() ==> w.diff_scroll == v.diff_scroll
            &&& v.diff_scroll >= s.diff.rows.len() ==> w.diff_scroll == s.diff.rows.len() - 1
            &&& v.file_sel < logical_count(v.files, v.collapsed) ==> w.file_sel == v.file_sel
            &&& v.file_sel >= logical_count(v.files, v.collapsed) > 0 ==> w.file_sel == logical_count(v.files, v.collapsed)
                - 1
            &&& 1 <= v.current_hunk <= s.diff.total_hunks ==> w.current_hunk == v.current_hunk
            &&& s.diff.total_hunks == 0 ==> w.current_hunk == 0
            &&& v.current_hunk > s.diff.total_hunks > 0 ==> w.current_hunk == s.diff.total_hunks
            &&& w.files == v.files && w.collapsed == v.collapsed && w.focused == v.focused && w.diff_wrap == v.diff_wrap
        }),
{
}

/// The application begins on the files of the branch scope, at the top of everything, with
/// nothing selected, open or collapsed.
pub proof fn law_application_begins_at_the_top(v: AppView)
    requires
        fresh(v),
    ensures
        v.focused == Pane::Files,
        v.scope == ChangeScope::Branch,
        v.file_sel == 0 && v.diff_scroll == 0 && v.diff_hscroll == 0 && v.plan_scroll == 0,
        v.files.len() == 0 && !v.zoomed && !v.show_help && !v.show_model_picker && !v.show_base_picker && !v.should_quit,
        v.diff_selection is None && v.hovered is None && v.status_detail is None,
        forall|d: Seq<char>| !v.collapsed.contains(d),
        forall|t: TargetView| !v.diagram.expanded.contains(t) && !v.diagram.positions.dom().contains(t),
        v.diagram.relationship is None,
{
}

/// What was kept of other generations is forgotten.
pub proof fn law_other_generations_are_forgotten(v: AppView, a: UiSnapshot, b: UiSnapshot, key: SessionView)
    ensures
        updated(v, a, b).sessions.dom().contains(key) ==> key.epoch == b.epoch,
        key.epoch == b.epoch && v.sessions.dom().contains(key) && session_of(a, v.scope) != Some(key) ==> updated(
            v,
            a,
            b,
        ).sessions.dom().contains(key) && updated(v, a, b).sessions[key] == v.sessions[key],
{
    reveal(shown);
    reveal(renewed);
    reveal(rejoined);
    lemma_settled_keeps(viewport_of(v, a), position_in(v), swapped(v, a, b), b);
}

/// Plans are the same only where everything they say is the same.
pub proof fn law_plans_are_compared_in_full(a: VisualizationPlan, b: VisualizationPlan, f: int, i: int)
    requires
        equal_plans(a, b),
        0 <= f < a.forms.len(),
    ensures
        a.epoch == b.epoch,
        a.intent@ == b.intent@,
        a.forms.len() == b.forms.len(),
        a.forms[f].kind == b.forms[f].kind,
        a.forms[f].nodes.len() == b.forms[f].nodes.len(),
        a.forms[f].edges.len() == b.forms[f].edges.len(),
        a.evidence.len() == b.evidence.len(),
        0 <= i < a.forms[f].nodes.len() ==> {
            let (x, y) = (a.forms[f].nodes[i], b.forms[f].nodes[i]);
            &&& x.id@ == y.id@ && x.label@ == y.label@ && x.change == y.change && x.highlight == y.highlight
            &&& x.detail is Some <==> y.detail is Some
            &&& x.detail is Some ==> (x.detail->0)@ == (y.detail->0)@
            &&& x.expanded_detail is Some <==> y.expanded_detail is Some
            &&& x.expanded_detail is Some ==> (x.expanded_detail->0)@ == (y.expanded_detail->0)@
            &&& x.children.len() == y.children.len() && x.code_refs.len() == y.code_refs.len()
            &&& x.entity is Some <==> y.entity is Some
        },
        0 <= i < a.forms[f].edges.len() ==> {
            let (x, y) = (a.forms[f].edges[i], b.forms[f].edges[i]);
            &&& x.from@ == y.from@ && x.to@ == y.to@ && x.kind == y.kind
            &&& x.label is Some <==> y.label is Some
            &&& x.label is Some ==> (x.label->0)@ == (y.label->0)@
        },
        0 <= i < a.evidence.len() ==> a.evidence[i].file@ == b.evidence[i].file@ && a.evidence[i].reason@
            == b.evidence[i].reason@ && a.evidence[i].range == b.evidence[i].range && a.evidence[i].hunk == b.evidence[i].hunk,
{
    assert(equal_forms(a.forms[f], b.forms[f]));
    if 0 <= i < a.forms[f].nodes.len() {
        assert(equal_nodes(a.forms[f].nodes[i], b.forms[f].nodes[i]));
    }
    if 0 <= i < a.forms[f].edges.len() {
        assert(equal_edges(a.forms[f].edges[i], b.forms[f].edges[i]));
    }
}

/// A row lies in the hunk whose header stands last before it, counted from zero.
pub proof fn law_rows_lie_in_their_hunk(rows: Seq<DiffRow>, i: int)
    requires
        0 <= i <= rows.len(),
        header_count(rows.take(i)) <= 1_000_000,
    ensures
        hunk_of(rows, i) == header_count(rows.take(i)) - 1,
{
    crate::action_laws::lemma_headers_count(rows, i);
}

/// A blank picture holds nothing: no files, no diff, no selection, no plan, no message.
pub proof fn law_blank_pictures_hold_nothing(s: UiSnapshot)
    requires
        is_blank(s),
    ensures
        s.files.len() == 0 && s.diff.rows.len() == 0 && s.diff.total_hunks == 0 && s.diff.title@.len() == 0,
        s.impact.selected_change is None && s.impact.callers.rows.len() == 0 && s.impact.downstream.rows.len() == 0,
        s.semantic.plan is None && s.semantic.report is None && !s.semantic.ai_generated,
        s.scope == ChangeScope::Branch,
        s.ai == AiStatus::Idle && s.ls == LsStatus::Starting,
        s.ai_reasoning_effort@ == "default"@,
        s.available_bases.len() == 0 && s.available_models.len() == 0 && s.base_ref@.len() == 0,
        s.ai_tokens.input == 0 && s.ai_tokens.output == 0,
        !s.refreshing && !s.ai_activity.active && !s.model_list_loading && s.model_list_error is None,
        s.agent_changeset is None,
{
}

/// Toggling the tree opens or closes the selected directory or file; on a symbol it closes the
/// file that holds it.
pub proof fn law_tree_toggles_the_selected_row(v: AppView, row: RowView)
    requires
        resolved(v.files, v.collapsed, v.file_sel) == Some(row),
        row is File ==> row->File_file_index < v.files.len(),
        row is Symbol ==> row->Symbol_file_index < v.files.len(),
    ensures
        row is Directory && v.collapsed.contains(row->Directory_path) ==> tree_toggle(v) == Some(
            ActionView::SetDirectoryExpanded { path: row->Directory_path, expanded: true },
        ),
        row is Directory && !v.collapsed.contains(row->Directory_path) ==> tree_toggle(v) == Some(
            ActionView::SetDirectoryExpanded { path: row->Directory_path, expanded: false },
        ),
        row is File && v.files[row->File_file_index].expanded ==> tree_toggle(v) == Some(
            ActionView::SetFileExpanded { path: v.files[row->File_file_index].path@, expanded: false },
        ),
        row is File && !v.files[row->File_file_index].expanded ==> tree_toggle(v) == Some(
            ActionView::SetFileExpanded { path: v.files[row->File_file_index].path@, expanded: true },
        ),
        row is Symbol ==> tree_toggle(v) == Some(
            ActionView::SetFileExpanded { path: v.files[row->Symbol_file_index].path@, expanded: false },
        ),
        row is Note ==> tree_toggle(v) is None,
{
}

/// A box under the pointer keeps showing its code in a new picture of the same selection; where
/// the new plan no longer has it, the diff goes back to where it stood.
pub proof fn law_pointed_code_follows_the_picture(v: AppView, a: UiSnapshot, b: UiSnapshot, t: TargetView, k: int)
    requires
        v.hovered == Some(t),
        v.before_hover is Some,
        a.diff.title@ == b.diff.title@,
        same_change(a.impact.selected_change, b.impact.selected_change),
        session_of(a, v.scope) == session_of(b, b.scope),
        viewport_of(swapped(v, a, b), b) == viewport_of(v, a),
        0 <= k <= 65535,
    ensures
        ({
            let w = updated(v, a, b);
            let node = plan_node_of(b, t);
            &&& node is Some && linked_row(b.diff, (node->0).code_refs@, 0) == Some(k) ==> w.diff_scroll == k && w.hovered
                == Some(t)
            &&& node is None ==> w.hovered is None && w.before_hover is None && w.diff_scroll == v.before_hover->0
        }),
{
    reveal(shown);
    reveal(renewed);
    reveal(rejoined);
    reveal(settled);
}

} // verus!
