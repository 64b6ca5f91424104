//! What intents on the diagram, the pickers and the tree leave behind.

use vstd::prelude::*;
use crate::action::{ActionView, RelationshipView, TargetView};
use crate::app::{
    acted, adjusted, aimed, applied, file_place, navigated, picked, plan_node_of, plan_relates, pointed, position_in,
    redrawn, viewed, viewport_of, AppView, Pane,
};
use crate::app_laws::lemma_settled_keeps;
use crate::diagram::DiagramPosition;
use crate::file_rows::{is_below, lemma_below_is_prefix, prefixes_of, SummaryView};
use crate::scroll::ScrollRegionId;
use crate::snapshot::UiSnapshot;

verus! {

/// A box that is moved stands where it was put, on top; one that the plan does not have is not
/// moved.
pub proof fn law_moving_intents_move_the_box(v: AppView, s: UiSnapshot, t: TargetView, x: u16, y: u16)
    ensures
        ({
            let w = applied(v, s, ActionView::MovePlanNode { target: t, x, y });
            &&& plan_node_of(s, t) is Some ==> w.diagram.positions.dom().contains(t) && w.diagram.positions[t] == (
            DiagramPosition { x, y }) && w.diagram.z_order.last() == t && w.diagram.expanded == v.diagram.expanded
            &&& plan_node_of(s, t) is None ==> w.diagram == v.diagram
            &&& w.focused == Pane::Impact
        }),
{
    let a = ActionView::MovePlanNode { target: t, x, y };
    reveal(redrawn);
    lemma_settled_keeps(viewport_of(v, s), position_in(v), acted(v, s, a), s);
}

/// A click on a box, and the key on the box under the pointer, open or close that box alone.
pub proof fn law_opening_intents_open_the_box(v: AppView, s: UiSnapshot, t: TargetView, u: TargetView)
    requires
        plan_node_of(s, t) is Some,
        u != t,
    ensures
        ({
            let w = applied(v, s, ActionView::TogglePlanNode(t));
            &&& w.diagram.expanded.contains(t) == !v.diagram.expanded.contains(t)
            &&& w.diagram.expanded.contains(u) == v.diagram.expanded.contains(u)
            &&& w.diagram.positions == v.diagram.positions
        }),
        v.focused == Pane::Impact && v.hovered == Some(t) ==> {
            let w = applied(v, s, ActionView::ToggleExpand);
            &&& w.diagram.expanded.contains(t) == !v.diagram.expanded.contains(t)
            &&& w.diagram.expanded.contains(u) == v.diagram.expanded.contains(u)
            &&& applied(v, s, ActionView::Expand).diagram == w.diagram
        },
        v.focused != Pane::Impact || v.hovered is None ==> applied(v, s, ActionView::ToggleExpand).diagram == v.diagram
            && applied(v, s, ActionView::Expand).diagram == v.diagram,
{
    reveal(pointed);
    reveal(redrawn);
    let (left, at) = (viewport_of(v, s), position_in(v));
    lemma_settled_keeps(left, at, acted(v, s, ActionView::TogglePlanNode(t)), s);
    lemma_settled_keeps(left, at, acted(v, s, ActionView::ToggleExpand), s);
    lemma_settled_keeps(left, at, acted(v, s, ActionView::Expand), s);
}

/// Collapsing the diagram closes every box and every list and moves nothing; elsewhere it leaves
/// the diagram alone.
pub proof fn law_collapsing_closes_the_diagram(v: AppView, s: UiSnapshot, t: TargetView)
    ensures
        ({
            let w = applied(v, s, ActionView::Collapse);
            &&& v.focused == Pane::Impact ==> !w.diagram.expanded.contains(t) && w.diagram.relationship is None
                && w.diagram.overlay_scroll == 0 && w.diagram.positions == v.diagram.positions && w.diagram.z_order
                == v.diagram.z_order
            &&& v.focused != Pane::Impact ==> w.diagram == v.diagram
        }),
{
    reveal(redrawn);
    lemma_settled_keeps(viewport_of(v, s), position_in(v), acted(v, s, ActionView::Collapse), s);
}

/// A relationship opens and closes; its list turns to the page that is asked for.
pub proof fn law_relationship_intents_open_the_list(v: AppView, s: UiSnapshot, r: RelationshipView, offset: int)
    ensures
        ({
            let w = applied(v, s, ActionView::TogglePlanRelationship(r));
            &&& plan_relates(s, r) && v.diagram.relationship != Some(r) ==> w.diagram.relationship == Some(r)
                && w.diagram.overlay_scroll == 0
            &&& plan_relates(s, r) && v.diagram.relationship == Some(r) ==> w.diagram.relationship is None
            &&& !plan_relates(s, r) ==> w.diagram == v.diagram
            &&& w.diagram.expanded == v.diagram.expanded && w.diagram.positions == v.diagram.positions
        }),
        ({
            let w = applied(v, s, ActionView::ScrollPlanRelationshipOverlay { offset });
            &&& w.diagram.overlay_scroll == offset
            &&& w.diagram.relationship == v.diagram.relationship && w.diagram.expanded == v.diagram.expanded
                && w.diagram.positions == v.diagram.positions
        }),
{
    reveal(redrawn);
    let (left, at) = (viewport_of(v, s), position_in(v));
    lemma_settled_keeps(left, at, acted(v, s, ActionView::TogglePlanRelationship(r)), s);
    lemma_settled_keeps(left, at, acted(v, s, ActionView::ScrollPlanRelationshipOverlay { offset }), s);
}

/// A selection of text is dropped where its text moves on the screen: with the wrapping, and
/// with every shift.
pub proof fn law_shifts_drop_the_selection(v: AppView, s: UiSnapshot, delta: i16)
    ensures
        applied(v, s, ActionView::ToggleWrap).diff_selection is None,
        applied(v, s, ActionView::ToggleWrap).diff_wrap == !v.diff_wrap,
        applied(v, s, ActionView::ResetHScroll).diff_selection is None,
        !v.diff_wrap ==> applied(v, s, ActionView::ScrollDiffHorizontal { delta }).diff_selection is None,
        v.diff_wrap ==> applied(v, s, ActionView::ScrollDiffHorizontal { delta }).diff_selection == v.diff_selection,
        v.focused == Pane::Diff && !v.diff_wrap ==> applied(v, s, ActionView::Expand).diff_selection is None && applied(
            v,
            s,
            ActionView::Collapse,
        ).diff_selection is None,
{
    reveal(adjusted);
    reveal(redrawn);
    let (left, at) = (viewport_of(v, s), position_in(v));
    lemma_settled_keeps(left, at, acted(v, s, ActionView::ToggleWrap), s);
    lemma_settled_keeps(left, at, acted(v, s, ActionView::ResetHScroll), s);
    lemma_settled_keeps(left, at, acted(v, s, ActionView::ScrollDiffHorizontal { delta }), s);
    lemma_settled_keeps(left, at, acted(v, s, ActionView::Expand), s);
    lemma_settled_keeps(left, at, acted(v, s, ActionView::Collapse), s);
}

/// The picker of bases opens and closes on its first entry, with nothing typed.
pub proof fn law_base_picker_starts_afresh(v: AppView, s: UiSnapshot)
    ensures
        ({
            let w = applied(v, s, ActionView::BasePicker);
            w.show_base_picker == !v.show_base_picker && w.base_sel == 0 && w.base_query.len() == 0 && w.show_model_picker
                == v.show_model_picker
        }),
        applied(v, s, ActionView::ModelPicker).model_query.len() == 0,
        applied(v, s, ActionView::ModelPicker).show_model_picker == !v.show_model_picker,
{
    reveal(picked);
    let (left, at) = (viewport_of(v, s), position_in(v));
    lemma_settled_keeps(left, at, acted(v, s, ActionView::BasePicker), s);
    lemma_settled_keeps(left, at, acted(v, s, ActionView::ModelPicker), s);
}

/// Focusing an entity opens every directory above it and no other, and the file of a symbol.
pub proof fn law_focused_entities_are_opened(v: AppView, s: UiSnapshot, key: SummaryView, d: Seq<char>)
    ensures
        ({
            let w = applied(v, s, ActionView::AgentFocus(key));
            let path = match key {
                SummaryView::Directory(p) => p,
                SummaryView::File(p) => p,
                SummaryView::Symbol { file, .. } => file,
            };
            &&& w.collapsed.contains(d) <==> v.collapsed.contains(d) && !is_below(path, d)
            &&& w.focused == Pane::Files
            &&& !w.files_detached
            &&& key is Symbol && file_place(v.files, path, 0) is Some && 0 <= file_place(v.files, path, 0)->0 < v.files.len()
                ==> w.files[file_place(v.files, path, 0)->0].expanded
            &&& !(key is Symbol) ==> w.files == v.files
        }),
{
    reveal(aimed);
    let path = match key {
        SummaryView::Directory(p) => p,
        SummaryView::File(p) => p,
        SummaryView::Symbol { file, .. } => file,
    };
    lemma_settled_keeps(viewport_of(v, s), position_in(v), acted(v, s, ActionView::AgentFocus(key)), s);
    lemma_below_is_prefix(path, d);
    assert(prefixes_of(path).contains(d) <==> exists|k: int|
        0 <= k < prefixes_of(path).len() && #[trigger] prefixes_of(path)[k] == d);
}

/// Moving the selection, or a row or directory of it, brings the selection back into view; the
/// wheel lets go of it.
pub proof fn law_selection_is_followed(v: AppView, s: UiSnapshot, path: Seq<char>, expanded: bool, offset: int)
    ensures
        v.focused == Pane::Files && !v.show_model_picker && !v.show_base_picker ==> {
            &&& !applied(v, s, ActionView::Down).files_detached
            &&& !applied(v, s, ActionView::Up).files_detached
            &&& !applied(v, s, ActionView::Top).files_detached
            &&& !applied(v, s, ActionView::Bottom).files_detached
        },
        !applied(v, s, ActionView::SetFileExpanded { path, expanded }).files_detached,
        !applied(v, s, ActionView::SetDirectoryExpanded { path, expanded }).files_detached,
        applied(v, s, ActionView::ScrollRegion { region: ScrollRegionId::Files, offset }).files_detached,
{
    reveal(navigated);
    reveal(viewed);
    reveal(aimed);
    let (left, at) = (viewport_of(v, s), position_in(v));
    lemma_settled_keeps(left, at, acted(v, s, ActionView::Down), s);
    lemma_settled_keeps(left, at, acted(v, s, ActionView::Up), s);
    lemma_settled_keeps(left, at, acted(v, s, ActionView::Top), s);
    lemma_settled_keeps(left, at, acted(v, s, ActionView::Bottom), s);
    lemma_settled_keeps(left, at, acted(v, s, ActionView::SetFileExpanded { path, expanded }), s);
    lemma_settled_keeps(left, at, acted(v, s, ActionView::SetDirectoryExpanded { path, expanded }), s);
    lemma_settled_keeps(left, at, acted(v, s, ActionView::ScrollRegion { region: ScrollRegionId::Files, offset }), s);
}

/// Scrolling the generated view leaves the box under the pointer.
pub proof fn law_scrolling_leaves_the_box(v: AppView, s: UiSnapshot, offset: int)
    requires
        viewport_of(acted(v, s, ActionView::ScrollRegion { region: ScrollRegionId::GeneratedImpact, offset }), s)
            == viewport_of(v, s),
    ensures
        applied(v, s, ActionView::ScrollRegion { region: ScrollRegionId::GeneratedImpact, offset }).hovered is None,
{
    reveal(aimed);
    reveal(crate::app::settled);
}

} // verus!
