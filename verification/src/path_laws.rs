//! How paths are shortened, and where the diff of an object opens.

use vstd::prelude::*;
use crate::app::side_line;
use crate::elide::{
    agree_at, common_from, directories, elided, elided_path, fitted, middle_elided, root_text, shared_root_spec,
    without_root,
};
use crate::plan::DiffSide;
use crate::snapshot::{DiffRow, SymbolRow};
use crate::text::{display_width, head_cells, split_on, tail_cells};
use crate::viewport::{first_change, first_position, first_row_at, object_row};

verus! {

/// A path that fits is shown whole; a longer one keeps its first directory and its name, then
/// its name after an ellipsis, then its name alone.
pub proof fn law_paths_yield_from_the_middle(path: Seq<char>, budget: int)
    ensures
        ({
            let parts = split_on(path, '/');
            let shown = elided(path, budget, false);
            let first = parts[0] + "/…/"@ + parts.last();
            let last = "…/"@ + parts.last();
            &&& display_width(path) <= budget ==> shown == path
            &&& display_width(path) > budget && parts.len() >= 2 && display_width(first) <= budget ==> shown == first
            &&& display_width(path) > budget && parts.len() >= 2 && display_width(first) > budget && display_width(last)
                <= budget ==> shown == last
            &&& display_width(path) > budget && parts.len() >= 2 && display_width(first) > budget && display_width(last)
                > budget && display_width(parts.last()) <= budget ==> shown == parts.last()
        }),
{
    reveal_strlit("");
    let parts = split_on(path, '/');
    assert(""@ + path =~= path);
    assert(""@ + parts[0] =~= parts[0]);
    assert(""@ + "…/"@ =~= "…/"@);
    assert(""@ + parts.last() =~= parts.last());
}

/// The same under a shared root, which is marked by an ellipsis of its own.
pub proof fn law_paths_below_the_root_yield_from_the_middle(path: Seq<char>, budget: int)
    ensures
        ({
            let parts = split_on(path, '/');
            let shown = elided(path, budget, true);
            let first = "…/"@ + parts[0] + "/…/"@ + parts.last();
            let last = "…/"@ + "…/"@ + parts.last();
            let name = "…/"@ + parts.last();
            &&& display_width("…/"@ + path) <= budget ==> shown == "…/"@ + path
            &&& display_width("…/"@ + path) > budget && parts.len() >= 2 && display_width(first) <= budget ==> shown
                == first
            &&& display_width("…/"@ + path) > budget && parts.len() >= 2 && display_width(first) > budget
                && display_width(last) <= budget ==> shown == last
            &&& display_width("…/"@ + path) > budget && parts.len() >= 2 && display_width(first) > budget
                && display_width(last) > budget && display_width(name) <= budget ==> shown == name
        }),
{
}

/// A name that does not fit keeps its beginning and its extension about an ellipsis: the
/// extension takes at most half, the beginning what is left.
pub proof fn law_names_keep_both_ends(name: Seq<char>, budget: int)
    ensures
        display_width(name) <= budget ==> middle_elided(name, budget) == name,
        display_width(name) > budget && budget < 4 ==> middle_elided(name, budget) == "…"@,
        display_width(name) > budget && budget >= 4 ==> exists|head: int, tail: int|
            #![trigger head_cells(name, head), tail_cells(name, tail)]
            0 <= head && 0 <= tail <= budget / 2 && head + 1 + tail == budget && middle_elided(name, budget)
                == head_cells(name, head) + "…"@ + tail_cells(name, tail) && {
                let parts = split_on(name, '.');
                let dotted = seq!['.'] + parts.last();
                &&& parts.len() >= 2 && display_width(dotted) <= budget / 2 ==> tail == display_width(dotted)
                &&& parts.len() >= 2 && display_width(dotted) > budget / 2 ==> tail == budget / 2
                &&& parts.len() < 2 && display_width(Seq::<char>::empty()) == 0 ==> tail == 0
            },
{
    if display_width(name) > budget && budget >= 4 {
        let kept = display_width(crate::elide::extension(name)) as int;
        let tail = if kept < budget / 2 { kept } else { budget / 2 };
        let head = budget - 1 - tail;
        assert(middle_elided(name, budget) == head_cells(name, head) + "…"@ + tail_cells(name, tail));
    }
}

/// Below four cells a path is an ellipsis, or nothing where not even that fits.
pub proof fn law_narrow_paths_are_an_ellipsis(paths: Seq<Seq<char>>, i: int, budget: int)
    requires
        budget < 4,
    ensures
        display_width("…"@) <= budget ==> elided_path(paths, i, budget) == "…"@,
        display_width("…"@) > budget ==> elided_path(paths, i, budget).len() == 0,
        forall|s: Seq<char>| display_width(s) <= budget ==> #[trigger] fitted(s, budget) == s,
{
}

/// A root is shared only by two paths or more, it has two directories or more, and it takes at
/// least eight cells; a directory more would not be shared by all.
pub proof fn law_roots_are_worth_sharing(paths: Seq<Seq<char>>)
    requires
        paths.len() > 0,
    ensures
        ({
            let n = common_from(paths, 0);
            let root = shared_root_spec(paths);
            &&& 0 <= n <= directories(paths[0]).len()
            &&& forall|i: int| 0 <= i < n ==> #[trigger] agree_at(paths, i)
            &&& n < directories(paths[0]).len() ==> !agree_at(paths, n)
            &&& root is Some <==> paths.len() >= 2 && n >= 2 && display_width(root_text(paths[0], n)) >= 8
            &&& root is Some ==> root->0 == root_text(paths[0], n) && (root->0).last() == '/'
            &&& root is None ==> forall|k: int| 0 <= k < paths.len() ==> without_root(#[trigger] paths[k], root) == paths[k]
        }),
{
    lemma_common(paths, 0);
}

proof fn lemma_common(paths: Seq<Seq<char>>, i: int)
    requires
        paths.len() > 0,
        0 <= i <= directories(paths[0]).len(),
    ensures
        ({
            let n = common_from(paths, i);
            &&& i <= n <= directories(paths[0]).len()
            &&& forall|j: int| i <= j < n ==> #[trigger] agree_at(paths, j)
            &&& n < directories(paths[0]).len() ==> !agree_at(paths, n)
        }),
    decreases directories(paths[0]).len() - i,
{
    if i < directories(paths[0]).len() && agree_at(paths, i) {
        lemma_common(paths, i + 1);
    }
}

proof fn lemma_row_at(rows: Seq<DiffRow>, side: DiffSide, line: int, i: int, k: int)
    requires
        0 <= i <= k < rows.len(),
        side_line(rows[k], side) is Some,
        side_line(rows[k], side)->0 >= line,
        forall|j: int| i <= j < k ==> !(side_line(#[trigger] rows[j], side) is Some && side_line(rows[j], side)->0 >= line),
    ensures
        first_row_at(rows, side, line, i) == Some(k),
    decreases k - i,
{
    if i < k {
        assert(!(side_line(rows[i], side) is Some && side_line(rows[i], side)->0 >= line));
        lemma_row_at(rows, side, line, i + 1, k);
    }
}

proof fn lemma_change_at(rows: Seq<DiffRow>, i: int, k: int)
    requires
        0 <= i <= k < rows.len(),
        rows[k] is Add || rows[k] is Del,
        forall|j: int| i <= j < k ==> (#[trigger] rows[j]) is Context || rows[j] is HunkHeader,
    ensures
        first_change(rows, i) == Some(k),
    decreases k - i,
{
    if i < k {
        assert(rows[i] is Context || rows[i] is HunkHeader);
        lemma_change_at(rows, i + 1, k);
    }
}

/// The line of a row on a side: added lines have a new number, removed lines an old one, context
/// both.
pub proof fn law_sides_have_their_lines(row: DiffRow)
    ensures
        row is Add ==> side_line(row, DiffSide::New) == Some(row->Add_new_ln as int) && side_line(row, DiffSide::Old) is None,
        row is Del ==> side_line(row, DiffSide::Old) == Some(row->Del_old_ln as int) && side_line(row, DiffSide::New) is None,
        row is Context ==> side_line(row, DiffSide::Old) == Some(row->Context_old_ln as int) && side_line(row, DiffSide::New)
            == Some(row->Context_new_ln as int),
        row is HunkHeader ==> side_line(row, DiffSide::Old) is None && side_line(row, DiffSide::New) is None,
{
}

/// The diff of an object opens at the first change at or below the object's line: for a removed
/// object its old line, for any other its new one. Without such a row it opens at the top.
pub proof fn law_objects_open_at_their_change(rows: Seq<DiffRow>, symbol: SymbolRow, start: int, k: int)
    requires
        symbol.position is Some,
        0 <= start <= k < rows.len(),
        k <= 65535,
        ({
            let line = (symbol.position->0).0 + 1;
            let side = if symbol.change@ == "removed"@ { DiffSide::Old } else { DiffSide::New };
            &&& side_line(rows[start], side) is Some && side_line(rows[start], side)->0 >= line
            &&& forall|j: int|
                0 <= j < start ==> side_line(#[trigger] rows[j], side) is None || side_line(rows[j], side)->0 < line
        }),
        rows[k] is Add || rows[k] is Del,
        forall|j: int| start <= j < k ==> (#[trigger] rows[j]) is Context || rows[j] is HunkHeader,
    ensures
        object_row(rows, symbol) == Some(k),
        first_position(rows, Some(symbol)).row == k,
        first_position(rows, Some(symbol)).column == 0,
{
    let side = if symbol.change@ == "removed"@ { DiffSide::Old } else { DiffSide::New };
    lemma_row_at(rows, side, (symbol.position->0).0 + 1, 0, start);
    lemma_change_at(rows, start, k);
}

/// Without an object, or where the object has no place or no change, the diff opens at the top.
pub proof fn law_diffs_open_at_the_top(rows: Seq<DiffRow>, symbol: Option<SymbolRow>)
    requires
        symbol is None || (symbol->0).position is None || forall|k: int|
            0 <= k < rows.len() ==> (#[trigger] rows[k]) is Context || rows[k] is HunkHeader,
    ensures
        first_position(rows, symbol).row == 0,
        first_position(rows, symbol).column == 0,
{
    if symbol is Some && (symbol->0).position is Some {
        let side = crate::viewport::object_side(symbol->0);
        if let Some(i) = first_row_at(rows, side, ((symbol->0).position->0).0 + 1, 0) {
            lemma_no_change(rows, i);
        }
    }
}

proof fn lemma_no_change(rows: Seq<DiffRow>, i: int)
    requires
        forall|k: int| 0 <= k < rows.len() ==> (#[trigger] rows[k]) is Context || rows[k] is HunkHeader,
    ensures
        first_change(rows, i) is None,
    decreases rows.len() - i,
{
    if 0 <= i < rows.len() {
        assert(rows[i] is Context || rows[i] is HunkHeader);
        lemma_no_change(rows, i + 1);
    }
}

} // verus!
