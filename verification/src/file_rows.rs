//! Shared changed-tree projection used by rendering, navigation, and mouse hit-testing.
//!
//! Directory rows are derived from changed file paths; expanding or collapsing them is
//! local view state. File expansion is part of the snapshot because it exposes
//! asynchronously loaded symbol rows.

use vstd::prelude::*;
use crate::num::{min_int, min_usize, monus};
use crate::review::ReviewTarget;
use crate::snapshot::{AiSummaryKey, FileRow, FileSemanticLoad};
use crate::table::KeySet;
use crate::text::{join_with, same_text, split_on, split_text, texts};

verus! {

/// One physical row in the changed-files tree.
#[derive(Debug, Clone, PartialEq, Eq)]
pub enum ProjectedRow {
    /// A synthesized directory containing at least one changed file.
    Directory {
        /// Repo-relative directory path without a trailing slash.
        path: String,
        /// Visible path segment, combining unbranched directory ancestors.
        label: String,
        /// Zero-based tree depth.
        depth: usize,
        /// Logical selectable index.
        logical_index: usize,
    },
    /// A changed file row.
    File { file_index: usize, depth: usize, logical_index: usize },
    /// A symbol row under an expanded file.
    Symbol { file_index: usize, symbol_index: usize, depth: usize, logical_index: usize },
    /// A non-selectable analysis note under an expanded file.
    Note { file_index: usize, depth: usize },
}

/// What a projected row holds.
#[verifier::ext_equal]
pub enum RowView {
    Directory { path: Seq<char>, label: Seq<char>, depth: int, logical_index: int },
    File { file_index: int, depth: int, logical_index: int },
    Symbol { file_index: int, symbol_index: int, depth: int, logical_index: int },
    Note { file_index: int, depth: int },
}

impl View for ProjectedRow {
    type V = RowView;

    open spec fn view(&self) -> RowView {
        match *self {
            ProjectedRow::Directory { path, label, depth, logical_index } => RowView::Directory {
                path: path@,
                label: label@,
                depth: depth as int,
                logical_index: logical_index as int,
            },
            ProjectedRow::File { file_index, depth, logical_index } => RowView::File {
                file_index: file_index as int,
                depth: depth as int,
                logical_index: logical_index as int,
            },
            ProjectedRow::Symbol { file_index, symbol_index, depth, logical_index } => RowView::Symbol {
                file_index: file_index as int,
                symbol_index: symbol_index as int,
                depth: depth as int,
                logical_index: logical_index as int,
            },
            ProjectedRow::Note { file_index, depth } => RowView::Note {
                file_index: file_index as int,
                depth: depth as int,
            },
        }
    }
}

impl RowView {
    /// The logical index of a selectable row.
    pub open spec fn logical(self) -> Option<int> {
        match self {
            RowView::Directory { logical_index, .. } => Some(logical_index),
            RowView::File { logical_index, .. } => Some(logical_index),
            RowView::Symbol { logical_index, .. } => Some(logical_index),
            RowView::Note { .. } => None,
        }
    }
}

/// Identity of a selectable row, by contents.
#[verifier::ext_equal]
pub enum SummaryView {
    Directory(Seq<char>),
    File(Seq<char>),
    Symbol { file: Seq<char>, name: Seq<char>, position: Option<(u32, u32)> },
}

impl View for AiSummaryKey {
    type V = SummaryView;

    open spec fn view(&self) -> SummaryView {
        match *self {
            AiSummaryKey::Directory(path) => SummaryView::Directory(path@),
            AiSummaryKey::File(path) => SummaryView::File(path@),
            AiSummaryKey::Symbol { file, name, position } => SummaryView::Symbol {
                file: file@,
                name: name@,
                position,
            },
        }
    }
}

impl AiSummaryKey {
    /// Whether two keys name the same row.
    pub fn same(&self, other: &AiSummaryKey) -> (r: bool)
        ensures
            r == (self@ == other@),
    {
        match (self, other) {
            (AiSummaryKey::Directory(a), AiSummaryKey::Directory(b)) => same_text(a.as_str(), b.as_str()),
            (AiSummaryKey::File(a), AiSummaryKey::File(b)) => same_text(a.as_str(), b.as_str()),
            (
                AiSummaryKey::Symbol { file: f, name: n, position: p },
                AiSummaryKey::Symbol { file: g, name: m, position: q },
            ) => same_text(f.as_str(), g.as_str()) && same_text(n.as_str(), m.as_str()) && same_position(*p, *q),
            _ => false,
        }
    }
}

/// Whether two optional positions are the same.
pub fn same_position(a: Option<(u32, u32)>, b: Option<(u32, u32)>) -> (r: bool)
    ensures
        r == (a == b),
{
    match (a, b) {
        (Some(x), Some(y)) => x.0 == y.0 && x.1 == y.1,
        (None, None) => true,
        _ => false,
    }
}

/// The rows of a projection.
pub open spec fn row_views(rows: Seq<ProjectedRow>) -> Seq<RowView> {
    Seq::new(rows.len(), |i: int| rows[i]@)
}

/// The identity of a selectable row whose indices are valid.
pub open spec fn summary_of(row: RowView, files: Seq<FileRow>) -> Option<SummaryView> {
    match row {
        RowView::Directory { path, .. } => Some(SummaryView::Directory(path)),
        RowView::File { file_index, .. } => if file_index < files.len() {
            Some(SummaryView::File(files[file_index].path@))
        } else {
            None
        },
        RowView::Symbol { file_index, symbol_index, .. } => if file_index < files.len() && symbol_index
            < files[file_index].symbols.len() {
            Some(
                SummaryView::Symbol {
                    file: files[file_index].path@,
                    name: files[file_index].symbols[symbol_index].name@,
                    position: files[file_index].symbols[symbol_index].position,
                },
            )
        } else {
            None
        },
        RowView::Note { .. } => None,
    }
}

/// An optional key, by contents.
pub open spec fn optional_summary(key: Option<AiSummaryKey>) -> Option<SummaryView> {
    match key {
        Some(k) => Some(k@),
        None => None,
    }
}

impl ProjectedRow {
    /// Logical selectable index, absent only for note rows.
    pub fn logical_index(&self) -> (r: Option<usize>)
        ensures
            match r {
                Some(i) => self@.logical() == Some(i as int),
                None => self@.logical() is None,
            },
    {
        match self {
            ProjectedRow::Directory { logical_index, .. } => Some(*logical_index),
            ProjectedRow::File { logical_index, .. } => Some(*logical_index),
            ProjectedRow::Symbol { logical_index, .. } => Some(*logical_index),
            ProjectedRow::Note { .. } => None,
        }
    }

    /// Stable summary identity for selectable rows.
    pub fn summary_key(&self, files: &[FileRow]) -> (r: Option<AiSummaryKey>)
        ensures
            optional_summary(r) == summary_of(self@, files@),
    {
        match self {
            ProjectedRow::Directory { path, .. } => Some(AiSummaryKey::Directory(path.clone())),
            ProjectedRow::File { file_index, .. } => if *file_index < files.len() {
                Some(AiSummaryKey::File(files[*file_index].path.clone()))
            } else {
                None
            },
            ProjectedRow::Symbol { file_index, symbol_index, .. } => {
                if *file_index >= files.len() {
                    return None;
                }
                let file = &files[*file_index];
                if *symbol_index >= file.symbols.len() {
                    return None;
                }
                let symbol = &file.symbols[*symbol_index];
                Some(
                    AiSummaryKey::Symbol {
                        file: file.path.clone(),
                        name: symbol.name.clone(),
                        position: symbol.position,
                    },
                )
            },
            ProjectedRow::Note { .. } => None,
        }
    }

    /// Review target represented by this row. Symbols keep independent state beneath their
    /// owning file; analysis notes are inert.
    pub fn review_target(&self, files: &[FileRow]) -> (r: Option<ReviewTarget>)
        ensures
            match r {
                Some(target) => summary_of(self@, files@) == Some(target@),
                None => summary_of(self@, files@) is None,
            },
    {
        match self.summary_key(files) {
            Some(AiSummaryKey::Directory(path)) => Some(ReviewTarget::Directory(path)),
            Some(AiSummaryKey::File(path)) => Some(ReviewTarget::File(path)),
            Some(AiSummaryKey::Symbol { file, name, position }) => Some(
                ReviewTarget::Symbol { file, name, position },
            ),
            None => None,
        }
    }
}

/// The `n` first components of a path, joined again.
pub open spec fn path_prefix(path: Seq<char>, n: int) -> Seq<char> {
    join_with(split_on(path, '/').take(n), seq!['/'])
}

/// The directories above a file, shallowest first.
pub open spec fn prefixes_of(path: Seq<char>) -> Seq<Seq<char>> {
    Seq::new((split_on(path, '/').len() - 1) as nat, |k: int| path_prefix(path, k + 1))
}

/// The components `from..to` joined by slashes.
fn join_components(components: &Vec<String>, from: usize, to: usize) -> (out: String)
    requires
        from <= to <= components.len(),
    ensures
        out@ == join_with(texts(components@).subrange(from as int, to as int), seq!['/']),
{
    let ghost parts = texts(components@);
    let mut out = String::new();
    let mut i: usize = from;
    proof {
        assert(join_with(parts.subrange(from as int, from as int), seq!['/']) =~= Seq::empty());
    }
    while i < to
        invariant
            from <= i <= to <= components.len(),
            parts == texts(components@),
            out@ == join_with(parts.subrange(from as int, i as int), seq!['/']),
        decreases to - i,
    {
        proof {
            let next = parts.subrange(from as int, i + 1);
            assert(next.drop_last() =~= parts.subrange(from as int, i as int));
            assert(next.last() == components@[i as int]@);
        }
        if i > from {
            out.push('/');
        }
        out.append(components[i].as_str());
        proof {
            assert(out@ =~= join_with(parts.subrange(from as int, i + 1), seq!['/']));
        }
        i = i + 1;
    }
    out
}

/// Directory prefixes of a repo-relative file path, shallowest first.
pub fn directory_prefixes(path: &str) -> (out: Vec<String>)
    ensures
        texts(out@) == prefixes_of(path@),
{
    let components = split_text(path, '/');
    let mut out: Vec<String> = Vec::new();
    let mut end: usize = 1;
    let ghost parts = split_on(path@, '/');
    while end < components.len()
        invariant
            1 <= end <= components.len(),
            parts == texts(components@),
            parts == split_on(path@, '/'),
            out.len() == end - 1,
            forall|k: int| 0 <= k < out.len() ==> #[trigger] out@[k]@ == path_prefix(path@, k + 1),
        decreases components.len() - end,
    {
        let prefix = join_components(&components, 0, end);
        proof {
            assert(parts.subrange(0, end as int) =~= parts.take(end as int));
        }
        out.push(prefix);
        end = end + 1;
    }
    proof {
        assert(parts.len() == components.len());
        assert(texts(out@) =~= prefixes_of(path@));
    }
    out
}

/// A direct entry of a directory.
#[verifier::ext_equal]
pub enum DirectoryChild {
    Directory(Seq<char>),
    File(Seq<char>),
}

/// On the way from the root to a file, the directory before step `j`.
pub open spec fn step_parent(path: Seq<char>, j: int) -> Seq<char> {
    if j == 0 { Seq::empty() } else { prefixes_of(path)[j - 1] }
}

/// On the way from the root to a file, the entry that step `j` reaches.
pub open spec fn step_child(path: Seq<char>, j: int) -> DirectoryChild {
    if j < prefixes_of(path).len() {
        DirectoryChild::Directory(prefixes_of(path)[j])
    } else {
        DirectoryChild::File(path)
    }
}

/// Whether `child` stands directly in `directory` of the changed tree.
pub open spec fn is_child(files: Seq<FileRow>, directory: Seq<char>, child: DirectoryChild) -> bool {
    exists|f: int, j: int| #![trigger step_child(files[f].path@, j)]
        0 <= f < files.len() && 0 <= j <= prefixes_of(files[f].path@).len() && step_parent(files[f].path@, j)
            == directory && step_child(files[f].path@, j) == child
}

/// Whether the directory `next` is the only entry of `directory`.
pub open spec fn only_child(files: Seq<FileRow>, directory: Seq<char>, next: Seq<char>) -> bool {
    &&& is_child(files, directory, DirectoryChild::Directory(next))
    &&& forall|c: DirectoryChild| #[trigger] is_child(files, directory, c) ==> c == DirectoryChild::Directory(next)
}

/// The directory prefixes of every changed file.
fn all_prefixes(files: &[FileRow]) -> (out: Vec<Vec<String>>)
    ensures
        out.len() == files.len(),
        forall|f: int| #![trigger out@[f]] 0 <= f < out.len() ==> texts(out@[f]@) == prefixes_of(files@[f].path@),
{
    let mut out: Vec<Vec<String>> = Vec::new();
    let mut i: usize = 0;
    while i < files.len()
        invariant
            i <= files.len(),
            out.len() == i,
            forall|f: int| #![trigger out@[f]] 0 <= f < i ==> texts(out@[f]@) == prefixes_of(files@[f].path@),
        decreases files.len() - i,
    {
        out.push(directory_prefixes(files[i].path.as_str()));
        i = i + 1;
    }
    out
}

/// Whether on the way to one file every entry of `directory` is the directory `next`.
spec fn agrees(path: Seq<char>, directory: Seq<char>, next: Seq<char>) -> bool {
    forall|j: int| #![trigger step_child(path, j)]
        0 <= j <= prefixes_of(path).len() && step_parent(path, j) == directory ==> step_child(path, j)
            == DirectoryChild::Directory(next)
}

fn path_agrees(prefixes: &Vec<String>, path: &str, directory: &str, next: &str) -> (r: bool)
    requires
        texts(prefixes@) == prefixes_of(path@),
    ensures
        r == agrees(path@, directory@, next@),
{
    let ghost all = prefixes_of(path@);
    let n: usize = prefixes.len();
    proof {
        assert(all.len() == n);
    }
    let mut j: usize = 0;
    while j < n
        invariant
            n == prefixes.len() == all.len(),
            all == prefixes_of(path@),
            all == texts(prefixes@),
            j <= n,
            forall|k: int| #![trigger step_child(path@, k)]
                0 <= k < j && step_parent(path@, k) == directory@ ==> step_child(path@, k)
                    == DirectoryChild::Directory(next@),
        decreases n - j,
    {
        let parent: &str = if j == 0 { "" } else { prefixes[j - 1].as_str() };
        proof {
            reveal_strlit("");
            assert(""@ =~= Seq::empty());
            if j > 0 {
                assert(all[j - 1] == prefixes@[j - 1]@);
            }
            assert(parent@ == step_parent(path@, j as int));
            assert(all[j as int] == prefixes@[j as int]@);
        }
        if same_text(parent, directory) && !same_text(prefixes[j].as_str(), next) {
            proof {
                assert(step_child(path@, j as int) != DirectoryChild::Directory(next@));
            }
            return false;
        }
        j = j + 1;
    }
    let parent: &str = if n == 0 { "" } else { prefixes[n - 1].as_str() };
    proof {
        reveal_strlit("");
        assert(""@ =~= Seq::empty());
        if n > 0 {
            assert(all[n - 1] == prefixes@[n - 1]@);
        }
        assert(parent@ == step_parent(path@, n as int));
        assert(step_child(path@, n as int) is File);
    }
    !same_text(parent, directory)
}

/// Whether the directory `next` is the only entry of `directory`, where `next` is known to
/// be one.
fn is_only_child(prefixes: &Vec<Vec<String>>, files: &[FileRow], directory: &str, next: &str) -> (r: bool)
    requires
        prefixes.len() == files.len(),
        forall|f: int| #![trigger prefixes@[f]] 0 <= f < files.len() ==> texts(prefixes@[f]@) == prefixes_of(
            files@[f].path@,
        ),
        is_child(files@, directory@, DirectoryChild::Directory(next@)),
    ensures
        r == only_child(files@, directory@, next@),
{
    let mut f: usize = 0;
    while f < files.len()
        invariant
            f <= files.len() == prefixes.len(),
            forall|g: int| #![trigger prefixes@[g]] 0 <= g < files.len() ==> texts(prefixes@[g]@) == prefixes_of(
                files@[g].path@,
            ),
            forall|g: int| 0 <= g < f ==> agrees(#[trigger] files@[g].path@, directory@, next@),
        decreases files.len() - f,
    {
        if !path_agrees(&prefixes[f], files[f].path.as_str(), directory, next) {
            proof {
                let path = files@[f as int].path@;
                let j = choose|j: int| #![trigger step_child(path, j)]
                    0 <= j <= prefixes_of(path).len() && step_parent(path, j) == directory@ && step_child(path, j)
                        != DirectoryChild::Directory(next@);
                assert(is_child(files@, directory@, step_child(path, j)));
            }
            return false;
        }
        f = f + 1;
    }
    proof {
        assert forall|c: DirectoryChild| #[trigger] is_child(files@, directory@, c) implies c
            == DirectoryChild::Directory(next@) by {
            let (g, j) = choose|g: int, j: int| #![trigger step_child(files@[g].path@, j)]
                0 <= g < files@.len() && 0 <= j <= prefixes_of(files@[g].path@).len() && step_parent(
                    files@[g].path@,
                    j,
                ) == directory@ && step_child(files@[g].path@, j) == c;
            assert(agrees(files@[g].path@, directory@, next@));
        }
    }
    true
}

/// The last directory of the row that begins with directory `k`: the row goes on while the
/// next directory is the only entry of the last.
pub open spec fn chain_end(files: Seq<FileRow>, dirs: Seq<Seq<char>>, k: int) -> int
    decreases dirs.len() - k,
{
    if 0 <= k && k + 1 < dirs.len() && only_child(files, dirs[k], dirs[k + 1]) {
        chain_end(files, dirs, k + 1)
    } else {
        k
    }
}

proof fn lemma_chain_end(files: Seq<FileRow>, dirs: Seq<Seq<char>>, k: int)
    requires
        0 <= k < dirs.len(),
    ensures
        k <= chain_end(files, dirs, k) < dirs.len(),
    decreases dirs.len() - k,
{
    if k + 1 < dirs.len() && only_child(files, dirs[k], dirs[k + 1]) {
        lemma_chain_end(files, dirs, k + 1);
    }
}

/// The label of a row that shows the components `from..=to`.
pub open spec fn chain_label(path: Seq<char>, from: int, to: int) -> Seq<char> {
    join_with(split_on(path, '/').subrange(from, to + 1), seq!['/']) + seq!['/']
}

/// The directory rows above one file from directory `k` on: path and label of each.
pub open spec fn shown_directories(files: Seq<FileRow>, path: Seq<char>, k: int) -> Seq<(Seq<char>, Seq<char>)>
    decreases prefixes_of(path).len() - k,
{
    let dirs = prefixes_of(path);
    let end = chain_end(files, dirs, k);
    if 0 <= k <= end < dirs.len() {
        seq![(dirs[end], chain_label(path, k, end))] + shown_directories(files, path, end + 1)
    } else {
        Seq::empty()
    }
}

/// A directory row, by contents.
pub open spec fn shown(rows: Seq<(String, String)>) -> Seq<(Seq<char>, Seq<char>)> {
    Seq::new(rows.len(), |i: int| (rows[i].0@, rows[i].1@))
}

/// Display directory rows for one file. Consecutive directories are one row while every
/// directory in the run has exactly one child and that child is the next directory.
fn display_directories(files: &[FileRow], prefixes: &Vec<Vec<String>>, file: usize) -> (out: Vec<(String, String)>)
    requires
        file < files.len(),
        prefixes.len() == files.len(),
        forall|f: int| #![trigger prefixes@[f]] 0 <= f < files.len() ==> texts(prefixes@[f]@) == prefixes_of(
            files@[f].path@,
        ),
    ensures
        shown(out@) == shown_directories(files@, files@[file as int].path@, 0),
        out.len() < usize::MAX,
{
    let ghost path = files@[file as int].path@;
    let ghost dirs = prefixes_of(path);
    let components = split_text(files[file].path.as_str(), '/');
    let own = &prefixes[file];
    let mut out: Vec<(String, String)> = Vec::new();
    let mut start: usize = 0;
    proof {
        assert(texts(own@).len() == own.len());
        assert(texts(components@).len() == components.len());
        assert(shown(out@) + shown_directories(files@, path, 0) =~= shown_directories(files@, path, 0));
    }
    while start < own.len()
        invariant
            file < files.len(),
            path == files@[file as int].path@,
            dirs == prefixes_of(path),
            texts(own@) == dirs,
            own.len() == dirs.len(),
            texts(components@) == split_on(path, '/'),
            components.len() == own.len() + 1,
            prefixes.len() == files.len(),
            forall|f: int| #![trigger prefixes@[f]] 0 <= f < files.len() ==> texts(prefixes@[f]@) == prefixes_of(
                files@[f].path@,
            ),
            out.len() <= start <= own.len(),
            shown(out@) + shown_directories(files@, path, start as int) == shown_directories(files@, path, 0),
        decreases own.len() - start,
    {
        let mut end: usize = start;
        proof {
            lemma_chain_end(files@, dirs, start as int);
        }
        let mut open: bool = true;
        while open
            invariant
                start <= end < own.len(),
                file < files.len(),
                path == files@[file as int].path@,
                dirs == prefixes_of(path),
                texts(own@) == dirs,
                own.len() == dirs.len(),
                prefixes.len() == files.len(),
                forall|f: int| #![trigger prefixes@[f]] 0 <= f < files.len() ==> texts(prefixes@[f]@) == prefixes_of(
                    files@[f].path@,
                ),
                chain_end(files@, dirs, start as int) == chain_end(files@, dirs, end as int),
                !open ==> chain_end(files@, dirs, end as int) == end,
            decreases own.len() - end, if open { 1int } else { 0int },
        {
            if end + 1 >= own.len() {
                open = false;
            } else {
                proof {
                    assert(dirs[end as int] == own@[end as int]@);
                    assert(dirs[end + 1] == own@[end + 1]@);
                    assert(step_child(files@[file as int].path@, end + 1) == DirectoryChild::Directory(dirs[end + 1]));
                }
                if is_only_child(prefixes, files, own[end].as_str(), own[end + 1].as_str()) {
                    end = end + 1;
                } else {
                    open = false;
                }
            }
        }
        let mut label = join_components(&components, start, end + 1);
        label.push('/');
        let ghost before = out@;
        out.push((own[end].clone(), label));
        proof {
            assert(dirs[end as int] == own@[end as int]@);
            assert(label@ =~= chain_label(path, start as int, end as int));
            let row = (dirs[end as int], label@);
            assert(shown(out@) =~= shown(before).push(row));
            assert(shown(out@) + shown_directories(files@, path, end + 1) =~= shown(before) + (seq![row]
                + shown_directories(files@, path, end + 1)));
        }
        start = end + 1;
    }
    proof {
        assert(shown(out@) + shown_directories(files@, path, start as int) =~= shown(out@));
    }
    out
}

/// A tree walk under way.
#[verifier::ext_equal]
pub struct Walk {
    /// The rows so far.
    pub rows: Seq<RowView>,
    /// The directories that have a row.
    pub emitted: Set<Seq<char>>,
    /// The next logical index.
    pub logical: int,
}

/// The walk over the directory rows above a file from row `d` on, and whether one of them
/// is collapsed: it then hides everything below.
pub open spec fn walk_directories(
    w: Walk,
    dirs: Seq<(Seq<char>, Seq<char>)>,
    d: int,
    collapsed: Set<Seq<char>>,
) -> (Walk, bool)
    decreases dirs.len() - d,
{
    if 0 <= d < dirs.len() {
        let (path, label) = dirs[d];
        let next = if w.emitted.contains(path) {
            w
        } else {
            Walk {
                rows: w.rows.push(RowView::Directory { path, label, depth: d, logical_index: w.logical }),
                emitted: w.emitted.insert(path),
                logical: w.logical + 1,
            }
        };
        if collapsed.contains(path) {
            (next, true)
        } else {
            walk_directories(next, dirs, d + 1, collapsed)
        }
    } else {
        (w, false)
    }
}

/// The walk over the first `n` symbols of a file.
pub open spec fn walk_symbols(w: Walk, file_index: int, depth: int, n: int) -> Walk
    decreases n,
{
    if n <= 0 {
        w
    } else {
        let before = walk_symbols(w, file_index, depth, n - 1);
        Walk {
            rows: before.rows.push(
                RowView::Symbol { file_index, symbol_index: n - 1, depth, logical_index: before.logical },
            ),
            emitted: before.emitted,
            logical: before.logical + 1,
        }
    }
}

/// The walk over the row of a file and the rows below it.
pub open spec fn walk_leaf(w: Walk, file: FileRow, file_index: int, depth: int) -> Walk {
    let with_file = Walk {
        rows: w.rows.push(RowView::File { file_index, depth, logical_index: w.logical }),
        emitted: w.emitted,
        logical: w.logical + 1,
    };
    if !file.expanded {
        with_file
    } else if file.semantic == FileSemanticLoad::Ready && file.symbols.len() > 0 {
        walk_symbols(with_file, file_index, depth + 1, file.symbols.len() as int)
    } else {
        Walk { rows: with_file.rows.push(RowView::Note { file_index, depth: depth + 1 }), ..with_file }
    }
}

/// The walk over file `i`: its directories, then itself unless one of them is collapsed.
pub open spec fn walk_file(w: Walk, files: Seq<FileRow>, i: int, collapsed: Set<Seq<char>>) -> Walk {
    let dirs = shown_directories(files, files[i].path@, 0);
    let (after, hidden) = walk_directories(w, dirs, 0, collapsed);
    if hidden {
        after
    } else {
        walk_leaf(after, files[i], i, dirs.len() as int)
    }
}

/// The walk over the first `n` files.
pub open spec fn walk(files: Seq<FileRow>, collapsed: Set<Seq<char>>, n: int) -> Walk
    decreases n,
{
    if n <= 0 {
        Walk { rows: Seq::empty(), emitted: Set::empty(), logical: 0 }
    } else {
        walk_file(walk(files, collapsed, n - 1), files, n - 1, collapsed)
    }
}

/// The physical rows of the changed tree in display order.
#[verifier::opaque]
pub open spec fn projection(files: Seq<FileRow>, collapsed: Set<Seq<char>>) -> Seq<RowView> {
    walk(files, collapsed, files.len() as int).rows
}

/// How many rows can be selected.
#[verifier::opaque]
pub open spec fn logical_count(files: Seq<FileRow>, collapsed: Set<Seq<char>>) -> int {
    walk(files, collapsed, files.len() as int).logical
}

/// How many of the first `n` rows can be selected.
pub open spec fn selectable(rows: Seq<RowView>, n: int) -> int
    decreases n,
{
    if n <= 0 {
        0
    } else {
        selectable(rows, n - 1) + if rows[n - 1].logical() is Some { 1int } else { 0int }
    }
}

/// A walk whose selectable rows are numbered in order without gaps.
pub open spec fn numbered(w: Walk) -> bool {
    &&& w.logical == selectable(w.rows, w.rows.len() as int)
    &&& forall|i: int| #![trigger w.rows[i]] 0 <= i < w.rows.len() && w.rows[i].logical() is Some ==>
        w.rows[i].logical() == Some(selectable(w.rows, i))
}

proof fn lemma_selectable_prefix(rows: Seq<RowView>, row: RowView, n: int)
    requires
        n <= rows.len(),
    ensures
        selectable(rows.push(row), n) == selectable(rows, n),
    decreases n,
{
    if n > 0 {
        lemma_selectable_prefix(rows, row, n - 1);
    }
}

proof fn lemma_numbered_push(w: Walk, row: RowView, next: Walk)
    requires
        numbered(w),
        row.logical() is Some ==> row.logical() == Some(w.logical),
        next.rows == w.rows.push(row),
        next.logical == w.logical + if row.logical() is Some { 1int } else { 0int },
    ensures
        numbered(next),
{
    lemma_selectable_prefix(w.rows, row, w.rows.len() as int);
    assert forall|i: int| #![trigger next.rows[i]] 0 <= i < next.rows.len() && next.rows[i].logical() is Some implies
        next.rows[i].logical() == Some(selectable(next.rows, i)) by {
        lemma_selectable_prefix(w.rows, row, i);
        if i < w.rows.len() {
            assert(w.rows[i] == next.rows[i]);
        }
    }
}

proof fn lemma_numbered_directories(
    w: Walk,
    dirs: Seq<(Seq<char>, Seq<char>)>,
    d: int,
    collapsed: Set<Seq<char>>,
)
    requires
        numbered(w),
        0 <= d,
    ensures
        numbered(walk_directories(w, dirs, d, collapsed).0),
        w.rows.len() <= walk_directories(w, dirs, d, collapsed).0.rows.len(),
    decreases dirs.len() - d,
{
    if d < dirs.len() {
        let (path, label) = dirs[d];
        let row = RowView::Directory { path, label, depth: d, logical_index: w.logical };
        let next = if w.emitted.contains(path) {
            w
        } else {
            Walk { rows: w.rows.push(row), emitted: w.emitted.insert(path), logical: w.logical + 1 }
        };
        if !w.emitted.contains(path) {
            lemma_numbered_push(w, row, next);
        }
        lemma_numbered_directories(next, dirs, d + 1, collapsed);
    }
}

proof fn lemma_numbered_symbols(w: Walk, file_index: int, depth: int, n: int)
    requires
        numbered(w),
    ensures
        numbered(walk_symbols(w, file_index, depth, n)),
        n >= 0 ==> walk_symbols(w, file_index, depth, n).rows.len() == w.rows.len() + n,
    decreases n,
{
    if n > 0 {
        lemma_numbered_symbols(w, file_index, depth, n - 1);
        let before = walk_symbols(w, file_index, depth, n - 1);
        let row = RowView::Symbol { file_index, symbol_index: n - 1, depth, logical_index: before.logical };
        lemma_numbered_push(before, row, walk_symbols(w, file_index, depth, n));
    }
}

proof fn lemma_numbered_leaf(w: Walk, file: FileRow, file_index: int, depth: int)
    requires
        numbered(w),
    ensures
        numbered(walk_leaf(w, file, file_index, depth)),
        w.rows.len() < walk_leaf(w, file, file_index, depth).rows.len(),
{
    let row = RowView::File { file_index, depth, logical_index: w.logical };
    let with_file = Walk { rows: w.rows.push(row), emitted: w.emitted, logical: w.logical + 1 };
    lemma_numbered_push(w, row, with_file);
    if file.expanded {
        if file.semantic == FileSemanticLoad::Ready && file.symbols.len() > 0 {
            lemma_numbered_symbols(with_file, file_index, depth + 1, file.symbols.len() as int);
        } else {
            let note = RowView::Note { file_index, depth: depth + 1 };
            lemma_numbered_push(with_file, note, walk_leaf(w, file, file_index, depth));
        }
    }
}

/// Selectable rows carry the logical indices 0, 1, 2 and so on in display order, and there
/// are as many of them as [`logical_count`] says.
pub proof fn law_logical_indices_are_consecutive(files: Seq<FileRow>, collapsed: Set<Seq<char>>, n: int)
    requires
        0 <= n <= files.len(),
    ensures
        numbered(walk(files, collapsed, n)),
    decreases n,
{
    if n > 0 {
        law_logical_indices_are_consecutive(files, collapsed, n - 1);
        let before = walk(files, collapsed, n - 1);
        let dirs = shown_directories(files, files[n - 1].path@, 0);
        lemma_numbered_directories(before, dirs, 0, collapsed);
        let (after, hidden) = walk_directories(before, dirs, 0, collapsed);
        if !hidden {
            lemma_numbered_leaf(after, files[n - 1], n - 1, dirs.len() as int);
        }
    }
}

/// Physical rows in display order. Changed files are already path-sorted, so emitting
/// unseen directory prefixes produces a stable tree walk.
pub fn project(files: &[FileRow], collapsed_directories: &KeySet<String>) -> (out: Vec<ProjectedRow>)
    ensures
        row_views(out@) == projection(files@, collapsed_directories@),
{
    let ghost collapsed = collapsed_directories@;
    let prefixes = all_prefixes(files);
    let mut out: Vec<ProjectedRow> = Vec::new();
    let mut emitted: KeySet<String> = KeySet::new();
    let mut logical: usize = 0;
    let mut file_index: usize = 0;
    proof {
        assert(row_views(out@) =~= Seq::empty());
    }
    while file_index < files.len()
        invariant
            file_index <= files.len() == prefixes.len(),
            collapsed == collapsed_directories@,
            forall|f: int| #![trigger prefixes@[f]] 0 <= f < files.len() ==> texts(prefixes@[f]@) == prefixes_of(
                files@[f].path@,
            ),
            (Walk { rows: row_views(out@), emitted: emitted@, logical: logical as int }) == walk(
                files@,
                collapsed,
                file_index as int,
            ),
            numbered(walk(files@, collapsed, file_index as int)),
            logical <= out.len(),
        decreases files.len() - file_index,
    {
        let file = &files[file_index];
        let directories = display_directories(files, &prefixes, file_index);
        let ghost dirs = shown_directories(files@, file.path@, 0);
        let ghost start = walk(files@, collapsed, file_index as int);
        proof {
            law_logical_indices_are_consecutive(files@, collapsed, file_index + 1);
            assert(shown(directories@).len() == directories.len());
        }
        let mut hidden: bool = false;
        let mut depth: usize = 0;
        while depth < directories.len() && !hidden
            invariant
                depth <= directories.len() == dirs.len(),
                shown(directories@) == dirs,
                collapsed == collapsed_directories@,
                logical <= out.len(),
                walk_directories(start, dirs, 0, collapsed) == (if hidden {
                    (Walk { rows: row_views(out@), emitted: emitted@, logical: logical as int }, true)
                } else {
                    walk_directories(
                        Walk { rows: row_views(out@), emitted: emitted@, logical: logical as int },
                        dirs,
                        depth as int,
                        collapsed,
                    )
                }),
            decreases directories.len() - depth,
        {
            proof {
                assert(dirs[depth as int] == (directories@[depth as int].0@, directories@[depth as int].1@));
            }
            let ghost before = out@;
            let ghost known = emitted@;
            if emitted.insert(directories[depth].0.clone()) {
                out.push(
                    ProjectedRow::Directory {
                        path: directories[depth].0.clone(),
                        label: directories[depth].1.clone(),
                        depth,
                        logical_index: logical,
                    },
                );
                proof {
                    assert(row_views(out@) =~= row_views(before).push(
                        RowView::Directory {
                            path: dirs[depth as int].0,
                            label: dirs[depth as int].1,
                            depth: depth as int,
                            logical_index: logical as int,
                        },
                    ));
                }
                assert(logical < out.len());
                logical = logical + 1;
            } else {
                proof {
                    assert(emitted@ =~= known);
                }
            }
            if collapsed_directories.contains(&directories[depth].0) {
                hidden = true;
            }
            depth = depth + 1;
        }
        if !hidden {
            let ghost after = walk_directories(start, dirs, 0, collapsed).0;
            let file_depth: usize = directories.len();
            let ghost before = out@;
            out.push(ProjectedRow::File { file_index, depth: file_depth, logical_index: logical });
            proof {
                assert(row_views(out@) =~= row_views(before).push(
                    RowView::File {
                        file_index: file_index as int,
                        depth: file_depth as int,
                        logical_index: logical as int,
                    },
                ));
            }
            assert(logical < out.len());
            logical = logical + 1;
            if file.expanded {
                let child_depth: usize = file_depth + 1;
                if file.semantic == FileSemanticLoad::Ready && file.symbols.len() > 0 {
                    let ghost with_file = Walk {
                        rows: row_views(out@),
                        emitted: emitted@,
                        logical: logical as int,
                    };
                    let mut symbol_index: usize = 0;
                    while symbol_index < file.symbols.len()
                        invariant
                            symbol_index <= file.symbols.len(),
                            logical <= out.len(),
                            (Walk { rows: row_views(out@), emitted: emitted@, logical: logical as int })
                                == walk_symbols(
                                with_file,
                                file_index as int,
                                child_depth as int,
                                symbol_index as int,
                            ),
                        decreases file.symbols.len() - symbol_index,
                    {
                        let ghost before = out@;
                        out.push(
                            ProjectedRow::Symbol {
                                file_index,
                                symbol_index,
                                depth: child_depth,
                                logical_index: logical,
                            },
                        );
                        proof {
                            assert(row_views(out@) =~= row_views(before).push(
                                RowView::Symbol {
                                    file_index: file_index as int,
                                    symbol_index: symbol_index as int,
                                    depth: child_depth as int,
                                    logical_index: logical as int,
                                },
                            ));
                        }
                        assert(logical < out.len());
                        logical = logical + 1;
                        symbol_index = symbol_index + 1;
                    }
                } else {
                    let ghost before = out@;
                    out.push(ProjectedRow::Note { file_index, depth: child_depth });
                    proof {
                        assert(row_views(out@) =~= row_views(before).push(
                            RowView::Note { file_index: file_index as int, depth: child_depth as int },
                        ));
                    }
                }
            }
        }
        file_index = file_index + 1;
    }
    proof {
        reveal(projection);
    }
    out
}

/// The first row from row `i` on with a logical index.
pub open spec fn row_at(rows: Seq<RowView>, logical: int, i: int) -> Option<int>
    decreases rows.len() - i,
{
    if 0 <= i < rows.len() {
        if rows[i].logical() == Some(logical) {
            Some(i)
        } else {
            row_at(rows, logical, i + 1)
        }
    } else {
        None
    }
}

proof fn lemma_row_at(rows: Seq<RowView>, logical: int, i: int)
    requires
        0 <= i,
    ensures
        match row_at(rows, logical, i) {
            Some(k) => i <= k < rows.len() && rows[k].logical() == Some(logical),
            None => forall|k: int| i <= k < rows.len() ==> #[trigger] rows[k].logical() != Some(logical),
        },
    decreases rows.len() - i,
{
    if i < rows.len() && rows[i].logical() != Some(logical) {
        lemma_row_at(rows, logical, i + 1);
    }
}

proof fn lemma_selectable_monotone(rows: Seq<RowView>, i: int, j: int)
    requires
        0 <= i <= j <= rows.len(),
    ensures
        0 <= selectable(rows, i) <= selectable(rows, j) <= j,
        i < j && rows[i].logical() is Some ==> selectable(rows, i) < selectable(rows, j),
    decreases j,
{
    if j > 0 {
        lemma_selectable_monotone(rows, 0, j - 1);
        if i < j {
            lemma_selectable_monotone(rows, i, j - 1);
        } else {
            lemma_selectable_monotone(rows, 0, j - 1);
        }
    }
}

/// A row is found for a logical index exactly where the index is below the count, and no
/// other row carries that index.
pub proof fn law_logical_index_resolves(files: Seq<FileRow>, collapsed: Set<Seq<char>>, logical: int)
    ensures
        row_at(projection(files, collapsed), logical, 0) is Some <==> 0 <= logical < logical_count(files, collapsed),
        forall|i: int| #![trigger projection(files, collapsed)[i]]
            0 <= i < projection(files, collapsed).len() && projection(files, collapsed)[i].logical() == Some(logical)
                ==> row_at(projection(files, collapsed), logical, 0) == Some(i),
{
    reveal(projection);
    reveal(logical_count);
    let rows = projection(files, collapsed);
    let n = files.len() as int;
    law_logical_indices_are_consecutive(files, collapsed, n);
    lemma_row_at(rows, logical, 0);
    match row_at(rows, logical, 0) {
        Some(k) => {
            assert(rows[k].logical() == Some(selectable(rows, k)));
            lemma_selectable_monotone(rows, k, rows.len() as int);
            lemma_selectable_monotone(rows, 0, k);
        },
        None => {
            if 0 <= logical < logical_count(files, collapsed) {
                lemma_some_row_has(rows, logical, rows.len() as int);
                let k = choose|k: int| 0 <= k < rows.len() && rows[k].logical() is Some && #[trigger] selectable(rows, k)
                    == logical;
                assert(rows[k].logical() == Some(logical));
            }
        },
    }
    assert forall|i: int| #![trigger rows[i]] 0 <= i < rows.len() && rows[i].logical() == Some(logical) implies row_at(
        rows,
        logical,
        0,
    ) == Some(i) by {
        let k = row_at(rows, logical, 0)->0;
        assert(rows[k].logical() == Some(selectable(rows, k)));
        if i < k {
            lemma_selectable_monotone(rows, i, k);
        } else if k < i {
            lemma_selectable_monotone(rows, k, i);
        }
    }
}

proof fn lemma_some_row_has(rows: Seq<RowView>, logical: int, n: int)
    requires
        0 <= n <= rows.len(),
        0 <= logical < selectable(rows, n),
    ensures
        exists|k: int| 0 <= k < n && rows[k].logical() is Some && #[trigger] selectable(rows, k) == logical,
    decreases n,
{
    if n > 0 {
        if logical < selectable(rows, n - 1) {
            lemma_some_row_has(rows, logical, n - 1);
        } else {
            assert(rows[n - 1].logical() is Some && selectable(rows, n - 1) == logical);
        }
    }
}

/// Number of selectable directory, file, and visible symbol rows.
pub fn logical_row_count(files: &[FileRow], collapsed_directories: &KeySet<String>) -> (count: usize)
    ensures
        count == logical_count(files@, collapsed_directories@),
{
    let rows = project(files, collapsed_directories);
    let ghost all = row_views(rows@);
    let mut count: usize = 0;
    let mut i: usize = 0;
    while i < rows.len()
        invariant
            i <= rows.len(),
            all == row_views(rows@),
            count == selectable(all, i as int),
            count <= i,
        decreases rows.len() - i,
    {
        proof {
            assert(all[i as int] == rows@[i as int]@);
        }
        if rows[i].logical_index().is_some() {
            count = count + 1;
        }
        i = i + 1;
    }
    proof {
        reveal(projection);
        reveal(logical_count);
        law_logical_indices_are_consecutive(files@, collapsed_directories@, files.len() as int);
        assert(all.len() == rows.len());
    }
    count
}

/// The place of a logical index among projected rows.
fn find_logical(rows: &Vec<ProjectedRow>, logical_index: usize) -> (r: Option<usize>)
    ensures
        match r {
            Some(k) => row_at(row_views(rows@), logical_index as int, 0) == Some(k as int) && k < rows.len(),
            None => row_at(row_views(rows@), logical_index as int, 0) is None,
        },
{
    let ghost all = row_views(rows@);
    let mut i: usize = 0;
    while i < rows.len()
        invariant
            i <= rows.len(),
            all == row_views(rows@),
            row_at(all, logical_index as int, 0) == row_at(all, logical_index as int, i as int),
        decreases rows.len() - i,
    {
        proof {
            assert(all[i as int] == rows@[i as int]@);
        }
        match rows[i].logical_index() {
            Some(found) => {
                if found == logical_index {
                    return Some(i);
                }
            },
            None => {},
        }
        i = i + 1;
    }
    proof {
        assert(all.len() == rows.len());
    }
    None
}

/// The first row of a viewport of `capacity` rows that keeps a selected row in it.
pub open spec fn first_visible_spec(rows: Seq<RowView>, selected: int, capacity: int) -> int {
    let physical = match row_at(rows, selected, 0) {
        Some(k) => k,
        None => 0,
    };
    min_int(monus(physical + 1, capacity), monus(rows.len() as int, capacity))
}

/// Physical index of the first visible row that keeps the selection on screen.
pub fn first_visible(
    files: &[FileRow],
    collapsed_directories: &KeySet<String>,
    selected_logical: usize,
    capacity: usize,
) -> (first: usize)
    ensures
        first == first_visible_spec(
            projection(files@, collapsed_directories@),
            selected_logical as int,
            capacity as int,
        ),
{
    let rows = project(files, collapsed_directories);
    proof {
        assert(row_views(rows@).len() == rows.len());
    }
    match find_logical(&rows, selected_logical) {
        Some(k) => {
            let base: usize = (k + 1).saturating_sub(capacity);
            min_usize(base, rows.len().saturating_sub(capacity))
        },
        None => {
            let one: usize = 1;
            min_usize(one.saturating_sub(capacity), rows.len().saturating_sub(capacity))
        },
    }
}

/// The selected row is inside the viewport that begins at the first visible row.
pub proof fn law_selection_stays_on_screen(rows: Seq<RowView>, selected: int, capacity: int)
    requires
        capacity > 0,
        row_at(rows, selected, 0) is Some,
    ensures
        first_visible_spec(rows, selected, capacity) <= row_at(rows, selected, 0)->0 < first_visible_spec(
            rows,
            selected,
            capacity,
        ) + capacity,
{
    lemma_row_at(rows, selected, 0);
}

/// An optional row, by contents.
pub open spec fn optional_row(row: Option<ProjectedRow>) -> Option<RowView> {
    match row {
        Some(r) => Some(r@),
        None => None,
    }
}

/// The row that a logical index selects.
pub open spec fn resolved(files: Seq<FileRow>, collapsed: Set<Seq<char>>, logical: int) -> Option<RowView> {
    let rows = projection(files, collapsed);
    match row_at(rows, logical, 0) {
        Some(k) => Some(rows[k]),
        None => None,
    }
}

/// Resolve a logical index to the exact projected row.
pub fn resolve_logical(
    files: &[FileRow],
    collapsed_directories: &KeySet<String>,
    logical_index: usize,
) -> (row: Option<ProjectedRow>)
    ensures
        optional_row(row) == resolved(files@, collapsed_directories@, logical_index as int),
{
    let mut rows = project(files, collapsed_directories);
    match find_logical(&rows, logical_index) {
        Some(k) => {
            proof {
                assert(row_views(rows@)[k as int] == rows@[k as int]@);
            }
            Some(rows.swap_remove(k))
        },
        None => None,
    }
}

/// The file that a row stands for or belongs to.
pub open spec fn file_of(row: RowView) -> Option<int> {
    match row {
        RowView::Directory { .. } => None,
        RowView::File { file_index, .. } => Some(file_index),
        RowView::Symbol { file_index, .. } => Some(file_index),
        RowView::Note { file_index, .. } => Some(file_index),
    }
}

/// Whether no directory row above file `f` is collapsed.
pub open spec fn is_open(files: Seq<FileRow>, collapsed: Set<Seq<char>>, f: int) -> bool {
    let dirs = shown_directories(files, files[f].path@, 0);
    forall|d: int| 0 <= d < dirs.len() ==> !collapsed.contains(#[trigger] dirs[d].0)
}

/// What a tree walk over the first `n` files keeps: a directory has one row, rows of files
/// come in file order, and exactly the files below no collapsed directory have a row.
pub open spec fn is_tree(w: Walk, files: Seq<FileRow>, collapsed: Set<Seq<char>>, n: int) -> bool {
    &&& forall|i: int| #![trigger w.rows[i]] 0 <= i < w.rows.len() && w.rows[i] is Directory ==> w.emitted.contains(
        w.rows[i]->path,
    )
    &&& forall|i: int, j: int| #![trigger w.rows[i], w.rows[j]]
        0 <= i < j < w.rows.len() && w.rows[i] is Directory && w.rows[j] is Directory ==> w.rows[i]->path
            != w.rows[j]->path
    &&& forall|i: int| #![trigger w.rows[i]] 0 <= i < w.rows.len() && file_of(w.rows[i]) is Some ==> 0 <= file_of(
        w.rows[i],
    )->0 < n && is_open(files, collapsed, file_of(w.rows[i])->0)
    &&& forall|i: int, j: int| #![trigger w.rows[i], w.rows[j]]
        0 <= i < j < w.rows.len() && file_of(w.rows[i]) is Some && file_of(w.rows[j]) is Some ==> file_of(w.rows[i])->0
            <= file_of(w.rows[j])->0 && (w.rows[j] is File ==> file_of(w.rows[i])->0 < file_of(w.rows[j])->0)
    &&& forall|f: int| #![trigger is_open(files, collapsed, f)] 0 <= f < n && is_open(files, collapsed, f)
        ==> has_file_row(w.rows, f)
}

pub open spec fn has_file_row(rows: Seq<RowView>, f: int) -> bool {
    exists|i: int| #![trigger rows[i]] 0 <= i < rows.len() && rows[i] is File && file_of(rows[i]) == Some(f)
}

proof fn lemma_file_row_kept(rows: Seq<RowView>, row: RowView, f: int)
    requires
        has_file_row(rows, f),
    ensures
        has_file_row(rows.push(row), f),
{
    let i = choose|i: int| #![trigger rows[i]] 0 <= i < rows.len() && rows[i] is File && file_of(rows[i]) == Some(f);
    assert(rows.push(row)[i] == rows[i]);
}

/// One more row keeps the tree where it fits behind the others.
proof fn lemma_tree_push(
    w: Walk,
    row: RowView,
    emitted: Set<Seq<char>>,
    files: Seq<FileRow>,
    collapsed: Set<Seq<char>>,
    n: int,
    m: int,
    logical: int,
)
    requires
        is_tree(w, files, collapsed, n),
        n <= m <= n + 1,
        w.emitted.subset_of(emitted),
        row is Directory ==> !w.emitted.contains(row->path) && emitted.contains(row->path) && m == n,
        file_of(row) matches Some(f) ==> {
            &&& f == m - 1 >= 0
            &&& is_open(files, collapsed, f)
            &&& row is File ==> m == n + 1
            &&& row !is File ==> m == n
        },
    ensures
        is_tree(Walk { rows: w.rows.push(row), emitted, logical }, files, collapsed, m),
{
    let next = Walk { rows: w.rows.push(row), emitted, logical };
    assert forall|i: int, j: int| #![trigger next.rows[i], next.rows[j]]
        0 <= i < j < next.rows.len() && next.rows[i] is Directory && next.rows[j] is Directory implies next.rows[i]->path
            != next.rows[j]->path by {
        assert(w.rows[i] == next.rows[i]);
        if j < w.rows.len() {
            assert(w.rows[j] == next.rows[j]);
        }
    }
    assert forall|i: int| #![trigger next.rows[i]] 0 <= i < next.rows.len() && next.rows[i] is Directory implies
        next.emitted.contains(next.rows[i]->path) by {
        if i < w.rows.len() {
            assert(w.rows[i] == next.rows[i]);
        }
    }
    assert forall|i: int| #![trigger next.rows[i]] 0 <= i < next.rows.len() && file_of(next.rows[i]) is Some implies 0
        <= file_of(next.rows[i])->0 < m && is_open(files, collapsed, file_of(next.rows[i])->0) by {
        if i < w.rows.len() {
            assert(w.rows[i] == next.rows[i]);
        }
    }
    assert forall|i: int, j: int| #![trigger next.rows[i], next.rows[j]]
        0 <= i < j < next.rows.len() && file_of(next.rows[i]) is Some && file_of(next.rows[j]) is Some implies file_of(
            next.rows[i],
        )->0 <= file_of(next.rows[j])->0 && (next.rows[j] is File ==> file_of(next.rows[i])->0 < file_of(
            next.rows[j],
        )->0) by {
        assert(w.rows[i] == next.rows[i]);
        if j < w.rows.len() {
            assert(w.rows[j] == next.rows[j]);
        }
    }
    assert forall|f: int| #![trigger is_open(files, collapsed, f)] 0 <= f < m && is_open(files, collapsed, f) implies
        has_file_row(next.rows, f) by {
        if f < n {
            lemma_file_row_kept(w.rows, row, f);
        } else {
            assert(next.rows[w.rows.len() as int] == row);
        }
    }
}

proof fn lemma_tree_directories(
    w: Walk,
    dirs: Seq<(Seq<char>, Seq<char>)>,
    d: int,
    files: Seq<FileRow>,
    collapsed: Set<Seq<char>>,
    n: int,
)
    requires
        is_tree(w, files, collapsed, n),
        0 <= d <= dirs.len(),
    ensures
        is_tree(walk_directories(w, dirs, d, collapsed).0, files, collapsed, n),
        walk_directories(w, dirs, d, collapsed).1 <==> exists|e: int|
            d <= e < dirs.len() && collapsed.contains(#[trigger] dirs[e].0),
    decreases dirs.len() - d,
{
    if d < dirs.len() {
        let (path, label) = dirs[d];
        let row = RowView::Directory { path, label, depth: d, logical_index: w.logical };
        let next = if w.emitted.contains(path) {
            w
        } else {
            Walk { rows: w.rows.push(row), emitted: w.emitted.insert(path), logical: w.logical + 1 }
        };
        if !w.emitted.contains(path) {
            lemma_tree_push(w, row, w.emitted.insert(path), files, collapsed, n, n, w.logical + 1);
        }
        lemma_tree_directories(next, dirs, d + 1, files, collapsed, n);
        if collapsed.contains(path) {
            assert(collapsed.contains(dirs[d].0));
        }
    }
}

proof fn lemma_tree_symbols(
    w: Walk,
    depth: int,
    k: int,
    files: Seq<FileRow>,
    collapsed: Set<Seq<char>>,
    n: int,
)
    requires
        is_tree(w, files, collapsed, n),
        n > 0,
        is_open(files, collapsed, n - 1),
    ensures
        is_tree(walk_symbols(w, n - 1, depth, k), files, collapsed, n),
    decreases k,
{
    if k > 0 {
        lemma_tree_symbols(w, depth, k - 1, files, collapsed, n);
        let before = walk_symbols(w, n - 1, depth, k - 1);
        let row = RowView::Symbol { file_index: n - 1, symbol_index: k - 1, depth, logical_index: before.logical };
        lemma_tree_push(before, row, before.emitted, files, collapsed, n, n, before.logical + 1);
    }
}

/// The projection is a tree: every directory has at most one row, files keep their order,
/// a file has a row exactly where no directory row above it is collapsed, and nothing below
/// a collapsed directory is shown.
pub proof fn law_projection_is_a_tree(files: Seq<FileRow>, collapsed: Set<Seq<char>>, n: int)
    requires
        0 <= n <= files.len(),
    ensures
        is_tree(walk(files, collapsed, n), files, collapsed, n),
    decreases n,
{
    if n > 0 {
        law_projection_is_a_tree(files, collapsed, n - 1);
        let before = walk(files, collapsed, n - 1);
        let dirs = shown_directories(files, files[n - 1].path@, 0);
        lemma_tree_directories(before, dirs, 0, files, collapsed, n - 1);
        let (after, hidden) = walk_directories(before, dirs, 0, collapsed);
        if hidden {
            assert(!is_open(files, collapsed, n - 1));
            assert(is_tree(after, files, collapsed, n));
        } else {
            assert(is_open(files, collapsed, n - 1));
            let depth = dirs.len() as int;
            let row = RowView::File { file_index: n - 1, depth, logical_index: after.logical };
            let with_file = Walk {
                rows: after.rows.push(row),
                emitted: after.emitted,
                logical: after.logical + 1,
            };
            lemma_tree_push(after, row, after.emitted, files, collapsed, n - 1, n, after.logical + 1);
            let file = files[n - 1];
            if file.expanded {
                if file.semantic == FileSemanticLoad::Ready && file.symbols.len() > 0 {
                    lemma_tree_symbols(with_file, depth + 1, file.symbols.len() as int, files, collapsed, n);
                } else {
                    let note = RowView::Note { file_index: n - 1, depth: depth + 1 };
                    lemma_tree_push(with_file, note, after.emitted, files, collapsed, n, n, after.logical + 1);
                }
            }
        }
    }
}

/// Whether directory `d` has a row among the first `n`.
pub open spec fn has_directory_row(rows: Seq<RowView>, d: Seq<char>, n: int) -> bool {
    exists|j: int| #![trigger rows[j]] 0 <= j < n && rows[j] is Directory && rows[j]->path == d
}

/// Whether a file stands somewhere below a directory.
pub open spec fn is_below(path: Seq<char>, d: Seq<char>) -> bool {
    (d + seq!['/']).is_prefix_of(path)
}

/// Whether no directory above a file that has a row among `rows` is collapsed.
pub open spec fn none_collapsed_above(rows: Seq<RowView>, path: Seq<char>, collapsed: Set<Seq<char>>) -> bool {
    forall|d: Seq<char>| #[trigger]
        has_directory_row(rows, d, rows.len() as int) && is_below(path, d) ==> !collapsed.contains(d)
}

/// Whether directory `d` is a row on the way to file `f`.
spec fn shown_above(files: Seq<FileRow>, f: int, d: Seq<char>) -> bool {
    exists|e: int|
        0 <= e < shown_directories(files, files[f].path@, 0).len() && #[trigger] shown_directories(
            files,
            files[f].path@,
            0,
        )[e].0 == d
}

/// Whether directory `d` is a row on the way to one of the first `n` files.
spec fn shown_by(files: Seq<FileRow>, d: Seq<char>, n: int) -> bool {
    exists|f: int| 0 <= f < n && #[trigger] shown_above(files, f, d)
}

/// What a tree walk keeps of directories: those with a row lead to a file, and the rows of a
/// file stand behind those of all its directories.
spec fn is_rooted(w: Walk, files: Seq<FileRow>, n: int) -> bool {
    &&& forall|d: Seq<char>| #[trigger]
        w.emitted.contains(d) ==> has_directory_row(w.rows, d, w.rows.len() as int) && shown_by(files, d, n)
    &&& forall|i: int, d: Seq<char>|
        #![trigger w.rows[i], has_directory_row(w.rows, d, i)]
        0 <= i < w.rows.len() && file_of(w.rows[i]) is Some && shown_above(files, file_of(w.rows[i])->0, d)
            ==> has_directory_row(w.rows, d, i)
}

proof fn lemma_directory_row_kept(rows: Seq<RowView>, row: RowView, d: Seq<char>, n: int)
    requires
        0 <= n <= rows.len(),
    ensures
        has_directory_row(rows.push(row), d, n) == has_directory_row(rows, d, n),
{
    let next = rows.push(row);
    if has_directory_row(rows, d, n) {
        let j = choose|j: int| #![trigger rows[j]] 0 <= j < n && rows[j] is Directory && rows[j]->path == d;
        assert(next[j] == rows[j]);
    }
    if has_directory_row(next, d, n) {
        let j = choose|j: int| #![trigger next[j]] 0 <= j < n && next[j] is Directory && next[j]->path == d;
        assert(next[j] == rows[j]);
    }
}

proof fn lemma_rooted_push(w: Walk, row: RowView, emitted: Set<Seq<char>>, logical: int, files: Seq<FileRow>, n: int)
    requires
        is_rooted(w, files, n),
        row is Directory ==> emitted == w.emitted.insert(row->path) && shown_by(files, row->path, n),
        row !is Directory ==> emitted == w.emitted,
        file_of(row) is Some ==> forall|d: Seq<char>| #[trigger]
            shown_above(files, file_of(row)->0, d) ==> w.emitted.contains(d),
    ensures
        is_rooted(Walk { rows: w.rows.push(row), emitted, logical }, files, n),
{
    let next = Walk { rows: w.rows.push(row), emitted, logical };
    let last = w.rows.len() as int;
    assert forall|d: Seq<char>| #[trigger] next.emitted.contains(d) implies has_directory_row(
        next.rows,
        d,
        next.rows.len() as int,
    ) && shown_by(files, d, n) by {
        if w.emitted.contains(d) {
            lemma_directory_row_kept(w.rows, row, d, last);
            let j = choose|j: int|
                #![trigger next.rows[j]]
                0 <= j < last && next.rows[j] is Directory && next.rows[j]->path == d;
            assert(next.rows[j] is Directory);
        } else {
            assert(next.rows[last] == row);
        }
    }
    assert forall|i: int, d: Seq<char>|
        #![trigger next.rows[i], has_directory_row(next.rows, d, i)]
        0 <= i < next.rows.len() && file_of(next.rows[i]) is Some && shown_above(
            files,
            file_of(next.rows[i])->0,
            d,
        ) implies has_directory_row(next.rows, d, i) by {
        lemma_directory_row_kept(w.rows, row, d, i);
        if i < last {
            assert(next.rows[i] == w.rows[i]);
            assert(has_directory_row(w.rows, d, i));
        } else {
            assert(w.emitted.contains(d));
        }
    }
}

proof fn lemma_rooted_directories(
    w: Walk,
    d: int,
    files: Seq<FileRow>,
    collapsed: Set<Seq<char>>,
    n: int,
)
    requires
        0 < n <= files.len(),
        is_rooted(w, files, n),
        0 <= d <= shown_directories(files, files[n - 1].path@, 0).len(),
    ensures
        ({
            let dirs = shown_directories(files, files[n - 1].path@, 0);
            let (after, hidden) = walk_directories(w, dirs, d, collapsed);
            &&& is_rooted(after, files, n)
            &&& w.emitted.subset_of(after.emitted)
            &&& !hidden ==> forall|e: int| d <= e < dirs.len() ==> after.emitted.contains(#[trigger] dirs[e].0)
            &&& collapsed == Set::<Seq<char>>::empty() ==> !hidden
        }),
    decreases shown_directories(files, files[n - 1].path@, 0).len() - d,
{
    let dirs = shown_directories(files, files[n - 1].path@, 0);
    if d < dirs.len() {
        let (path, label) = dirs[d];
        assert(dirs[d].0 == path);
        assert(shown_above(files, n - 1, path));
        assert(shown_by(files, path, n));
        let row = RowView::Directory { path, label, depth: d, logical_index: w.logical };
        let next = if w.emitted.contains(path) {
            w
        } else {
            Walk { rows: w.rows.push(row), emitted: w.emitted.insert(path), logical: w.logical + 1 }
        };
        if !w.emitted.contains(path) {
            lemma_rooted_push(w, row, w.emitted.insert(path), w.logical + 1, files, n);
        }
        lemma_rooted_directories(next, d + 1, files, collapsed, n);
    }
}

proof fn lemma_rooted_symbols(w: Walk, depth: int, k: int, files: Seq<FileRow>, n: int)
    requires
        is_rooted(w, files, n),
        forall|d: Seq<char>| #[trigger] shown_above(files, n - 1, d) ==> w.emitted.contains(d),
    ensures
        is_rooted(walk_symbols(w, n - 1, depth, k), files, n),
        walk_symbols(w, n - 1, depth, k).emitted == w.emitted,
    decreases k,
{
    if k > 0 {
        lemma_rooted_symbols(w, depth, k - 1, files, n);
        let before = walk_symbols(w, n - 1, depth, k - 1);
        let row = RowView::Symbol { file_index: n - 1, symbol_index: k - 1, depth, logical_index: before.logical };
        lemma_rooted_push(before, row, before.emitted, before.logical + 1, files, n);
    }
}

proof fn lemma_rooted(files: Seq<FileRow>, collapsed: Set<Seq<char>>, n: int)
    requires
        0 <= n <= files.len(),
    ensures
        is_rooted(walk(files, collapsed, n), files, n),
        collapsed == Set::<Seq<char>>::empty() ==> forall|f: int, d: Seq<char>|
            0 <= f < n && #[trigger] shown_above(files, f, d) ==> walk(files, collapsed, n).emitted.contains(d),
    decreases n,
{
    if n > 0 {
        lemma_rooted(files, collapsed, n - 1);
        let before = walk(files, collapsed, n - 1);
        assert forall|d: Seq<char>| #[trigger] before.emitted.contains(d) implies shown_by(files, d, n) by {
            let f = choose|f: int| 0 <= f < n - 1 && #[trigger] shown_above(files, f, d);
            assert(shown_above(files, f, d));
        }
        assert(is_rooted(before, files, n));
        lemma_rooted_directories(before, 0, files, collapsed, n);
        let dirs = shown_directories(files, files[n - 1].path@, 0);
        let (after, hidden) = walk_directories(before, dirs, 0, collapsed);
        if !hidden {
            let depth = dirs.len() as int;
            let file = files[n - 1];
            assert forall|d: Seq<char>| #[trigger] shown_above(files, n - 1, d) implies after.emitted.contains(d) by {
                let e = choose|e: int| 0 <= e < dirs.len() && #[trigger] dirs[e].0 == d;
            }
            let row = RowView::File { file_index: n - 1, depth, logical_index: after.logical };
            let with_file = Walk { rows: after.rows.push(row), emitted: after.emitted, logical: after.logical + 1 };
            lemma_rooted_push(after, row, after.emitted, after.logical + 1, files, n);
            if file.expanded {
                if file.semantic == FileSemanticLoad::Ready && file.symbols.len() > 0 {
                    lemma_rooted_symbols(with_file, depth + 1, file.symbols.len() as int, files, n);
                } else {
                    let note = RowView::Note { file_index: n - 1, depth: depth + 1 };
                    lemma_rooted_push(with_file, note, after.emitted, with_file.logical, files, n);
                }
            }
            assert(walk(files, collapsed, n).emitted == after.emitted);
        }
    }
}

/// Whether a row of the tree ends with directory `k` on the way to a file.
spec fn is_row_end(files: Seq<FileRow>, dirs: Seq<Seq<char>>, k: int) -> bool {
    !(k + 1 < dirs.len() && only_child(files, dirs[k], dirs[k + 1]))
}

proof fn lemma_chain_end_is_first(files: Seq<FileRow>, dirs: Seq<Seq<char>>, k: int)
    requires
        0 <= k < dirs.len(),
    ensures
        is_row_end(files, dirs, chain_end(files, dirs, k)),
        forall|m: int| k <= m < chain_end(files, dirs, k) ==> !#[trigger] is_row_end(files, dirs, m),
    decreases dirs.len() - k,
{
    if k + 1 < dirs.len() && only_child(files, dirs[k], dirs[k + 1]) {
        lemma_chain_end_is_first(files, dirs, k + 1);
    }
}

/// The directory rows on the way to a file are those at which a row ends.
proof fn lemma_shown_are_row_ends(files: Seq<FileRow>, path: Seq<char>, k: int)
    requires
        0 <= k <= prefixes_of(path).len(),
    ensures
        forall|m: int|
            k <= m < prefixes_of(path).len() && #[trigger] is_row_end(files, prefixes_of(path), m) ==> exists|e: int|
                0 <= e < shown_directories(files, path, k).len() && #[trigger] shown_directories(files, path, k)[e].0
                    == prefixes_of(path)[m],
        forall|e: int|
            0 <= e < shown_directories(files, path, k).len() ==> exists|m: int|
                k <= m < prefixes_of(path).len() && is_row_end(files, prefixes_of(path), m)
                    && #[trigger] shown_directories(files, path, k)[e].0 == #[trigger] prefixes_of(path)[m],
    decreases prefixes_of(path).len() - k,
{
    let dirs = prefixes_of(path);
    let all = shown_directories(files, path, k);
    if k < dirs.len() {
        let end = chain_end(files, dirs, k);
        lemma_chain_end(files, dirs, k);
        lemma_chain_end_is_first(files, dirs, k);
        let rest = shown_directories(files, path, end + 1);
        lemma_shown_are_row_ends(files, path, end + 1);
        assert(all[0].0 == dirs[end]);
        assert forall|m: int| k <= m < dirs.len() && #[trigger] is_row_end(files, dirs, m) implies exists|e: int|
            0 <= e < all.len() && #[trigger] all[e].0 == dirs[m] by {
            if m > end {
                let e = choose|e: int| 0 <= e < rest.len() && #[trigger] rest[e].0 == dirs[m];
                assert(all[e + 1].0 == dirs[m]);
            }
        }
        assert forall|e: int| 0 <= e < all.len() implies exists|m: int|
            k <= m < dirs.len() && is_row_end(files, dirs, m) && #[trigger] all[e].0 == #[trigger] dirs[m] by {
            if e > 0 {
                assert(all[e] == rest[e - 1]);
                let m = choose|m: int|
                    end + 1 <= m < dirs.len() && is_row_end(files, dirs, m) && #[trigger] rest[e - 1].0
                        == #[trigger] dirs[m];
                assert(all[e].0 == dirs[m]);
            } else {
                assert(all[0].0 == dirs[end]);
            }
        }
    }
}

/// A separator between two texts separates their parts.
proof fn lemma_split_concat(a: Seq<char>, b: Seq<char>, sep: char)
    ensures
        split_on(a + seq![sep] + b, sep) == split_on(a, sep) + split_on(b, sep),
    decreases b.len(),
{
    let s = a + seq![sep] + b;
    if b.len() == 0 {
        assert(s.drop_last() =~= a);
        assert(s.last() == sep);
        assert(split_on(s, sep) =~= split_on(a, sep) + split_on(b, sep));
    } else {
        lemma_split_concat(a, b.drop_last(), sep);
        assert(s.drop_last() =~= a + seq![sep] + b.drop_last());
        crate::text::lemma_split_nonempty(b.drop_last(), sep);
        assert(split_on(s, sep) =~= split_on(a, sep) + split_on(b, sep));
    }
}

/// A file stands below exactly its directory prefixes.
pub proof fn lemma_below_is_prefix(path: Seq<char>, d: Seq<char>)
    ensures
        is_below(path, d) <==> exists|k: int| 0 <= k < prefixes_of(path).len() && #[trigger] prefixes_of(path)[k] == d,
{
    let parts = split_on(path, '/');
    crate::text::law_split_then_join(path, '/');
    if is_below(path, d) {
        let rest = path.skip(d.len() as int + 1);
        assert(path =~= d + seq!['/'] + rest);
        lemma_split_concat(d, rest, '/');
        crate::text::lemma_split_nonempty(d, '/');
        crate::text::lemma_split_nonempty(rest, '/');
        let n = split_on(d, '/').len() as int;
        assert(parts.take(n) =~= split_on(d, '/'));
        crate::text::law_split_then_join(d, '/');
        assert(prefixes_of(path)[n - 1] == d);
    }
    if exists|k: int| 0 <= k < prefixes_of(path).len() && #[trigger] prefixes_of(path)[k] == d {
        let k = choose|k: int| 0 <= k < prefixes_of(path).len() && #[trigger] prefixes_of(path)[k] == d;
        crate::text::lemma_join_at(parts, seq!['/'], k + 1);
        assert((d + seq!['/']).is_prefix_of(path));
    }
}

/// A directory that is a row on the way to one file is a row on the way to every file below
/// it.
proof fn lemma_rows_are_shared(files: Seq<FileRow>, f: int, i: int, d: Seq<char>)
    requires
        0 <= f < files.len(),
        0 <= i < files.len(),
        shown_above(files, f, d),
        is_below(files[i].path@, d),
    ensures
        shown_above(files, i, d),
{
    let (pf, pi) = (files[f].path@, files[i].path@);
    let (df, di) = (prefixes_of(pf), prefixes_of(pi));
    lemma_shown_are_row_ends(files, pf, 0);
    let e = choose|e: int|
        0 <= e < shown_directories(files, pf, 0).len() && #[trigger] shown_directories(files, pf, 0)[e].0 == d;
    let k = choose|k: int|
        0 <= k < df.len() && is_row_end(files, df, k) && #[trigger] shown_directories(files, pf, 0)[e].0
            == #[trigger] df[k];
    lemma_below_is_prefix(pi, d);
    let m = choose|m: int| 0 <= m < di.len() && #[trigger] di[m] == d;
    assert(step_parent(pf, k + 1) == d);
    assert(is_child(files, d, step_child(pf, k + 1)));
    assert(is_row_end(files, di, m));
    lemma_shown_are_row_ends(files, pi, 0);
}

/// Directories and files of the changed tree. With every directory open, each directory that
/// is a row at all is one; collapsing some adds none. A file has a row exactly where no such
/// directory above it is collapsed, and then one, in file order. A directory has at most one
/// row, in front of all rows of the files below it.
pub proof fn law_directories_hold_their_files(files: Seq<FileRow>, collapsed: Set<Seq<char>>)
    ensures
        ({
            let rows = projection(files, collapsed);
            let all = projection(files, Set::empty());
            &&& forall|f: int|
                0 <= f < files.len() ==> #[trigger] has_file_row(rows, f) == none_collapsed_above(
                    all,
                    files[f].path@,
                    collapsed,
                )
            &&& forall|i: int, j: int|
                #![trigger rows[i], rows[j]]
                0 <= i < j < rows.len() && rows[i] is File && rows[j] is File ==> file_of(rows[i])->0 < file_of(
                    rows[j],
                )->0
            &&& forall|i: int, j: int|
                #![trigger rows[i], rows[j]]
                0 <= i < j < rows.len() && rows[i] is Directory && rows[j] is Directory ==> rows[i]->path
                    != rows[j]->path
            &&& forall|j: int|
                #![trigger rows[j]]
                0 <= j < rows.len() && rows[j] is Directory ==> has_directory_row(
                    all,
                    rows[j]->path,
                    all.len() as int,
                )
            &&& forall|j: int, i: int|
                #![trigger rows[j], rows[i]]
                0 <= j < rows.len() && 0 <= i < rows.len() && rows[j] is Directory && file_of(rows[i]) is Some
                    && is_below(files[file_of(rows[i])->0].path@, rows[j]->path) ==> j < i
        }),
{
    reveal(projection);
    let n = files.len() as int;
    let none = Set::<Seq<char>>::empty();
    let w = walk(files, collapsed, n);
    let open = walk(files, none, n);
    let rows = w.rows;
    let all = open.rows;
    law_projection_is_a_tree(files, collapsed, n);
    law_projection_is_a_tree(files, none, n);
    lemma_rooted(files, collapsed, n);
    lemma_rooted(files, none, n);
    assert forall|d: Seq<char>| has_directory_row(all, d, all.len() as int) implies #[trigger] shown_by(
        files,
        d,
        n,
    ) by {
        let j = choose|j: int| #![trigger all[j]] 0 <= j < all.len() && all[j] is Directory && all[j]->path == d;
        assert(open.emitted.contains(d));
    }
    assert forall|f: int| 0 <= f < n implies #[trigger] has_file_row(rows, f) == none_collapsed_above(
        all,
        files[f].path@,
        collapsed,
    ) by {
        let dirs = shown_directories(files, files[f].path@, 0);
        if has_file_row(rows, f) {
            let i = choose|i: int|
                #![trigger rows[i]]
                0 <= i < rows.len() && rows[i] is File && file_of(rows[i]) == Some(f);
            assert(is_open(files, collapsed, f));
            assert forall|d: Seq<char>| #[trigger]
                has_directory_row(all, d, all.len() as int) && is_below(files[f].path@, d) implies !collapsed.contains(
                d,
            ) by {
                assert(shown_by(files, d, n));
                let g = choose|g: int| 0 <= g < n && #[trigger] shown_above(files, g, d);
                lemma_rows_are_shared(files, g, f, d);
                let e = choose|e: int| 0 <= e < dirs.len() && #[trigger] dirs[e].0 == d;
                assert(!collapsed.contains(dirs[e].0));
            }
        }
        if none_collapsed_above(all, files[f].path@, collapsed) {
            assert forall|e: int| 0 <= e < dirs.len() implies !collapsed.contains(#[trigger] dirs[e].0) by {
                let d = dirs[e].0;
                assert(shown_above(files, f, d));
                assert(open.emitted.contains(d));
                assert(has_directory_row(all, d, all.len() as int));
                lemma_shown_are_row_ends(files, files[f].path@, 0);
                let m = choose|m: int|
                    0 <= m < prefixes_of(files[f].path@).len() && is_row_end(files, prefixes_of(files[f].path@), m)
                        && #[trigger] dirs[e].0 == #[trigger] prefixes_of(files[f].path@)[m];
                lemma_below_is_prefix(files[f].path@, d);
            }
            assert(is_open(files, collapsed, f));
        }
    }
    assert forall|j: int| #![trigger rows[j]] 0 <= j < rows.len() && rows[j] is Directory implies has_directory_row(
        all,
        rows[j]->path,
        all.len() as int,
    ) by {
        let d = rows[j]->path;
        assert(w.emitted.contains(d));
        let f = choose|f: int| 0 <= f < n && #[trigger] shown_above(files, f, d);
        assert(open.emitted.contains(d));
    }
    assert forall|j: int, i: int|
        #![trigger rows[j], rows[i]]
        0 <= j < rows.len() && 0 <= i < rows.len() && rows[j] is Directory && file_of(rows[i]) is Some && is_below(
            files[file_of(rows[i])->0].path@,
            rows[j]->path,
        ) implies j < i by {
        let d = rows[j]->path;
        let f = file_of(rows[i])->0;
        assert(w.emitted.contains(d));
        let g = choose|g: int| 0 <= g < n && #[trigger] shown_above(files, g, d);
        lemma_rows_are_shared(files, g, f, d);
        assert(has_directory_row(rows, d, i));
        let h = choose|h: int| #![trigger rows[h]] 0 <= h < i && rows[h] is Directory && rows[h]->path == d;
        assert(rows[h]->path == rows[j]->path);
    }
}

} // verus!
