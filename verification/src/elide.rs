//! Repo-relative path elision for narrow panes.
//!
//! The full path stays the identity of a file; elision is display-only. All width math is
//! in terminal display cells, and text is only ever cut between graphemes.

use vstd::prelude::*;
use crate::num::{min_int, min_usize, monus};
use crate::text::{
    chars_of, display_width, head_cells, join_with, joined, same_text, slices, split_on, split_text, str_width,
    tail_cells, take_cells, take_cells_rev, text_of, texts,
};

verus! {

/// The directory components of a path: everything before its basename.
pub open spec fn directories(path: Seq<char>) -> Seq<Seq<char>> {
    split_on(path, '/').drop_last()
}

/// The last component of a path.
pub open spec fn basename(path: Seq<char>) -> Seq<char> {
    split_on(path, '/').last()
}

/// Whether every path has the directory component `i`, and the same as the first path.
pub open spec fn agree_at(paths: Seq<Seq<char>>, i: int) -> bool {
    forall|k: int| #![trigger paths[k]]
        0 <= k < paths.len() ==> i < directories(paths[k]).len()
            && directories(paths[k])[i] == directories(paths[0])[i]
}

/// From component `i` on, how far the directory components of all paths agree.
pub open spec fn common_from(paths: Seq<Seq<char>>, i: int) -> int
    decreases directories(paths[0]).len() - i,
{
    if i < directories(paths[0]).len() && agree_at(paths, i) {
        common_from(paths, i + 1)
    } else {
        i
    }
}

/// The directory prefix made of the first `n` components, with its trailing slash.
pub open spec fn root_text(path: Seq<char>, n: int) -> Seq<char> {
    join_with(directories(path).take(n), seq!['/']) + seq!['/']
}

/// The shared root of `paths`, where stripping it is worthwhile: at least two paths share
/// at least two directory components, and the root takes at least eight cells.
pub open spec fn shared_root_spec(paths: Seq<Seq<char>>) -> Option<Seq<char>> {
    let n = common_from(paths, 0);
    if paths.len() >= 2 && n >= 2 && display_width(root_text(paths[0], n)) >= 8 {
        Some(root_text(paths[0], n))
    } else {
        None
    }
}

/// `path` without `root` in front, or as it is where it does not start with it.
pub open spec fn without_root(path: Seq<char>, root: Option<Seq<char>>) -> Seq<char> {
    match root {
        Some(r) if r.len() <= path.len() && path.take(r.len() as int) == r => path.skip(r.len() as int),
        _ => path,
    }
}

/// The text after the last dot of `s` with that dot, or nothing without a dot.
pub open spec fn extension(s: Seq<char>) -> Seq<char> {
    let parts = split_on(s, '.');
    if parts.len() >= 2 {
        seq!['.'] + parts.last()
    } else {
        Seq::empty()
    }
}

/// `s` itself where it fits, else the ellipsis where that fits, else nothing.
pub open spec fn fitted(s: Seq<char>, budget: int) -> Seq<char> {
    if display_width(s) <= budget {
        s
    } else if display_width("…"@) <= budget {
        "…"@
    } else {
        Seq::empty()
    }
}

/// One component held to `budget` cells: head, ellipsis and the extension at the tail.
pub open spec fn middle_elided(s: Seq<char>, budget: int) -> Seq<char> {
    if display_width(s) <= budget {
        s
    } else if budget < 4 {
        "…"@
    } else {
        let tail_keep = min_int(display_width(extension(s)) as int, budget / 2);
        let head_keep = monus(budget, 1 + tail_keep);
        head_cells(s, head_keep) + "…"@ + tail_cells(s, tail_keep)
    }
}

/// The omission marker of a stripped root.
pub open spec fn root_marker(had_root: bool) -> Seq<char> {
    if had_root { "…/"@ } else { ""@ }
}

/// What [`elide_paths`] shows for one path once the shared root is gone: the whole path
/// where it fits, else its first component and basename, else the basename, else the
/// basename cut in the middle.
pub open spec fn elided(path: Seq<char>, budget: int, had_root: bool) -> Seq<char> {
    let prefix = root_marker(had_root);
    let comps = split_on(path, '/');
    let base = comps.last();
    let with_first = prefix + comps[0] + "/…/"@ + base;
    let without_first = prefix + "…/"@ + base;
    if display_width(prefix + path) <= budget {
        prefix + path
    } else if comps.len() >= 2 && display_width(with_first) <= budget {
        with_first
    } else if comps.len() >= 2 && display_width(without_first) <= budget {
        without_first
    } else if display_width(prefix + base) <= budget {
        prefix + base
    } else {
        fitted(prefix + middle_elided(base, monus(budget, display_width(prefix) as int)), budget)
    }
}

/// The display text of one of `paths`.
pub open spec fn elided_path(paths: Seq<Seq<char>>, i: int, budget: int) -> Seq<char> {
    if budget < 4 {
        fitted("…"@, budget)
    } else {
        let root = shared_root_spec(paths);
        elided(without_root(paths[i], root), budget, root is Some)
    }
}

/// Whether the mark of a stripped root stands in front of a text and a basename at its end,
/// as they do wherever the two fit side by side.
pub open spec fn names_file(shown: Seq<char>, base: Seq<char>, budget: int, had_root: bool) -> bool {
    let mark = root_marker(had_root);
    display_width(mark) + display_width(base) <= budget ==> mark.is_prefix_of(shown) && base.is_suffix_of(shown)
}

/// Shorten `paths` for display in `budget` cells.
///
/// A shared directory root is stripped where that is worthwhile and marked with `…/`;
/// each path then keeps its basename and is elided in the middle. Returns display strings
/// in input order. Never splits a grapheme or exceeds `budget`.
pub fn elide_paths(paths: &[&str], budget: usize) -> (out: Vec<String>)
    ensures
        out.len() == paths.len(),
        forall|i: int| #![trigger out@[i]] 0 <= i < out.len() ==> {
            &&& out@[i]@ == elided_path(slices(paths@), i, budget as int)
            &&& display_width(out@[i]@) <= budget
            &&& budget >= 4 ==> names_file(
                out@[i]@,
                basename(paths@[i]@),
                budget as int,
                shared_root_spec(slices(paths@)) is Some,
            )
        },
{
    let mut out: Vec<String> = Vec::new();
    let ghost all = slices(paths@);
    let root: Option<String> = shared_root(paths);
    let mut i: usize = 0;
    while i < paths.len()
        invariant
            i <= paths.len(),
            out.len() == i,
            all == slices(paths@),
            match root {
                Some(r) => shared_root_spec(all) == Some(r@),
                None => shared_root_spec(all) is None,
            },
            forall|k: int| #![trigger out@[k]] 0 <= k < i ==> {
                &&& out@[k]@ == elided_path(all, k, budget as int)
                &&& display_width(out@[k]@) <= budget
                &&& budget >= 4 ==> names_file(out@[k]@, basename(all[k]), budget as int, root is Some)
            },
        decreases paths.len() - i,
    {
        let path: &str = paths[i];
        proof {
            lemma_basename_without_root(all, i as int);
        }
        let text: String = if budget < 4 {
            fit_text("…", budget)
        } else {
            match &root {
                Some(r) => {
                    let rest = strip_root(path, r.as_str());
                    elide_one(rest.as_str(), budget, true)
                },
                None => elide_one(path, budget, false),
            }
        };
        out.push(text);
        i = i + 1;
    }
    out
}

/// The path without `root` in front, or the path itself.
fn strip_root(path: &str, root: &str) -> (rest: String)
    ensures
        rest@ == without_root(path@, Some(root@)),
{
    let p = chars_of(path);
    let r = chars_of(root);
    if r.len() > p.len() {
        return path.to_owned();
    }
    let head = text_of(&p, 0, r.len());
    if same_text(head.as_str(), root) {
        proof {
            assert(p@.subrange(0, r.len() as int) =~= path@.take(root@.len() as int));
            assert(p@.subrange(r.len() as int, p.len() as int) =~= path@.skip(root@.len() as int));
        }
        text_of(&p, r.len(), p.len())
    } else {
        proof {
            assert(p@.subrange(0, r.len() as int) =~= path@.take(root@.len() as int));
        }
        path.to_owned()
    }
}

/// The directory components of every path.
fn directory_lists(paths: &[&str]) -> (dirs: Vec<Vec<String>>)
    ensures
        dirs.len() == paths.len(),
        forall|k: int| #![trigger dirs@[k]] 0 <= k < dirs.len() ==> texts(dirs@[k]@) == directories(paths@[k]@),
{
    let mut dirs: Vec<Vec<String>> = Vec::new();
    let mut i: usize = 0;
    while i < paths.len()
        invariant
            i <= paths.len(),
            dirs.len() == i,
            forall|k: int| #![trigger dirs@[k]] 0 <= k < i ==> texts(dirs@[k]@) == directories(paths@[k]@),
        decreases paths.len() - i,
    {
        let mut parts = split_text(paths[i], '/');
        let ghost whole = texts(parts@);
        let _ = parts.pop();
        proof {
            assert(texts(parts@) =~= whole.drop_last());
        }
        dirs.push(parts);
        i = i + 1;
    }
    dirs
}

/// The shared directory root across `paths`, if stripping it is worthwhile.
///
/// Compares whole directory components (never a raw string prefix: `packages/api` and
/// `packages/api-old` share no `api` component). Returns the root with its trailing `/`
/// only when at least two files share at least two components and stripping saves at
/// least eight cells.
pub fn shared_root(paths: &[&str]) -> (root: Option<String>)
    ensures
        match root {
            Some(r) => shared_root_spec(slices(paths@)) == Some(r@),
            None => shared_root_spec(slices(paths@)) is None,
        },
{
    let ghost all = slices(paths@);
    if paths.len() < 2 {
        return None;
    }
    let dirs = directory_lists(paths);
    let mut common: usize = 0;
    proof {
        assert(texts(dirs@[0]@) == directories(all[0]));
    }
    while common < dirs[0].len()
        invariant_except_break
            common_from(all, 0) == common_from(all, common as int),
        invariant
            all == slices(paths@),
            dirs.len() == paths.len() >= 2,
            texts(dirs@[0]@) == directories(all[0]),
            common <= dirs@[0].len(),
            forall|k: int| #![trigger dirs@[k]] 0 <= k < dirs.len() ==> texts(dirs@[k]@) == directories(all[k]),
        ensures
            common == common_from(all, 0),
        decreases dirs@[0].len() - common,
    {
        let mut k: usize = 0;
        let mut agree: bool = true;
        while k < dirs.len()
            invariant
                k <= dirs.len() == all.len(),
                dirs.len() >= 2,
                common < dirs@[0].len(),
                texts(dirs@[0]@) == directories(all[0]),
                forall|j: int| #![trigger dirs@[j]] 0 <= j < dirs.len() ==> texts(dirs@[j]@) == directories(all[j]),
                agree ==> forall|j: int| #![trigger all[j]] 0 <= j < k ==> common < directories(all[j]).len()
                    && directories(all[j])[common as int] == directories(all[0])[common as int],
                !agree ==> !agree_at(all, common as int),
            decreases dirs.len() - k,
        {
            proof {
                assert(texts(dirs@[k as int]@) == directories(all[k as int]));
                assert(texts(dirs@[0]@)[common as int] == dirs@[0]@[common as int]@);
            }
            if dirs[k].len() <= common {
                proof {
                    assert(texts(dirs@[k as int]@).len() == dirs@[k as int].len());
                }
                agree = false;
            } else {
                proof {
                    assert(texts(dirs@[k as int]@)[common as int] == dirs@[k as int]@[common as int]@);
                }
                if !same_text(dirs[k][common].as_str(), dirs[0][common].as_str()) {
                    agree = false;
                }
            }
            k = k + 1;
        }
        if !agree {
            break;
        }
        proof {
            assert(agree_at(all, common as int));
        }
        common = common + 1;
    }
    if common < 2 {
        return None;
    }
    let mut root = String::new();
    let mut i: usize = 0;
    let ghost first = directories(all[0]);
    proof {
        assert(join_with(first.take(0), seq!['/']) =~= Seq::empty());
    }
    while i < common
        invariant
            i <= common <= dirs@[0].len(),
            dirs.len() > 0,
            first == texts(dirs@[0]@),
            root@ == join_with(first.take(i as int), seq!['/']),
        decreases common - i,
    {
        proof {
            assert(first.take(i + 1).drop_last() =~= first.take(i as int));
            assert(first.take(i + 1).last() == dirs@[0]@[i as int]@);
        }
        if i > 0 {
            root.push('/');
        }
        root.append(dirs[0][i].as_str());
        proof {
            assert(root@ =~= join_with(first.take(i + 1), seq!['/']));
        }
        i = i + 1;
    }
    root.push('/');
    proof {
        assert(root@ =~= root_text(all[0], common as int));
    }
    if str_width(root.as_str()) >= 8 {
        Some(root)
    } else {
        None
    }
}

/// `s` where it fits, else the ellipsis, else nothing.
fn fit_text(s: &str, budget: usize) -> (out: String)
    ensures
        out@ == fitted(s@, budget as int),
        display_width(out@) <= budget,
{
    let nothing = String::new();
    let zero: usize = str_width(nothing.as_str());
    if str_width(s) <= budget {
        s.to_owned()
    } else if str_width("…") <= budget {
        "…".to_owned()
    } else {
        nothing
    }
}

/// Elide a single (root-stripped) path to fit `budget` cells.
/// `had_root` prepends the `…/` omission marker when a shared root was stripped.
fn elide_one(path: &str, budget: usize, had_root: bool) -> (out: String)
    ensures
        out@ == elided(path@, budget as int, had_root),
        display_width(out@) <= budget,
        names_file(out@, basename(path@), budget as int, had_root),
{
    let prefix: &str = if had_root { "…/" } else { "" };
    let full = joined(prefix, path);
    proof {
        lemma_last_part_is_suffix(path@, '/');
        assert(prefix@.is_prefix_of(full@) && basename(path@).is_suffix_of(full@));
    }
    if str_width(full.as_str()) <= budget {
        return full;
    }
    let comps = split_text(path, '/');
    let last: usize = comps.len() - 1;
    proof {
        assert(texts(comps@)[last as int] == comps@[last as int]@);
        assert(texts(comps@)[0] == comps@[0]@);
    }
    let base: &str = comps[last].as_str();
    if comps.len() >= 2 {
        let mut candidate = joined(prefix, comps[0].as_str());
        candidate.append("/…/");
        candidate.append(base);
        proof {
            assert(prefix@.is_prefix_of(candidate@) && base@.is_suffix_of(candidate@));
        }
        if str_width(candidate.as_str()) <= budget {
            return candidate;
        }
        let mut candidate = joined(prefix, "…/");
        candidate.append(base);
        proof {
            assert(prefix@.is_prefix_of(candidate@) && base@.is_suffix_of(candidate@));
        }
        if str_width(candidate.as_str()) <= budget {
            return candidate;
        }
    }
    let base_with_prefix = joined(prefix, base);
    proof {
        assert(prefix@.is_prefix_of(base_with_prefix@) && base@.is_suffix_of(base_with_prefix@));
    }
    if str_width(base_with_prefix.as_str()) <= budget {
        return base_with_prefix;
    }
    let prefix_cells: usize = str_width(prefix);
    proof {
        reveal_strlit("…/");
        reveal_strlit("");
        if had_root {
            assert(prefix@[1] == '/');
            assert(base_with_prefix@.take(1) =~= prefix@.take(1));
            assert(base_with_prefix@.skip(2) =~= base@);
        } else {
            assert(base_with_prefix@ =~= base@);
        }
        assert(display_width(prefix@) + display_width(base@) > budget);
    }
    let middle = middle_elide(base, budget.saturating_sub(prefix_cells));
    fit_text(joined(prefix, middle.as_str()).as_str(), budget)
}

/// Middle-elide a single component to fit `budget` cells, keeping head, tail and
/// extension.
fn middle_elide(s: &str, budget: usize) -> (out: String)
    ensures
        out@ == middle_elided(s@, budget as int),
{
    if str_width(s) <= budget {
        return s.to_owned();
    }
    if budget < 4 {
        return "…".to_owned();
    }
    let parts = split_text(s, '.');
    let mut ext = String::new();
    if parts.len() >= 2 {
        ext.push('.');
        ext.append(parts[parts.len() - 1].as_str());
        proof {
            assert(texts(parts@)[parts.len() - 1] == parts@[parts.len() - 1]@);
            assert(ext@ =~= extension(s@));
        }
    } else {
        proof {
            assert(ext@ =~= extension(s@));
        }
    }
    let tail_keep: usize = min_usize(str_width(ext.as_str()), budget / 2);
    let head_keep: usize = budget.saturating_sub(1 + tail_keep);
    let mut out = take_cells(s, head_keep);
    out.append("…");
    let tail = take_cells_rev(s, tail_keep);
    out.append(tail.as_str());
    out
}

proof fn lemma_common_from(paths: Seq<Seq<char>>, i: int)
    requires
        paths.len() > 0,
        0 <= i <= directories(paths[0]).len(),
    ensures
        i <= common_from(paths, i) <= directories(paths[0]).len(),
        forall|j: int| i <= j < common_from(paths, i) ==> agree_at(paths, j),
    decreases directories(paths[0]).len() - i,
{
    if i < directories(paths[0]).len() && agree_at(paths, i) {
        lemma_common_from(paths, i + 1);
    }
}

/// A shared root is made of whole directory components of every path: each path is the
/// root followed by what is shown of it, so stripping loses nothing but the root.
pub proof fn law_shared_root_is_a_prefix(paths: Seq<Seq<char>>, k: int)
    requires
        0 <= k < paths.len(),
        shared_root_spec(paths) is Some,
    ensures
        paths[k] == shared_root_spec(paths)->0 + without_root(paths[k], shared_root_spec(paths)),
{
    let n = common_from(paths, 0);
    let root = root_text(paths[0], n);
    let path = paths[k];
    let parts = split_on(path, '/');
    crate::text::lemma_split_nonempty(path, '/');
    crate::text::lemma_split_nonempty(paths[0], '/');
    lemma_common_from(paths, 0);
    assert(agree_at(paths, n - 1));
    assert forall|j: int| 0 <= j < n implies directories(path)[j] == directories(paths[0])[j] by {
        assert(agree_at(paths, j));
        assert(paths[k] == path);
    }
    assert(n <= directories(path).len());
    assert(parts.take(n) =~= directories(paths[0]).take(n));
    crate::text::law_split_then_join(path, '/');
    crate::text::lemma_join_at(parts, seq!['/'], n);
    let rest = join_with(parts.skip(n), seq!['/']);
    assert(path =~= root + rest);
    assert(path.take(root.len() as int) =~= root);
    assert(path.skip(root.len() as int) =~= rest);
}

/// Where a shared root is stripped, every path that is not cut down to an ellipsis says so
/// in front.
pub proof fn law_stripped_root_is_marked(path: Seq<char>, budget: int)
    requires
        elided(path, budget, true) != "…"@,
        elided(path, budget, true).len() > 0,
    ensures
        "…/"@.is_prefix_of(elided(path, budget, true)),
{
}

/// What follows a separator has the same last part as the whole.
proof fn lemma_last_part(front: Seq<char>, rest: Seq<char>, sep: char)
    requires
        front.len() > 0,
        front.last() == sep,
    ensures
        split_on(front + rest, sep).last() == split_on(rest, sep).last(),
    decreases rest.len(),
{
    if rest.len() == 0 {
        assert(front + rest =~= front);
    } else {
        lemma_last_part(front, rest.drop_last(), sep);
        assert((front + rest).drop_last() =~= front + rest.drop_last());
        crate::text::lemma_split_nonempty(front + rest.drop_last(), sep);
        crate::text::lemma_split_nonempty(rest.drop_last(), sep);
    }
}

/// The last part of a text stands at its end.
proof fn lemma_last_part_is_suffix(s: Seq<char>, sep: char)
    ensures
        split_on(s, sep).last().is_suffix_of(s),
    decreases s.len(),
{
    if s.len() > 0 {
        lemma_last_part_is_suffix(s.drop_last(), sep);
        crate::text::lemma_split_nonempty(s.drop_last(), sep);
    }
}

/// Stripping the shared root takes nothing of a basename.
proof fn lemma_basename_without_root(paths: Seq<Seq<char>>, i: int)
    requires
        0 <= i < paths.len(),
    ensures
        basename(without_root(paths[i], shared_root_spec(paths))) == basename(paths[i]),
{
    match shared_root_spec(paths) {
        Some(root) => {
            law_shared_root_is_a_prefix(paths, i);
            lemma_last_part(root, without_root(paths[i], Some(root)), '/');
        },
        None => {},
    }
}

/// A path that fits behind the mark of its stripped root is shown as it is, and where the
/// mark and the basename fit together, both are shown: the mark in front, the basename at
/// the end.
pub proof fn law_basename_is_kept(paths: Seq<Seq<char>>, i: int, budget: int)
    requires
        0 <= i < paths.len(),
        budget >= 4,
    ensures
        ({
            let root = shared_root_spec(paths);
            let mark = root_marker(root is Some);
            let base = basename(paths[i]);
            let shown = elided_path(paths, i, budget);
            &&& display_width(mark + without_root(paths[i], root)) <= budget ==> shown == mark + without_root(
                paths[i],
                root,
            )
            &&& display_width(mark + base) <= budget ==> mark.is_prefix_of(shown) && base.is_suffix_of(shown)
        }),
{
    let root = shared_root_spec(paths);
    let rest = without_root(paths[i], root);
    let mark = root_marker(root is Some);
    let base = basename(paths[i]);
    let comps = split_on(rest, '/');
    lemma_basename_without_root(paths, i);
    lemma_last_part_is_suffix(rest, '/');
    assert(mark.is_prefix_of(mark + rest) && base.is_suffix_of(mark + rest));
    assert(mark.is_prefix_of(mark + base) && base.is_suffix_of(mark + base));
    let with_first = mark + comps[0] + "/…/"@ + base;
    assert(mark.is_prefix_of(with_first) && base.is_suffix_of(with_first));
    let without_first = mark + "…/"@ + base;
    assert(mark.is_prefix_of(without_first) && base.is_suffix_of(without_first));
}

} // verus!
