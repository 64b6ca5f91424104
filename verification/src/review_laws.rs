//! What review marks mean: which state a mark shows as, what it says of what lies below it, and
//! which comparison it belongs to.

use vstd::prelude::*;
use crate::file_rows::SummaryView;
use crate::review::{
    active_of, all_symbols_marked, be64, below, change_at, comparison_of, covers, directory_state_of, file_content,
    file_reviewed, file_state_of, framed, framed_sections, inventory, maps_to, overridden, paths_of, revision_of,
    revisions_of, symbol_marked, symbol_state_of, symbols_of, synced, toggled, toggled_in, LedgerView, ReviewState,
    ReviewView, SymbolView,
};
use crate::snapshot::{ChangeScope, ChangeSet, FileRow, FileSemanticLoad, UiSnapshot, UnifiedDiffSection};

verus! {

/// The markers: a mark of its own, an inherited one, one by all parts, by some, and none.
pub proof fn law_markers(state: ReviewState)
    ensures
        state == ReviewState::Explicit ==> state.marker_spec() == seq!['●'],
        state == ReviewState::Inherited ==> state.marker_spec() == seq!['↳'],
        state == ReviewState::Reviewed ==> state.marker_spec() == seq!['✓'],
        state == ReviewState::Partial ==> state.marker_spec() == seq!['◐'],
        state == ReviewState::Unreviewed ==> state.marker_spec() == seq![' '],
{
    reveal_strlit("●");
    reveal_strlit("↳");
    reveal_strlit("✓");
    reveal_strlit("◐");
    reveal_strlit(" ");
    let marker = state.marker_spec();
    assert(marker =~= seq![marker[0]]);
}

/// A path lies below a directory where the directory and a slash begin it.
pub proof fn law_paths_below_a_directory(directory: Seq<char>, path: Seq<char>)
    ensures
        below(directory, path) <==> directory.len() < path.len() && path[directory.len() as int] == '/' && path.take(
            directory.len() as int,
        ) == directory,
{
    let whole = directory + seq!['/'];
    let n = directory.len() as int;
    if below(directory, path) {
        assert(whole[n] == '/');
        assert(path.subrange(0, n + 1) == whole);
        assert(path.subrange(0, n + 1)[n] == path[n]);
        assert(path.take(n) =~= path.subrange(0, n + 1).take(n));
        assert(whole.take(n) =~= directory);
    }
    if n < path.len() && path[n] == '/' && path.take(n) == directory {
        assert(path.subrange(0, n + 1) =~= path.take(n) + seq![path[n]]);
    }
}

/// Marking a file gives it a mark of its own, and its symbols inherit it; marking it again takes
/// the mark away. Other files show what they did.
pub proof fn law_file_marks(v: ReviewView, path: Seq<char>, other: Seq<char>, symbol: SymbolView)
    requires
        v.revisions.dom().contains(path),
        v.symbols.dom().contains(symbol.file),
        v.symbols[symbol.file].contains(symbol),
    ensures
        ({
            let after = toggled_in(v, SummaryView::File(path));
            &&& file_state_of(v, path) != ReviewState::Explicit ==> file_state_of(after, path) == ReviewState::Explicit
            &&& file_state_of(v, path) == ReviewState::Explicit ==> file_state_of(after, path) != ReviewState::Explicit
            &&& other != path ==> file_state_of(after, other) == file_state_of(v, other)
            &&& symbol.file == path && file_state_of(after, path) == ReviewState::Explicit ==> (symbol_state_of(
                after,
                symbol,
            ) == if symbol_state_of(v, symbol) == ReviewState::Explicit {
                ReviewState::Explicit
            } else {
                ReviewState::Inherited
            })
            &&& symbol.file != path ==> symbol_state_of(after, symbol) == symbol_state_of(v, symbol)
        }),
{
    let after = toggled_in(v, SummaryView::File(path));
    assert forall|p: Seq<char>, r: Seq<char>| overridden(after, p, r) == overridden(v, p, r) by {
        assert forall|d: Seq<char>| #[trigger] covers(after, d, p, r) == covers(v, d, p, r) by {}
        if overridden(v, p, r) {
            let k = choose|k: int|
                0 <= k < crate::file_rows::prefixes_of(p).len() && #[trigger] covers(
                    v,
                    crate::file_rows::prefixes_of(p)[k],
                    p,
                    r,
                );
            assert(covers(after, crate::file_rows::prefixes_of(p)[k], p, r));
        }
    }
    if v.revisions.dom().contains(other) {
        assert(all_symbols_marked(after, other) == all_symbols_marked(v, other)) by {
            assert forall|s: SymbolView| #[trigger] symbol_marked(after, s, v.revisions[other]) == symbol_marked(
                v,
                s,
                v.revisions[other],
            ) by {}
        }
        lemma_some_same(v, after, other);
    }
}

proof fn lemma_some_same(v: ReviewView, after: ReviewView, path: Seq<char>)
    requires
        after.symbols == v.symbols,
        after.explicit_symbols == v.explicit_symbols,
        after.revisions == v.revisions,
    ensures
        crate::review::some_symbol_marked(after, path) == crate::review::some_symbol_marked(v, path),
        all_symbols_marked(after, path) == all_symbols_marked(v, path),
{
    if v.symbols.dom().contains(path) {
        assert forall|s: SymbolView| symbol_marked(after, s, v.revisions[path]) == symbol_marked(
            v,
            s,
            v.revisions[path],
        ) by {}
    }
}

/// Marking a symbol gives it a mark of its own and no other symbol; marking it again takes the
/// mark away.
pub proof fn law_symbol_marks(v: ReviewView, symbol: SymbolView, other: SymbolView)
    requires
        v.revisions.dom().contains(symbol.file),
        v.symbols.dom().contains(symbol.file),
        v.symbols[symbol.file].contains(symbol),
    ensures
        ({
            let after = toggled_in(
                v,
                SummaryView::Symbol { file: symbol.file, name: symbol.name, position: symbol.position },
            );
            &&& symbol_state_of(v, symbol) != ReviewState::Explicit ==> symbol_state_of(after, symbol)
                == ReviewState::Explicit
            &&& symbol_state_of(v, symbol) == ReviewState::Explicit ==> symbol_state_of(after, symbol)
                != ReviewState::Explicit
            &&& other != symbol ==> (symbol_state_of(after, other) == ReviewState::Explicit <==> symbol_state_of(v, other)
                == ReviewState::Explicit)
        }),
{
    let same = SymbolView { file: symbol.file, name: symbol.name, position: symbol.position };
    assert(same == symbol);
}

/// A file without a mark of its own or from a directory shows what its symbols say: reviewed
/// where all are marked, in part where some are, unreviewed where none is.
pub proof fn law_files_follow_their_symbols(v: ReviewView, path: Seq<char>, symbol: SymbolView)
    requires
        v.revisions.dom().contains(path),
        v.symbols.dom().contains(path),
        v.symbols[path].contains(symbol),
        file_state_of(v, path) != ReviewState::Explicit,
        file_state_of(v, path) != ReviewState::Inherited,
        forall|s: SymbolView| #[trigger] v.symbols[path].contains(s) ==> s.file == path,
    ensures
        symbol_state_of(v, symbol) == ReviewState::Explicit ==> (file_state_of(v, path) == ReviewState::Reviewed
            || file_state_of(v, path) == ReviewState::Partial),
        symbol_state_of(v, symbol) != ReviewState::Explicit ==> (file_state_of(v, path) == ReviewState::Partial
            || file_state_of(v, path) == ReviewState::Unreviewed),
        file_state_of(v, path) == ReviewState::Partial ==> exists|s: SymbolView| #[trigger]
            v.symbols[path].contains(s) && symbol_state_of(v, s) == ReviewState::Explicit,
        file_state_of(v, path) == ReviewState::Partial ==> exists|s: SymbolView| #[trigger]
            v.symbols[path].contains(s) && symbol_state_of(v, s) != ReviewState::Explicit,
{
    assert(v.symbols[path].contains(symbol));
    assert(symbol_marked(v, symbol, v.revisions[path]) == (symbol_state_of(v, symbol) == ReviewState::Explicit));
    if file_state_of(v, path) == ReviewState::Partial {
        let s = choose|s: SymbolView| #[trigger] v.symbols[path].contains(s) && symbol_marked(v, s, v.revisions[path]);
        assert(v.symbols[path].contains(s) && symbol_state_of(v, s) == ReviewState::Explicit);
        let t = choose|t: SymbolView| #[trigger]
            v.symbols[path].contains(t) && !symbol_marked(v, t, v.revisions[path]);
        assert(v.symbols[path].contains(t) && symbol_state_of(v, t) != ReviewState::Explicit);
    }
}

/// A directory without a mark of its own or from above shows what its files say: one reviewed
/// file is enough to show more than nothing, and one that is not keeps it from showing all.
pub proof fn law_directories_follow_their_files(v: ReviewView, directory: Seq<char>, path: Seq<char>)
    requires
        v.revisions.dom().contains(path),
        below(directory, path),
        directory_state_of(v, directory) != ReviewState::Explicit,
        directory_state_of(v, directory) != ReviewState::Inherited,
    ensures
        file_reviewed(v, path) ==> (directory_state_of(v, directory) == ReviewState::Reviewed || directory_state_of(
            v,
            directory,
        ) == ReviewState::Partial),
        !file_reviewed(v, path) ==> (directory_state_of(v, directory) == ReviewState::Partial || directory_state_of(
            v,
            directory,
        ) == ReviewState::Unreviewed),
        directory_state_of(v, directory) == ReviewState::Partial ==> (exists|p: Seq<char>| #[trigger]
            v.revisions.dom().contains(p) && below(directory, p) && file_reviewed(v, p)) && (exists|p: Seq<char>|
         #[trigger]
            v.revisions.dom().contains(p) && below(directory, p) && !file_reviewed(v, p)),
{
}

/// A mark is on the content it was given to: no file, and no symbol, shows its own mark for
/// another revision, and what is not part of the comparison shows none.
pub proof fn law_marks_are_for_a_revision(v: ReviewView, path: Seq<char>, symbol: SymbolView)
    ensures
        file_state_of(v, path) == ReviewState::Explicit ==> v.revisions.dom().contains(path)
            && v.explicit_files.dom().contains(path) && v.explicit_files[path] == v.revisions[path],
        symbol_state_of(v, symbol) == ReviewState::Explicit ==> v.revisions.dom().contains(symbol.file)
            && v.explicit_symbols.dom().contains(symbol) && v.explicit_symbols[symbol] == v.revisions[symbol.file],
        !v.revisions.dom().contains(path) ==> file_state_of(v, path) == ReviewState::Unreviewed && !file_reviewed(v, path),
        !v.revisions.dom().contains(symbol.file) ==> symbol_state_of(v, symbol) == ReviewState::Unreviewed,
        maps_to(v.explicit_files, path, v.revisions[path]) && v.revisions.dom().contains(path) ==> file_state_of(v, path)
            == ReviewState::Explicit && file_reviewed(v, path),
{
}

/// A toggle changes the comparison that is shown and leaves the others as they were.
pub proof fn law_toggles_stay_in_their_comparison(l: LedgerView, target: SummaryView)
    ensures
        toggled(l, target).active == l.active,
        toggled(l, target).last_source == l.last_source,
        l.active is None ==> toggled(l, target) == l,
        forall|k: crate::review::ComparisonView|
            Some(k) != l.active ==> (#[trigger] toggled(l, target).comparisons.dom().contains(k)
                == l.comparisons.dom().contains(k)) && toggled(l, target).comparisons[k] == l.comparisons[k],
{
}

/// A snapshot changes the marks of its own comparison and of no other.
pub proof fn law_snapshots_stay_in_their_comparison(l: LedgerView, s: UiSnapshot)
    ensures
        forall|k: crate::review::ComparisonView|
            k != comparison_of(s) ==> (#[trigger] synced(l, s).comparisons.dom().contains(k)
                == l.comparisons.dom().contains(k)) && synced(l, s).comparisons[k] == l.comparisons[k],
        active_of(synced(l, s)) is Some ==> synced(l, s).active == Some(comparison_of(s)),
        active_of(synced(l, s)) is Some ==> s.agent_changeset is Some && s.agent_changeset_epoch == s.epoch && (
        s.agent_changeset->0).scope == s.scope,
{
}

/// A comparison is of one repository, branch and scope; against a branch also of one base, the
/// chosen one before the detected one.
pub proof fn law_comparisons_are_told_apart(a: UiSnapshot, b: UiSnapshot)
    ensures
        comparison_of(a) == comparison_of(b) ==> a.repo.repo_name@ == b.repo.repo_name@ && a.repo.branch@
            == b.repo.branch@ && a.scope == b.scope,
        comparison_of(a) == comparison_of(b) && a.scope == ChangeScope::Branch && a.base_ref@.len() > 0
            && b.base_ref@.len() > 0 ==> a.base_ref@ == b.base_ref@,
        a.scope == ChangeScope::Branch && a.base_ref@.len() > 0 ==> comparison_of(a).base == a.base_ref@,
        a.scope == ChangeScope::Branch && a.base_ref@.len() == 0 && a.repo.base is Some ==> comparison_of(a).base
            == a.repo.base->0@,
        a.scope != ChangeScope::Branch && a.scope == b.scope && a.repo.repo_name@ == b.repo.repo_name@ && a.repo.branch@
            == b.repo.branch@ ==> comparison_of(a) == comparison_of(b),
{
}

/// Eight bytes read as one number, the first the highest.
pub open spec fn read_be(bytes: Seq<u8>) -> int
    decreases bytes.len(),
{
    if bytes.len() == 0 { 0 } else { 256 * read_be(bytes.drop_last()) + bytes.last() as int }
}

/// A length in eight bytes reads back as itself, so a framed content tells where it ends.
pub proof fn law_lengths_read_back(bytes: Seq<u8>)
    requires
        bytes.len() <= 0xffff_ffff_ffff_ffff,
    ensures
        be64(bytes.len() as int).len() == 8,
        read_be(be64(bytes.len() as int)) == bytes.len(),
        framed(bytes).skip(8) == bytes,
        framed(bytes).take(8) == be64(bytes.len() as int),
{
    let n = bytes.len() as int;
    let b = be64(n);
    assert(framed(bytes).skip(8) =~= bytes);
    assert(framed(bytes).take(8) =~= b);
    assert(read_be(b) == n) by {
        reveal_with_fuel(read_be, 9);
        let b7 = b.drop_last();
        let b6 = b7.drop_last();
        let b5 = b6.drop_last();
        let b4 = b5.drop_last();
        let b3 = b4.drop_last();
        let b2 = b3.drop_last();
        let b1 = b2.drop_last();
        assert(b1.drop_last() =~= Seq::<u8>::empty());
        let n1 = n / 256;
        let n2 = n1 / 256;
        let n3 = n2 / 256;
        let n4 = n3 / 256;
        let n5 = n4 / 256;
        let n6 = n5 / 256;
        let n7 = n6 / 256;
        assert(n / 0x10000 == n2 && n / 0x1000000 == n3 && n / 0x100000000 == n4 && n / 0x10000000000 == n5 && n
            / 0x1000000000000 == n6 && n / 0x100000000000000 == n7);
        assert(n7 < 256);
        assert(read_be(b1) == n7);
        assert(read_be(b2) == n6);
        assert(read_be(b3) == n5);
        assert(read_be(b4) == n4);
        assert(read_be(b5) == n3);
        assert(read_be(b6) == n2);
        assert(read_be(b7) == n1);
    }
}

/// Two contents framed alike are the same.
pub proof fn law_framing_is_unambiguous(a: Seq<u8>, b: Seq<u8>, rest_a: Seq<u8>, rest_b: Seq<u8>)
    requires
        a.len() <= 0xffff_ffff_ffff_ffff,
        b.len() <= 0xffff_ffff_ffff_ffff,
        framed(a) + rest_a == framed(b) + rest_b,
    ensures
        a == b,
        rest_a == rest_b,
{
    law_lengths_read_back(a);
    law_lengths_read_back(b);
    assert((framed(a) + rest_a).take(8) =~= be64(a.len() as int));
    assert((framed(b) + rest_b).take(8) =~= be64(b.len() as int));
    assert((framed(a) + rest_a).subrange(8, 8 + a.len() as int) =~= a);
    assert((framed(b) + rest_b).subrange(8, 8 + b.len() as int) =~= b);
    assert((framed(a) + rest_a).skip(8 + a.len() as int) =~= rest_a);
    assert((framed(b) + rest_b).skip(8 + b.len() as int) =~= rest_b);
}

/// The symbols of a file are those of its row, each under the file, its name and its place.
pub proof fn law_symbols_are_those_of_the_row(row: FileRow, j: int)
    requires
        0 <= j < row.symbols.len(),
    ensures
        symbols_of(row).contains(
            SymbolView { file: row.path@, name: row.symbols[j].name@, position: row.symbols[j].position },
        ),
        forall|s: SymbolView| #[trigger] symbols_of(row).contains(s) ==> s.file == row.path@,
{
}

/// The symbols of a file are known from the row that was analysed last: a ready row gives them,
/// an unsupported one has none, and a row that is not analysed yet keeps what was known.
pub proof fn law_symbols_come_from_analysed_rows(
    m: Map<Seq<char>, Set<SymbolView>>,
    files: Seq<FileRow>,
    n: int,
    i: int,
)
    requires
        0 <= i < n <= files.len(),
        forall|j: int| 0 <= j < n && j != i ==> (#[trigger] files[j]).path@ != files[i].path@,
    ensures
        ({
            let path = files[i].path@;
            let after = inventory(m, files, n);
            &&& files[i].semantic == FileSemanticLoad::Ready ==> after.dom().contains(path) && after[path] == symbols_of(files[i])
            &&& files[i].semantic == FileSemanticLoad::Unsupported ==> !after.dom().contains(path)
            &&& files[i].semantic == FileSemanticLoad::Loading || files[i].semantic == FileSemanticLoad::Unloaded
                || files[i].semantic == FileSemanticLoad::Failed ==> (after.dom().contains(path) <==> m.dom().contains(path))
                && (m.dom().contains(path) ==> after[path] == m[path])
        }),
    decreases n,
{
    let path = files[i].path@;
    if i < n - 1 {
        law_symbols_come_from_analysed_rows(m, files, n - 1, i);
        assert(files[n - 1].path@ != path);
    } else {
        lemma_other_rows(m, files, n - 1, path);
    }
}

proof fn lemma_other_rows(m: Map<Seq<char>, Set<SymbolView>>, files: Seq<FileRow>, n: int, path: Seq<char>)
    requires
        0 <= n <= files.len(),
        forall|j: int| 0 <= j < n ==> (#[trigger] files[j]).path@ != path,
    ensures
        inventory(m, files, n).dom().contains(path) <==> m.dom().contains(path),
        m.dom().contains(path) ==> inventory(m, files, n)[path] == m[path],
    decreases n,
{
    if n > 0 {
        lemma_other_rows(m, files, n - 1, path);
        assert(files[n - 1].path@ != path);
    }
}

/// The content of a file is its parsed form and its own sections of the diff, in order; sections
/// of other files are no part of it.
pub proof fn law_content_is_of_one_file(sections: Seq<UnifiedDiffSection>, path: Seq<char>, n: int)
    requires
        0 < n <= sections.len(),
    ensures
        sections[n - 1].path@ != path ==> framed_sections(sections, path, n) == framed_sections(sections, path, n - 1),
        sections[n - 1].path@ == path ==> framed_sections(sections, path, n) == framed_sections(sections, path, n - 1)
            + framed(vstd::utf8::encode_utf8(sections[n - 1].text@)),
        framed_sections(sections, path, 0).len() == 0,
{
}

/// Files of the same content have the same parsed form, and where it is the same, the same
/// sections.
pub proof fn law_contents_tell_files_apart(
    a: Seq<u8>,
    b: Seq<u8>,
    s: Option<Vec<UnifiedDiffSection>>,
    t: Option<Vec<UnifiedDiffSection>>,
    path: Seq<char>,
)
    requires
        a.len() <= 0xffff_ffff_ffff_ffff,
        b.len() <= 0xffff_ffff_ffff_ffff,
        file_content(a, s, path) == file_content(b, t, path),
    ensures
        a == b,
        s is Some && t is Some ==> framed_sections((s->0)@, path, (s->0).len() as int) == framed_sections(
            (t->0)@,
            path,
            (t->0).len() as int,
        ),
{
    let rest = |x: Option<Vec<UnifiedDiffSection>>| match x {
        Some(list) => framed_sections(list@, path, list.len() as int),
        None => Seq::empty(),
    };
    law_framing_is_unambiguous(a, b, rest(s), rest(t));
}

/// Every listed file, and no other, has the revision of its own change.
pub proof fn law_listed_files_have_revisions(files: Seq<FileRow>, c: ChangeSet, i: int, path: Seq<char>)
    requires
        0 <= i < files.len(),
    ensures
        revisions_of(files, c).dom().contains(files[i].path@),
        revisions_of(files, c)[files[i].path@] == revision_of(c, files[i].path@),
        revisions_of(files, c).dom().contains(path) ==> exists|j: int| #![trigger files[j]]
            0 <= j < files.len() && files[j].path@ == path,
        change_at(c.files@, path, 0) is Some ==> {
            let k = change_at(c.files@, path, 0)->0;
            0 <= k < c.files.len() && c.files[k].path@ == path
        },
{
    assert(paths_of(files).contains(files[i].path@));
    lemma_change_at(c.files@, path, 0);
}

proof fn lemma_change_at(changes: Seq<crate::snapshot::FileChange>, path: Seq<char>, i: int)
    requires
        0 <= i <= changes.len(),
    ensures
        change_at(changes, path, i) is Some ==> i <= change_at(changes, path, i)->0 < changes.len() && changes[change_at(
            changes,
            path,
            i,
        )->0].path@ == path,
    decreases changes.len() - i,
{
    if i < changes.len() {
        lemma_change_at(changes, path, i + 1);
    }
}

} // verus!
