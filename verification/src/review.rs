//! Content-aware review marks for the changed-files hierarchy.
//!
//! Files and symbols retain explicit marks only while their parsed change is identical. A
//! directory or file mark overrides its current descendants without rewriting their
//! independent marks, so removing the parent mark reveals the child state that existed
//! underneath it.

use vstd::prelude::*;
use crate::file_rows::{directory_prefixes, lemma_below_is_prefix, prefixes_of, same_position, SummaryView};
use crate::plan::Epoch;
use crate::snapshot::{ChangeScope, ChangeSet, FileChange, FileRow, FileSemanticLoad, UiSnapshot, UnifiedDiffSection};
use crate::table::{
    distinct, held, holds, lemma_distinct_count, lemma_holds_push, remove_all, same_table, within, Key, KeySet, Table,
};
use crate::text::{joined, same_text, starts_with, texts};

verus! {

/// A reviewable entity in the changed-files hierarchy.
#[derive(Debug, Clone, PartialEq, Eq)]
pub enum ReviewTarget {
    /// A synthesized repo-relative directory.
    Directory(String),
    /// A changed repo-relative file.
    File(String),
    /// A changed language-server object nested beneath its owning file.
    Symbol {
        /// Repo-relative owning file.
        file: String,
        /// Display name published by the language server.
        name: String,
        /// Optional identifier position used to disambiguate repeated names.
        position: Option<(u32, u32)>,
    },
}

impl View for ReviewTarget {
    type V = SummaryView;

    open spec fn view(&self) -> SummaryView {
        match *self {
            ReviewTarget::Directory(path) => SummaryView::Directory(path@),
            ReviewTarget::File(path) => SummaryView::File(path@),
            ReviewTarget::Symbol { file, name, position } => SummaryView::Symbol {
                file: file@,
                name: name@,
                position,
            },
        }
    }
}

/// Effective review state rendered beside a directory, file, or language-server object.
#[derive(Debug, Clone, Copy, PartialEq, Eq, Structural)]
pub enum ReviewState {
    /// This entity has its own explicit review mark.
    Explicit,
    /// This entity is covered by an explicit ancestor mark.
    Inherited,
    /// Every descendant is reviewed, but through child-level marks.
    Reviewed,
    /// Some, but not all, descendants are reviewed.
    Partial,
    /// No current revision is reviewed.
    Unreviewed,
}

impl ReviewState {
    /// Stable telemetry label for this state.
    pub fn as_str(self) -> (label: &'static str)
        ensures
            label@ == (match self {
                ReviewState::Explicit => "explicit"@,
                ReviewState::Inherited => "inherited"@,
                ReviewState::Reviewed => "reviewed"@,
                ReviewState::Partial => "partial"@,
                ReviewState::Unreviewed => "unreviewed"@,
            }),
    {
        match self {
            ReviewState::Explicit => "explicit",
            ReviewState::Inherited => "inherited",
            ReviewState::Reviewed => "reviewed",
            ReviewState::Partial => "partial",
            ReviewState::Unreviewed => "unreviewed",
        }
    }

    /// What the marker of a row in this state shows.
    pub open spec fn marker_spec(self) -> Seq<char> {
        match self {
            ReviewState::Explicit => "●"@,
            ReviewState::Inherited => "↳"@,
            ReviewState::Reviewed => "✓"@,
            ReviewState::Partial => "◐"@,
            ReviewState::Unreviewed => " "@,
        }
    }

    /// The marker of a row in this state: `●` explicit, `↳` inherited, `✓` complete, `◐`
    /// partial, blank where nothing is reviewed.
    pub fn marker(self) -> (marker: &'static str)
        ensures
            marker@ == self.marker_spec(),
    {
        match self {
            ReviewState::Explicit => "●",
            ReviewState::Inherited => "↳",
            ReviewState::Reviewed => "✓",
            ReviewState::Partial => "◐",
            ReviewState::Unreviewed => " ",
        }
    }
}

/// The markers tell the review states apart.
pub proof fn law_markers_distinguish_states(a: ReviewState, b: ReviewState)
    ensures
        a.marker_spec() == b.marker_spec() ==> a == b,
{
    reveal_strlit("●");
    reveal_strlit("↳");
    reveal_strlit("✓");
    reveal_strlit("◐");
    reveal_strlit(" ");
    let x = a.marker_spec();
    let y = b.marker_spec();
    assert(x.len() == 1 && y.len() == 1);
    assert(x == y ==> x[0] == y[0]);
}

/// Effective changed-file review totals.
#[derive(Debug, Clone, Copy, PartialEq, Eq, Structural)]
pub struct ReviewProgress {
    /// Files whose current revisions are reviewed, explicitly, through a directory or
    /// through all of their symbols.
    pub reviewed: usize,
    /// Changed files in the currently displayed snapshot.
    pub total: usize,
    /// Whether the snapshot has current parsed comparison data suitable for review marking.
    pub available: bool,
}

impl Default for ReviewProgress {
    fn default() -> (r: Self)
        ensures
            r == (ReviewProgress { reviewed: 0, total: 0, available: false }),
    {
        ReviewProgress { reviewed: 0, total: 0, available: false }
    }
}

/// Which comparison a set of marks belongs to.
#[derive(Debug)]
struct ComparisonKey {
    repo: String,
    branch: String,
    scope: ChangeScope,
    base: String,
}

/// A comparison, by contents.
#[verifier::ext_equal]
pub struct ComparisonView {
    pub repo: Seq<char>,
    pub branch: Seq<char>,
    pub scope: ChangeScope,
    pub base: Seq<char>,
}

impl View for ComparisonKey {
    type V = ComparisonView;

    closed spec fn view(&self) -> ComparisonView {
        ComparisonView { repo: self.repo@, branch: self.branch@, scope: self.scope, base: self.base@ }
    }
}

impl Key for ComparisonKey {
    fn same(&self, other: &Self) -> (r: bool) {
        same_text(self.repo.as_str(), other.repo.as_str()) && same_text(self.branch.as_str(), other.branch.as_str())
            && self.scope == other.scope && same_text(self.base.as_str(), other.base.as_str())
    }

    fn copied(&self) -> (r: Self) {
        ComparisonKey {
            repo: self.repo.clone(),
            branch: self.branch.clone(),
            scope: self.scope,
            base: self.base.clone(),
        }
    }
}

/// One language-server object.
#[derive(Debug)]
struct SymbolKey {
    file: String,
    name: String,
    position: Option<(u32, u32)>,
}

/// A language-server object, by contents.
#[verifier::ext_equal]
pub struct SymbolView {
    pub file: Seq<char>,
    pub name: Seq<char>,
    pub position: Option<(u32, u32)>,
}

impl View for SymbolKey {
    type V = SymbolView;

    closed spec fn view(&self) -> SymbolView {
        SymbolView { file: self.file@, name: self.name@, position: self.position }
    }
}

impl Key for SymbolKey {
    fn same(&self, other: &Self) -> (r: bool) {
        same_text(self.file.as_str(), other.file.as_str()) && same_text(self.name.as_str(), other.name.as_str())
            && same_position(self.position, other.position)
    }

    fn copied(&self) -> (r: Self) {
        SymbolKey { file: self.file.clone(), name: self.name.clone(), position: self.position }
    }
}

/// The marks of one comparison.
#[derive(Debug)]
struct ComparisonReview {
    revisions: Table<String, String>,
    explicit_files: Table<String, String>,
    /// Current objects by file. Inventories update only when that file is semantically ready.
    symbols: Table<String, KeySet<SymbolKey>>,
    /// Symbol marks retain the owning file revision so changed content invalidates them.
    explicit_symbols: Table<SymbolKey, String>,
    /// Each directory stores the exact file revisions covered when it was marked.
    directory_coverage: Table<String, Table<String, String>>,
}

/// The marks of one comparison, by contents.
#[verifier::ext_equal]
pub struct ReviewView {
    pub revisions: Map<Seq<char>, Seq<char>>,
    pub explicit_files: Map<Seq<char>, Seq<char>>,
    pub symbols: Map<Seq<char>, Set<SymbolView>>,
    pub explicit_symbols: Map<SymbolView, Seq<char>>,
    pub directory_coverage: Map<Seq<char>, Map<Seq<char>, Seq<char>>>,
}

impl View for ComparisonReview {
    type V = ReviewView;

    closed spec fn view(&self) -> ReviewView {
        ReviewView {
            revisions: self.revisions@,
            explicit_files: self.explicit_files@,
            symbols: self.symbols@,
            explicit_symbols: self.explicit_symbols@,
            directory_coverage: self.directory_coverage@,
        }
    }
}

/// No revision and no mark.
pub open spec fn empty_review() -> ReviewView {
    ReviewView {
        revisions: Map::empty(),
        explicit_files: Map::empty(),
        symbols: Map::empty(),
        explicit_symbols: Map::empty(),
        directory_coverage: Map::empty(),
    }
}

/// Session-local owner of explicit and inherited review state for every comparison.
#[derive(Debug)]
pub struct ReviewLedger {
    comparisons: Table<ComparisonKey, ComparisonReview>,
    active: Option<ComparisonKey>,
    /// Prevents re-hashing the same complete change set on unrelated snapshot publications.
    last_source: Option<(ComparisonKey, Epoch)>,
}

/// A ledger, by contents.
#[verifier::ext_equal]
pub struct LedgerView {
    pub comparisons: Map<ComparisonView, ReviewView>,
    pub active: Option<ComparisonView>,
    pub last_source: Option<(ComparisonView, Epoch)>,
}

impl View for ReviewLedger {
    type V = LedgerView;

    closed spec fn view(&self) -> LedgerView {
        LedgerView {
            comparisons: self.comparisons@,
            active: match self.active {
                Some(key) => Some(key@),
                None => None,
            },
            last_source: match self.last_source {
                Some((key, epoch)) => Some((key@, epoch)),
                None => None,
            },
        }
    }
}

impl Default for ReviewLedger {
    fn default() -> (r: Self)
        ensures
            r@ == (LedgerView { comparisons: Map::empty(), active: None, last_source: None }),
            ledger_current(r@),
    {
        ReviewLedger { comparisons: Table::new(), active: None, last_source: None }
    }
}

/// The marks in force.
pub open spec fn active_of(l: LedgerView) -> Option<ReviewView> {
    match l.active {
        Some(key) => if l.comparisons.dom().contains(key) {
            Some(l.comparisons[key])
        } else {
            None
        },
        None => None,
    }
}

/// Whether `m` maps `key` to `value`.
pub open spec fn maps_to<K, V>(m: Map<K, V>, key: K, value: V) -> bool {
    m.dom().contains(key) && m[key] == value
}

/// Whether a path lies below a directory.
pub open spec fn below(directory: Seq<char>, path: Seq<char>) -> bool {
    (directory + seq!['/']).is_prefix_of(path)
}

/// The revisions of all files below a directory.
pub open spec fn coverage_of(v: ReviewView, directory: Seq<char>) -> Map<Seq<char>, Seq<char>> {
    Map::new(
        |path: Seq<char>| v.revisions.dom().contains(path) && below(directory, path),
        |path: Seq<char>| v.revisions[path],
    )
}

/// Whether the mark of a directory covers `path` at `revision`.
pub open spec fn covers(v: ReviewView, directory: Seq<char>, path: Seq<char>, revision: Seq<char>) -> bool {
    v.directory_coverage.dom().contains(directory) && maps_to(v.directory_coverage[directory], path, revision)
}

/// Whether the mark of a directory above `path` covers it at `revision`.
pub open spec fn overridden(v: ReviewView, path: Seq<char>, revision: Seq<char>) -> bool {
    exists|k: int| 0 <= k < prefixes_of(path).len() && #[trigger] covers(v, prefixes_of(path)[k], path, revision)
}

/// Whether a symbol carries a mark of its own.
pub open spec fn symbol_marked(v: ReviewView, symbol: SymbolView, revision: Seq<char>) -> bool {
    maps_to(v.explicit_symbols, symbol, revision)
}

/// Whether the file has symbols and all of them are marked.
pub open spec fn all_symbols_marked(v: ReviewView, path: Seq<char>) -> bool {
    &&& v.symbols.dom().contains(path)
    &&& v.symbols[path] != Set::<SymbolView>::empty()
    &&& forall|s: SymbolView| #[trigger] v.symbols[path].contains(s) ==> symbol_marked(v, s, v.revisions[path])
}

/// Whether some symbol of the file is marked.
pub open spec fn some_symbol_marked(v: ReviewView, path: Seq<char>) -> bool {
    &&& v.symbols.dom().contains(path)
    &&& exists|s: SymbolView| #[trigger] v.symbols[path].contains(s) && symbol_marked(v, s, v.revisions[path])
}

/// Whether the current revision of a file counts as reviewed.
pub open spec fn file_reviewed(v: ReviewView, path: Seq<char>) -> bool {
    &&& v.revisions.dom().contains(path)
    &&& {
        ||| maps_to(v.explicit_files, path, v.revisions[path])
        ||| overridden(v, path, v.revisions[path])
        ||| all_symbols_marked(v, path)
    }
}

/// The state shown beside a file.
pub open spec fn file_state_of(v: ReviewView, path: Seq<char>) -> ReviewState {
    if !v.revisions.dom().contains(path) {
        ReviewState::Unreviewed
    } else if maps_to(v.explicit_files, path, v.revisions[path]) {
        ReviewState::Explicit
    } else if overridden(v, path, v.revisions[path]) {
        ReviewState::Inherited
    } else if all_symbols_marked(v, path) {
        ReviewState::Reviewed
    } else if some_symbol_marked(v, path) {
        ReviewState::Partial
    } else {
        ReviewState::Unreviewed
    }
}

/// The state shown beside a symbol.
pub open spec fn symbol_state_of(v: ReviewView, symbol: SymbolView) -> ReviewState {
    let file = symbol.file;
    if !v.revisions.dom().contains(file) || !v.symbols.dom().contains(file) || !v.symbols[file].contains(symbol) {
        ReviewState::Unreviewed
    } else if symbol_marked(v, symbol, v.revisions[file]) {
        ReviewState::Explicit
    } else if maps_to(v.explicit_files, file, v.revisions[file]) || overridden(v, file, v.revisions[file]) {
        ReviewState::Inherited
    } else {
        ReviewState::Unreviewed
    }
}

/// Whether the mark of `marker` covers every current file below `directory`.
pub open spec fn covers_all(v: ReviewView, marker: Seq<char>, directory: Seq<char>) -> bool {
    &&& v.directory_coverage.dom().contains(marker)
    &&& forall|path: Seq<char>| #[trigger] v.revisions.dom().contains(path) && below(directory, path) ==> maps_to(
        v.directory_coverage[marker],
        path,
        v.revisions[path],
    )
}

/// The directories that stand above `directory`.
pub open spec fn ancestors_of(directory: Seq<char>) -> Seq<Seq<char>> {
    prefixes_of(directory + "/child"@)
}

/// The state shown beside a directory.
pub open spec fn directory_state_of(v: ReviewView, directory: Seq<char>) -> ReviewState {
    let ancestors = ancestors_of(directory);
    if forall|path: Seq<char>| #[trigger] v.revisions.dom().contains(path) ==> !below(directory, path) {
        ReviewState::Unreviewed
    } else if covers_all(v, directory, directory) {
        ReviewState::Explicit
    } else if exists|k: int|
        0 <= k < ancestors.len() && ancestors[k] != directory && #[trigger] covers_all(v, ancestors[k], directory) {
        ReviewState::Inherited
    } else if forall|path: Seq<char>|
        #[trigger] v.revisions.dom().contains(path) && below(directory, path) ==> file_reviewed(v, path) {
        ReviewState::Reviewed
    } else if exists|path: Seq<char>|
        #[trigger] v.revisions.dom().contains(path) && below(directory, path) && file_reviewed(v, path) {
        ReviewState::Partial
    } else {
        ReviewState::Unreviewed
    }
}

/// The state of any target under the marks `v`.
pub open spec fn state_in(v: ReviewView, target: SummaryView) -> ReviewState {
    match target {
        SummaryView::File(path) => file_state_of(v, path),
        SummaryView::Directory(directory) => directory_state_of(v, directory),
        SummaryView::Symbol { file, name, position } => symbol_state_of(v, SymbolView { file, name, position }),
    }
}

/// The state that a ledger shows for a target: nothing is reviewed without current data.
pub open spec fn state_of(l: LedgerView, target: SummaryView) -> ReviewState {
    match active_of(l) {
        Some(v) => state_in(v, target),
        None => ReviewState::Unreviewed,
    }
}

/// A mark put on `key` at `revision`, or taken away where it is already there.
pub open spec fn flipped<K>(marks: Map<K, Seq<char>>, key: K, revision: Seq<char>) -> Map<K, Seq<char>> {
    if maps_to(marks, key, revision) {
        marks.remove(key)
    } else {
        marks.insert(key, revision)
    }
}

/// The marks after a toggle of `target`; children keep theirs.
pub open spec fn toggled_in(v: ReviewView, target: SummaryView) -> ReviewView {
    match target {
        SummaryView::File(path) => if v.revisions.dom().contains(path) {
            ReviewView { explicit_files: flipped(v.explicit_files, path, v.revisions[path]), ..v }
        } else {
            v
        },
        SummaryView::Symbol { file, name, position } => {
            let symbol = SymbolView { file, name, position };
            if v.symbols.dom().contains(file) && v.symbols[file].contains(symbol) && v.revisions.dom().contains(file) {
                ReviewView { explicit_symbols: flipped(v.explicit_symbols, symbol, v.revisions[file]), ..v }
            } else {
                v
            }
        },
        SummaryView::Directory(directory) => {
            let coverage = coverage_of(v, directory);
            if coverage.dom() =~= Set::<Seq<char>>::empty() {
                v
            } else if maps_to(v.directory_coverage, directory, coverage) {
                ReviewView { directory_coverage: v.directory_coverage.remove(directory), ..v }
            } else {
                ReviewView { directory_coverage: v.directory_coverage.insert(directory, coverage), ..v }
            }
        },
    }
}

/// The ledger after a toggle of `target`: nothing changes without current data.
pub open spec fn toggled(l: LedgerView, target: SummaryView) -> LedgerView {
    match active_of(l) {
        Some(v) => LedgerView { comparisons: l.comparisons.insert(l.active->0, toggled_in(v, target)), ..l },
        None => l,
    }
}

/// No comparison in force.
pub open spec fn deactivated(l: LedgerView) -> LedgerView {
    LedgerView { active: None, last_source: None, ..l }
}

/// The comparison that a snapshot shows.
pub open spec fn comparison_of(s: UiSnapshot) -> ComparisonView {
    ComparisonView {
        repo: s.repo.repo_name@,
        branch: s.repo.branch@,
        scope: s.scope,
        base: if s.scope != ChangeScope::Branch {
            Seq::empty()
        } else if s.base_ref@.len() > 0 {
            s.base_ref@
        } else {
            match s.repo.base {
                Some(base) => base@,
                None => Seq::empty(),
            }
        },
    }
}

fn comparison_key(snapshot: &UiSnapshot) -> (key: ComparisonKey)
    ensures
        key@ == comparison_of(*snapshot),
{
    let base: String = if snapshot.scope == ChangeScope::Branch {
        if snapshot.base_ref.as_str().is_empty() {
            match &snapshot.repo.base {
                Some(base) => base.clone(),
                None => String::new(),
            }
        } else {
            snapshot.base_ref.clone()
        }
    } else {
        String::new()
    };
    ComparisonKey {
        repo: snapshot.repo.repo_name.clone(),
        branch: snapshot.repo.branch.clone(),
        scope: snapshot.scope,
        base,
    }
}

/// A length as eight bytes, most significant first.
pub open spec fn be64(n: int) -> Seq<u8> {
    seq![
        (n / 0x100000000000000 % 256) as u8,
        (n / 0x1000000000000 % 256) as u8,
        (n / 0x10000000000 % 256) as u8,
        (n / 0x100000000 % 256) as u8,
        (n / 0x1000000 % 256) as u8,
        (n / 0x10000 % 256) as u8,
        (n / 0x100 % 256) as u8,
        (n % 256) as u8,
    ]
}

/// A piece of content behind its length.
pub open spec fn framed(bytes: Seq<u8>) -> Seq<u8> {
    be64(bytes.len() as int) + bytes
}

/// The framed texts of those of the first `n` diff sections that belong to `path`.
pub open spec fn framed_sections(sections: Seq<UnifiedDiffSection>, path: Seq<char>, n: int) -> Seq<u8>
    decreases n,
{
    if n <= 0 {
        Seq::empty()
    } else if sections[n - 1].path@ == path {
        framed_sections(sections, path, n - 1) + framed(vstd::utf8::encode_utf8(sections[n - 1].text@))
    } else {
        framed_sections(sections, path, n - 1)
    }
}

/// Everything that makes up the content of one changed file.
pub open spec fn file_content(parsed: Seq<u8>, sections: Option<Vec<UnifiedDiffSection>>, path: Seq<char>) -> Seq<u8> {
    framed(parsed) + match sections {
        Some(list) => framed_sections(list@, path, list.len() as int),
        None => Seq::empty(),
    }
}

/// The SHA-256 digest of some bytes in lower-case hexadecimal digits.
pub uninterp spec fn sha256_hex_of(bytes: Seq<u8>) -> Seq<char>;

/// `sha2::Sha256::digest`, written with the lower-case hexadecimal format of its output: the
/// text is a function of the bytes.
#[verifier::external_body]
fn sha256_hex(bytes: &Vec<u8>) -> (hex: String)
    ensures
        hex@ == sha256_hex_of(bytes@),
{
    format!("{:x}", <sha2::Sha256 as sha2::Digest>::digest(bytes))
}

fn push_framed(out: &mut Vec<u8>, bytes: &[u8])
    ensures
        final(out)@ == old(out)@ + framed(bytes@),
{
    let n: u64 = bytes.len() as u64;
    out.push((n / 0x100000000000000 % 256) as u8);
    out.push((n / 0x1000000000000 % 256) as u8);
    out.push((n / 0x10000000000 % 256) as u8);
    out.push((n / 0x100000000 % 256) as u8);
    out.push((n / 0x1000000 % 256) as u8);
    out.push((n / 0x10000 % 256) as u8);
    out.push((n / 0x100 % 256) as u8);
    out.push((n % 256) as u8);
    proof {
        assert(out@ =~= old(out)@ + be64(bytes@.len() as int));
        assert(out@ + bytes@.take(0) =~= out@);
    }
    let ghost start = out@;
    let mut i: usize = 0;
    while i < bytes.len()
        invariant
            i <= bytes.len(),
            out@ == start + bytes@.take(i as int),
        decreases bytes.len() - i,
    {
        out.push(bytes[i]);
        proof {
            assert(out@ =~= start + bytes@.take(i + 1));
        }
        i = i + 1;
    }
    proof {
        assert(bytes@.take(bytes.len() as int) =~= bytes@);
        assert(out@ =~= old(out)@ + framed(bytes@));
    }
}

/// The bytes over which the revision of one changed file is taken.
pub fn revision_content(parsed: &Vec<u8>, sections: &Option<Vec<UnifiedDiffSection>>, path: &str) -> (out: Vec<u8>)
    ensures
        out@ == file_content(parsed@, *sections, path@),
{
    let mut out: Vec<u8> = Vec::new();
    push_framed(&mut out, parsed.as_slice());
    proof {
        assert(out@ =~= framed(parsed@));
    }
    match sections {
        Some(list) => {
            let mut i: usize = 0;
            proof {
                assert(out@ =~= framed(parsed@) + framed_sections(list@, path@, 0));
            }
            while i < list.len()
                invariant
                    i <= list.len(),
                    out@ == framed(parsed@) + framed_sections(list@, path@, i as int),
                decreases list.len() - i,
            {
                if same_text(list[i].path.as_str(), path) {
                    push_framed(&mut out, list[i].text.as_str().as_bytes());
                }
                proof {
                    assert(out@ =~= framed(parsed@) + framed_sections(list@, path@, i + 1));
                }
                i = i + 1;
            }
        },
        None => {
            proof {
                assert(out@ =~= file_content(parsed@, *sections, path@));
            }
        },
    }
    out
}

/// The first change of a path from change `i` on.
pub open spec fn change_at(changes: Seq<FileChange>, path: Seq<char>, i: int) -> Option<int>
    decreases changes.len() - i,
{
    if 0 <= i < changes.len() {
        if changes[i].path@ == path {
            Some(i)
        } else {
            change_at(changes, path, i + 1)
        }
    } else {
        None
    }
}

/// Whether the revision of a path can be told.
pub open spec fn has_revision(c: ChangeSet, path: Seq<char>) -> bool {
    change_at(c.files@, path, 0) matches Some(i) && c.files[i].parsed is Some
}

/// The revision of a path: a digest of everything in its change.
pub open spec fn revision_of(c: ChangeSet, path: Seq<char>) -> Seq<char> {
    sha256_hex_of(file_content(c.files[change_at(c.files@, path, 0)->0].parsed->0@, c.diff_sections, path))
}

/// The paths of all rows.
pub open spec fn paths_of(files: Seq<FileRow>) -> Set<Seq<char>> {
    Set::new(|p: Seq<char>| exists|i: int| #![trigger files[i]] 0 <= i < files.len() && files[i].path@ == p)
}

/// The revisions of all rows.
pub open spec fn revisions_of(files: Seq<FileRow>, c: ChangeSet) -> Map<Seq<char>, Seq<char>> {
    Map::new(|p: Seq<char>| paths_of(files).contains(p), |p: Seq<char>| revision_of(c, p))
}

/// Whether the rows and the parsed comparison are about the same files, all of them with a
/// revision.
pub open spec fn correlated(files: Seq<FileRow>, c: ChangeSet) -> bool {
    &&& forall|p: Seq<char>| #[trigger] paths_of(files).contains(p) ==> has_revision(c, p)
    &&& paths_of(files).len() == c.files.len()
}

fn find_change(changes: &Vec<FileChange>, path: &str) -> (r: Option<usize>)
    ensures
        match r {
            Some(i) => change_at(changes@, path@, 0) == Some(i as int) && i < changes.len() && changes@[i as int].path@
                == path@,
            None => change_at(changes@, path@, 0) is None,
        },
{
    let mut i: usize = 0;
    while i < changes.len()
        invariant
            i <= changes.len(),
            change_at(changes@, path@, 0) == change_at(changes@, path@, i as int),
        decreases changes.len() - i,
    {
        if same_text(changes[i].path.as_str(), path) {
            return Some(i);
        }
        i = i + 1;
    }
    None
}

proof fn lemma_paths_push(files: Seq<FileRow>, n: int)
    requires
        0 <= n < files.len(),
    ensures
        paths_of(files.take(n + 1)) =~= paths_of(files.take(n)).insert(files[n].path@),
{
    let (a, b) = (files.take(n), files.take(n + 1));
    assert forall|p: Seq<char>| paths_of(b).contains(p) == paths_of(a).insert(files[n].path@).contains(p) by {
        if paths_of(a).contains(p) {
            let i = choose|i: int| #![trigger a[i]] 0 <= i < a.len() && a[i].path@ == p;
            assert(b[i].path@ == p);
        }
        if p == files[n].path@ {
            assert(b[n].path@ == p);
        }
        if paths_of(b).contains(p) {
            let i = choose|i: int| #![trigger b[i]] 0 <= i < b.len() && b[i].path@ == p;
            if i < n {
                assert(a[i].path@ == p);
            }
        }
    }
}

/// The revisions of all rows, where every row has one and the comparison holds no other
/// file.
fn current_revisions(files: &Vec<FileRow>, changeset: &ChangeSet) -> (r: Option<Table<String, String>>)
    ensures
        match r {
            Some(table) => correlated(files@, *changeset) && table@ == revisions_of(files@, *changeset),
            None => !correlated(files@, *changeset),
        },
{
    let mut revisions: Table<String, String> = Table::new();
    let mut i: usize = 0;
    proof {
        assert(revisions@ =~= revisions_of(files@.take(0), *changeset));
    }
    while i < files.len()
        invariant
            i <= files.len(),
            revisions@ == revisions_of(files@.take(i as int), *changeset),
            forall|p: Seq<char>| #[trigger] paths_of(files@.take(i as int)).contains(p) ==> has_revision(*changeset, p),
        decreases files.len() - i,
    {
        let path: &str = files[i].path.as_str();
        proof {
            lemma_paths_push(files@, i as int);
            assert(files@[i as int].path@ == path@);
            assert(paths_of(files@).contains(path@));
        }
        let change: &FileChange = match find_change(&changeset.files, path) {
            Some(k) => &changeset.files[k],
            None => {
                return None;
            },
        };
        let parsed: &Vec<u8> = match &change.parsed {
            Some(parsed) => parsed,
            None => {
                return None;
            },
        };
        let content = revision_content(parsed, &changeset.diff_sections, path);
        revisions.insert(files[i].path.clone(), sha256_hex(&content));
        proof {
            assert(revisions@ =~= revisions_of(files@.take(i + 1), *changeset));
        }
        i = i + 1;
    }
    let keys = revisions.keys();
    proof {
        assert(files@.take(files.len() as int) =~= files@);
        lemma_distinct_count(keys@);
        assert(held(keys@) =~= paths_of(files@)) by {
            assert forall|p: Seq<char>| held(keys@).contains(p) == paths_of(files@).contains(p) by {
                assert(holds(keys@, p) <==> revisions@.dom().contains(p));
            }
        }
    }
    if keys.len() != changeset.files.len() {
        return None;
    }
    Some(revisions)
}

/// The symbols of a file row.
pub open spec fn symbols_of(row: FileRow) -> Set<SymbolView> {
    Set::new(
        |s: SymbolView|
            exists|j: int| #![trigger row.symbols[j]]
                0 <= j < row.symbols.len() && s == (SymbolView {
                    file: row.path@,
                    name: row.symbols[j].name@,
                    position: row.symbols[j].position,
                }),
    )
}

/// The inventories after one row: a ready file replaces its own, an unsupported one has
/// none, and any other keeps what it had.
pub open spec fn inventory_step(m: Map<Seq<char>, Set<SymbolView>>, row: FileRow) -> Map<Seq<char>, Set<SymbolView>> {
    match row.semantic {
        FileSemanticLoad::Ready => m.insert(row.path@, symbols_of(row)),
        FileSemanticLoad::Unsupported => m.remove(row.path@),
        _ => m,
    }
}

/// The inventories after the first `n` rows.
pub open spec fn inventory(m: Map<Seq<char>, Set<SymbolView>>, files: Seq<FileRow>, n: int) -> Map<
    Seq<char>,
    Set<SymbolView>,
>
    decreases n,
{
    if n <= 0 {
        m
    } else {
        inventory_step(inventory(m, files, n - 1), files[n - 1])
    }
}

/// Whether a symbol mark is still about a current symbol of an unchanged file.
pub open spec fn mark_holds(
    revisions: Map<Seq<char>, Seq<char>>,
    symbols: Map<Seq<char>, Set<SymbolView>>,
    s: SymbolView,
    revision: Seq<char>,
) -> bool {
    maps_to(revisions, s.file, revision) && symbols.dom().contains(s.file) && symbols[s.file].contains(s)
}

/// The marks once the symbols of a snapshot are known.
pub open spec fn with_symbols(v: ReviewView, files: Seq<FileRow>) -> ReviewView {
    let symbols = inventory(v.symbols.restrict(paths_of(files)), files, files.len() as int);
    ReviewView {
        symbols,
        explicit_symbols: Map::new(
            |s: SymbolView|
                v.explicit_symbols.dom().contains(s) && mark_holds(v.revisions, symbols, s, v.explicit_symbols[s]),
            |s: SymbolView| v.explicit_symbols[s],
        ),
        ..v
    }
}

/// The part of a directory's coverage that still holds.
pub open spec fn coverage_kept(
    coverage: Map<Seq<char>, Seq<char>>,
    directory: Seq<char>,
    revisions: Map<Seq<char>, Seq<char>>,
) -> Map<Seq<char>, Seq<char>> {
    Map::new(
        |p: Seq<char>| coverage.dom().contains(p) && below(directory, p) && maps_to(revisions, p, coverage[p]),
        |p: Seq<char>| coverage[p],
    )
}

/// The marks that hold under new revisions: every mark on changed content is gone, and a
/// directory whose coverage is gone has no mark.
pub open spec fn revised(v: ReviewView, revisions: Map<Seq<char>, Seq<char>>) -> ReviewView {
    ReviewView {
        revisions,
        explicit_files: Map::new(
            |p: Seq<char>| v.explicit_files.dom().contains(p) && maps_to(revisions, p, v.explicit_files[p]),
            |p: Seq<char>| v.explicit_files[p],
        ),
        directory_coverage: Map::new(
            |d: Seq<char>|
                v.directory_coverage.dom().contains(d) && !(coverage_kept(v.directory_coverage[d], d, revisions).dom()
                    =~= Set::<Seq<char>>::empty()),
            |d: Seq<char>| coverage_kept(v.directory_coverage[d], d, revisions),
        ),
        ..v
    }
}

/// Whether a snapshot carries a current comparison of its own scope.
pub open spec fn is_current(s: UiSnapshot) -> bool {
    s.agent_changeset matches Some(c) && s.agent_changeset_epoch == s.epoch && c.scope == s.scope
}

/// The ledger once it has seen a snapshot.
pub open spec fn synced(l: LedgerView, s: UiSnapshot) -> LedgerView {
    let key = comparison_of(s);
    let c = s.agent_changeset->0;
    if !is_current(s) {
        deactivated(l)
    } else if l.last_source == Some((key, s.agent_changeset_epoch)) {
        LedgerView {
            comparisons: if l.comparisons.dom().contains(key) {
                l.comparisons.insert(key, with_symbols(l.comparisons[key], s.files@))
            } else {
                l.comparisons
            },
            active: Some(key),
            ..l
        }
    } else if !correlated(s.files@, c) {
        deactivated(l)
    } else {
        let before = if l.comparisons.dom().contains(key) {
            l.comparisons[key]
        } else {
            empty_review()
        };
        LedgerView {
            comparisons: l.comparisons.insert(
                key,
                with_symbols(revised(before, revisions_of(s.files@, c)), s.files@),
            ),
            active: Some(key),
            last_source: Some((key, s.agent_changeset_epoch)),
        }
    }
}

/// The keys of `marks` whose revision is not the current one.
fn stale_files(marks: &Table<String, String>, revisions: &Table<String, String>) -> (drop: Vec<String>)
    ensures
        forall|p: Seq<char>| #![trigger holds(drop@, p)] holds(drop@, p) <==> marks@.dom().contains(p) && !maps_to(
            revisions@,
            p,
            marks@[p],
        ),
{
    let keys = marks.keys();
    let mut drop: Vec<String> = Vec::new();
    let mut i: usize = 0;
    while i < keys.len()
        invariant
            i <= keys.len(),
            forall|p: Seq<char>| #![trigger holds(keys@, p)] holds(keys@, p) <==> marks@.dom().contains(p),
            forall|p: Seq<char>| #![trigger holds(drop@, p)] holds(drop@, p) <==> holds(keys@.take(i as int), p)
                && !maps_to(revisions@, p, marks@[p]),
        decreases keys.len() - i,
    {
        let ghost before = drop@;
        proof {
            assert(keys@.take(i + 1) =~= keys@.take(i as int).push(keys@[i as int]));
            lemma_holds_push(keys@.take(i as int), keys@[i as int]);
            assert(holds(keys@, keys@[i as int]@));
        }
        let current: bool = match (marks.get(&keys[i]), revisions.get(&keys[i])) {
            (Some(mark), Some(revision)) => mark.same(revision),
            _ => false,
        };
        if !current {
            drop.push(keys[i].clone());
            proof {
                lemma_holds_push(before, keys@[i as int]);
            }
        }
        proof {
            assert forall|p: Seq<char>| #![trigger holds(drop@, p)] holds(drop@, p) <==> holds(keys@.take(i + 1), p)
                && !maps_to(revisions@, p, marks@[p]) by {
                assert(holds(before, p) <==> holds(keys@.take(i as int), p) && !maps_to(revisions@, p, marks@[p]));
                assert(holds(keys@.take(i + 1), p) == (holds(keys@.take(i as int), p) || p == keys@[i as int]@));
            }
        }
        i = i + 1;
    }
    proof {
        assert(keys@.take(keys.len() as int) =~= keys@);
        assert forall|p: Seq<char>| #![trigger holds(drop@, p)] holds(drop@, p) <==> marks@.dom().contains(p) && !maps_to(
            revisions@,
            p,
            marks@[p],
        ) by {
            assert(holds(keys@, p) <==> marks@.dom().contains(p));
        }
    }
    drop
}

/// The part of a directory's coverage that still holds.
fn kept_coverage(
    coverage: &Table<String, String>,
    directory: &str,
    revisions: &Table<String, String>,
) -> (kept: Table<String, String>)
    ensures
        kept@ == coverage_kept(coverage@, directory@, revisions@),
{
    let prefix = joined(directory, "/");
    proof {
        reveal_strlit("/");
        assert(prefix@ =~= directory@ + seq!['/']);
    }
    let keys = coverage.keys();
    let mut kept: Table<String, String> = Table::new();
    let mut i: usize = 0;
    while i < keys.len()
        invariant
            i <= keys.len(),
            prefix@ == directory@ + seq!['/'],
            forall|p: Seq<char>| #![trigger holds(keys@, p)] holds(keys@, p) <==> coverage@.dom().contains(p),
            forall|p: Seq<char>| #[trigger] kept@.dom().contains(p) <==> holds(keys@.take(i as int), p)
                && below(directory@, p) && maps_to(revisions@, p, coverage@[p]),
            forall|p: Seq<char>| #[trigger] kept@.dom().contains(p) ==> kept@[p] == coverage@[p],
        decreases keys.len() - i,
    {
        let ghost before = kept@;
        proof {
            assert(keys@.take(i + 1) =~= keys@.take(i as int).push(keys@[i as int]));
            lemma_holds_push(keys@.take(i as int), keys@[i as int]);
            assert(holds(keys@, keys@[i as int]@));
        }
        match (coverage.get(&keys[i]), revisions.get(&keys[i])) {
            (Some(mark), Some(revision)) => {
                if starts_with(keys[i].as_str(), prefix.as_str()) && mark.same(revision) {
                    kept.insert(keys[i].clone(), mark.clone());
                }
            },
            _ => {},
        }
        proof {
            assert forall|p: Seq<char>| #[trigger] kept@.dom().contains(p) <==> holds(keys@.take(i + 1), p)
                && below(directory@, p) && maps_to(revisions@, p, coverage@[p]) by {
                assert(holds(keys@.take(i + 1), p) == (holds(keys@.take(i as int), p) || p == keys@[i as int]@));
                assert(before.dom().contains(p) <==> holds(keys@.take(i as int), p) && below(directory@, p)
                    && maps_to(revisions@, p, coverage@[p]));
            }
        }
        i = i + 1;
    }
    proof {
        assert(keys@.take(keys.len() as int) =~= keys@);
        assert forall|p: Seq<char>| #[trigger] kept@.dom().contains(p) <==> coverage_kept(
            coverage@,
            directory@,
            revisions@,
        ).dom().contains(p) by {
            assert(holds(keys@, p) <==> coverage@.dom().contains(p));
        }
        assert(kept@ =~= coverage_kept(coverage@, directory@, revisions@));
    }
    kept
}

/// Whether a map of texts holds nothing.
fn is_empty_table(table: &Table<String, String>) -> (r: bool)
    ensures
        r == (table@.dom() =~= Set::<Seq<char>>::empty()),
{
    let keys = table.keys();
    if keys.len() == 0 {
        proof {
            assert forall|p: Seq<char>| !table@.dom().contains(p) by {
                assert(holds(keys@, p) <==> table@.dom().contains(p));
            }
        }
        true
    } else {
        proof {
            assert(holds(keys@, keys@[0]@));
            assert(table@.dom().contains(keys@[0]@));
        }
        false
    }
}

/// The directory marks that hold under new revisions.
fn kept_directories(
    marks: &Table<String, Table<String, String>>,
    revisions: &Table<String, String>,
) -> (kept: Table<String, Table<String, String>>)
    ensures
        kept@ == Map::new(
            |d: Seq<char>|
                marks@.dom().contains(d) && !(coverage_kept(marks@[d], d, revisions@).dom() =~= Set::<Seq<char>>::empty()),
            |d: Seq<char>| coverage_kept(marks@[d], d, revisions@),
        ),
{
    let keys = marks.keys();
    let mut kept: Table<String, Table<String, String>> = Table::new();
    let mut i: usize = 0;
    while i < keys.len()
        invariant
            i <= keys.len(),
            forall|d: Seq<char>| #![trigger holds(keys@, d)] holds(keys@, d) <==> marks@.dom().contains(d),
            forall|d: Seq<char>| #[trigger] kept@.dom().contains(d) <==> holds(keys@.take(i as int), d)
                && !(coverage_kept(marks@[d], d, revisions@).dom() =~= Set::<Seq<char>>::empty()),
            forall|d: Seq<char>| #[trigger] kept@.dom().contains(d) ==> kept@[d] == coverage_kept(marks@[d], d, revisions@),
        decreases keys.len() - i,
    {
        let ghost before = kept@;
        proof {
            assert(keys@.take(i + 1) =~= keys@.take(i as int).push(keys@[i as int]));
            lemma_holds_push(keys@.take(i as int), keys@[i as int]);
            assert(holds(keys@, keys@[i as int]@));
        }
        match marks.get(&keys[i]) {
            Some(coverage) => {
                let left = kept_coverage(coverage, keys[i].as_str(), revisions);
                if !is_empty_table(&left) {
                    kept.insert(keys[i].clone(), left);
                }
            },
            None => {},
        }
        proof {
            assert forall|d: Seq<char>| #[trigger] kept@.dom().contains(d) <==> holds(keys@.take(i + 1), d)
                && !(coverage_kept(marks@[d], d, revisions@).dom() =~= Set::<Seq<char>>::empty()) by {
                assert(holds(keys@.take(i + 1), d) == (holds(keys@.take(i as int), d) || d == keys@[i as int]@));
                assert(before.dom().contains(d) <==> holds(keys@.take(i as int), d) && !(coverage_kept(
                    marks@[d],
                    d,
                    revisions@,
                ).dom() =~= Set::<Seq<char>>::empty()));
            }
        }
        i = i + 1;
    }
    proof {
        let goal = Map::new(
            |d: Seq<char>|
                marks@.dom().contains(d) && !(coverage_kept(marks@[d], d, revisions@).dom() =~= Set::<Seq<char>>::empty()),
            |d: Seq<char>| coverage_kept(marks@[d], d, revisions@),
        );
        assert(keys@.take(keys.len() as int) =~= keys@);
        assert forall|d: Seq<char>| #[trigger] kept@.dom().contains(d) <==> goal.dom().contains(d) by {
            assert(holds(keys@, d) <==> marks@.dom().contains(d));
        }
        assert(kept@ =~= goal);
    }
    kept
}

/// The inventory of one file.
fn inventory_of(row: &FileRow) -> (set: KeySet<SymbolKey>)
    ensures
        set@ == symbols_of(*row),
{
    let mut set: KeySet<SymbolKey> = KeySet::new();
    let mut j: usize = 0;
    while j < row.symbols.len()
        invariant
            j <= row.symbols.len(),
            forall|s: SymbolView| #[trigger] set@.contains(s) <==> exists|k: int| #![trigger row.symbols[k]]
                0 <= k < j && s == (SymbolView {
                    file: row.path@,
                    name: row.symbols[k].name@,
                    position: row.symbols[k].position,
                }),
        decreases row.symbols.len() - j,
    {
        let ghost before = set@;
        let key = SymbolKey {
            file: row.path.clone(),
            name: row.symbols[j].name.clone(),
            position: row.symbols[j].position,
        };
        let ghost added = key@;
        let _ = set.insert(key);
        proof {
            assert forall|s: SymbolView| #[trigger] set@.contains(s) <==> exists|k: int| #![trigger row.symbols[k]]
                0 <= k < j + 1 && s == (SymbolView {
                    file: row.path@,
                    name: row.symbols[k].name@,
                    position: row.symbols[k].position,
                }) by {
                if s == added {
                    assert(s == (SymbolView {
                        file: row.path@,
                        name: row.symbols[j as int].name@,
                        position: row.symbols[j as int].position,
                    }));
                }
            }
        }
        j = j + 1;
    }
    proof {
        assert(set@ =~= symbols_of(*row));
    }
    set
}

/// Whether a path is one of the rows.
fn has_path(files: &Vec<FileRow>, path: &String) -> (r: bool)
    ensures
        r == paths_of(files@).contains(path@),
{
    let mut i: usize = 0;
    while i < files.len()
        invariant
            i <= files.len(),
            forall|k: int| #![trigger files@[k]] 0 <= k < i ==> files@[k].path@ != path@,
        decreases files.len() - i,
    {
        if same_text(files[i].path.as_str(), path.as_str()) {
            proof {
                assert(files@[i as int].path@ == path@);
            }
            return true;
        }
        i = i + 1;
    }
    false
}

/// The files of an inventory that are no row.
fn gone_files(symbols: &Table<String, KeySet<SymbolKey>>, files: &Vec<FileRow>) -> (drop: Vec<String>)
    ensures
        forall|p: Seq<char>| #![trigger holds(drop@, p)] holds(drop@, p) <==> symbols@.dom().contains(p)
            && !paths_of(files@).contains(p),
{
    let keys = symbols.keys();
    let mut drop: Vec<String> = Vec::new();
    let mut i: usize = 0;
    while i < keys.len()
        invariant
            i <= keys.len(),
            forall|p: Seq<char>| #![trigger holds(drop@, p)] holds(drop@, p) <==> holds(keys@.take(i as int), p)
                && !paths_of(files@).contains(p),
        decreases keys.len() - i,
    {
        let ghost before = drop@;
        proof {
            assert(keys@.take(i + 1) =~= keys@.take(i as int).push(keys@[i as int]));
            lemma_holds_push(keys@.take(i as int), keys@[i as int]);
        }
        if !has_path(files, &keys[i]) {
            drop.push(keys[i].clone());
            proof {
                lemma_holds_push(before, keys@[i as int]);
            }
        }
        proof {
            assert forall|p: Seq<char>| #![trigger holds(drop@, p)] holds(drop@, p) <==> holds(keys@.take(i + 1), p)
                && !paths_of(files@).contains(p) by {
                assert(holds(before, p) <==> holds(keys@.take(i as int), p) && !paths_of(files@).contains(p));
                assert(holds(keys@.take(i + 1), p) == (holds(keys@.take(i as int), p) || p == keys@[i as int]@));
            }
        }
        i = i + 1;
    }
    proof {
        assert(keys@.take(keys.len() as int) =~= keys@);
        assert forall|p: Seq<char>| #![trigger holds(drop@, p)] holds(drop@, p) <==> symbols@.dom().contains(p)
            && !paths_of(files@).contains(p) by {
            assert(holds(keys@, p) <==> symbols@.dom().contains(p));
        }
    }
    drop
}

/// The symbol marks that no longer hold.
fn stale_symbols(review: &ComparisonReview) -> (drop: Vec<SymbolKey>)
    ensures
        forall|s: SymbolView| #![trigger holds(drop@, s)] holds(drop@, s) <==> review@.explicit_symbols.dom().contains(s)
            && !mark_holds(review@.revisions, review@.symbols, s, review@.explicit_symbols[s]),
{
    let ghost v = review@;
    let keys = review.explicit_symbols.keys();
    let mut drop: Vec<SymbolKey> = Vec::new();
    let mut i: usize = 0;
    while i < keys.len()
        invariant
            i <= keys.len(),
            v == review@,
            forall|s: SymbolView| #![trigger holds(keys@, s)] holds(keys@, s) <==> v.explicit_symbols.dom().contains(s),
            forall|s: SymbolView| #![trigger holds(drop@, s)] holds(drop@, s) <==> holds(keys@.take(i as int), s)
                && !mark_holds(v.revisions, v.symbols, s, v.explicit_symbols[s]),
        decreases keys.len() - i,
    {
        let ghost before = drop@;
        let ghost key = keys@[i as int]@;
        proof {
            assert(keys@.take(i + 1) =~= keys@.take(i as int).push(keys@[i as int]));
            lemma_holds_push(keys@.take(i as int), keys@[i as int]);
            assert(holds(keys@, keys@[i as int]@));
        }
        let current: bool = match (
            review.explicit_symbols.get(&keys[i]),
            review.revisions.get(&keys[i].file),
            review.symbols.get(&keys[i].file),
        ) {
            (Some(mark), Some(revision), Some(symbols)) => revision.same(mark) && symbols.contains(&keys[i]),
            _ => false,
        };
        if !current {
            drop.push(keys[i].copied());
            proof {
                lemma_holds_push(before, drop@[before.len() as int]);
                assert(drop@ =~= before.push(drop@[before.len() as int]));
            }
        }
        proof {
            assert(current == mark_holds(v.revisions, v.symbols, key, v.explicit_symbols[key]));
            assert forall|s: SymbolView| #![trigger holds(drop@, s)] holds(drop@, s) <==> holds(keys@.take(i + 1), s)
                && !mark_holds(v.revisions, v.symbols, s, v.explicit_symbols[s]) by {
                assert(holds(before, s) <==> holds(keys@.take(i as int), s) && !mark_holds(
                    v.revisions,
                    v.symbols,
                    s,
                    v.explicit_symbols[s],
                ));
                assert(holds(keys@.take(i + 1), s) == (holds(keys@.take(i as int), s) || s == keys@[i as int]@));
            }
        }
        i = i + 1;
    }
    proof {
        assert(keys@.take(keys.len() as int) =~= keys@);
        assert forall|s: SymbolView| #![trigger holds(drop@, s)] holds(drop@, s) <==> v.explicit_symbols.dom().contains(s)
            && !mark_holds(v.revisions, v.symbols, s, v.explicit_symbols[s]) by {
            assert(holds(keys@, s) <==> v.explicit_symbols.dom().contains(s));
        }
    }
    drop
}

/// Take over the symbols of a snapshot.
fn sync_symbols(review: &mut ComparisonReview, files: &Vec<FileRow>)
    ensures
        final(review)@ == with_symbols(old(review)@, files@),
{
    let ghost v = review@;
    let gone = gone_files(&review.symbols, files);
    remove_all(&mut review.symbols, &gone);
    let ghost start = v.symbols.restrict(paths_of(files@));
    proof {
        assert forall|p: Seq<char>| #[trigger] review.symbols@.dom().contains(p) <==> start.dom().contains(p) by {
            assert(holds(gone@, p) <==> v.symbols.dom().contains(p) && !paths_of(files@).contains(p));
        }
        assert(review.symbols@ =~= start);
    }
    let mut i: usize = 0;
    while i < files.len()
        invariant
            i <= files.len(),
            review.symbols@ == inventory(start, files@, i as int),
            review.revisions@ == v.revisions,
            review.explicit_files@ == v.explicit_files,
            review.explicit_symbols@ == v.explicit_symbols,
            review.directory_coverage@ == v.directory_coverage,
        decreases files.len() - i,
    {
        let file = &files[i];
        match file.semantic {
            FileSemanticLoad::Ready => {
                review.symbols.insert(file.path.clone(), inventory_of(file));
            },
            FileSemanticLoad::Unsupported => {
                let _ = review.symbols.remove(&file.path);
            },
            FileSemanticLoad::Unloaded | FileSemanticLoad::Loading | FileSemanticLoad::Failed => {},
        }
        i = i + 1;
    }
    let stale = stale_symbols(review);
    let ghost mid = review@;
    remove_all(&mut review.explicit_symbols, &stale);
    proof {
        let goal = with_symbols(v, files@);
        assert forall|s: SymbolView| #[trigger] review.explicit_symbols@.dom().contains(s)
            <==> goal.explicit_symbols.dom().contains(s) by {
            assert(holds(stale@, s) <==> mid.explicit_symbols.dom().contains(s) && !mark_holds(
                mid.revisions,
                mid.symbols,
                s,
                mid.explicit_symbols[s],
            ));
        }
        assert(review.explicit_symbols@ =~= goal.explicit_symbols);
        assert(review@ =~= goal);
    }
}

fn is_symbol_explicit(review: &ComparisonReview, symbol: &SymbolKey, revision: &String) -> (r: bool)
    ensures
        r == symbol_marked(review@, symbol@, revision@),
{
    match review.explicit_symbols.get(symbol) {
        Some(mark) => mark.same(revision),
        None => false,
    }
}

fn has_directory_override(review: &ComparisonReview, path: &String, revision: &String) -> (r: bool)
    ensures
        r == overridden(review@, path@, revision@),
{
    let prefixes = directory_prefixes(path.as_str());
    let ghost all = prefixes_of(path@);
    proof {
        assert(texts(prefixes@).len() == prefixes.len());
    }
    let mut k: usize = 0;
    while k < prefixes.len()
        invariant
            k <= prefixes.len() == all.len(),
            all == prefixes_of(path@),
            all == texts(prefixes@),
            forall|j: int| 0 <= j < k ==> !#[trigger] covers(review@, all[j], path@, revision@),
        decreases prefixes.len() - k,
    {
        proof {
            assert(all[k as int] == prefixes@[k as int]@);
        }
        match review.directory_coverage.get(&prefixes[k]) {
            Some(coverage) => {
                match coverage.get(path) {
                    Some(mark) => {
                        if mark.same(revision) {
                            proof {
                                assert(covers(review@, all[k as int], path@, revision@));
                            }
                            return true;
                        }
                    },
                    None => {},
                }
            },
            None => {},
        }
        k = k + 1;
    }
    false
}

/// Whether a file carries a mark of its own.
fn is_file_explicit(review: &ComparisonReview, path: &String, revision: &String) -> (r: bool)
    ensures
        r == maps_to(review@.explicit_files, path@, revision@),
{
    match review.explicit_files.get(path) {
        Some(mark) => mark.same(revision),
        None => false,
    }
}

/// Whether all symbols of a file are marked, and whether some are; neither without symbols.
fn symbol_marks(review: &ComparisonReview, path: &String, revision: &String) -> (r: (bool, bool))
    requires
        maps_to(review@.revisions, path@, revision@),
    ensures
        r.0 == all_symbols_marked(review@, path@),
        r.1 == some_symbol_marked(review@, path@),
{
    let ghost v = review@;
    let symbols = match review.symbols.get(path) {
        Some(symbols) => symbols,
        None => {
            return (false, false);
        },
    };
    let items = symbols.items();
    let mut all: bool = true;
    let mut some: bool = false;
    let mut i: usize = 0;
    while i < items.len()
        invariant
            i <= items.len(),
            v == review@,
            all == (forall|k: int| #![trigger items@[k]] 0 <= k < i ==> symbol_marked(v, items@[k]@, revision@)),
            some == (exists|k: int| #![trigger items@[k]] 0 <= k < i && symbol_marked(v, items@[k]@, revision@)),
        decreases items.len() - i,
    {
        if is_symbol_explicit(review, &items[i], revision) {
            proof {
                assert(symbol_marked(v, items@[i as int]@, revision@));
            }
            some = true;
        } else {
            proof {
                assert(!symbol_marked(v, items@[i as int]@, revision@));
            }
            all = false;
        }
        i = i + 1;
    }
    proof {
        let set = v.symbols[path@];
        if items.len() == 0 {
            assert forall|s: SymbolView| !set.contains(s) by {
                assert(set.contains(s) <==> holds(items@, s));
            }
            assert(set =~= Set::<SymbolView>::empty());
        } else {
            assert(holds(items@, items@[0]@));
            assert(set.contains(items@[0]@));
        }
        assert(all ==> forall|s: SymbolView| #[trigger] set.contains(s) ==> symbol_marked(v, s, revision@)) by {
            if all {
                assert forall|s: SymbolView| #[trigger] set.contains(s) implies symbol_marked(v, s, revision@) by {
                    assert(holds(items@, s));
                }
            }
        }
        if !all {
            let k = choose|k: int| #![trigger items@[k]] 0 <= k < items.len() && !symbol_marked(v, items@[k]@, revision@);
            assert(holds(items@, items@[k]@));
            assert(set.contains(items@[k]@));
        }
        if some {
            let k = choose|k: int| #![trigger items@[k]] 0 <= k < items.len() && symbol_marked(v, items@[k]@, revision@);
            assert(holds(items@, items@[k]@));
            assert(set.contains(items@[k]@));
        }
        if some_symbol_marked(v, path@) {
            let s = choose|s: SymbolView| #[trigger] set.contains(s) && symbol_marked(v, s, revision@);
            assert(holds(items@, s));
        }
    }
    (all && items.len() > 0, some)
}

fn is_file_reviewed(review: &ComparisonReview, path: &String) -> (r: bool)
    ensures
        r == file_reviewed(review@, path@),
{
    match review.revisions.get(path) {
        Some(revision) => is_file_explicit(review, path, revision) || has_directory_override(review, path, revision)
            || symbol_marks(review, path, revision).0,
        None => false,
    }
}

/// The current files below a directory.
fn descendants(review: &ComparisonReview, directory: &str) -> (paths: Vec<String>)
    ensures
        distinct(paths@),
        forall|p: Seq<char>| #![trigger holds(paths@, p)] holds(paths@, p) <==> review@.revisions.dom().contains(p)
            && below(directory@, p),
{
    let prefix = joined(directory, "/");
    proof {
        reveal_strlit("/");
        assert(prefix@ =~= directory@ + seq!['/']);
    }
    let keys = review.revisions.keys();
    let mut paths: Vec<String> = Vec::new();
    let mut i: usize = 0;
    while i < keys.len()
        invariant
            i <= keys.len(),
            prefix@ == directory@ + seq!['/'],
            distinct(keys@),
            distinct(paths@),
            forall|p: Seq<char>| #![trigger holds(paths@, p)] holds(paths@, p) <==> holds(keys@.take(i as int), p)
                && below(directory@, p),
        decreases keys.len() - i,
    {
        let ghost before = paths@;
        proof {
            assert(keys@.take(i + 1) =~= keys@.take(i as int).push(keys@[i as int]));
            lemma_holds_push(keys@.take(i as int), keys@[i as int]);
        }
        if starts_with(keys[i].as_str(), prefix.as_str()) {
            proof {
                assert(!holds(keys@.take(i as int), keys@[i as int]@));
                assert(holds(before, keys@[i as int]@) <==> holds(keys@.take(i as int), keys@[i as int]@) && below(
                    directory@,
                    keys@[i as int]@,
                ));
                lemma_holds_push(before, keys@[i as int]);
                crate::table::lemma_distinct_push(before, keys@[i as int]);
            }
            paths.push(keys[i].clone());
        }
        proof {
            assert forall|p: Seq<char>| #![trigger holds(paths@, p)] holds(paths@, p) <==> holds(keys@.take(i + 1), p)
                && below(directory@, p) by {
                assert(holds(before, p) <==> holds(keys@.take(i as int), p) && below(directory@, p));
                assert(holds(keys@.take(i + 1), p) == (holds(keys@.take(i as int), p) || p == keys@[i as int]@));
            }
        }
        i = i + 1;
    }
    proof {
        assert(keys@.take(keys.len() as int) =~= keys@);
        assert forall|p: Seq<char>| #![trigger holds(paths@, p)] holds(paths@, p) <==> review@.revisions.dom().contains(p)
            && below(directory@, p) by {
            assert(holds(keys@, p) <==> review@.revisions.dom().contains(p));
        }
    }
    paths
}

/// The revisions of some current files.
fn coverage_table(review: &ComparisonReview, paths: &Vec<String>) -> (coverage: Table<String, String>)
    requires
        forall|p: Seq<char>| #![trigger holds(paths@, p)] holds(paths@, p) ==> review@.revisions.dom().contains(p),
    ensures
        coverage@ == review@.revisions.restrict(held(paths@)),
{
    let mut coverage: Table<String, String> = Table::new();
    let mut i: usize = 0;
    proof {
        assert(coverage@ =~= review@.revisions.restrict(held(paths@.take(0))));
    }
    while i < paths.len()
        invariant
            i <= paths.len(),
            forall|p: Seq<char>| #![trigger holds(paths@, p)] holds(paths@, p) ==> review@.revisions.dom().contains(p),
            coverage@ == review@.revisions.restrict(held(paths@.take(i as int))),
        decreases paths.len() - i,
    {
        proof {
            assert(paths@.take(i + 1) =~= paths@.take(i as int).push(paths@[i as int]));
            lemma_holds_push(paths@.take(i as int), paths@[i as int]);
            assert(held(paths@.take(i + 1)) =~= held(paths@.take(i as int)).insert(paths@[i as int]@));
            assert(holds(paths@, paths@[i as int]@));
        }
        match review.revisions.get(&paths[i]) {
            Some(revision) => {
                coverage.insert(paths[i].clone(), revision.clone());
            },
            None => {},
        }
        proof {
            assert(coverage@ =~= review@.revisions.restrict(held(paths@.take(i + 1))));
        }
        i = i + 1;
    }
    proof {
        assert(paths@.take(paths.len() as int) =~= paths@);
    }
    coverage
}

/// Whether the mark of `marker` covers all of `coverage`.
fn is_covered_by(review: &ComparisonReview, marker: &String, coverage: &Table<String, String>) -> (r: bool)
    ensures
        r == (review@.directory_coverage.dom().contains(marker@) && forall|p: Seq<char>| #[trigger]
            coverage@.dom().contains(p) ==> maps_to(review@.directory_coverage[marker@], p, coverage@[p])),
{
    match review.directory_coverage.get(marker) {
        Some(mark) => within(coverage, mark),
        None => false,
    }
}

impl ReviewLedger {
    /// Reconcile review state with the same parsed comparison data that backs the UI.
    ///
    /// A stale, incomplete, or mismatched change set makes review state unavailable instead
    /// of allowing an earlier comparison's marks to leak into the current view.
    pub fn sync(&mut self, snapshot: &UiSnapshot)
        ensures
            final(self)@ == synced(old(self)@, *snapshot),
            ledger_current(old(self)@) ==> ledger_current(final(self)@),
    {
        proof {
            if ledger_current(self@) {
                law_sync_keeps_marks_current(self@, *snapshot);
            }
        }
        let changeset: &ChangeSet = match &snapshot.agent_changeset {
            Some(changeset) => changeset,
            None => {
                self.deactivate();
                return;
            },
        };
        if snapshot.agent_changeset_epoch != snapshot.epoch || changeset.scope != snapshot.scope {
            self.deactivate();
            return;
        }
        let key = comparison_key(snapshot);
        let seen: bool = match &self.last_source {
            Some((last, epoch)) => last.same(&key) && *epoch == snapshot.agent_changeset_epoch,
            None => false,
        };
        if seen {
            match self.comparisons.remove(&key) {
                Some(mut review) => {
                    sync_symbols(&mut review, &snapshot.files);
                    self.comparisons.insert(key.copied(), review);
                },
                None => {},
            }
            self.active = Some(key);
            proof {
                assert(self@.comparisons =~= synced(old(self)@, *snapshot).comparisons);
            }
            return;
        }
        let revisions = match current_revisions(&snapshot.files, changeset) {
            Some(revisions) => revisions,
            None => {
                self.deactivate();
                return;
            },
        };
        let mut review: ComparisonReview = match self.comparisons.remove(&key) {
            Some(review) => review,
            None => ComparisonReview {
                revisions: Table::new(),
                explicit_files: Table::new(),
                symbols: Table::new(),
                explicit_symbols: Table::new(),
                directory_coverage: Table::new(),
            },
        };
        let ghost before = review@;
        let stale = stale_files(&review.explicit_files, &revisions);
        remove_all(&mut review.explicit_files, &stale);
        review.directory_coverage = kept_directories(&review.directory_coverage, &revisions);
        let ghost now = revisions@;
        review.revisions = revisions;
        proof {
            let goal = revised(before, now);
            assert forall|p: Seq<char>| #[trigger] review.explicit_files@.dom().contains(p)
                <==> goal.explicit_files.dom().contains(p) by {
                assert(holds(stale@, p) <==> before.explicit_files.dom().contains(p) && !maps_to(
                    now,
                    p,
                    before.explicit_files[p],
                ));
            }
            assert(review.explicit_files@ =~= goal.explicit_files);
            assert(review.directory_coverage@ =~= goal.directory_coverage);
            assert(review@ =~= goal);
        }
        sync_symbols(&mut review, &snapshot.files);
        self.comparisons.insert(key.copied(), review);
        self.active = Some(key.copied());
        self.last_source = Some((key, snapshot.agent_changeset_epoch));
        proof {
            assert(self@.comparisons =~= synced(old(self)@, *snapshot).comparisons);
        }
    }

    /// Toggle the explicit mark on `target` without rewriting any descendant marks.
    pub fn toggle(&mut self, target: &ReviewTarget)
        ensures
            final(self)@ == toggled(old(self)@, target@),
            ledger_current(old(self)@) ==> ledger_current(final(self)@),
    {
        proof {
            if ledger_current(self@) {
                law_toggle_keeps_marks_current(self@, target@);
            }
        }
        let key = match &self.active {
            Some(key) => key.copied(),
            None => {
                return;
            },
        };
        let mut review = match self.comparisons.remove(&key) {
            Some(review) => review,
            None => {
                proof {
                    assert(self@.comparisons =~= old(self)@.comparisons);
                }
                return;
            },
        };
        toggle_in(&mut review, target);
        self.comparisons.insert(key, review);
        proof {
            assert(self@.comparisons =~= toggled(old(self)@, target@).comparisons);
        }
    }

    /// Effective state of a review target in the active comparison.
    pub fn state(&self, target: &ReviewTarget) -> (state: ReviewState)
        ensures
            state == state_of(self@, target@),
    {
        match self.active_review() {
            Some(review) => match target {
                ReviewTarget::File(path) => file_state(review, path),
                ReviewTarget::Directory(directory) => directory_state(review, directory),
                ReviewTarget::Symbol { file, name, position } => symbol_state(review, file, name, *position),
            },
            None => ReviewState::Unreviewed,
        }
    }

    /// Current aggregate review progress. `total` still reflects visible files while parsed
    /// comparison data is unavailable, but no stale file is reported as reviewed.
    pub fn progress(&self, visible_file_count: usize) -> (progress: ReviewProgress)
        ensures
            match active_of(self@) {
                Some(v) => {
                    &&& progress.available
                    &&& progress.total == v.revisions.dom().len()
                    &&& progress.reviewed == v.revisions.dom().filter(|p: Seq<char>| file_reviewed(v, p)).len()
                },
                None => progress == (ReviewProgress { reviewed: 0, total: visible_file_count, available: false }),
            },
    {
        let review = match self.active_review() {
            Some(review) => review,
            None => {
                return ReviewProgress { reviewed: 0, total: visible_file_count, available: false };
            },
        };
        let ghost v = review@;
        let keys = review.revisions.keys();
        let mut reviewed: Vec<String> = Vec::new();
        let mut i: usize = 0;
        while i < keys.len()
            invariant
                i <= keys.len(),
                v == review@,
                distinct(keys@),
                distinct(reviewed@),
                forall|p: Seq<char>| #![trigger holds(reviewed@, p)] holds(reviewed@, p) <==> holds(
                    keys@.take(i as int),
                    p,
                ) && file_reviewed(v, p),
            decreases keys.len() - i,
        {
            let ghost before = reviewed@;
            proof {
                assert(keys@.take(i + 1) =~= keys@.take(i as int).push(keys@[i as int]));
                lemma_holds_push(keys@.take(i as int), keys@[i as int]);
            }
            if is_file_reviewed(review, &keys[i]) {
                proof {
                    assert(!holds(keys@.take(i as int), keys@[i as int]@));
                    assert(!holds(before, keys@[i as int]@));
                    lemma_holds_push(before, keys@[i as int]);
                    crate::table::lemma_distinct_push(before, keys@[i as int]);
                }
                reviewed.push(keys[i].clone());
            }
            proof {
                assert forall|p: Seq<char>| #![trigger holds(reviewed@, p)] holds(reviewed@, p) <==> holds(
                    keys@.take(i + 1),
                    p,
                ) && file_reviewed(v, p) by {
                    assert(holds(before, p) <==> holds(keys@.take(i as int), p) && file_reviewed(v, p));
                    assert(holds(keys@.take(i + 1), p) == (holds(keys@.take(i as int), p) || p == keys@[i as int]@));
                }
            }
            i = i + 1;
        }
        proof {
            assert(keys@.take(keys.len() as int) =~= keys@);
            lemma_distinct_count(keys@);
            lemma_distinct_count(reviewed@);
            assert forall|p: Seq<char>| held(keys@).contains(p) == v.revisions.dom().contains(p) by {
                assert(holds(keys@, p) <==> v.revisions.dom().contains(p));
            }
            assert(held(keys@) =~= v.revisions.dom());
            let goal = v.revisions.dom().filter(|p: Seq<char>| file_reviewed(v, p));
            assert forall|p: Seq<char>| held(reviewed@).contains(p) == goal.contains(p) by {
                assert(holds(reviewed@, p) <==> holds(keys@, p) && file_reviewed(v, p));
            }
            assert(held(reviewed@) =~= goal);
        }
        ReviewProgress { reviewed: reviewed.len(), total: keys.len(), available: true }
    }

    fn active_review(&self) -> (r: Option<&ComparisonReview>)
        ensures
            match r {
                Some(review) => active_of(self@) == Some(review@),
                None => active_of(self@) is None,
            },
    {
        match &self.active {
            Some(key) => self.comparisons.get(key),
            None => None,
        }
    }

    fn deactivate(&mut self)
        ensures
            final(self)@ == deactivated(old(self)@),
    {
        self.active = None;
        self.last_source = None;
    }
}

/// Flip the mark of a target.
fn toggle_in(review: &mut ComparisonReview, target: &ReviewTarget)
    ensures
        final(review)@ == toggled_in(old(review)@, target@),
{
    match target {
        ReviewTarget::File(path) => {
            let revision: String = match review.revisions.get(path) {
                Some(revision) => revision.clone(),
                None => {
                    return;
                },
            };
            if is_file_explicit(review, path, &revision) {
                let _ = review.explicit_files.remove(path);
            } else {
                review.explicit_files.insert(path.clone(), revision);
            }
        },
        ReviewTarget::Symbol { file, name, position } => {
            let key = SymbolKey { file: file.clone(), name: name.clone(), position: *position };
            let known: bool = match review.symbols.get(file) {
                Some(symbols) => symbols.contains(&key),
                None => false,
            };
            if !known {
                return;
            }
            let revision: String = match review.revisions.get(file) {
                Some(revision) => revision.clone(),
                None => {
                    return;
                },
            };
            if is_symbol_explicit(review, &key, &revision) {
                let _ = review.explicit_symbols.remove(&key);
            } else {
                review.explicit_symbols.insert(key, revision);
            }
        },
        ReviewTarget::Directory(directory) => {
            let paths = descendants(review, directory.as_str());
            let coverage = coverage_table(review, &paths);
            proof {
                let goal = coverage_of(review@, directory@);
                assert forall|p: Seq<char>| #[trigger] coverage@.dom().contains(p) <==> goal.dom().contains(p) by {
                    assert(holds(paths@, p) <==> review@.revisions.dom().contains(p) && below(directory@, p));
                }
                assert(coverage@ =~= goal);
            }
            if is_empty_table(&coverage) {
                return;
            }
            let fully_explicit: bool = match review.directory_coverage.get(directory) {
                Some(mark) => same_table(mark, &coverage),
                None => false,
            };
            if fully_explicit {
                let _ = review.directory_coverage.remove(directory);
            } else {
                // One click on a partial directory covers every current descendant; the
                // next click removes the override.
                review.directory_coverage.insert(directory.clone(), coverage);
            }
        },
    }
}

fn file_state(review: &ComparisonReview, path: &String) -> (state: ReviewState)
    ensures
        state == file_state_of(review@, path@),
{
    let revision = match review.revisions.get(path) {
        Some(revision) => revision,
        None => {
            return ReviewState::Unreviewed;
        },
    };
    if is_file_explicit(review, path, revision) {
        ReviewState::Explicit
    } else if has_directory_override(review, path, revision) {
        ReviewState::Inherited
    } else {
        let (all, some) = symbol_marks(review, path, revision);
        if all {
            ReviewState::Reviewed
        } else if some {
            ReviewState::Partial
        } else {
            ReviewState::Unreviewed
        }
    }
}

fn symbol_state(review: &ComparisonReview, file: &String, name: &String, position: Option<(u32, u32)>) -> (state:
    ReviewState)
    ensures
        state == symbol_state_of(review@, SymbolView { file: file@, name: name@, position }),
{
    let revision = match review.revisions.get(file) {
        Some(revision) => revision,
        None => {
            return ReviewState::Unreviewed;
        },
    };
    let symbol = SymbolKey { file: file.clone(), name: name.clone(), position };
    let known: bool = match review.symbols.get(file) {
        Some(symbols) => symbols.contains(&symbol),
        None => false,
    };
    if !known {
        return ReviewState::Unreviewed;
    }
    if is_symbol_explicit(review, &symbol, revision) {
        ReviewState::Explicit
    } else if is_file_explicit(review, file, revision) || has_directory_override(review, file, revision) {
        ReviewState::Inherited
    } else {
        ReviewState::Unreviewed
    }
}

fn directory_state(review: &ComparisonReview, directory: &String) -> (state: ReviewState)
    ensures
        state == directory_state_of(review@, directory@),
{
    let ghost v = review@;
    let paths = descendants(review, directory.as_str());
    if paths.len() == 0 {
        proof {
            assert forall|p: Seq<char>| #[trigger] v.revisions.dom().contains(p) implies !below(directory@, p) by {
                assert(holds(paths@, p) <==> v.revisions.dom().contains(p) && below(directory@, p));
            }
        }
        return ReviewState::Unreviewed;
    }
    let coverage = coverage_table(review, &paths);
    proof {
        assert(holds(paths@, paths@[0]@));
        let first = paths@[0]@;
        assert(v.revisions.dom().contains(first) && below(directory@, first));
        assert forall|p: Seq<char>| coverage@.dom().contains(p) <==> #[trigger] v.revisions.dom().contains(p) && below(
            directory@,
            p,
        ) by {
            assert(holds(paths@, p) <==> v.revisions.dom().contains(p) && below(directory@, p));
        }
    }
    let explicit: bool = is_covered_by(review, directory, &coverage);
    proof {
        assert(explicit == covers_all(v, directory@, directory@));
    }
    if explicit {
        return ReviewState::Explicit;
    }
    let below_directory = joined(directory.as_str(), "/child");
    let ancestors = directory_prefixes(below_directory.as_str());
    let ghost all = ancestors_of(directory@);
    proof {
        assert(texts(ancestors@) == all);
        assert(texts(ancestors@).len() == ancestors.len());
    }
    let mut k: usize = 0;
    while k < ancestors.len()
        invariant
            k <= ancestors.len() == all.len(),
            all == ancestors_of(directory@),
            all == texts(ancestors@),
            v == review@,
            forall|p: Seq<char>| coverage@.dom().contains(p) <==> #[trigger] v.revisions.dom().contains(p) && below(
                directory@,
                p,
            ),
            coverage@ == v.revisions.restrict(held(paths@)),
            forall|j: int| 0 <= j < k ==> all[j] == directory@ || !#[trigger] covers_all(v, all[j], directory@),
            !(forall|path: Seq<char>| #[trigger] v.revisions.dom().contains(path) ==> !below(directory@, path)),
            !covers_all(v, directory@, directory@),
        decreases ancestors.len() - k,
    {
        proof {
            assert(all[k as int] == ancestors@[k as int]@);
        }
        if !same_text(ancestors[k].as_str(), directory.as_str()) {
            let inherited: bool = is_covered_by(review, &ancestors[k], &coverage);
            proof {
                assert(inherited == covers_all(v, all[k as int], directory@));
            }
            if inherited {
                return ReviewState::Inherited;
            }
        }
        k = k + 1;
    }
    let mut every: bool = true;
    let mut some: bool = false;
    let mut i: usize = 0;
    while i < paths.len()
        invariant
            i <= paths.len(),
            v == review@,
            every == (forall|j: int| #![trigger paths@[j]] 0 <= j < i ==> file_reviewed(v, paths@[j]@)),
            some == (exists|j: int| #![trigger paths@[j]] 0 <= j < i && file_reviewed(v, paths@[j]@)),
        decreases paths.len() - i,
    {
        if is_file_reviewed(review, &paths[i]) {
            proof {
                assert(file_reviewed(v, paths@[i as int]@));
            }
            some = true;
        } else {
            proof {
                assert(!file_reviewed(v, paths@[i as int]@));
            }
            every = false;
        }
        i = i + 1;
    }
    proof {
        if every {
            assert forall|p: Seq<char>| #[trigger] v.revisions.dom().contains(p) && below(directory@, p) implies
                file_reviewed(v, p) by {
                assert(holds(paths@, p));
            }
        } else {
            let j = choose|j: int| #![trigger paths@[j]] 0 <= j < paths.len() && !file_reviewed(v, paths@[j]@);
            assert(holds(paths@, paths@[j]@));
            assert(v.revisions.dom().contains(paths@[j]@));
        }
        if some {
            let j = choose|j: int| #![trigger paths@[j]] 0 <= j < paths.len() && file_reviewed(v, paths@[j]@);
            assert(holds(paths@, paths@[j]@));
            assert(v.revisions.dom().contains(paths@[j]@));
        } else {
            assert forall|p: Seq<char>| #[trigger] v.revisions.dom().contains(p) && below(directory@, p) implies
                !file_reviewed(v, p) by {
                assert(holds(paths@, p));
            }
        }
    }
    if every {
        ReviewState::Reviewed
    } else if some {
        ReviewState::Partial
    } else {
        ReviewState::Unreviewed
    }
}

/// Marks that are all about current content: of files at their revision, of symbols that
/// their file has, and of directories that cover something.
pub open spec fn marks_current(v: ReviewView) -> bool {
    &&& symbol_files(v.symbols)
    &&& forall|p: Seq<char>| #[trigger] v.explicit_files.dom().contains(p) ==> maps_to(
        v.revisions,
        p,
        v.explicit_files[p],
    )
    &&& forall|s: SymbolView| #[trigger] v.explicit_symbols.dom().contains(s) ==> mark_holds(
        v.revisions,
        v.symbols,
        s,
        v.explicit_symbols[s],
    )
    &&& forall|d: Seq<char>, p: Seq<char>|
        v.directory_coverage.dom().contains(d) && #[trigger] v.directory_coverage[d].dom().contains(p) ==> below(d, p)
            && maps_to(v.revisions, p, v.directory_coverage[d][p])
}

/// A ledger whose comparisons all hold current marks only.
pub open spec fn ledger_current(l: LedgerView) -> bool {
    forall|k: ComparisonView| #[trigger] l.comparisons.dom().contains(k) ==> marks_current(l.comparisons[k])
}

proof fn lemma_with_symbols_current(v: ReviewView, files: Seq<FileRow>)
    requires
        marks_current(v),
    ensures
        marks_current(with_symbols(v, files)),
{
    lemma_inventory_files(v.symbols.restrict(paths_of(files)), files, files.len() as int);
}

proof fn lemma_revised_current(v: ReviewView, revisions: Map<Seq<char>, Seq<char>>, files: Seq<FileRow>)
    requires
        symbol_files(v.symbols),
    ensures
        marks_current(with_symbols(revised(v, revisions), files)),
{
    let after = with_symbols(revised(v, revisions), files);
    lemma_inventory_files(v.symbols.restrict(paths_of(files)), files, files.len() as int);
    assert forall|d: Seq<char>, p: Seq<char>|
        after.directory_coverage.dom().contains(d) && #[trigger] after.directory_coverage[d].dom().contains(p) implies below(
        d,
        p,
    ) && maps_to(after.revisions, p, after.directory_coverage[d][p]) by {
        assert(after.directory_coverage[d] == coverage_kept(v.directory_coverage[d], d, revisions));
    }
}

/// Seeing a snapshot never leaves a mark on content that has changed.
pub proof fn law_sync_keeps_marks_current(l: LedgerView, s: UiSnapshot)
    requires
        ledger_current(l),
    ensures
        ledger_current(synced(l, s)),
{
    let key = comparison_of(s);
    let c = s.agent_changeset->0;
    if is_current(s) {
        if l.last_source == Some((key, s.agent_changeset_epoch)) {
            if l.comparisons.dom().contains(key) {
                lemma_with_symbols_current(l.comparisons[key], s.files@);
            }
        } else if correlated(s.files@, c) {
            let before = if l.comparisons.dom().contains(key) {
                l.comparisons[key]
            } else {
                empty_review()
            };
            lemma_revised_current(before, revisions_of(s.files@, c), s.files@);
        }
    }
}

/// A toggle never leaves a mark on content that has changed.
pub proof fn law_toggle_keeps_marks_current(l: LedgerView, target: SummaryView)
    requires
        ledger_current(l),
    ensures
        ledger_current(toggled(l, target)),
{
    if let Some(v) = active_of(l) {
        let after = toggled_in(v, target);
        assert(marks_current(v));
        assert(marks_current(after)) by {
            if let SummaryView::Directory(directory) = target {
                assert forall|d: Seq<char>, p: Seq<char>|
                    after.directory_coverage.dom().contains(d) && #[trigger] after.directory_coverage[d].dom().contains(
                        p,
                    ) implies below(d, p) && maps_to(after.revisions, p, after.directory_coverage[d][p]) by {
                    if d != directory {
                        assert(v.directory_coverage[d].dom().contains(p));
                    } else if after.directory_coverage[d] != coverage_of(v, directory) {
                        assert(v.directory_coverage[d].dom().contains(p));
                    }
                }
            }
        }
    }
}

/// Toggling a target twice gives the ledger back, where the target is a file or a symbol, or
/// a directory that is covered whole or not marked at all. (A directory covered in part is
/// covered whole by the first toggle.)
pub proof fn law_toggle_twice_restores(l: LedgerView, target: SummaryView)
    requires
        ledger_current(l),
        target matches SummaryView::Directory(d) ==> (active_of(l) matches Some(v) ==> !v.directory_coverage.dom().contains(
            d,
        ) || v.directory_coverage[d] == coverage_of(v, d)),
    ensures
        toggled(toggled(l, target), target) == l,
{
    if let Some(v) = active_of(l) {
        let once = toggled_in(v, target);
        let twice = toggled_in(once, target);
        assert(marks_current(v));
        match target {
            SummaryView::File(path) => {
                assert(twice.explicit_files =~= v.explicit_files);
            },
            SummaryView::Symbol { file, name, position } => {
                assert(twice.explicit_symbols =~= v.explicit_symbols);
            },
            SummaryView::Directory(directory) => {
                assert(coverage_of(once, directory) =~= coverage_of(v, directory));
                assert(twice.directory_coverage =~= v.directory_coverage);
            },
        }
        assert(twice =~= v);
        assert(toggled(toggled(l, target), target).comparisons =~= l.comparisons);
    }
}

/// Toggling a directory rewrites no mark of a file, a symbol or another directory; toggling
/// a file rewrites no mark of a symbol or a directory.
pub proof fn law_toggle_rewrites_no_other_mark(v: ReviewView, target: SummaryView)
    ensures
        ({
            let after = toggled_in(v, target);
            &&& after.revisions == v.revisions
            &&& after.symbols == v.symbols
            &&& target !is File ==> after.explicit_files == v.explicit_files
            &&& target !is Symbol ==> after.explicit_symbols == v.explicit_symbols
            &&& target !is Directory ==> after.directory_coverage == v.directory_coverage
            &&& forall|d: Seq<char>| target != SummaryView::Directory(d) ==> (#[trigger]
                after.directory_coverage.dom().contains(d) == v.directory_coverage.dom().contains(d)
                && after.directory_coverage[d] == v.directory_coverage[d])
        }),
{
}

/// A click on a directory that is not covered whole covers every current file below it: the
/// directory shows a mark of its own, files and symbols below it show theirs or inherit it,
/// and files and symbols elsewhere show what they did.
pub proof fn law_directory_toggle_covers_descendants(v: ReviewView, directory: Seq<char>, path: Seq<char>)
    requires
        v.revisions.dom().contains(path),
        coverage_of(v, directory).dom() != Set::<Seq<char>>::empty(),
        !maps_to(v.directory_coverage, directory, coverage_of(v, directory)),
    ensures
        ({
            let after = toggled_in(v, SummaryView::Directory(directory));
            &&& directory_state_of(after, directory) == ReviewState::Explicit
            &&& below(directory, path) ==> {
                &&& covers(after, directory, path, v.revisions[path])
                &&& file_state_of(after, path) == if maps_to(v.explicit_files, path, v.revisions[path]) {
                    ReviewState::Explicit
                } else {
                    ReviewState::Inherited
                }
                &&& forall|symbol: SymbolView|
                    symbol.file == path && v.symbols.dom().contains(path) && v.symbols[path].contains(symbol)
                        ==> #[trigger] symbol_state_of(after, symbol) == if symbol_marked(
                        v,
                        symbol,
                        v.revisions[path],
                    ) {
                        ReviewState::Explicit
                    } else {
                        ReviewState::Inherited
                    }
            }
            &&& !below(directory, path) ==> {
                &&& file_state_of(after, path) == file_state_of(v, path)
                &&& forall|symbol: SymbolView|
                    symbol.file == path ==> #[trigger] symbol_state_of(after, symbol) == symbol_state_of(v, symbol)
            }
        }),
{
    let after = toggled_in(v, SummaryView::Directory(directory));
    let coverage = coverage_of(v, directory);
    let revision = v.revisions[path];
    assert(exists|p: Seq<char>| #[trigger] coverage.dom().contains(p)) by {
        if forall|p: Seq<char>| !#[trigger] coverage.dom().contains(p) {
            assert(coverage.dom() =~= Set::<Seq<char>>::empty());
        }
    }
    let some = choose|p: Seq<char>| #[trigger] coverage.dom().contains(p);
    assert(after.directory_coverage[directory] == coverage);
    assert(after.revisions.dom().contains(some) && below(directory, some));
    assert(covers_all(after, directory, directory));
    lemma_below_is_prefix(path, directory);
    if below(directory, path) {
        let k = choose|k: int| 0 <= k < prefixes_of(path).len() && #[trigger] prefixes_of(path)[k] == directory;
        assert(coverage.dom().contains(path));
        assert(covers(after, prefixes_of(path)[k], path, revision));
    } else {
        if overridden(v, path, revision) {
            let k = choose|k: int|
                0 <= k < prefixes_of(path).len() && #[trigger] covers(v, prefixes_of(path)[k], path, revision);
            assert(covers(after, prefixes_of(path)[k], path, revision));
        }
        if overridden(after, path, revision) {
            let k = choose|k: int|
                0 <= k < prefixes_of(path).len() && #[trigger] covers(after, prefixes_of(path)[k], path, revision);
            assert(covers(v, prefixes_of(path)[k], path, revision));
        }
        assert(some_symbol_marked(after, path) == some_symbol_marked(v, path));
        assert(all_symbols_marked(after, path) == all_symbols_marked(v, path));
    }
}

/// The paths of all changes.
pub open spec fn change_paths(changes: Seq<FileChange>) -> Seq<Seq<char>> {
    Seq::new(changes.len(), |i: int| changes[i].path@)
}

/// Whether a parsed comparison is complete for the rows: it holds one change for each of
/// their paths and no other, and every change has its serialised form.
pub open spec fn is_complete(files: Seq<FileRow>, c: ChangeSet) -> bool {
    &&& change_paths(c.files@).no_duplicates()
    &&& change_paths(c.files@).to_set() =~= paths_of(files)
    &&& forall|i: int| #![trigger c.files[i]] 0 <= i < c.files.len() ==> c.files[i].parsed is Some
}

proof fn lemma_change_at(changes: Seq<FileChange>, path: Seq<char>, i: int)
    requires
        0 <= i,
    ensures
        match change_at(changes, path, i) {
            Some(k) => i <= k < changes.len() && changes[k].path@ == path,
            None => forall|k: int| #![trigger changes[k]] i <= k < changes.len() ==> changes[k].path@ != path,
        },
    decreases changes.len() - i,
{
    if i < changes.len() && changes[i].path@ != path {
        lemma_change_at(changes, path, i + 1);
    }
}

proof fn lemma_correlated_is_complete(files: Seq<FileRow>, c: ChangeSet)
    ensures
        correlated(files, c) == is_complete(files, c),
{
    let all = change_paths(c.files@);
    let rows = paths_of(files);
    all.lemma_cardinality_of_set();
    vstd::seq_lib::seq_to_set_is_finite(all);
    if correlated(files, c) {
        assert forall|p: Seq<char>| rows.contains(p) implies #[trigger] all.to_set().contains(p) by {
            lemma_change_at(c.files@, p, 0);
            let k = change_at(c.files@, p, 0)->0;
            assert(all[k] == p);
        }
        assert(rows.subset_of(all.to_set()));
        vstd::set_lib::lemma_len_subset(rows, all.to_set());
        vstd::set_lib::lemma_subset_equality(rows, all.to_set());
        all.lemma_no_dup_set_cardinality();
        assert forall|i: int| #![trigger c.files[i]] 0 <= i < c.files.len() implies c.files[i].parsed is Some by {
            let p = all[i];
            assert(all.to_set().contains(p));
            assert(has_revision(c, p));
            lemma_change_at(c.files@, p, 0);
            let k = change_at(c.files@, p, 0)->0;
            assert(all[k] == all[i]);
        }
    }
    if is_complete(files, c) {
        all.unique_seq_to_set();
        assert forall|p: Seq<char>| #[trigger] rows.contains(p) implies has_revision(c, p) by {
            assert(all.to_set().contains(p));
            let k = choose|k: int| 0 <= k < all.len() && all[k] == p;
            lemma_change_at(c.files@, p, 0);
            assert(c.files[k].path@ == p);
        }
    }
}

/// Review data is available exactly where the snapshot carries a current comparison of its
/// own scope that is complete for its rows, or one that was complete when it was first seen.
/// Otherwise nothing is shown as reviewed.
pub proof fn law_data_is_available_exactly_when_current(l: LedgerView, s: UiSnapshot)
    ensures
        ({
            let key = comparison_of(s);
            let seen = l.last_source == Some((key, s.agent_changeset_epoch));
            let after = synced(l, s);
            &&& active_of(after) is Some <==> is_current(s) && if seen {
                l.comparisons.dom().contains(key)
            } else {
                is_complete(s.files@, s.agent_changeset->0)
            }
            &&& active_of(after) is None ==> forall|target: SummaryView| #[trigger]
                state_of(after, target) == ReviewState::Unreviewed
        }),
{
    if is_current(s) {
        lemma_correlated_is_complete(s.files@, s.agent_changeset->0);
    }
}

/// A file counts as reviewed exactly where its own state says so.
pub proof fn law_progress_counts_shown_states(v: ReviewView, path: Seq<char>)
    ensures
        file_reviewed(v, path) <==> (file_state_of(v, path) == ReviewState::Explicit || file_state_of(v, path)
            == ReviewState::Inherited || file_state_of(v, path) == ReviewState::Reviewed),
{
}

/// Changed content invalidates every mark on that file: its own, those of its symbols, and
/// the part of a directory mark that covered it.
pub proof fn law_changed_content_is_unreviewed(
    v: ReviewView,
    revisions: Map<Seq<char>, Seq<char>>,
    files: Seq<FileRow>,
    path: Seq<char>,
)
    requires
        marks_current(v),
        v.revisions.dom().contains(path),
        revisions.dom().contains(path),
        revisions[path] != v.revisions[path],
    ensures
        file_state_of(with_symbols(revised(v, revisions), files), path) == ReviewState::Unreviewed,
{
    let after = with_symbols(revised(v, revisions), files);
    assert forall|d: Seq<char>| !#[trigger] covers(after, d, path, revisions[path]) by {
        if after.directory_coverage.dom().contains(d) {
            assert(after.directory_coverage[d] == coverage_kept(v.directory_coverage[d], d, revisions));
            if v.directory_coverage[d].dom().contains(path) {
                assert(maps_to(v.revisions, path, v.directory_coverage[d][path]));
            }
        }
    }
    lemma_inventory_files(v.symbols.restrict(paths_of(files)), files, files.len() as int);
    if after.symbols.dom().contains(path) {
        assert forall|s: SymbolView| #[trigger] after.symbols[path].contains(s) implies !symbol_marked(
            after,
            s,
            revisions[path],
        ) by {
            if after.explicit_symbols.dom().contains(s) {
                assert(mark_holds(v.revisions, v.symbols, s, v.explicit_symbols[s]));
                assert(mark_holds(revisions, after.symbols, s, v.explicit_symbols[s]));
            }
        }
        if after.symbols[path] != Set::<SymbolView>::empty() {
            if forall|s: SymbolView| !after.symbols[path].contains(s) {
                assert(after.symbols[path] =~= Set::<SymbolView>::empty());
            }
            let s = choose|s: SymbolView| after.symbols[path].contains(s);
            assert(!symbol_marked(after, s, revisions[path]));
        }
    }
    assert(!maps_to(after.explicit_files, path, revisions[path]));
}

/// Unchanged content keeps its marks.
pub proof fn law_unchanged_content_keeps_marks(
    v: ReviewView,
    revisions: Map<Seq<char>, Seq<char>>,
    files: Seq<FileRow>,
    path: Seq<char>,
)
    requires
        marks_current(v),
        v.revisions.dom().contains(path),
        maps_to(revisions, path, v.revisions[path]),
    ensures
        ({
            let after = with_symbols(revised(v, revisions), files);
            &&& maps_to(after.explicit_files, path, revisions[path]) <==> maps_to(
                v.explicit_files,
                path,
                v.revisions[path],
            )
            &&& forall|d: Seq<char>| #[trigger] covers(after, d, path, revisions[path]) <==> covers(
                v,
                d,
                path,
                v.revisions[path],
            )
        }),
{
    let after = with_symbols(revised(v, revisions), files);
    assert forall|d: Seq<char>| #[trigger] covers(after, d, path, revisions[path]) <==> covers(
        v,
        d,
        path,
        v.revisions[path],
    ) by {
        let kept = coverage_kept(v.directory_coverage[d], d, revisions);
        if covers(v, d, path, v.revisions[path]) {
            assert(v.directory_coverage[d].dom().contains(path));
            assert(kept.dom().contains(path));
            assert(after.directory_coverage.dom().contains(d));
            assert(after.directory_coverage[d] == kept);
        }
        if covers(after, d, path, revisions[path]) {
            assert(after.directory_coverage[d] == kept);
        }
    }
}

/// Every symbol of an inventory belongs to the file it is listed under.
pub open spec fn symbol_files(m: Map<Seq<char>, Set<SymbolView>>) -> bool {
    forall|p: Seq<char>, s: SymbolView| m.dom().contains(p) && #[trigger] m[p].contains(s) ==> s.file == p
}

proof fn lemma_inventory_files(m: Map<Seq<char>, Set<SymbolView>>, files: Seq<FileRow>, n: int)
    requires
        0 <= n <= files.len(),
    ensures
        symbol_files(m) ==> symbol_files(inventory(m, files, n)),
    decreases n,
{
    if n > 0 {
        lemma_inventory_files(m, files, n - 1);
    }
}

proof fn lemma_inventory_at(
    a: Map<Seq<char>, Set<SymbolView>>,
    b: Map<Seq<char>, Set<SymbolView>>,
    files: Seq<FileRow>,
    n: int,
    path: Seq<char>,
)
    requires
        0 <= n <= files.len(),
    ensures
        decides(files, n, path) ==> inventory(a, files, n).dom().contains(path) == inventory(b, files, n).dom().contains(
            path,
        ),
        decides(files, n, path) && inventory(a, files, n).dom().contains(path) ==> inventory(a, files, n)[path]
            == inventory(b, files, n)[path],
        !decides(files, n, path) ==> inventory(a, files, n).dom().contains(path) == a.dom().contains(path),
        !decides(files, n, path) && a.dom().contains(path) ==> inventory(a, files, n)[path] == a[path],
    decreases n,
{
    if n > 0 {
        lemma_inventory_at(a, b, files, n - 1, path);
    }
}

proof fn lemma_inventory_within(m: Map<Seq<char>, Set<SymbolView>>, files: Seq<FileRow>, n: int)
    requires
        0 <= n <= files.len(),
        m.dom().subset_of(paths_of(files)),
    ensures
        inventory(m, files, n).dom().subset_of(paths_of(files)),
    decreases n,
{
    if n > 0 {
        lemma_inventory_within(m, files, n - 1);
        assert(paths_of(files).contains(files[n - 1].path@));
    }
}

/// Seeing the same snapshot again changes nothing.
pub proof fn law_sync_is_idempotent(l: LedgerView, s: UiSnapshot)
    ensures
        synced(synced(l, s), s) == synced(l, s),
{
    let once = synced(l, s);
    let key = comparison_of(s);
    if is_current(s) && active_of(once) is Some {
        let files = s.files@;
        let n = files.len() as int;
        let v = once.comparisons[key];
        let before = if l.last_source == Some((key, s.agent_changeset_epoch)) {
            l.comparisons[key]
        } else if l.comparisons.dom().contains(key) {
            revised(l.comparisons[key], revisions_of(files, s.agent_changeset->0))
        } else {
            revised(empty_review(), revisions_of(files, s.agent_changeset->0))
        };
        assert(v == with_symbols(before, files));
        let again = with_symbols(v, files);
        let start = before.symbols.restrict(paths_of(files));
        lemma_inventory_within(start, files, n);
        assert(v.symbols.restrict(paths_of(files)) =~= v.symbols);
        assert forall|p: Seq<char>| #[trigger] again.symbols.dom().contains(p) == v.symbols.dom().contains(p) && (
        v.symbols.dom().contains(p) ==> again.symbols[p] == v.symbols[p]) by {
            lemma_inventory_at(v.symbols, start, files, n, p);
            lemma_inventory_at(start, v.symbols, files, n, p);
        }
        assert(again.symbols =~= v.symbols);
        assert(again.explicit_symbols =~= v.explicit_symbols);
        assert(again =~= v);
        assert(synced(once, s).comparisons =~= once.comparisons);
    }
}

/// Whether one of the first `n` rows settles the inventory of `path`.
spec fn decides(files: Seq<FileRow>, n: int, path: Seq<char>) -> bool
    decreases n,
{
    n > 0 && (decides(files, n - 1, path) || files[n - 1].path@ == path && (files[n - 1].semantic
        == FileSemanticLoad::Ready || files[n - 1].semantic == FileSemanticLoad::Unsupported))
}

} // verus!
