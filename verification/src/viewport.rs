//! Where the diff pane stands: which viewport it shows, and where a viewport begins that was
//! never shown before.

use vstd::prelude::*;
use crate::app::{row_line, side_line};
use crate::file_rows::same_position;
use crate::num::sat16;
use crate::plan::DiffSide;
use crate::snapshot::{ChangeScope, DiffRow, SymbolRow};
use crate::table::Key;
use crate::text::same_text;

verus! {

/// Identity of one language-server object inside its file.
#[derive(Debug, Clone, PartialEq, Eq)]
pub struct ObjectKey {
    pub name: String,
    pub position: Option<(u32, u32)>,
}

/// Stable identity of one diff viewport: a file of a comparison, or one object in it.
#[derive(Debug, Clone, PartialEq, Eq)]
pub struct ViewportKey {
    pub scope: ChangeScope,
    pub file: String,
    pub object: Option<ObjectKey>,
}

/// An object inside its file, by contents.
#[verifier::ext_equal]
pub struct ObjectView {
    pub name: Seq<char>,
    pub position: Option<(u32, u32)>,
}

/// A diff viewport, by contents.
#[verifier::ext_equal]
pub struct ViewportView {
    pub scope: ChangeScope,
    pub file: Seq<char>,
    pub object: Option<ObjectView>,
}

impl View for ObjectKey {
    type V = ObjectView;

    open spec fn view(&self) -> ObjectView {
        ObjectView { name: self.name@, position: self.position }
    }
}

/// An optional object, by contents.
pub open spec fn optional_object(object: Option<ObjectKey>) -> Option<ObjectView> {
    match object {
        Some(o) => Some(o@),
        None => None,
    }
}

impl View for ViewportKey {
    type V = ViewportView;

    open spec fn view(&self) -> ViewportView {
        ViewportView { scope: self.scope, file: self.file@, object: optional_object(self.object) }
    }
}

/// An optional viewport, by contents.
pub open spec fn optional_viewport(key: Option<ViewportKey>) -> Option<ViewportView> {
    match key {
        Some(k) => Some(k@),
        None => None,
    }
}

impl Key for ViewportKey {
    fn same(&self, other: &Self) -> (r: bool) {
        let object: bool = match (&self.object, &other.object) {
            (Some(a), Some(b)) => same_text(a.name.as_str(), b.name.as_str()) && same_position(a.position, b.position),
            (None, None) => true,
            _ => false,
        };
        self.scope == other.scope && same_text(self.file.as_str(), other.file.as_str()) && object
    }

    fn copied(&self) -> (r: Self) {
        let object = match &self.object {
            Some(o) => Some(ObjectKey { name: o.name.clone(), position: o.position }),
            None => None,
        };
        ViewportKey { scope: self.scope, file: self.file.clone(), object }
    }
}

/// Whether two optional viewports are the same one.
pub fn same_viewport(a: &Option<ViewportKey>, b: &Option<ViewportKey>) -> (r: bool)
    ensures
        r == (optional_viewport(*a) == optional_viewport(*b)),
{
    match (a, b) {
        (Some(x), Some(y)) => x.same(y),
        (None, None) => true,
        _ => false,
    }
}

/// Where a viewport stands: its first row and its first column.
#[derive(Debug, Clone, Copy, PartialEq, Eq, Structural)]
pub struct DiffPosition {
    pub row: u16,
    pub column: u16,
}

/// Where a viewport stands, in numbers.
#[verifier::ext_equal]
pub struct PositionView {
    pub row: int,
    pub column: int,
}

impl View for DiffPosition {
    type V = PositionView;

    open spec fn view(&self) -> PositionView {
        PositionView { row: self.row as int, column: self.column as int }
    }
}

/// The first row from `i` on that stands at a line or below it, on one side.
pub open spec fn first_row_at(rows: Seq<DiffRow>, side: DiffSide, line: int, i: int) -> Option<int>
    decreases rows.len() - i,
{
    if 0 <= i < rows.len() {
        if side_line(rows[i], side) is Some && side_line(rows[i], side)->0 >= line {
            Some(i)
        } else {
            first_row_at(rows, side, line, i + 1)
        }
    } else {
        None
    }
}

/// Whether a row is an added or a removed line.
pub open spec fn is_change(row: DiffRow) -> bool {
    row is Add || row is Del
}

/// The first changed row from `i` on.
pub open spec fn first_change(rows: Seq<DiffRow>, i: int) -> Option<int>
    decreases rows.len() - i,
{
    if 0 <= i < rows.len() {
        if is_change(rows[i]) {
            Some(i)
        } else {
            first_change(rows, i + 1)
        }
    } else {
        None
    }
}

/// The side of the diff that an object stands on: the old one where it was removed.
pub open spec fn object_side(symbol: SymbolRow) -> DiffSide {
    if symbol.change@ == "removed"@ { DiffSide::Old } else { DiffSide::New }
}

/// The first changed row of an object: the first one that does not stand above the line of
/// its identifier. Positions count lines from zero, diff rows from one.
pub open spec fn object_row(rows: Seq<DiffRow>, symbol: SymbolRow) -> Option<int> {
    match symbol.position {
        Some(p) => match first_row_at(rows, object_side(symbol), p.0 + 1, 0) {
            Some(i) => first_change(rows, i),
            None => None,
        },
        None => None,
    }
}

/// Where the viewport of an object, or of a whole file, begins: at the object's first changed
/// row, else at the top.
pub open spec fn first_position(rows: Seq<DiffRow>, symbol: Option<SymbolRow>) -> PositionView {
    let row = match symbol {
        Some(s) => match object_row(rows, s) {
            Some(i) => sat16(i),
            None => 0,
        },
        None => 0,
    };
    PositionView { row, column: 0 }
}

/// The first changed row of an object.
pub fn first_object_row(rows: &Vec<DiffRow>, symbol: &SymbolRow) -> (r: Option<usize>)
    ensures
        match r {
            Some(i) => object_row(rows@, *symbol) == Some(i as int),
            None => object_row(rows@, *symbol) is None,
        },
        r matches Some(i) ==> i < rows.len(),
{
    let line: u64 = match symbol.position {
        Some(p) => p.0 as u64 + 1,
        None => {
            return None;
        },
    };
    let side: DiffSide = if same_text(symbol.change, "removed") { DiffSide::Old } else { DiffSide::New };
    let mut i: usize = 0;
    let mut reached: bool = false;
    while i < rows.len() && !reached
        invariant
            i <= rows.len(),
            side == object_side(*symbol),
            !reached ==> first_row_at(rows@, side, line as int, 0) == first_row_at(rows@, side, line as int, i as int),
            reached ==> first_row_at(rows@, side, line as int, 0) == Some(i as int) && i < rows.len(),
        decreases rows.len() - i, if reached { 0int } else { 1int },
    {
        match row_line(&rows[i], side) {
            Some(n) => if n as u64 >= line {
                reached = true;
            } else {
                i = i + 1;
            },
            None => {
                i = i + 1;
            },
        }
    }
    if !reached {
        return None;
    }
    while i < rows.len()
        invariant
            i <= rows.len(),
            object_row(rows@, *symbol) == first_change(rows@, i as int),
        decreases rows.len() - i,
    {
        match &rows[i] {
            DiffRow::Add { .. } | DiffRow::Del { .. } => {
                return Some(i);
            },
            _ => {},
        }
        i = i + 1;
    }
    None
}

/// No changed row of an object stands before the one it begins at, from its identifier on.
pub proof fn law_object_row_is_first(rows: Seq<DiffRow>, symbol: SymbolRow)
    ensures
        object_row(rows, symbol) matches Some(i) ==> {
            let line = (symbol.position->0).0 + 1;
            &&& 0 <= i < rows.len()
            &&& is_change(rows[i])
            &&& exists|start: int|
                0 <= start <= i && #[trigger] side_line(rows[start], object_side(symbol)) is Some && side_line(
                    rows[start],
                    object_side(symbol),
                )->0 >= line && forall|k: int|
                    #![trigger rows[k]]
                    start <= k < i ==> !is_change(rows[k])
        },
{
    match symbol.position {
        Some(p) => {
            lemma_first_row_at(rows, object_side(symbol), p.0 + 1, 0);
            match first_row_at(rows, object_side(symbol), p.0 + 1, 0) {
                Some(start) => {
                    lemma_first_change(rows, start);
                },
                None => {},
            }
        },
        None => {},
    }
}

proof fn lemma_first_row_at(rows: Seq<DiffRow>, side: DiffSide, line: int, i: int)
    requires
        0 <= i,
    ensures
        first_row_at(rows, side, line, i) matches Some(k) ==> i <= k < rows.len() && side_line(rows[k], side) is Some
            && side_line(rows[k], side)->0 >= line,
    decreases rows.len() - i,
{
    if i < rows.len() {
        lemma_first_row_at(rows, side, line, i + 1);
    }
}

proof fn lemma_first_change(rows: Seq<DiffRow>, i: int)
    requires
        0 <= i,
    ensures
        first_change(rows, i) matches Some(k) ==> i <= k < rows.len() && is_change(rows[k]) && forall|j: int|
            #![trigger rows[j]]
            i <= j < k ==> !is_change(rows[j]),
    decreases rows.len() - i,
{
    if i < rows.len() {
        lemma_first_change(rows, i + 1);
    }
}

} // verus!
