//! World coordinates, and the viewport cells that a scene is drawn into.

use vstd::prelude::*;
use crate::action::{optional_target, PlanNodeTarget, TargetView};
use crate::diagram::DiagramRole;
use crate::num::{clamp_int, max_int, min_int};
use crate::rect::Rect;
use crate::table::Key;
use crate::text::{cells_of_char, char_cells_or_none, chars_of};

verus! {

/// A number as far as `i32` reaches.
pub open spec fn sat32(n: int) -> int {
    clamp_int(n, i32::MIN as int, i32::MAX as int)
}

/// A sum as far as `i32` reaches.
pub fn plus(a: i32, b: i32) -> (r: i32)
    ensures
        r == sat32(a + b),
{
    let sum: i64 = a as i64 + b as i64;
    if sum > i32::MAX as i64 {
        i32::MAX
    } else if sum < i32::MIN as i64 {
        i32::MIN
    } else {
        sum as i32
    }
}

/// A difference as far as `i32` reaches.
pub fn minus(a: i32, b: i32) -> (r: i32)
    ensures
        r == sat32(a - b),
{
    let difference: i64 = a as i64 - b as i64;
    if difference > i32::MAX as i64 {
        i32::MAX
    } else if difference < i32::MIN as i64 {
        i32::MIN
    } else {
        difference as i32
    }
}

/// A product of a count and a distance, as far as `i32` reaches.
pub fn times(n: usize, step: i32) -> (r: i32)
    requires
        step >= 0,
    ensures
        r == sat32(sat32(n as int) * step),
{
    let count: i64 = count32(n) as i64;
    let wide: i64 = step as i64;
    proof {
        assert(0 <= count * wide <= 0x7fff_ffff * 0x7fff_ffff) by (nonlinear_arith)
            requires
                0 <= count <= 0x7fff_ffff,
                0 <= wide <= 0x7fff_ffff,
        ;
    }
    let product: i64 = count * wide;
    if product > i32::MAX as i64 {
        i32::MAX
    } else {
        product as i32
    }
}

/// A count as far as `i32` reaches.
pub fn count32(n: usize) -> (r: i32)
    ensures
        r == sat32(n as int),
{
    if n > i32::MAX as usize {
        i32::MAX
    } else {
        n as i32
    }
}

pub fn max_i32(a: i32, b: i32) -> (r: i32)
    ensures
        r == max_int(a as int, b as int),
{
    if a > b {
        a
    } else {
        b
    }
}

pub fn min_i32(a: i32, b: i32) -> (r: i32)
    ensures
        r == min_int(a as int, b as int),
{
    if a < b {
        a
    } else {
        b
    }
}

/// A position on the virtual canvas, in signed world cells.
#[derive(Debug, Clone, Copy, PartialEq, Eq, Structural)]
pub struct PlanCanvasPoint {
    pub x: i32,
    pub y: i32,
}

impl View for PlanCanvasPoint {
    type V = PlanCanvasPoint;

    open spec fn view(&self) -> PlanCanvasPoint {
        *self
    }
}

impl Default for PlanCanvasPoint {
    fn default() -> (r: Self)
        ensures
            r == (PlanCanvasPoint { x: 0, y: 0 }),
    {
        PlanCanvasPoint { x: 0, y: 0 }
    }
}

/// Signed world-space rectangle.
#[derive(Debug, Clone, Copy, PartialEq, Eq, Structural)]
pub struct CanvasRect {
    pub x: i32,
    pub y: i32,
    pub width: i32,
    pub height: i32,
}

impl Default for CanvasRect {
    fn default() -> (r: Self)
        ensures
            r == no_area(),
    {
        CanvasRect { x: 0, y: 0, width: 0, height: 0 }
    }
}

/// The rectangle that holds nothing.
pub open spec fn no_area() -> CanvasRect {
    CanvasRect { x: 0, y: 0, width: 0, height: 0 }
}

/// The smallest rectangle around two; an empty first one counts for nothing.
pub open spec fn around(a: CanvasRect, b: CanvasRect) -> CanvasRect {
    if a.width == 0 || a.height == 0 {
        b
    } else {
        let left = min_int(a.x as int, b.x as int);
        let top = min_int(a.y as int, b.y as int);
        CanvasRect {
            x: left as i32,
            y: top as i32,
            width: sat32(max_int(a.spec_right(), b.spec_right()) - left) as i32,
            height: sat32(max_int(a.spec_bottom(), b.spec_bottom()) - top) as i32,
        }
    }
}

impl CanvasRect {
    /// The first column right of it.
    pub open spec fn spec_right(self) -> int {
        sat32(self.x + self.width)
    }

    /// The first row below it.
    pub open spec fn spec_bottom(self) -> int {
        sat32(self.y + self.height)
    }

    /// Whether two rectangles share a cell.
    pub open spec fn meets(self, other: CanvasRect) -> bool {
        self.x < other.spec_right() && self.spec_right() > other.x && self.y < other.spec_bottom()
            && self.spec_bottom() > other.y
    }

    /// The first column right of it.
    pub fn right(self) -> (r: i32)
        ensures
            r == self.spec_right(),
    {
        plus(self.x, self.width)
    }

    /// The first row below it.
    pub fn bottom(self) -> (r: i32)
        ensures
            r == self.spec_bottom(),
    {
        plus(self.y, self.height)
    }

    /// Whether two rectangles share a cell.
    pub fn intersects(self, other: Self) -> (r: bool)
        ensures
            r == self.meets(other),
    {
        self.x < other.right() && self.right() > other.x && self.y < other.bottom() && self.bottom() > other.y
    }

    /// Grow to hold another rectangle as well.
    pub fn include_rect(&mut self, other: Self)
        ensures
            *final(self) == around(*old(self), other),
    {
        if self.width == 0 || self.height == 0 {
            *self = other;
        } else {
            let left: i32 = min_i32(self.x, other.x);
            let top: i32 = min_i32(self.y, other.y);
            let right: i32 = max_i32(self.right(), other.right());
            let bottom: i32 = max_i32(self.bottom(), other.bottom());
            *self = CanvasRect { x: left, y: top, width: minus(right, left), height: minus(bottom, top) };
        }
    }
}

/// One drawn cell of the viewport.
#[derive(Debug, Clone)]
pub struct Cell {
    pub ch: char,
    pub role: DiagramRole,
    /// The box that the cell belongs to.
    pub target: Option<PlanNodeTarget>,
}

/// A drawn cell, by contents.
#[verifier::ext_equal]
pub struct CellView {
    pub ch: char,
    pub role: DiagramRole,
    pub target: Option<TargetView>,
}

impl View for Cell {
    type V = CellView;

    open spec fn view(&self) -> CellView {
        CellView { ch: self.ch, role: self.role, target: optional_target(self.target) }
    }
}

/// A cell of the viewport, drawn or not, by contents.
pub open spec fn cell_view(cell: Option<Cell>) -> Option<CellView> {
    match cell {
        Some(c) => Some(c@),
        None => None,
    }
}

/// A row of the viewport, by contents.
pub open spec fn row_view(row: Seq<Option<Cell>>) -> Seq<Option<CellView>> {
    Seq::new(row.len(), |c: int| cell_view(row[c]))
}

/// The viewport, by contents.
pub open spec fn grid_view(rows: Seq<Vec<Option<Cell>>>) -> Seq<Seq<Option<CellView>>> {
    Seq::new(rows.len(), |r: int| row_view(rows[r]@))
}

/// A viewport with nothing drawn.
pub open spec fn blank_grid(width: int, height: int) -> Seq<Seq<Option<CellView>>> {
    Seq::new(height as nat, |r: int| Seq::new(width as nat, |c: int| None))
}

/// The viewport with one cell drawn at all world cells of a rectangle, ends included.
pub open spec fn filled(
    g: Seq<Seq<Option<CellView>>>,
    origin: PlanCanvasPoint,
    x0: int,
    x1: int,
    y0: int,
    y1: int,
    cell: CellView,
) -> Seq<Seq<Option<CellView>>> {
    Seq::new(
        g.len(),
        |r: int|
            Seq::new(
                g[r].len(),
                |c: int|
                    if x0 <= c + origin.x <= x1 && y0 <= r + origin.y <= y1 {
                        Some(cell)
                    } else {
                        g[r][c]
                    },
            ),
    )
}

/// A fill that reaches no cell of the viewport changes nothing.
proof fn lemma_filled_outside(
    g: Seq<Seq<Option<CellView>>>,
    origin: PlanCanvasPoint,
    x0: int,
    x1: int,
    y0: int,
    y1: int,
    cell: CellView,
)
    requires
        forall|r: int, c: int|
            #![trigger g[r][c]]
            0 <= r < g.len() && 0 <= c < g[r].len() ==> !(x0 <= c + origin.x <= x1 && y0 <= r + origin.y <= y1),
    ensures
        filled(g, origin, x0, x1, y0, y1, cell) == g,
{
    let f = filled(g, origin, x0, x1, y0, y1, cell);
    assert forall|r: int| 0 <= r < g.len() implies #[trigger] f[r] == g[r] by {
        assert forall|c: int| 0 <= c < g[r].len() implies #[trigger] f[r][c] == g[r][c] by {
            assert(g[r][c] == g[r][c]);
        }
        assert(f[r] =~= g[r]);
    }
    assert(f =~= g);
}

/// Two fills that together reach the cells of a third draw the same.
proof fn lemma_filled_twice(
    g: Seq<Seq<Option<CellView>>>,
    origin: PlanCanvasPoint,
    a: (int, int, int, int),
    b: (int, int, int, int),
    t: (int, int, int, int),
    cell: CellView,
)
    requires
        forall|x: int, y: int|
            (#[trigger] in_box(t, x, y)) == (in_box(a, x, y) || in_box(b, x, y)),
    ensures
        filled(filled(g, origin, a.0, a.1, a.2, a.3, cell), origin, b.0, b.1, b.2, b.3, cell) == filled(
            g,
            origin,
            t.0,
            t.1,
            t.2,
            t.3,
            cell,
        ),
{
    let first = filled(g, origin, a.0, a.1, a.2, a.3, cell);
    let both = filled(first, origin, b.0, b.1, b.2, b.3, cell);
    let f = filled(g, origin, t.0, t.1, t.2, t.3, cell);
    assert forall|r: int| 0 <= r < g.len() implies #[trigger] both[r] == f[r] by {
        assert forall|c: int| 0 <= c < g[r].len() implies #[trigger] both[r][c] == f[r][c] by {
            assert(in_box(t, c + origin.x, r + origin.y) == (in_box(a, c + origin.x, r + origin.y) || in_box(
                b,
                c + origin.x,
                r + origin.y,
            )));
        }
        assert(both[r] =~= f[r]);
    }
    assert(both =~= f);
}

spec fn in_box(b: (int, int, int, int), x: int, y: int) -> bool {
    b.0 <= x <= b.1 && b.2 <= y <= b.3
}

/// A viewport with nothing drawn.
pub fn blank_cells(width: usize, height: usize) -> (cells: Vec<Vec<Option<Cell>>>)
    ensures
        grid_view(cells@) == blank_grid(width as int, height as int),
{
    let mut cells: Vec<Vec<Option<Cell>>> = Vec::new();
    let ghost blank = Seq::new(width as nat, |c: int| None::<CellView>);
    while cells.len() < height
        invariant
            cells.len() <= height,
            blank == Seq::new(width as nat, |c: int| None::<CellView>),
            forall|r: int| #![trigger cells@[r]] 0 <= r < cells.len() ==> row_view(cells@[r]@) == blank,
        decreases height - cells.len(),
    {
        let mut row: Vec<Option<Cell>> = Vec::new();
        while row.len() < width
            invariant
                row.len() <= width,
                forall|c: int| #![trigger row@[c]] 0 <= c < row.len() ==> row@[c] is None,
            decreases width - row.len(),
        {
            row.push(None);
        }
        proof {
            assert(row_view(row@) =~= blank);
        }
        cells.push(row);
    }
    proof {
        assert(grid_view(cells@) =~= blank_grid(width as int, height as int));
    }
    cells
}

/// Draw one cell at a world position; outside the viewport nothing is drawn.
pub fn put_char(cells: &mut Vec<Vec<Option<Cell>>>, x: i32, y: i32, cell: Cell, origin: PlanCanvasPoint)
    ensures
        grid_view(final(cells)@) == filled(
            grid_view(old(cells)@),
            origin,
            x as int,
            x as int,
            y as int,
            y as int,
            cell@,
        ),
{
    let ghost g = grid_view(cells@);
    let ghost f = filled(g, origin, x as int, x as int, y as int, y as int, cell@);
    let column: i64 = x as i64 - origin.x as i64;
    let line: i64 = y as i64 - origin.y as i64;
    if column < 0 || line < 0 {
        proof {
            lemma_filled_outside(g, origin, x as int, x as int, y as int, y as int, cell@);
        }
        return;
    }
    let c: usize = column as usize;
    let r: usize = line as usize;
    if r >= cells.len() || c >= cells[r].len() {
        proof {
            assert forall|i: int, k: int|
                #![trigger g[i][k]]
                0 <= i < g.len() && 0 <= k < g[i].len() implies !(x <= k + origin.x <= x && y <= i + origin.y <= y) by {
                if i == r {
                    assert(g[i].len() == cells@[i]@.len());
                }
            }
            lemma_filled_outside(g, origin, x as int, x as int, y as int, y as int, cell@);
        }
        return;
    }
    let ghost before = cells@;
    let row = &mut cells[r];
    row.set(c, Some(cell));
    proof {
        let g2 = grid_view(cells@);
        assert forall|i: int| 0 <= i < g.len() implies #[trigger] g2[i] == f[i] by {
            if i == r {
                assert(cells@[i]@ == before[i]@.update(c as int, Some(cell)));
                assert(g2[i] =~= f[i]);
            } else {
                assert(cells@[i] == before[i]);
                assert(g2[i] =~= f[i]);
            }
        }
        assert(g2 =~= f);
    }
}

fn arrow_cell(ch: char) -> (cell: Cell)
    ensures
        cell@ == arrow_ink(ch),
{
    Cell { ch, role: DiagramRole::Arrow, target: None }
}

/// A cell of a connector.
pub open spec fn arrow_ink(ch: char) -> CellView {
    CellView { ch, role: DiagramRole::Arrow, target: None }
}

/// What one straight piece of a connector draws. A piece that is neither horizontal nor
/// vertical draws nothing.
pub open spec fn segment_drawn(
    g: Seq<Seq<Option<CellView>>>,
    a: PlanCanvasPoint,
    b: PlanCanvasPoint,
    verified: bool,
    origin: PlanCanvasPoint,
) -> Seq<Seq<Option<CellView>>> {
    if a.y == b.y {
        filled(
            g,
            origin,
            min_int(a.x as int, b.x as int),
            max_int(a.x as int, b.x as int),
            a.y as int,
            a.y as int,
            arrow_ink(if verified { '─' } else { '┄' }),
        )
    } else if a.x == b.x {
        filled(
            g,
            origin,
            a.x as int,
            a.x as int,
            min_int(a.y as int, b.y as int),
            max_int(a.y as int, b.y as int),
            arrow_ink(if verified { '│' } else { '┊' }),
        )
    } else {
        g
    }
}

fn draw_row(cells: &mut Vec<Vec<Option<Cell>>>, from: i32, to: i32, y: i32, ch: char, origin: PlanCanvasPoint)
    requires
        from <= to,
    ensures
        grid_view(final(cells)@) == filled(
            grid_view(old(cells)@),
            origin,
            from as int,
            to as int,
            y as int,
            y as int,
            arrow_ink(ch),
        ),
{
    let ghost g = grid_view(cells@);
    let ghost ink = arrow_ink(ch);
    let line: i64 = y as i64 - origin.y as i64;
    if line < 0 || line as usize >= cells.len() {
        proof {
            lemma_filled_outside(g, origin, from as int, to as int, y as int, y as int, ink);
        }
        return;
    }
    let r: usize = line as usize;
    let width: usize = cells[r].len();
    let start: i64 = if from < origin.x { origin.x as i64 } else { from as i64 };
    let mut x: i64 = start;
    proof {
        lemma_filled_outside(g, origin, from as int, x - 1, y as int, y as int, ink);
        assert(g[r as int].len() == width);
    }
    while x <= to as i64 && ((x - origin.x as i64) as usize) < width
        invariant
            start <= x,
            x <= to + 1 || x == start,
            from <= start,
            origin.x <= start <= i32::MAX,
            r == y - origin.y,
            ink == arrow_ink(ch),
            r < g.len(),
            g[r as int].len() == width,
            from <= to,
            x <= i32::MAX + 1,
            grid_view(cells@) == filled(g, origin, from as int, x - 1, y as int, y as int, ink),
        decreases i32::MAX + 1 - x,
    {
        put_char(cells, x as i32, y, arrow_cell(ch), origin);
        proof {
            let a = (from as int, x - 1, y as int, y as int);
            let b = (x as int, x as int, y as int, y as int);
            let t = (from as int, x as int, y as int, y as int);
            lemma_filled_twice(g, origin, a, b, t, ink);
        }
        x = x + 1;
    }
    proof {
        let done = filled(g, origin, from as int, x - 1, y as int, y as int, ink);
        let f = filled(g, origin, from as int, to as int, y as int, y as int, ink);
        assert forall|i: int| 0 <= i < g.len() implies #[trigger] done[i] == f[i] by {
            assert(done[i] =~= f[i]);
        }
        assert(done =~= f);
    }
}

fn draw_column(cells: &mut Vec<Vec<Option<Cell>>>, x: i32, from: i32, to: i32, ch: char, origin: PlanCanvasPoint)
    requires
        from <= to,
    ensures
        grid_view(final(cells)@) == filled(
            grid_view(old(cells)@),
            origin,
            x as int,
            x as int,
            from as int,
            to as int,
            arrow_ink(ch),
        ),
{
    let ghost g = grid_view(cells@);
    let ghost ink = arrow_ink(ch);
    let height: usize = cells.len();
    let start: i64 = if from < origin.y { origin.y as i64 } else { from as i64 };
    let mut y: i64 = start;
    proof {
        lemma_filled_outside(g, origin, x as int, x as int, from as int, y - 1, ink);
    }
    while y <= to as i64 && ((y - origin.y as i64) as usize) < height
        invariant
            start <= y,
            y <= to + 1 || y == start,
            from <= start,
            origin.y <= start <= i32::MAX,
            ink == arrow_ink(ch),
            g.len() == height,
            from <= to,
            y <= i32::MAX + 1,
            grid_view(cells@) == filled(g, origin, x as int, x as int, from as int, y - 1, ink),
        decreases i32::MAX + 1 - y,
    {
        put_char(cells, x, y as i32, arrow_cell(ch), origin);
        proof {
            let a = (x as int, x as int, from as int, y - 1);
            let b = (x as int, x as int, y as int, y as int);
            let t = (x as int, x as int, from as int, y as int);
            lemma_filled_twice(g, origin, a, b, t, ink);
        }
        y = y + 1;
    }
    proof {
        let done = filled(g, origin, x as int, x as int, from as int, y - 1, ink);
        let f = filled(g, origin, x as int, x as int, from as int, to as int, ink);
        assert forall|i: int| 0 <= i < g.len() implies #[trigger] done[i] == f[i] by {
            assert(done[i] =~= f[i]);
        }
        assert(done =~= f);
    }
}

/// Draw one straight piece of a connector.
pub fn draw_segment(
    cells: &mut Vec<Vec<Option<Cell>>>,
    a: PlanCanvasPoint,
    b: PlanCanvasPoint,
    verified: bool,
    origin: PlanCanvasPoint,
)
    ensures
        grid_view(final(cells)@) == segment_drawn(grid_view(old(cells)@), a, b, verified, origin),
{
    if a.y == b.y {
        let ch: char = if verified { '─' } else { '┄' };
        draw_row(cells, min_i32(a.x, b.x), max_i32(a.x, b.x), a.y, ch, origin);
    } else if a.x == b.x {
        let ch: char = if verified { '│' } else { '┊' };
        draw_column(cells, a.x, min_i32(a.y, b.y), max_i32(a.y, b.y), ch, origin);
    }
}

/// Draw the head of a connector.
pub fn put_arrow(cells: &mut Vec<Vec<Option<Cell>>>, at: PlanCanvasPoint, ch: char, origin: PlanCanvasPoint)
    ensures
        grid_view(final(cells)@) == filled(
            grid_view(old(cells)@),
            origin,
            at.x as int,
            at.x as int,
            at.y as int,
            at.y as int,
            arrow_ink(ch),
        ),
{
    put_char(cells, at.x, at.y, arrow_cell(ch), origin);
}

/// The cells that a character takes on the canvas.
pub open spec fn span_of(c: char) -> int {
    if cells_of_char(c) > i32::MAX {
        0
    } else {
        cells_of_char(c)
    }
}

/// The column behind the first `n` characters of a text that starts at `x`.
pub open spec fn cursor_at(text: Seq<char>, x: int, n: int) -> int
    decreases n,
{
    if n <= 0 {
        x
    } else {
        sat32(cursor_at(text, x, n - 1) + span_of(text[n - 1]))
    }
}

/// The viewport with one character drawn; a wide one is followed by blanks.
pub open spec fn char_typed(
    g: Seq<Seq<Option<CellView>>>,
    c: char,
    x: int,
    y: int,
    role: DiagramRole,
    target: Option<TargetView>,
    origin: PlanCanvasPoint,
) -> Seq<Seq<Option<CellView>>> {
    if span_of(c) == 0 {
        g
    } else {
        filled(
            filled(g, origin, x, x, y, y, (CellView { ch: c, role, target })),
            origin,
            x + 1,
            min_int(x + span_of(c) - 1, i32::MAX as int),
            y,
            y,
            (CellView { ch: ' ', role, target }),
        )
    }
}

/// Drawing a character keeps the rows of the viewport.
pub proof fn lemma_char_keeps_rows(
    g: Seq<Seq<Option<CellView>>>,
    c: char,
    x: int,
    y: int,
    role: DiagramRole,
    target: Option<TargetView>,
    origin: PlanCanvasPoint,
)
    ensures
        char_typed(g, c, x, y, role, target, origin).len() == g.len(),
{
    let first = filled(g, origin, x, x, y, y, (CellView { ch: c, role, target }));
    assert(first.len() == g.len());
    let second = filled(
        first,
        origin,
        x + 1,
        min_int(x + span_of(c) - 1, i32::MAX as int),
        y,
        y,
        (CellView { ch: ' ', role, target }),
    );
    assert(second.len() == first.len());
}

/// The viewport with the first `n` characters of a text drawn from `(x, y)` on.
pub open spec fn text_typed(
    g: Seq<Seq<Option<CellView>>>,
    text: Seq<char>,
    n: int,
    x: int,
    y: int,
    role: DiagramRole,
    target: Option<TargetView>,
    origin: PlanCanvasPoint,
) -> Seq<Seq<Option<CellView>>>
    decreases n,
{
    if n <= 0 {
        g
    } else {
        char_typed(
            text_typed(g, text, n - 1, x, y, role, target, origin),
            text[n - 1],
            cursor_at(text, x, n - 1),
            y,
            role,
            target,
            origin,
        )
    }
}

fn inked(ch: char, role: DiagramRole, target: Option<&PlanNodeTarget>) -> (cell: Cell)
    ensures
        cell@.ch == ch,
        cell@.role == role,
        match target {
            Some(t) => cell@.target == Some(t@),
            None => cell@.target is None,
        },
{
    let copy: Option<PlanNodeTarget> = match target {
        Some(t) => Some(t.copied()),
        None => None,
    };
    Cell { ch, role, target: copy }
}

/// A borrowed target, by contents.
pub open spec fn borrowed_target(target: Option<&PlanNodeTarget>) -> Option<TargetView> {
    match target {
        Some(t) => Some(t@),
        None => None,
    }
}

fn put_wide(
    cells: &mut Vec<Vec<Option<Cell>>>,
    ch: char,
    x: i32,
    y: i32,
    span: i32,
    role: DiagramRole,
    target: Option<&PlanNodeTarget>,
    origin: PlanCanvasPoint,
)
    requires
        span == span_of(ch),
        span > 0,
    ensures
        grid_view(final(cells)@) == char_typed(
            grid_view(old(cells)@),
            ch,
            x as int,
            y as int,
            role,
            borrowed_target(target),
            origin,
        ),
{
    let ghost t = borrowed_target(target);
    let ghost blank = CellView { ch: ' ', role, target: t };
    put_char(cells, x, y, inked(ch, role, target), origin);
    let ghost g = grid_view(cells@);
    let mut k: i32 = 1;
    proof {
        lemma_filled_outside(g, origin, x + 1, x + k - 1, y as int, y as int, blank);
    }
    while k < span && x <= i32::MAX - k
        invariant
            1 <= k <= span,
            k >= 2 ==> x + k - 1 <= i32::MAX,
            t == borrowed_target(target),
            blank == (CellView { ch: ' ', role, target: t }),
            grid_view(cells@) == filled(g, origin, x + 1, x + k - 1, y as int, y as int, blank),
        decreases span - k,
    {
        let cell = inked(' ', role, target);
        put_char(cells, x + k, y, cell, origin);
        proof {
            assert(cell@ == blank);
            let a = (x + 1, x + k - 1, y as int, y as int);
            let b = (x + k, x + k, y as int, y as int);
            let done = (x + 1, x + k, y as int, y as int);
            lemma_filled_twice(g, origin, a, b, done, blank);
        }
        k = k + 1;
    }
    proof {
        if k < span && k == 1 {
            lemma_filled_outside(
                g,
                origin,
                x + 1,
                min_int(x + span - 1, i32::MAX as int),
                y as int,
                y as int,
                blank,
            );
        }
    }
}

/// Draw a text from a world position on; characters without cells are left out.
pub fn put_text(
    cells: &mut Vec<Vec<Option<Cell>>>,
    x: i32,
    y: i32,
    text: &str,
    role: DiagramRole,
    target: Option<&PlanNodeTarget>,
    origin: PlanCanvasPoint,
)
    ensures
        grid_view(final(cells)@) == text_typed(
            grid_view(old(cells)@),
            text@,
            text@.len() as int,
            x as int,
            y as int,
            role,
            borrowed_target(target),
            origin,
        ),
{
    let chars = chars_of(text);
    let ghost g = grid_view(cells@);
    let ghost t = borrowed_target(target);
    let mut cursor: i32 = x;
    let mut n: usize = 0;
    while n < chars.len()
        invariant
            n <= chars.len(),
            chars@ == text@,
            t == borrowed_target(target),
            cursor == cursor_at(text@, x as int, n as int),
            grid_view(cells@) == text_typed(g, text@, n as int, x as int, y as int, role, t, origin),
        decreases chars.len() - n,
    {
        let ch: char = chars[n];
        let wide: usize = char_cells_or_none(ch);
        let span: i32 = if wide > i32::MAX as usize { 0 } else { wide as i32 };
        if span > 0 {
            put_wide(cells, ch, cursor, y, span, role, target, origin);
            cursor = plus(cursor, span);
        }
        n = n + 1;
    }
}

/// One run of a drawn line with one style that belongs to one box.
#[derive(Debug, Clone)]
pub struct CanvasSpan {
    pub text: String,
    pub role: DiagramRole,
    pub target: Option<PlanNodeTarget>,
}

/// A run, by contents.
#[verifier::ext_equal]
pub struct CanvasSpanView {
    pub text: Seq<char>,
    pub role: DiagramRole,
    pub target: Option<TargetView>,
}

impl View for CanvasSpan {
    type V = CanvasSpanView;

    open spec fn view(&self) -> CanvasSpanView {
        CanvasSpanView { text: self.text@, role: self.role, target: optional_target(self.target) }
    }
}

/// One drawn line of the viewport.
#[derive(Debug, Clone)]
pub struct CanvasLine {
    pub spans: Vec<CanvasSpan>,
}

impl View for CanvasLine {
    type V = Seq<CanvasSpanView>;

    open spec fn view(&self) -> Seq<CanvasSpanView> {
        Seq::new(self.spans.len() as nat, |i: int| self.spans[i]@)
    }
}

/// The text of a drawn line.
pub open spec fn drawn_text(spans: Seq<CanvasSpanView>) -> Seq<char>
    decreases spans.len(),
{
    if spans.len() == 0 {
        Seq::empty()
    } else {
        drawn_text(spans.drop_last()) + spans.last().text
    }
}

impl CanvasLine {
    /// Plain text representation.
    pub fn text(&self) -> (out: String)
        ensures
            out@ == drawn_text(self@),
    {
        let mut out = String::new();
        let mut i: usize = 0;
        proof {
            assert(drawn_text(self@.take(0)) =~= Seq::empty());
        }
        while i < self.spans.len()
            invariant
                i <= self.spans.len(),
                out@ == drawn_text(self@.take(i as int)),
            decreases self.spans.len() - i,
        {
            out.append(self.spans[i].text.as_str());
            proof {
                assert(self@.take(i + 1).drop_last() =~= self@.take(i as int));
                assert(self@.take(i + 1).last() == self@[i as int]);
            }
            i = i + 1;
        }
        proof {
            assert(self@.take(self.spans.len() as int) =~= self@);
        }
        out
    }
}

/// How many of the first `n` cells of a row remain when undrawn ones at the end are dropped.
pub open spec fn drawn_extent(row: Seq<Option<CellView>>, n: int) -> int
    decreases n,
{
    if n <= 0 {
        0
    } else if row[n - 1] is Some {
        n
    } else {
        drawn_extent(row, n - 1)
    }
}

/// What stands in a cell; an undrawn one is a muted blank.
pub open spec fn shown_cell(cell: Option<CellView>) -> CellView {
    match cell {
        Some(c) => c,
        None => CellView { ch: ' ', role: DiagramRole::Muted, target: None },
    }
}

/// The runs of the first `n` cells of a row.
pub open spec fn runs_of(row: Seq<Option<CellView>>, n: int) -> Seq<CanvasSpanView>
    decreases n,
{
    if n <= 0 {
        Seq::empty()
    } else {
        let before = runs_of(row, n - 1);
        let cell = shown_cell(row[n - 1]);
        if before.len() > 0 && before.last().role == cell.role && before.last().target == cell.target {
            before.drop_last().push(
                CanvasSpanView {
                    text: before.last().text.push(cell.ch),
                    role: cell.role,
                    target: cell.target,
                },
            )
        } else {
            before.push(CanvasSpanView { text: seq![cell.ch], role: cell.role, target: cell.target })
        }
    }
}

/// The line that a row of cells shows.
pub open spec fn row_line(row: Seq<Option<CellView>>) -> Seq<CanvasSpanView> {
    runs_of(row, drawn_extent(row, row.len() as int))
}

fn same_target(a: &Option<PlanNodeTarget>, b: &Option<PlanNodeTarget>) -> (r: bool)
    ensures
        r == (optional_target(*a) == optional_target(*b)),
{
    match (a, b) {
        (Some(x), Some(y)) => x.same(y),
        (None, None) => true,
        _ => false,
    }
}

/// The line that a row of cells shows.
pub fn cells_to_line(row: &Vec<Option<Cell>>) -> (line: CanvasLine)
    ensures
        line@ == row_line(row_view(row@)),
{
    let ghost all = row_view(row@);
    let mut last: usize = row.len();
    while last > 0 && row[last - 1].is_none()
        invariant
            last <= row.len(),
            all == row_view(row@),
            drawn_extent(all, row.len() as int) == drawn_extent(all, last as int),
        decreases last,
    {
        last = last - 1;
    }
    let mut spans: Vec<CanvasSpan> = Vec::new();
    let mut n: usize = 0;
    let ghost mut views: Seq<CanvasSpanView> = Seq::empty();
    while n < last
        invariant
            n <= last <= row.len(),
            all == row_view(row@),
            views == runs_of(all, n as int),
            views.len() == spans.len(),
            forall|i: int| #![trigger spans@[i]] 0 <= i < spans.len() ==> spans@[i]@ == views[i],
        decreases last - n,
    {
        let (ch, role, target): (char, DiagramRole, Option<PlanNodeTarget>) = match &row[n] {
            Some(cell) => {
                let copy: Option<PlanNodeTarget> = match &cell.target {
                    Some(t) => Some(t.copied()),
                    None => None,
                };
                (cell.ch, cell.role, copy)
            },
            None => (' ', DiagramRole::Muted, None),
        };
        let ghost shown = shown_cell(all[n as int]);
        let ghost before = spans@;
        proof {
            assert(all[n as int] == cell_view(row@[n as int]));
            assert(shown == (CellView { ch, role, target: optional_target(target) }));
        }
        match spans.pop() {
            Some(mut span) => {
                proof {
                    assert(before.last() == span);
                    assert(before[before.len() - 1]@ == views.last());
                }
                if span.role == role && same_target(&span.target, &target) {
                    let ghost old_text = span.text@;
                    span.text.push(ch);
                    proof {
                        views = views.drop_last().push(
                            CanvasSpanView {
                                text: views.last().text.push(shown.ch),
                                role: shown.role,
                                target: shown.target,
                            },
                        );
                    }
                    spans.push(span);
                } else {
                    spans.push(span);
                    let mut text = String::new();
                    text.push(ch);
                    spans.push(CanvasSpan { text, role, target });
                    proof {
                        assert(text@ =~= seq![ch]);
                        views = views.push(
                            CanvasSpanView { text: seq![shown.ch], role: shown.role, target: shown.target },
                        );
                    }
                }
            },
            None => {
                let mut text = String::new();
                text.push(ch);
                spans.push(CanvasSpan { text, role, target });
                proof {
                    assert(text@ =~= seq![ch]);
                    views = views.push(
                        CanvasSpanView { text: seq![shown.ch], role: shown.role, target: shown.target },
                    );
                }
            },
        }
        n = n + 1;
    }
    let line = CanvasLine { spans };
    proof {
        assert(line@ =~= views);
    }
    line
}

/// The part of a world rectangle that the viewport shows, in viewport cells.
pub open spec fn clipped_rect(rect: CanvasRect, origin: PlanCanvasPoint, width: int, height: int) -> Option<Rect> {
    let left = max_int(rect.x - origin.x, 0);
    let top = max_int(rect.y - origin.y, 0);
    let right = min_int(rect.spec_right() - origin.x, width);
    let bottom = min_int(rect.spec_bottom() - origin.y, height);
    if left >= right || top >= bottom {
        None
    } else {
        Some(
            Rect {
                x: left as u16,
                y: top as u16,
                width: (right - left) as u16,
                height: (bottom - top) as u16,
            },
        )
    }
}

/// The part of a world rectangle that the viewport shows, in viewport cells.
pub fn clip_to_screen(rect: CanvasRect, origin: PlanCanvasPoint, width: u16, height: u16) -> (r: Option<Rect>)
    ensures
        r == clipped_rect(rect, origin, width as int, height as int),
{
    let left: i64 = rect.x as i64 - origin.x as i64;
    let left: i64 = if left < 0 { 0 } else { left };
    let top: i64 = rect.y as i64 - origin.y as i64;
    let top: i64 = if top < 0 { 0 } else { top };
    let right: i64 = rect.right() as i64 - origin.x as i64;
    let right: i64 = if right > width as i64 { width as i64 } else { right };
    let bottom: i64 = rect.bottom() as i64 - origin.y as i64;
    let bottom: i64 = if bottom > height as i64 { height as i64 } else { bottom };
    if left >= right || top >= bottom {
        None
    } else {
        Some(Rect { x: left as u16, y: top as u16, width: (right - left) as u16, height: (bottom - top) as u16 })
    }
}

/// What the viewport shows of a rectangle is never empty and never leaves the viewport.
pub proof fn law_clipped_rects_stay_inside(rect: CanvasRect, origin: PlanCanvasPoint, width: int, height: int)
    requires
        0 <= width <= u16::MAX,
        0 <= height <= u16::MAX,
    ensures
        clipped_rect(rect, origin, width, height) matches Some(r) ==> r.width > 0 && r.height > 0 && r.x + r.width
            <= width && r.y + r.height <= height,
{
}

} // verus!
