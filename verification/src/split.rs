//! Splitting an area into rows or columns.

use vstd::prelude::*;
use ratatui::layout::{Constraint, Direction, Layout};
use crate::rect::Rect;

verus! {

/// The direction in which an area is split.
#[derive(Debug, Clone, Copy, PartialEq, Eq, Structural)]
pub enum Axis {
    /// Rows, one below the other.
    Vertical,
    /// Columns, one beside the other.
    Horizontal,
}

/// What one part of an area asks for.
#[derive(Debug, Clone, Copy, PartialEq, Eq, Structural)]
pub enum Share {
    /// Exactly so many cells.
    Length(u16),
    /// At least so many cells, and all that nobody else asks for.
    Min(u16),
    /// So many percent of the whole.
    Percent(u16),
}

/// The cells a part asks for.
pub open spec fn asked(share: Share) -> int {
    match share {
        Share::Length(n) => n as int,
        Share::Min(n) => n as int,
        Share::Percent(_) => 0,
    }
}

/// The cells the first `n` parts ask for.
pub open spec fn asked_by(shares: Seq<Share>, n: int) -> int
    decreases n,
{
    if n <= 0 { 0 } else { asked_by(shares, n - 1) + asked(shares[n - 1]) }
}

/// How many of the first `n` parts take what is left.
pub open spec fn takers(shares: Seq<Share>, n: int) -> int
    decreases n,
{
    if n <= 0 { 0 } else { takers(shares, n - 1) + if shares[n - 1] is Min { 1int } else { 0int } }
}

/// The cells of an area along an axis.
pub open spec fn extent_along(axis: Axis, area: Rect) -> int {
    match axis {
        Axis::Vertical => area.height as int,
        Axis::Horizontal => area.width as int,
    }
}

/// The cells that nobody asks for.
pub open spec fn spare(axis: Axis, shares: Seq<Share>, area: Rect) -> int {
    extent_along(axis, area) - asked_by(shares, shares.len() as int)
}

/// A split in which every part gets what it asks for: all requests fit, and what is left goes
/// to the one part that takes it, or nothing is left.
pub open spec fn is_fair(axis: Axis, shares: Seq<Share>, area: Rect) -> bool {
    let n = shares.len() as int;
    &&& area.fits()
    &&& asked_by(shares, n) <= extent_along(axis, area)
    &&& takers(shares, n) == 1 || (takers(shares, n) == 0 && asked_by(shares, n) == extent_along(axis, area))
    &&& forall|i: int| 0 <= i < n && #[trigger] shares[i] is Min ==> asked(shares[i]) <= 32767
    &&& forall|i: int| 0 <= i < n ==> #[trigger] shares[i] !is Percent
}

/// The cells that part `i` gets.
pub open spec fn given(axis: Axis, shares: Seq<Share>, area: Rect, i: int) -> int {
    asked(shares[i]) + if shares[i] is Min { spare(axis, shares, area) } else { 0 }
}

/// The cells before part `n`.
pub open spec fn given_before(axis: Axis, shares: Seq<Share>, area: Rect, n: int) -> int
    decreases n,
{
    if n <= 0 { 0 } else { given_before(axis, shares, area, n - 1) + given(axis, shares, area, n - 1) }
}

/// The area of part `i`.
pub open spec fn part(axis: Axis, shares: Seq<Share>, area: Rect, i: int) -> Rect {
    let before = given_before(axis, shares, area, i);
    let cells = given(axis, shares, area, i);
    match axis {
        Axis::Vertical => Rect {
            x: area.x,
            y: (area.y + before) as u16,
            width: area.width,
            height: cells as u16,
        },
        Axis::Horizontal => Rect {
            x: (area.x + before) as u16,
            y: area.y,
            width: cells as u16,
            height: area.height,
        },
    }
}

/// The percentages of the first `n` parts together.
pub open spec fn percent_before(shares: Seq<Share>, n: int) -> int
    decreases n,
{
    if n <= 0 {
        0
    } else {
        percent_before(shares, n - 1) + match shares[n - 1] {
            Share::Percent(p) => p as int,
            _ => 0,
        }
    }
}

/// A split into percentages of the whole.
pub open spec fn is_shared_out(shares: Seq<Share>, area: Rect) -> bool {
    let n = shares.len() as int;
    &&& area.fits()
    &&& percent_before(shares, n) <= 100
    &&& forall|i: int| 0 <= i < n ==> #[trigger] shares[i] is Percent
}

/// Where a share of a length ends, rounded to a whole cell.
pub open spec fn share_end(start: int, length: int, percent: int) -> int {
    (100 * start + length * percent + 50) / 100
}

/// The area of part `i` of a split into percentages.
pub open spec fn percent_part(axis: Axis, shares: Seq<Share>, area: Rect, i: int) -> Rect {
    let (a, b) = (percent_before(shares, i), percent_before(shares, i + 1));
    match axis {
        Axis::Vertical => {
            let from = share_end(area.y as int, area.height as int, a);
            let to = share_end(area.y as int, area.height as int, b);
            Rect { y: from as u16, height: (to - from) as u16, ..area }
        },
        Axis::Horizontal => {
            let from = share_end(area.x as int, area.width as int, a);
            let to = share_end(area.x as int, area.width as int, b);
            Rect { x: from as u16, width: (to - from) as u16, ..area }
        },
    }
}

/// `ratatui::layout::Layout::split`. Where all requests fit, a length is met exactly, the one
/// minimum takes the rest, and the parts follow each other from the start of the area. Of
/// percentages that do not exceed the whole, every part gets its share with its ends rounded
/// to whole cells, and what is left stays behind the last. Across the direction a part is as large as the area. Of other requests nothing is
/// said.
#[verifier::external_body]
pub(crate) fn split_area(axis: Axis, shares: &Vec<Share>, area: Rect) -> (parts: Vec<Rect>)
    requires
        is_fair(axis, shares@, area) || is_shared_out(shares@, area),
    ensures
        parts.len() == shares.len(),
        is_fair(axis, shares@, area) ==> forall|i: int|
            0 <= i < parts.len() ==> #[trigger] parts@[i] == part(axis, shares@, area, i),
        is_shared_out(shares@, area) ==> forall|i: int|
            0 <= i < parts.len() ==> #[trigger] parts@[i] == percent_part(axis, shares@, area, i),
{
    let direction = match axis {
        Axis::Vertical => Direction::Vertical,
        Axis::Horizontal => Direction::Horizontal,
    };
    let constraints = shares.iter().map(|share| match share {
        Share::Length(n) => Constraint::Length(*n),
        Share::Min(n) => Constraint::Min(*n),
        Share::Percent(n) => Constraint::Percentage(*n),
    });
    let whole = ratatui::layout::Rect { x: area.x, y: area.y, width: area.width, height: area.height };
    let parts = Layout::new(direction, constraints).split(whole);
    parts.iter().map(|r| Rect { x: r.x, y: r.y, width: r.width, height: r.height }).collect()
}

/// The middle one of three parts of an area that take `side`, `middle` and `side` percent.
pub open spec fn middle_part(axis: Axis, side: int, middle: int, area: Rect) -> Rect {
    match axis {
        Axis::Vertical => {
            let from = share_end(area.y as int, area.height as int, side);
            let to = share_end(area.y as int, area.height as int, side + middle);
            Rect { y: from as u16, height: (to - from) as u16, ..area }
        },
        Axis::Horizontal => {
            let from = share_end(area.x as int, area.width as int, side);
            let to = share_end(area.x as int, area.width as int, side + middle);
            Rect { x: from as u16, width: (to - from) as u16, ..area }
        },
    }
}

/// The middle one of three parts of an area that take `side`, `middle` and `side` percent.
pub fn middle_share(axis: Axis, side: u16, middle: u16, area: Rect) -> (r: Rect)
    requires
        2 * side + middle <= 100,
        area.fits(),
    ensures
        r == middle_part(axis, side as int, middle as int, area),
{
    let mut shares: Vec<Share> = Vec::new();
    shares.push(Share::Percent(side));
    shares.push(Share::Percent(middle));
    shares.push(Share::Percent(side));
    let ghost s = shares@;
    proof {
        assert(s =~= seq![Share::Percent(side), Share::Percent(middle), Share::Percent(side)]);
        reveal_with_fuel(percent_before, 4);
        assert(percent_before(s, 3) <= 100);
        assert(is_shared_out(s, area));
    }
    let parts = split_area(axis, &shares, area);
    parts[1]
}

/// The two parts of an area with one fixed part.
pub open spec fn two_parts(axis: Axis, first: Share, second: Share, area: Rect) -> (Rect, Rect) {
    let shares = seq![first, second];
    (part(axis, shares, area, 0), part(axis, shares, area, 1))
}

/// Split an area in two.
pub fn split_two(axis: Axis, first: Share, second: Share, area: Rect) -> (r: (Rect, Rect))
    requires
        is_fair(axis, seq![first, second], area),
    ensures
        r == two_parts(axis, first, second, area),
{
    let mut shares: Vec<Share> = Vec::new();
    shares.push(first);
    shares.push(second);
    proof {
        assert(shares@ =~= seq![first, second]);
    }
    let parts = split_area(axis, &shares, area);
    (parts[0], parts[1])
}

/// A part of `a` cells, then the rest.
pub proof fn lemma_length_then_rest(axis: Axis, a: u16, min: u16, area: Rect)
    requires
        area.fits(),
        a + min <= extent_along(axis, area),
        min <= 32767,
    ensures
        is_fair(axis, seq![Share::Length(a), Share::Min(min)], area),
        ({
            let (p, q) = two_parts(axis, Share::Length(a), Share::Min(min), area);
            match axis {
                Axis::Vertical => p == (Rect { height: a, ..area }) && q == (Rect {
                    y: (area.y + a) as u16,
                    height: (area.height - a) as u16,
                    ..area
                }),
                Axis::Horizontal => p == (Rect { width: a, ..area }) && q == (Rect {
                    x: (area.x + a) as u16,
                    width: (area.width - a) as u16,
                    ..area
                }),
            }
        }),
{
    let s = seq![Share::Length(a), Share::Min(min)];
    assert(s[0] == Share::Length(a) && s[1] == Share::Min(min));
    assert(asked_by(s, 2) == a + min) by {
        reveal_with_fuel(asked_by, 3);
    }
    assert(takers(s, 2) == 1) by {
        reveal_with_fuel(takers, 3);
    }
    reveal_with_fuel(given_before, 3);
}

/// The rest, then a part of `b` cells.
pub proof fn lemma_rest_then_length(axis: Axis, min: u16, b: u16, area: Rect)
    requires
        area.fits(),
        b + min <= extent_along(axis, area),
        min <= 32767,
    ensures
        is_fair(axis, seq![Share::Min(min), Share::Length(b)], area),
        ({
            let (p, q) = two_parts(axis, Share::Min(min), Share::Length(b), area);
            match axis {
                Axis::Vertical => p == (Rect { height: (area.height - b) as u16, ..area }) && q == (Rect {
                    y: (area.y + area.height - b) as u16,
                    height: b,
                    ..area
                }),
                Axis::Horizontal => p == (Rect { width: (area.width - b) as u16, ..area }) && q == (Rect {
                    x: (area.x + area.width - b) as u16,
                    width: b,
                    ..area
                }),
            }
        }),
{
    let s = seq![Share::Min(min), Share::Length(b)];
    assert(s[0] == Share::Min(min) && s[1] == Share::Length(b));
    assert(asked_by(s, 2) == b + min) by {
        reveal_with_fuel(asked_by, 3);
    }
    assert(takers(s, 2) == 1) by {
        reveal_with_fuel(takers, 3);
    }
    reveal_with_fuel(given_before, 3);
}

/// Two parts that make up the whole.
pub proof fn lemma_two_lengths(axis: Axis, a: u16, b: u16, area: Rect)
    requires
        area.fits(),
        a + b == extent_along(axis, area),
    ensures
        is_fair(axis, seq![Share::Length(a), Share::Length(b)], area),
        ({
            let (p, q) = two_parts(axis, Share::Length(a), Share::Length(b), area);
            match axis {
                Axis::Vertical => p == (Rect { height: a, ..area }) && q == (Rect {
                    y: (area.y + a) as u16,
                    height: b,
                    ..area
                }),
                Axis::Horizontal => p == (Rect { width: a, ..area }) && q == (Rect {
                    x: (area.x + a) as u16,
                    width: b,
                    ..area
                }),
            }
        }),
{
    let s = seq![Share::Length(a), Share::Length(b)];
    assert(s[0] == Share::Length(a) && s[1] == Share::Length(b));
    assert(asked_by(s, 2) == a + b) by {
        reveal_with_fuel(asked_by, 3);
    }
    assert(takers(s, 2) == 0) by {
        reveal_with_fuel(takers, 3);
    }
    reveal_with_fuel(given_before, 3);
}

/// The rows of a frame: one bar on top, one at the bottom, and the body between them.
pub open spec fn body_row(area: Rect) -> Rect {
    Rect { y: (area.y + 1) as u16, height: (area.height - 2) as u16, ..area }
}

/// The last row of an area.
pub open spec fn last_row(area: Rect) -> Rect {
    Rect { y: (area.y + area.height - 1) as u16, height: 1, ..area }
}

/// The top bar, the body and the bottom bar of a frame without other rows.
pub fn focus_rows(area: Rect) -> (r: (Rect, Rect, Rect))
    requires
        area.fits(),
        area.height >= 5,
    ensures
        r.0 == (Rect { height: 1, ..area }),
        r.1 == body_row(area),
        r.2 == last_row(area),
{
    let mut shares: Vec<Share> = Vec::new();
    shares.push(Share::Length(1));
    shares.push(Share::Min(3));
    shares.push(Share::Length(1));
    let ghost s = shares@;
    proof {
        assert(s =~= seq![Share::Length(1), Share::Min(3), Share::Length(1)]);
        assert(asked_by(s, 3) == 5) by {
            reveal_with_fuel(asked_by, 4);
        }
        assert(takers(s, 3) == 1) by {
            reveal_with_fuel(takers, 4);
        }
        assert(is_fair(Axis::Vertical, s, area));
    }
    let parts = split_area(Axis::Vertical, &shares, area);
    proof {
        reveal_with_fuel(given_before, 4);
    }
    (parts[0], parts[1], parts[2])
}

/// The top bar, the work row, the Impact pane of `impact` rows and the bottom bar.
pub fn normal_rows(area: Rect, impact: u16) -> (r: (Rect, Rect, Rect, Rect))
    requires
        area.fits(),
        9 + impact <= area.height,
    ensures
        r.0 == (Rect { height: 1, ..area }),
        r.1 == (Rect { y: (area.y + 1) as u16, height: (area.height - 2 - impact) as u16, ..area }),
        r.2 == (Rect { y: (area.y + area.height - 1 - impact) as u16, height: impact, ..area }),
        r.3 == last_row(area),
{
    let mut shares: Vec<Share> = Vec::new();
    shares.push(Share::Length(1));
    shares.push(Share::Min(7));
    shares.push(Share::Length(impact));
    shares.push(Share::Length(1));
    let ghost s = shares@;
    proof {
        assert(s =~= seq![Share::Length(1), Share::Min(7), Share::Length(impact), Share::Length(1)]);
        assert(asked_by(s, 4) == 9 + impact) by {
            reveal_with_fuel(asked_by, 5);
        }
        assert(takers(s, 4) == 1) by {
            reveal_with_fuel(takers, 5);
        }
        assert(is_fair(Axis::Vertical, s, area));
    }
    let parts = split_area(Axis::Vertical, &shares, area);
    proof {
        reveal_with_fuel(given_before, 5);
    }
    (parts[0], parts[1], parts[2], parts[3])
}

/// Three rows that make up an area.
pub fn three_rows(area: Rect, a: u16, b: u16, c: u16) -> (r: (Rect, Rect, Rect))
    requires
        area.fits(),
        a + b + c == area.height,
    ensures
        r.0 == (Rect { height: a, ..area }),
        r.1 == (Rect { y: (area.y + a) as u16, height: b, ..area }),
        r.2 == (Rect { y: (area.y + a + b) as u16, height: c, ..area }),
{
    let mut shares: Vec<Share> = Vec::new();
    shares.push(Share::Length(a));
    shares.push(Share::Length(b));
    shares.push(Share::Length(c));
    let ghost s = shares@;
    proof {
        assert(s =~= seq![Share::Length(a), Share::Length(b), Share::Length(c)]);
        assert(asked_by(s, 3) == a + b + c) by {
            reveal_with_fuel(asked_by, 4);
        }
        assert(takers(s, 3) == 0) by {
            reveal_with_fuel(takers, 4);
        }
        assert(is_fair(Axis::Vertical, s, area));
    }
    let parts = split_area(Axis::Vertical, &shares, area);
    proof {
        reveal_with_fuel(given_before, 4);
    }
    (parts[0], parts[1], parts[2])
}

} // verus!
