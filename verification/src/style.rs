//! Styled text: what a line says and how it is painted, without a terminal.

use vstd::prelude::*;
use crate::text::{display_width, str_width};

verus! {

/// The palette of the interface. One palette for everything: bold only for the product name,
/// selected labels, column headings, and changed words within a line.
#[derive(Debug, Clone, Copy, PartialEq, Eq, Structural)]
pub enum Tone {
    /// Top context and combined bottom bar background.
    Surface,
    /// Hunk-header band background.
    SurfaceAlt,
    /// Normal label / source text.
    Text,
    /// Context lines, paths, separators, gutters.
    Muted,
    /// Unfocused borders and inner dividers.
    Border,
    /// Focused border, product/repo, active symbol.
    Accent,
    /// Active list row background.
    SelectedBg,
    /// Owning file's background while one of its child symbols is active.
    OwnerBg,
    /// Added-line accent.
    AddFg,
    /// Restrained added-line body background.
    AddBg,
    /// Changed word in an added line.
    AddHi,
    /// Changed-word emphasis background (added).
    AddHiBg,
    /// Removed-line accent.
    DelFg,
    /// Restrained removed-line body background.
    DelBg,
    /// Changed word in a removed line.
    DelHi,
    /// Changed-word emphasis background (removed).
    DelHiBg,
    /// Modified status, warnings, stale/loading.
    Warn,
    /// Hunk-header band text.
    HunkFg,
    /// Background for source rows linked to the generated node under the pointer.
    CodeLinkBg,
    /// Failures / diagnostics.
    Error,
}

/// A color in red, green and blue.
pub open spec fn rgb_of(tone: Tone) -> (u8, u8, u8) {
    match tone {
        Tone::Surface => (24, 27, 32),
        Tone::SurfaceAlt => (31, 35, 41),
        Tone::Text => (210, 214, 220),
        Tone::Muted => (122, 128, 139),
        Tone::Border => (67, 73, 83),
        Tone::Accent => (91, 166, 255),
        Tone::SelectedBg => (46, 54, 66),
        Tone::OwnerBg => (35, 41, 50),
        Tone::AddFg => (100, 190, 120),
        Tone::AddBg => (27, 49, 35),
        Tone::AddHi => (151, 232, 166),
        Tone::AddHiBg => (46, 88, 58),
        Tone::DelFg => (225, 113, 122),
        Tone::DelBg => (58, 30, 35),
        Tone::DelHi => (255, 166, 172),
        Tone::DelHiBg => (101, 45, 53),
        Tone::Warn => (218, 174, 86),
        Tone::HunkFg => (132, 190, 229),
        Tone::CodeLinkBg => (64, 55, 34),
        Tone::Error => (238, 95, 101),
    }
}

impl Tone {
    /// The color in red, green and blue.
    pub fn rgb(self) -> (r: (u8, u8, u8))
        ensures
            r == rgb_of(self),
    {
        match self {
            Tone::Surface => (24, 27, 32),
            Tone::SurfaceAlt => (31, 35, 41),
            Tone::Text => (210, 214, 220),
            Tone::Muted => (122, 128, 139),
            Tone::Border => (67, 73, 83),
            Tone::Accent => (91, 166, 255),
            Tone::SelectedBg => (46, 54, 66),
            Tone::OwnerBg => (35, 41, 50),
            Tone::AddFg => (100, 190, 120),
            Tone::AddBg => (27, 49, 35),
            Tone::AddHi => (151, 232, 166),
            Tone::AddHiBg => (46, 88, 58),
            Tone::DelFg => (225, 113, 122),
            Tone::DelBg => (58, 30, 35),
            Tone::DelHi => (255, 166, 172),
            Tone::DelHiBg => (101, 45, 53),
            Tone::Warn => (218, 174, 86),
            Tone::HunkFg => (132, 190, 229),
            Tone::CodeLinkBg => (64, 55, 34),
            Tone::Error => (238, 95, 101),
        }
    }
}

/// How a piece of text is painted; an absent color is the terminal's own.
#[derive(Debug, Clone, Copy, PartialEq, Eq, Structural)]
pub struct Paint {
    pub fg: Option<Tone>,
    pub bg: Option<Tone>,
    pub bold: bool,
    pub underlined: bool,
}

/// No color and no emphasis.
pub open spec fn plain_paint() -> Paint {
    Paint { fg: None, bg: None, bold: false, underlined: false }
}

/// A text color alone.
pub open spec fn ink(tone: Tone) -> Paint {
    Paint { fg: Some(tone), bg: None, bold: false, underlined: false }
}

/// A text color on a background.
pub open spec fn ink_on(fg: Tone, bg: Option<Tone>) -> Paint {
    Paint { fg: Some(fg), bg, bold: false, underlined: false }
}

/// A paint with emphasis.
pub open spec fn bold_paint(paint: Paint) -> Paint {
    Paint { bold: true, ..paint }
}

impl Paint {
    /// No color and no emphasis.
    pub fn plain() -> (r: Paint)
        ensures
            r == plain_paint(),
    {
        Paint { fg: None, bg: None, bold: false, underlined: false }
    }

    /// A text color alone.
    pub fn ink(tone: Tone) -> (r: Paint)
        ensures
            r == ink(tone),
    {
        Paint { fg: Some(tone), bg: None, bold: false, underlined: false }
    }

    /// A text color on a background.
    pub fn ink_on(fg: Tone, bg: Option<Tone>) -> (r: Paint)
        ensures
            r == ink_on(fg, bg),
    {
        Paint { fg: Some(fg), bg, bold: false, underlined: false }
    }

    /// The same paint with emphasis.
    pub fn bold(self) -> (r: Paint)
        ensures
            r == bold_paint(self),
    {
        Paint { fg: self.fg, bg: self.bg, bold: true, underlined: self.underlined }
    }
}

/// A piece of text in one paint.
#[derive(Debug, Clone, PartialEq, Eq)]
pub struct Piece {
    pub text: String,
    pub paint: Paint,
}

/// A piece, by contents.
#[verifier::ext_equal]
pub struct PieceView {
    pub text: Seq<char>,
    pub paint: Paint,
}

/// One line of painted pieces.
#[derive(Debug, Clone, PartialEq, Eq)]
pub struct PaintedLine {
    pub pieces: Vec<Piece>,
}

impl View for PaintedLine {
    type V = Seq<PieceView>;

    open spec fn view(&self) -> Seq<PieceView> {
        Seq::new(
            self.pieces.len() as nat,
            |i: int| PieceView { text: self.pieces[i].text@, paint: self.pieces[i].paint },
        )
    }
}

/// Lines, by contents.
pub open spec fn line_views(lines: Seq<PaintedLine>) -> Seq<Seq<PieceView>> {
    Seq::new(lines.len(), |i: int| lines[i]@)
}

/// The text of a line without its paint.
pub open spec fn flat(line: Seq<PieceView>) -> Seq<char>
    decreases line.len(),
{
    if line.len() == 0 {
        Seq::empty()
    } else {
        flat(line.drop_last()) + line.last().text
    }
}

/// A line of one piece.
pub open spec fn single(text: Seq<char>, paint: Paint) -> Seq<PieceView> {
    seq![PieceView { text, paint }]
}

pub proof fn lemma_flat_push(line: Seq<PieceView>, piece: PieceView)
    ensures
        flat(line.push(piece)) == flat(line) + piece.text,
{
    assert(line.push(piece).drop_last() =~= line);
}

pub proof fn lemma_flat_concat(a: Seq<PieceView>, b: Seq<PieceView>)
    ensures
        flat(a + b) == flat(a) + flat(b),
    decreases b.len(),
{
    if b.len() == 0 {
        assert(a + b =~= a);
        assert(flat(a) + flat(b) =~= flat(a));
    } else {
        lemma_flat_concat(a, b.drop_last());
        assert((a + b).drop_last() =~= a + b.drop_last());
        assert((a + b).last() == b.last());
        assert(flat(a + b) =~= flat(a) + flat(b));
    }
}

impl PaintedLine {
    /// A line without any piece.
    pub fn empty() -> (r: PaintedLine)
        ensures
            r@ == Seq::<PieceView>::empty(),
    {
        let r = PaintedLine { pieces: Vec::new() };
        proof {
            assert(r@ =~= Seq::<PieceView>::empty());
        }
        r
    }

    /// A line of one piece.
    pub fn single(text: &str, paint: Paint) -> (r: PaintedLine)
        ensures
            r@ == single(text@, paint),
    {
        let mut r = PaintedLine::empty();
        r.push(text, paint);
        proof {
            assert(r@ =~= single(text@, paint));
        }
        r
    }

    /// Add a piece.
    pub fn push(&mut self, text: &str, paint: Paint)
        ensures
            final(self)@ == old(self)@.push(PieceView { text: text@, paint }),
    {
        let ghost before = self@;
        self.pieces.push(Piece { text: text.to_owned(), paint });
        proof {
            assert(self@ =~= before.push(PieceView { text: text@, paint }));
        }
    }

    /// The text without its paint.
    pub fn text(&self) -> (out: String)
        ensures
            out@ == flat(self@),
    {
        let mut out = String::new();
        let mut i: usize = 0;
        proof {
            assert(flat(self@.take(0)) =~= Seq::empty());
        }
        while i < self.pieces.len()
            invariant
                i <= self.pieces.len(),
                out@ == flat(self@.take(i as int)),
            decreases self.pieces.len() - i,
        {
            out.append(self.pieces[i].text.as_str());
            proof {
                assert(self@.take(i + 1).drop_last() =~= self@.take(i as int));
                assert(self@.take(i + 1).last() == self@[i as int]);
            }
            i = i + 1;
        }
        proof {
            assert(self@.take(self.pieces.len() as int) =~= self@);
        }
        out
    }
}

/// The first `n` pieces measured one by one, as far as `usize` reaches.
pub open spec fn pieces_width(line: Seq<PieceView>, n: int) -> int
    decreases n,
{
    if n <= 0 {
        0
    } else {
        let sum = pieces_width(line, n - 1) + display_width(line[n - 1].text);
        if sum > usize::MAX { usize::MAX as int } else { sum }
    }
}

/// The cells of a line, piece by piece.
pub open spec fn line_width(line: Seq<PieceView>) -> int {
    pieces_width(line, line.len() as int)
}

impl PaintedLine {
    /// The cells of the line, piece by piece.
    pub fn width(&self) -> (w: usize)
        ensures
            w == line_width(self@),
    {
        let mut w: usize = 0;
        let mut i: usize = 0;
        while i < self.pieces.len()
            invariant
                i <= self.pieces.len(),
                w == pieces_width(self@, i as int),
            decreases self.pieces.len() - i,
        {
            proof {
                assert(self@[i as int].text == self.pieces@[i as int].text@);
            }
            w = w.saturating_add(str_width(self.pieces[i].text.as_str()));
            i = i + 1;
        }
        w
    }
}

} // verus!
