//! The dialogs above the panes: help, the two pickers, and the full text of a status message.

use vstd::prelude::*;
use crate::app::{app_view, candidates, filter_candidates, App, AppView};
use crate::chrome::piece;
use crate::diff_view::capped;
use crate::num::{clamp_int, max_int, max_u16, min_int, min_u16, min_usize, monus, sat16, sat_u16};
use crate::rect::Rect;
use crate::snapshot::UiSnapshot;
use crate::split::{middle_part, middle_share, share_end, Axis};
use crate::style::{bold_paint, ink, line_views, plain_paint, single, Paint, PaintedLine, PieceView, Tone};
use crate::text::{concat, display_width, joined, same_text, slices, split_on, split_text, str_width, texts};
use crate::wrap::{is_blank, trim, trimmed};

verus! {

/// The words of a text and what is between them, in order.
pub uninterp spec fn word_bounds_of(s: Seq<char>) -> Seq<Seq<char>>;

/// `unicode_segmentation::UnicodeSegmentation::split_word_bounds`: where the boundaries lie
/// is a function of the characters, and the parts in order make up the text.
#[verifier::external_body]
fn word_bounds(s: &str) -> (r: Vec<String>)
    ensures
        texts(r@) == word_bounds_of(s@),
        concat(texts(r@)) == s@,
{
    unicode_segmentation::UnicodeSegmentation::split_word_bounds(s).map(String::from).collect()
}

/// A line while it is wrapped: its rows so far, and the cells taken in the last one.
#[verifier::ext_equal]
pub struct Rows {
    pub rows: int,
    pub used: int,
}

/// One more token of a line. It moves to the next row where it does not fit behind what is
/// there, and is cut where no row can hold it.
pub open spec fn token_step(r: Rows, cells: int, width: int) -> Rows {
    if cells == 0 {
        r
    } else {
        let start = if r.used > 0 && r.used + cells > width { Rows { rows: r.rows + 1, used: 0 } } else { r };
        if cells <= width {
            Rows { rows: start.rows, used: start.used + cells }
        } else if cells % width == 0 {
            Rows { rows: start.rows + cells / width - 1, used: width }
        } else {
            Rows { rows: start.rows + cells / width, used: cells % width }
        }
    }
}

/// The first `n` tokens of a line.
pub open spec fn rows_of(tokens: Seq<Seq<char>>, width: int, n: int) -> Rows
    decreases n,
{
    if n <= 0 {
        Rows { rows: 1, used: 0 }
    } else {
        token_step(rows_of(tokens, width, n - 1), display_width(tokens[n - 1]) as int, width)
    }
}

/// The rows of one line.
pub open spec fn line_rows(line: Seq<char>, width: int) -> int {
    let tokens = word_bounds_of(line);
    rows_of(tokens, width, tokens.len() as int).rows
}

/// The rows of the first `n` lines.
pub open spec fn total_rows(lines: Seq<Seq<char>>, width: int, n: int) -> int
    decreases n,
{
    if n <= 0 {
        0
    } else {
        total_rows(lines, width, n - 1) + line_rows(lines[n - 1], width)
    }
}

/// The rows of a text in a number of cells.
pub open spec fn text_rows(text: Seq<char>, width: int) -> int {
    let lines = split_on(text, '\n');
    total_rows(lines, max_int(width, 1), lines.len() as int)
}

/// Count the rows of a line from its tokens.
pub fn count_token_rows(tokens: &Vec<String>, width: usize) -> (n: usize)
    requires
        0 < width <= u16::MAX,
    ensures
        n == capped(rows_of(texts(tokens@), width as int, tokens.len() as int).rows),
        n >= 1,
{
    let ghost all = texts(tokens@);
    let mut rows: usize = 1;
    let mut used: usize = 0;
    let mut i: usize = 0;
    while i < tokens.len()
        invariant
            i <= tokens.len(),
            all == texts(tokens@),
            0 < width <= u16::MAX,
            used <= width,
            used == rows_of(all, width as int, i as int).used,
            rows == capped(rows_of(all, width as int, i as int).rows),
            rows_of(all, width as int, i as int).rows >= 1,
        decreases tokens.len() - i,
    {
        let cells: usize = str_width(tokens[i].as_str());
        proof {
            assert(all[i as int] == tokens@[i as int]@);
        }
        if cells > 0 {
            if used > 0 && cells > width - used {
                rows = rows.saturating_add(1);
                used = 0;
            }
            if cells <= width {
                used = used + cells;
            } else {
                let full: usize = cells / width;
                let rest: usize = cells % width;
                proof {
                    assert(full >= 1) by (nonlinear_arith)
                        requires
                            cells > width,
                            width > 0,
                            full == cells / width,
                    ;
                    assert(rest < width) by (nonlinear_arith)
                        requires
                            width > 0,
                            rest == cells % width,
                    ;
                }
                if rest == 0 {
                    rows = rows.saturating_add(full - 1);
                    used = width;
                } else {
                    rows = rows.saturating_add(full);
                    used = rest;
                }
            }
        }
        i = i + 1;
    }
    rows
}

fn count_rows(line: &str, width: usize) -> (n: usize)
    requires
        0 < width <= u16::MAX,
    ensures
        n == capped(line_rows(line@, width as int)),
        n >= 1,
{
    let tokens = word_bounds(line);
    proof {
        assert(texts(tokens@).len() == tokens.len());
    }
    count_token_rows(&tokens, width)
}

/// Count the rows of a text that is wrapped between words in terminal cells, including hard
/// wrapping for individual fragments wider than the dialog.
pub fn wrapped_line_count(text: &str, width: u16) -> (n: usize)
    ensures
        n == capped(text_rows(text@, width as int)),
        n >= 1,
{
    let width: usize = max_u16(width, 1) as usize;
    let lines = split_text(text, '\n');
    let ghost all = split_on(text@, '\n');
    let mut total: usize = 0;
    let mut i: usize = 0;
    proof {
        crate::text::lemma_split_nonempty(text@, '\n');
        assert(all.len() == lines.len());
    }
    while i < lines.len()
        invariant
            i <= lines.len() == all.len(),
            all == texts(lines@),
            0 < width <= u16::MAX,
            total == capped(total_rows(all, width as int, i as int)),
            i > 0 ==> total >= 1,
            total_rows(all, width as int, i as int) >= 0,
        decreases lines.len() - i,
    {
        proof {
            assert(all[i as int] == lines@[i as int]@);
        }
        total = total.saturating_add(count_rows(lines[i].as_str(), width));
        i = i + 1;
    }
    total
}

/// A rectangle of some size in the middle of an area.
pub open spec fn middle_rect(area: Rect, width: int, height: int) -> Rect {
    Rect {
        x: sat16(area.x + monus(area.width as int, width) / 2) as u16,
        y: sat16(area.y + monus(area.height as int, height) / 2) as u16,
        width: min_int(width, area.width as int) as u16,
        height: min_int(height, area.height as int) as u16,
    }
}

/// A rectangle of some size in the middle of an area.
pub fn centered_rect(area: Rect, width: u16, height: u16) -> (r: Rect)
    ensures
        r == middle_rect(area, width as int, height as int),
{
    Rect {
        x: area.x.saturating_add(area.width.saturating_sub(width) / 2),
        y: area.y.saturating_add(area.height.saturating_sub(height) / 2),
        width: min_u16(width, area.width),
        height: min_u16(height, area.height),
    }
}

/// The width of a status dialog: at most 120 columns and four fifths of the frame, but at
/// least 40 columns where the frame has them.
pub open spec fn detail_width(area: Rect) -> int {
    let preferred = sat16(area.width * 4) / 5;
    min_int(
        max_int(clamp_int(preferred, 1, 120), 40),
        max_int(monus(area.width as int, 4), 1),
    )
}

/// The rectangle of a status dialog: as high as its text needs, between five rows and what
/// the frame has.
pub open spec fn detail_rect(area: Rect, text: Seq<char>) -> Rect {
    let width = detail_width(area);
    let rows = sat16(text_rows(text, max_int(width - 2, 1)));
    let height = min_int(max_int(sat16(rows + 2), 5), max_int(monus(area.height as int, 4), 1));
    middle_rect(area, width, height)
}

/// A comfortable status-dialog rectangle: at most 120 columns / 80% of the terminal,
/// with height derived from word-wrapped display cells and a two-row border allowance.
pub fn status_detail_rect(area: Rect, text: &str) -> (r: Rect)
    ensures
        r == detail_rect(area, text@),
{
    let available_width: u16 = max_u16(area.width.saturating_sub(4), 1);
    let wide: u32 = area.width as u32 * 4;
    let preferred: u16 = (if wide > u16::MAX as u32 { u16::MAX as u32 } else { wide } / 5) as u16;
    let bounded: u16 = if preferred < 1 {
        1
    } else if preferred > 120 {
        120
    } else {
        preferred
    };
    let width: u16 = min_u16(max_u16(bounded, 40), available_width);
    let content_width: u16 = max_u16(width.saturating_sub(2), 1);
    let rows: u16 = sat_u16(wrapped_line_count(text, content_width));
    let available_height: u16 = max_u16(area.height.saturating_sub(4), 1);
    let height: u16 = min_u16(max_u16(rows.saturating_add(2), 5), available_height);
    centered_rect(area, width, height)
}

/// A status dialog never leaves the frame.
pub proof fn law_dialog_stays_inside(area: Rect, text: Seq<char>)
    requires
        area.fits(),
        area.width >= 1,
        area.height >= 1,
    ensures
        ({
            let r = detail_rect(area, text);
            &&& area.x <= r.x
            &&& r.x + r.width <= area.x + area.width
            &&& area.y <= r.y
            &&& r.y + r.height <= area.y + area.height
            &&& r.width >= 1
            &&& r.height >= 1
        }),
{
}

/// The middle of an area, as a share of its width and of its height.
pub open spec fn centered_part(area: Rect, percent_w: int, percent_h: int) -> Rect {
    middle_part(
        Axis::Horizontal,
        (100 - percent_w) / 2,
        percent_w,
        middle_part(Axis::Vertical, (100 - percent_h) / 2, percent_h, area),
    )
}

/// A share of an area lies in it.
proof fn lemma_share_inside(start: int, length: int, side: int, middle: int)
    requires
        0 <= start,
        0 <= length,
        0 <= side,
        0 <= middle,
        2 * side + middle <= 100,
    ensures
        start <= share_end(start, length, side) <= share_end(start, length, side + middle) <= start + length,
{
    let a = length * side;
    let b = length * (side + middle);
    assert(0 <= a <= b <= 100 * length) by (nonlinear_arith)
        requires
            0 <= length,
            0 <= side,
            0 <= middle,
            2 * side + middle <= 100,
            a == length * side,
            b == length * (side + middle),
    ;
}

/// The middle of an area, as a share of its width and of its height.
pub fn centered(area: Rect, percent_w: u16, percent_h: u16) -> (r: Rect)
    requires
        percent_w <= 100,
        percent_h <= 100,
        area.fits(),
    ensures
        r == centered_part(area, percent_w as int, percent_h as int),
        r.fits(),
{
    let beside: u16 = (100 - percent_w) / 2;
    let above: u16 = (100 - percent_h) / 2;
    proof {
        lemma_share_inside(area.y as int, area.height as int, above as int, percent_h as int);
        lemma_share_inside(area.x as int, area.width as int, beside as int, percent_w as int);
    }
    let band: Rect = middle_share(Axis::Vertical, above, percent_h, area);
    middle_share(Axis::Horizontal, beside, percent_w, band)
}

/// A line without paint.
pub open spec fn raw(text: Seq<char>) -> Seq<PieceView> {
    single(text, plain_paint())
}

/// The lines of the help dialog.
pub open spec fn help_lines() -> Seq<Seq<PieceView>> {
    seq![
        single("codescope — controls"@, bold_paint(plain_paint())),
        raw(""@),
        raw("  q / Q / Ctrl-C  quit"@),
        raw("  ? / Esc         this help / close"@),
        raw("  g               refresh repository state"@),
        raw("  Tab             expand / collapse file (symbols load automatically)"@),
        raw("  1 / 2 / 3       focus files / diff / impact"@),
        raw("  j/k · ↑/↓       move selection · scroll"@),
        raw("  Ctrl-d/u · Pg   half / full page in diff"@),
        raw("  s / u / B / w   staged / unstaged / branch / working scope"@),
        raw("  S               cycle scope"@),
        raw("  b               pick comparison base (default: nearest ancestor)"@),
        raw("  Enter           jump to symbol / re-center view"@),
        raw("  Space h l       expand / collapse"@),
        raw("  mouse hover     impact node highlights its linked diff code"@),
        raw("  click / Space   expand hovered impact-node details"@),
        raw("  mouse wheel     scroll the section under the pointer"@),
        raw("  mouse drag      resize any pane divider"@),
        raw("  n / N           next / previous diff hunk"@),
        raw("  z               zoom the focused pane (Tab still switches)"@),
        raw("  W / 0           diff: toggle wrap / reset horizontal scroll"@),
        raw("  Home / G        top / bottom"@),
    ]
}

fn push_line(out: &mut Vec<PaintedLine>, line: PaintedLine)
    ensures
        line_views(final(out)@) == line_views(old(out)@).push(line@),
{
    let ghost before = line_views(out@);
    out.push(line);
    proof {
        assert(line_views(out@) =~= before.push(line@));
    }
}

fn push_raw(out: &mut Vec<PaintedLine>, text: &str)
    ensures
        line_views(final(out)@) == line_views(old(out)@).push(raw(text@)),
{
    push_line(out, PaintedLine::single(text, Paint::plain()));
}

/// The lines of the help dialog.
pub fn help_dialog() -> (out: Vec<PaintedLine>)
    ensures
        line_views(out@) == help_lines(),
{
    let mut out: Vec<PaintedLine> = Vec::new();
    proof {
        assert(line_views(out@) =~= Seq::empty());
    }
    push_line(&mut out, PaintedLine::single("codescope — controls", Paint::plain().bold()));
    push_raw(&mut out, "");
    push_raw(&mut out, "  q / Q / Ctrl-C  quit");
    push_raw(&mut out, "  ? / Esc         this help / close");
    push_raw(&mut out, "  g               refresh repository state");
    push_raw(&mut out, "  Tab             expand / collapse file (symbols load automatically)");
    push_raw(&mut out, "  1 / 2 / 3       focus files / diff / impact");
    push_raw(&mut out, "  j/k · ↑/↓       move selection · scroll");
    push_raw(&mut out, "  Ctrl-d/u · Pg   half / full page in diff");
    push_raw(&mut out, "  s / u / B / w   staged / unstaged / branch / working scope");
    push_raw(&mut out, "  S               cycle scope");
    push_raw(&mut out, "  b               pick comparison base (default: nearest ancestor)");
    push_raw(&mut out, "  Enter           jump to symbol / re-center view");
    push_raw(&mut out, "  Space h l       expand / collapse");
    push_raw(&mut out, "  mouse hover     impact node highlights its linked diff code");
    push_raw(&mut out, "  click / Space   expand hovered impact-node details");
    push_raw(&mut out, "  mouse wheel     scroll the section under the pointer");
    push_raw(&mut out, "  mouse drag      resize any pane divider");
    push_raw(&mut out, "  n / N           next / previous diff hunk");
    push_raw(&mut out, "  z               zoom the focused pane (Tab still switches)");
    push_raw(&mut out, "  W / 0           diff: toggle wrap / reset horizontal scroll");
    push_raw(&mut out, "  Home / G        top / bottom");
    proof {
        assert(line_views(out@) =~= help_lines());
    }
    out
}

/// A picker: its title, its rows, and the row that is highlighted.
#[derive(Debug, Clone)]
pub struct Picker {
    pub title: String,
    pub lines: Vec<PaintedLine>,
    pub selected: Option<usize>,
}

/// A picker, by contents.
#[verifier::ext_equal]
pub struct PickerView {
    pub title: Seq<char>,
    pub lines: Seq<Seq<PieceView>>,
    pub selected: Option<int>,
}

impl View for Picker {
    type V = PickerView;

    open spec fn view(&self) -> PickerView {
        PickerView {
            title: self.title@,
            lines: line_views(self.lines@),
            selected: match self.selected {
                Some(i) => Some(i as int),
                None => None,
            },
        }
    }
}

/// A candidate of a picker, marked where it is the current one.
pub open spec fn candidate_line(name: Seq<char>, current: Seq<char>) -> Seq<PieceView> {
    seq![
        piece(if name == current { " ●"@ } else { "  "@ }, ink(Tone::AddFg)),
        piece(" "@ + name, plain_paint()),
    ]
}

/// The candidates of a picker.
pub open spec fn candidate_lines(names: Seq<Seq<char>>, current: Seq<char>) -> Seq<Seq<PieceView>> {
    Seq::new(names.len(), |i: int| candidate_line(names[i], current))
}

fn push_candidates(out: &mut Vec<PaintedLine>, names: &Vec<&str>, current: &str)
    ensures
        line_views(final(out)@) == line_views(old(out)@) + candidate_lines(slices(names@), current@),
{
    let ghost start = line_views(out@);
    let ghost all = candidate_lines(slices(names@), current@);
    let mut i: usize = 0;
    proof {
        assert(start + all.take(0) =~= start);
    }
    while i < names.len()
        invariant
            i <= names.len() == all.len(),
            all == candidate_lines(slices(names@), current@),
            line_views(out@) == start + all.take(i as int),
        decreases names.len() - i,
    {
        let mut line = PaintedLine::empty();
        line.push(if same_text(names[i], current) { " ●" } else { "  " }, Paint::ink(Tone::AddFg));
        line.push(joined(" ", names[i]).as_str(), Paint::plain());
        proof {
            assert(slices(names@)[i as int] == names@[i as int]@);
            assert(line@ =~= all[i as int]);
            assert(all.take(i + 1) =~= all.take(i as int).push(all[i as int]));
        }
        push_line(out, line);
        proof {
            assert(line_views(out@) =~= start + all.take(i + 1));
        }
        i = i + 1;
    }
    proof {
        assert(all.take(all.len() as int) =~= all);
    }
}

fn push_note(out: &mut Vec<PaintedLine>, text: &str, tone: Tone)
    ensures
        line_views(final(out)@) == line_views(old(out)@).push(single(text@, ink(tone))),
{
    push_line(out, PaintedLine::single(text, Paint::ink(tone)));
}

/// The comparison-base picker.
pub open spec fn base_picker(v: AppView, s: UiSnapshot) -> PickerView {
    let bases = candidates(s.available_bases@, v.base_query);
    PickerView {
        title: " comparison base (selected: "@ + (if s.base_ref@.len() == 0 { "none"@ } else { s.base_ref@ })
            + (if s.base_candidates_truncated { " · bounded list"@ } else { Seq::empty() }) + ") "@,
        lines: (if s.available_bases.len() == 0 {
            seq![single("  fetching base candidates…"@, ink(Tone::Muted))]
        } else if bases.len() == 0 {
            seq![single("  no matches"@, ink(Tone::Muted))]
        } else {
            candidate_lines(bases, s.base_ref@)
        }) + (if s.base_candidates_truncated {
            seq![single("  more ancestors omitted by the scan bound"@, ink(Tone::Warn))]
        } else {
            Seq::empty()
        }) + seq![
            single("  filter: "@ + v.base_query, ink(Tone::Warn)),
            single("  type to filter · ↑/↓ move · Enter select · Esc close"@, ink(Tone::Muted)),
        ],
        selected: if bases.len() == 0 { None } else { Some(min_int(v.base_sel, bases.len() - 1)) },
    }
}

/// The comparison-base picker.
pub fn render_base_picker(app: &App, snap: &UiSnapshot) -> (r: Picker)
    ensures
        r@ == base_picker(app@, *snap),
{
    proof {
        reveal(app_view);
    }
    let bases = filter_candidates(snap.available_bases.as_slice(), app.base_query.as_str());
    proof {
        assert(slices(bases@).len() == bases.len());
    }
    let mut title = joined(
        " comparison base (selected: ",
        if snap.base_ref.as_str().is_empty() { "none" } else { snap.base_ref.as_str() },
    );
    if snap.base_candidates_truncated {
        title.append(" · bounded list");
    }
    title.append(") ");
    let mut lines: Vec<PaintedLine> = Vec::new();
    proof {
        assert(line_views(lines@) =~= Seq::empty());
    }
    if snap.available_bases.len() == 0 {
        push_note(&mut lines, "  fetching base candidates…", Tone::Muted);
    } else if bases.len() == 0 {
        push_note(&mut lines, "  no matches", Tone::Muted);
    } else {
        push_candidates(&mut lines, &bases, snap.base_ref.as_str());
    }
    if snap.base_candidates_truncated {
        push_note(&mut lines, "  more ancestors omitted by the scan bound", Tone::Warn);
    }
    push_note(&mut lines, joined("  filter: ", app.base_query.as_str()).as_str(), Tone::Warn);
    push_note(&mut lines, "  type to filter · ↑/↓ move · Enter select · Esc close", Tone::Muted);
    let selected: Option<usize> = if bases.len() == 0 {
        None
    } else {
        Some(min_usize(app.base_sel, bases.len() - 1))
    };
    let r = Picker { title, lines, selected };
    proof {
        let b = base_picker(app@, *snap);
        assert(r@.title =~= b.title);
        assert(r@.lines =~= b.lines);
    }
    r
}

/// A text as it stands in a program, in quotation marks.
pub uninterp spec fn quoted(s: Seq<char>) -> Seq<char>;

/// The `{:?}` form that `format` gives a text: a function of its characters.
#[verifier::external_body]
fn quote(s: &str) -> (out: String)
    ensures
        out@ == quoted(s@),
{
    format!("{s:?}")
}

/// What the model picker says of a query that no model matches; `name` is the quoted query.
pub open spec fn exact_model(name: Seq<char>) -> Seq<char> {
    "  Enter to use "@ + name + " as an exact model id"@
}

/// What the model picker says of a query that no model matches.
pub fn exact_model_note(name: &str) -> (out: String)
    ensures
        out@ == exact_model(name@),
{
    let mut out = joined("  Enter to use ", name);
    out.append(" as an exact model id");
    out
}

/// Whether a provider takes a reasoning effort.
pub open spec fn takes_effort(s: UiSnapshot) -> bool {
    s.ai_provider@ != "anthropic"@
}

/// The first rows of the model picker: the reasoning effort.
pub open spec fn effort_lines(s: UiSnapshot, effort: Seq<char>) -> Seq<Seq<PieceView>> {
    if takes_effort(s) {
        seq![
            seq![
                piece("  reasoning effort  "@, ink(Tone::Muted)),
                piece("← "@ + effort + " →"@, bold_paint(ink(Tone::Accent))),
            ],
            single("  default is automatic; explicit support varies by model"@, ink(Tone::Muted)),
        ]
    } else {
        seq![
            single("  reasoning effort is unavailable through Anthropic's native API"@, ink(Tone::Muted)),
            Seq::empty(),
        ]
    }
}

/// The models of the model picker, or why there are none.
pub open spec fn model_lines(v: AppView, s: UiSnapshot) -> Seq<Seq<PieceView>> {
    let models = candidates(s.available_models@, v.model_query);
    if s.available_models.len() == 0 {
        seq![
            single(
                if s.ai_model@.len() == 0 && s.ai_provider@.len() == 0 {
                    "  AI is not configured; set a provider API key"@
                } else if s.model_list_loading {
                    "  fetching models from the configured provider…"@
                } else {
                    "  provider returned no discoverable models; type an exact model id"@
                },
                ink(Tone::Muted),
            ),
        ]
    } else if models.len() == 0 {
        seq![
            single(
                if trimmed(v.model_query).len() == 0 {
                    "  no matches"@
                } else {
                    exact_model(quoted(trimmed(v.model_query)))
                },
                ink(Tone::Warn),
            ),
        ]
    } else {
        candidate_lines(models, s.ai_model@)
    }
}

/// What the model picker says of the discovery of models.
pub open spec fn discovery_lines(s: UiSnapshot) -> Seq<Seq<PieceView>> {
    (if s.model_list_loading && s.available_models.len() > 0 {
        seq![single("  fetching additional models…"@, ink(Tone::Muted))]
    } else {
        Seq::empty()
    }) + (match s.model_list_error {
        Some(error) => seq![
            single("  discovery failed: "@ + error@, ink(Tone::Warn)),
            single("  current model remains selectable; type an exact model id to switch"@, ink(Tone::Muted)),
        ],
        None => Seq::empty(),
    })
}

/// The title of the model picker.
pub open spec fn model_title(s: UiSnapshot) -> Seq<char> {
    " AI settings"@ + (if s.ai_model@.len() == 0 {
        Seq::empty()
    } else {
        " (model: "@ + s.ai_model@ + ")"@
    }) + (if s.ai_provider@.len() == 0 { Seq::empty() } else { " · via "@ + s.ai_provider@ }) + " "@
}

/// The model picker; `effort` is the highlighted reasoning effort.
pub open spec fn model_picker(v: AppView, s: UiSnapshot, effort: Seq<char>) -> PickerView {
    let models = candidates(s.available_models@, v.model_query);
    PickerView {
        title: model_title(s),
        lines: effort_lines(s, effort) + model_lines(v, s) + discovery_lines(s) + seq![
            single("  filter: "@ + v.model_query, ink(Tone::Warn)),
            single(
                if takes_effort(s) {
                    "  ←/→ reasoning · type to filter · ↑/↓ move · Enter apply · Esc close"@
                } else {
                    "  type to filter · ↑/↓ move · Enter model · Esc close"@
                },
                ink(Tone::Muted),
            ),
        ],
        selected: if models.len() == 0 { None } else { Some(2 + min_int(v.model_sel, models.len() - 1)) },
    }
}

/// The reasoning effort that the model picker highlights, in the picture that the
/// application holds.
pub open spec fn highlighted_effort(v: AppView, held: UiSnapshot) -> Seq<char> {
    if v.effort_sel < held.available_reasoning_efforts.len() {
        held.available_reasoning_efforts[v.effort_sel]@
    } else if held.ai_reasoning_effort@.len() == 0 {
        "default"@
    } else {
        held.ai_reasoning_effort@
    }
}

fn push_effort(out: &mut Vec<PaintedLine>, snap: &UiSnapshot, effort: &str) -> (takes: bool)
    ensures
        line_views(final(out)@) == line_views(old(out)@) + effort_lines(*snap, effort@),
        takes == takes_effort(*snap),
{
    let ghost start = line_views(out@);
    let takes: bool = !same_text(snap.ai_provider.as_str(), "anthropic");
    if takes {
        let mut text = joined("← ", effort);
        text.append(" →");
        let mut line = PaintedLine::empty();
        line.push("  reasoning effort  ", Paint::ink(Tone::Muted));
        line.push(text.as_str(), Paint::ink(Tone::Accent).bold());
        proof {
            assert(line@ =~= effort_lines(*snap, effort@)[0]);
        }
        push_line(out, line);
        push_note(out, "  default is automatic; explicit support varies by model", Tone::Muted);
    } else {
        push_note(out, "  reasoning effort is unavailable through Anthropic's native API", Tone::Muted);
        push_line(out, PaintedLine::empty());
    }
    proof {
        assert(line_views(out@) =~= start + effort_lines(*snap, effort@));
    }
    takes
}

fn push_models(out: &mut Vec<PaintedLine>, app: &App, snap: &UiSnapshot, models: &Vec<&str>)
    requires
        slices(models@) == candidates(snap.available_models@, app@.model_query),
    ensures
        line_views(final(out)@) == line_views(old(out)@) + model_lines(app@, *snap),
{
    let ghost start = line_views(out@);
    proof {
        reveal(app_view);
        assert(slices(models@).len() == models.len());
    }
    if snap.available_models.len() == 0 {
        let text: &str = if snap.ai_model.as_str().is_empty() && snap.ai_provider.as_str().is_empty() {
            "  AI is not configured; set a provider API key"
        } else if snap.model_list_loading {
            "  fetching models from the configured provider…"
        } else {
            "  provider returned no discoverable models; type an exact model id"
        };
        push_note(out, text, Tone::Muted);
    } else if models.len() == 0 {
        if is_blank(app.model_query.as_str()) {
            push_note(out, "  no matches", Tone::Warn);
        } else {
            let name = quote(trim(app.model_query.as_str()).as_str());
            push_note(out, exact_model_note(name.as_str()).as_str(), Tone::Warn);
        }
    } else {
        push_candidates(out, models, snap.ai_model.as_str());
    }
    proof {
        assert(line_views(out@) =~= start + model_lines(app@, *snap));
    }
}

fn push_discovery(out: &mut Vec<PaintedLine>, snap: &UiSnapshot)
    ensures
        line_views(final(out)@) == line_views(old(out)@) + discovery_lines(*snap),
{
    let ghost start = line_views(out@);
    if snap.model_list_loading && snap.available_models.len() > 0 {
        push_note(out, "  fetching additional models…", Tone::Muted);
    }
    match &snap.model_list_error {
        Some(error) => {
            push_note(out, joined("  discovery failed: ", error.as_str()).as_str(), Tone::Warn);
            push_note(out, "  current model remains selectable; type an exact model id to switch", Tone::Muted);
        },
        None => {},
    }
    proof {
        assert(line_views(out@) =~= start + discovery_lines(*snap));
    }
}

fn model_title_text(snap: &UiSnapshot) -> (title: String)
    ensures
        title@ == model_title(*snap),
{
    let mut title = " AI settings".to_owned();
    if !snap.ai_model.as_str().is_empty() {
        title.append(" (model: ");
        title.append(snap.ai_model.as_str());
        title.append(")");
    }
    if !snap.ai_provider.as_str().is_empty() {
        title.append(" · via ");
        title.append(snap.ai_provider.as_str());
    }
    title.append(" ");
    proof {
        assert(title@ =~= model_title(*snap));
    }
    title
}

/// The model picker.
pub fn render_model_picker(app: &App, snap: &UiSnapshot) -> (r: Picker)
    ensures
        r@ == model_picker(app@, *snap, highlighted_effort(app@, app.snapshot)),
{
    proof {
        reveal(app_view);
    }
    let effort: &str = app.selected_reasoning_effort();
    let models = filter_candidates(snap.available_models.as_slice(), app.model_query.as_str());
    let mut lines: Vec<PaintedLine> = Vec::new();
    proof {
        assert(line_views(lines@) =~= Seq::empty());
        assert(slices(models@).len() == models.len());
    }
    let takes: bool = push_effort(&mut lines, snap, effort);
    push_models(&mut lines, app, snap, &models);
    push_discovery(&mut lines, snap);
    push_note(&mut lines, joined("  filter: ", app.model_query.as_str()).as_str(), Tone::Warn);
    push_note(
        &mut lines,
        if takes {
            "  ←/→ reasoning · type to filter · ↑/↓ move · Enter apply · Esc close"
        } else {
            "  type to filter · ↑/↓ move · Enter model · Esc close"
        },
        Tone::Muted,
    );
    let selected: Option<usize> = if models.len() == 0 {
        None
    } else {
        proof {
            let shown = candidate_lines(slices(models@), snap.ai_model@);
            assert(shown.len() == models.len());
            assert(model_lines(app@, *snap) == shown || snap.available_models.len() == 0);
            assert(line_views(lines@).len() == lines.len());
        }
        Some(2 + min_usize(app.model_sel, models.len() - 1))
    };
    let r = Picker { title: model_title_text(snap), lines, selected };
    proof {
        let m = model_picker(app@, *snap, effort@);
        assert(r@.lines =~= m.lines);
    }
    r
}

} // verus!
