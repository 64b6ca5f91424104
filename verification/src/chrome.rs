//! The bars above and below the panes.

use vstd::prelude::*;
use crate::app::{app_view, selected_file, App, AppView, Pane};
use crate::diff_view::{clipped, truncate_cells};
use crate::files_pane::{find_highlighted, highlighted_file};
use crate::num::{clamp_int, min_int, min_usize, monus, sat_u16};
use crate::rect::Rect;
use crate::snapshot::{AiStatus, AiTokens, ChangeScope, LsStatus, StatusLevel, UiSnapshot};
use crate::split::{lemma_rest_then_length, split_two, Axis, Share};
use crate::style::{bold_paint, ink, line_width, plain_paint, single, Paint, PaintedLine, PieceView, Tone};
use crate::text::{display_width, joined, split_on, split_text, str_width, texts};
use crate::wrap::{decimal, decimal_of};

verus! {

/// The component after the last slash.
pub open spec fn basename_of(path: Seq<char>) -> Seq<char> {
    split_on(path, '/').last()
}

/// The basename of a repo-relative path (the last component).
pub fn basename(path: &str) -> (out: String)
    ensures
        out@ == basename_of(path@),
{
    let mut parts = split_text(path, '/');
    let n: usize = parts.len();
    proof {
        assert(texts(parts@)[n - 1] == parts@[n - 1]@);
        assert(texts(parts@).last() == parts@[n - 1]@);
    }
    parts.swap_remove(n - 1)
}

/// The scale that leaves 53 significant bits of a fraction between one and ten.
pub open spec fn binary_scale(whole: int) -> int {
    if whole < 2 {
        0x10_0000_0000_0000
    } else if whole < 4 {
        0x8_0000_0000_0000
    } else if whole < 8 {
        0x4_0000_0000_0000
    } else {
        0x2_0000_0000_0000
    }
}

/// Whether the nearest binary fraction of 53 bits lies above `value / unit`.
pub open spec fn lies_above(value: int, unit: int) -> bool {
    let scaled = value * binary_scale(value / unit);
    let rest = scaled % unit;
    2 * rest > unit || (2 * rest == unit && (scaled / unit) % 2 == 1)
}

/// Whether `value / unit` is itself a binary fraction of 53 bits.
pub open spec fn is_binary(value: int, unit: int) -> bool {
    (value * binary_scale(value / unit)) % unit == 0
}

/// `value / unit` in tenths, rounded to the nearest. A number half way goes where its nearest
/// binary fraction lies, and to the even tenth where it is one.
pub open spec fn tenths_of(value: int, unit: int) -> int {
    let step = unit / 10;
    let low = value / step;
    let rest = value % step;
    if 2 * rest < step {
        low
    } else if 2 * rest > step {
        low + 1
    } else if is_binary(value, unit) {
        if low % 2 == 0 { low } else { low + 1 }
    } else if lies_above(value, unit) {
        low + 1
    } else {
        low
    }
}

/// A number in tenths with one decimal.
pub open spec fn one_decimal(tenths: int) -> Seq<char> {
    decimal_of(tenths / 10) + "."@ + decimal_of(tenths % 10)
}

/// A count in at most a few characters.
pub open spec fn compact(value: int) -> Seq<char> {
    if value < 1_000 {
        decimal_of(value)
    } else if value < 10_000 {
        one_decimal(tenths_of(value, 1_000)) + "k"@
    } else if value < 1_000_000 {
        decimal_of(value / 1_000) + "k"@
    } else if value < 10_000_000 {
        one_decimal(tenths_of(value, 1_000_000)) + "m"@
    } else {
        decimal_of(value / 1_000_000) + "m"@
    }
}

fn round_tenths(value: u64, unit: u64) -> (tenths: u64)
    requires
        unit == 1_000 || unit == 1_000_000,
        unit <= value < 10 * unit,
    ensures
        tenths == tenths_of(value as int, unit as int),
{
    let step: u64 = unit / 10;
    let low: u64 = value / step;
    let rest: u64 = value % step;
    if 2 * rest < step {
        return low;
    }
    if 2 * rest > step {
        return low + 1;
    }
    let whole: u64 = value / unit;
    let scale: u128 = if whole < 2 {
        0x10_0000_0000_0000
    } else if whole < 4 {
        0x8_0000_0000_0000
    } else if whole < 8 {
        0x4_0000_0000_0000
    } else {
        0x2_0000_0000_0000
    };
    proof {
        assert(value as int * scale as int <= 10_000_000 * 0x10_0000_0000_0000) by (nonlinear_arith)
            requires
                0 <= value as int <= 10_000_000,
                0 <= scale as int <= 0x10_0000_0000_0000,
        ;
    }
    let scaled: u128 = value as u128 * scale;
    let unit_wide: u128 = unit as u128;
    let left: u128 = scaled % unit_wide;
    let up: bool = if left == 0 {
        low % 2 == 1
    } else {
        2 * left > unit_wide || (2 * left == unit_wide && (scaled / unit_wide) % 2 == 1)
    };
    if up {
        low + 1
    } else {
        low
    }
}

fn decimal_tenths(tenths: u64, suffix: &str) -> (out: String)
    ensures
        out@ == one_decimal(tenths as int) + suffix@,
{
    let mut out = joined(decimal(tenths / 10).as_str(), ".");
    out.append(decimal(tenths % 10).as_str());
    out.append(suffix);
    out
}

/// A count in at most a few characters.
pub fn compact_count(value: u64) -> (out: String)
    ensures
        out@ == compact(value as int),
{
    if value < 1_000 {
        decimal(value)
    } else if value < 10_000 {
        decimal_tenths(round_tenths(value, 1_000), "k")
    } else if value < 1_000_000 {
        joined(decimal(value / 1_000).as_str(), "k")
    } else if value < 10_000_000 {
        decimal_tenths(round_tenths(value, 1_000_000), "m")
    } else {
        joined(decimal(value / 1_000_000).as_str(), "m")
    }
}

/// The token usage in short form.
pub open spec fn short_usage(tokens: AiTokens) -> Seq<char> {
    "in "@ + compact(tokens.input as int) + " out "@ + compact(tokens.output as int)
}

/// The token usage in full.
pub open spec fn full_usage(tokens: AiTokens) -> Seq<char> {
    "tokens "@ + short_usage(tokens)
}

/// Usage and path in one text.
pub open spec fn usage_and_path(usage: Seq<char>, path: Seq<char>) -> Seq<char> {
    usage + " · "@ + path + " "@
}

/// The right side of the bottom bar: the fullest of usage with path and usage with file name
/// that fits, in full words before short ones; else the short usage with as much of the file
/// name as fits; else as much of the usage as fits.
pub open spec fn bottom_right(path: Seq<char>, tokens: AiTokens, budget: int) -> Seq<char> {
    let (full, short) = (full_usage(tokens), short_usage(tokens));
    let name = basename_of(path);
    let fixed = (display_width(short) + display_width(" ·  "@)) as int;
    if path.len() == 0 {
        clipped(full + " "@, budget)
    } else if display_width(usage_and_path(full, path)) <= budget {
        usage_and_path(full, path)
    } else if display_width(usage_and_path(full, name)) <= budget {
        usage_and_path(full, name)
    } else if display_width(usage_and_path(short, path)) <= budget {
        usage_and_path(short, path)
    } else if display_width(usage_and_path(short, name)) <= budget {
        usage_and_path(short, name)
    } else if budget > fixed {
        usage_and_path(short, clipped(name, budget - fixed))
    } else {
        clipped(short, budget)
    }
}

fn join_usage(usage: &str, path: &str) -> (out: String)
    ensures
        out@ == usage_and_path(usage@, path@),
{
    let mut out = joined(usage, " · ");
    out.append(path);
    out.append(" ");
    out
}

/// The right side of the bottom bar, held to `budget` cells.
pub fn bottom_right_text(path: &str, tokens: AiTokens, budget: usize) -> (out: String)
    ensures
        out@ == bottom_right(path@, tokens, budget as int),
{
    let mut short = joined("in ", compact_count(tokens.input).as_str());
    short.append(" out ");
    short.append(compact_count(tokens.output).as_str());
    let full = joined("tokens ", short.as_str());
    proof {
        assert(short@ =~= short_usage(tokens));
        assert(full@ =~= full_usage(tokens));
    }
    if path.is_empty() {
        return truncate_cells(joined(full.as_str(), " ").as_str(), budget);
    }
    let name = basename(path);
    let first = join_usage(full.as_str(), path);
    if str_width(first.as_str()) <= budget {
        return first;
    }
    let second = join_usage(full.as_str(), name.as_str());
    if str_width(second.as_str()) <= budget {
        return second;
    }
    let third = join_usage(short.as_str(), path);
    if str_width(third.as_str()) <= budget {
        return third;
    }
    let fourth = join_usage(short.as_str(), name.as_str());
    if str_width(fourth.as_str()) <= budget {
        return fourth;
    }
    let usage_width: usize = str_width(short.as_str());
    let gap: usize = str_width(" ·  ");
    if usage_width < budget && gap < budget - usage_width {
        let shown = truncate_cells(name.as_str(), budget - usage_width - gap);
        return join_usage(short.as_str(), shown.as_str());
    }
    truncate_cells(short.as_str(), budget)
}

/// The path in the bottom bar: that of the selected file, else of the file that the files
/// pane highlights, else nothing.
pub open spec fn shown_path(v: AppView) -> Seq<char> {
    match selected_file(v) {
        Some(i) => if i < v.files.len() { v.files[i].path@ } else { Seq::empty() },
        None => match highlighted_file(v.files, v.file_sel, 0) {
            Some(i) => v.files[i].path@,
            None => Seq::empty(),
        },
    }
}

/// The path in the bottom bar.
pub fn bar_path(app: &App) -> (path: &str)
    ensures
        path@ == shown_path(app@),
{
    proof {
        reveal(app_view);
        reveal_strlit("");
        assert(""@ =~= Seq::<char>::empty());
    }
    match app.selected_file_index() {
        Some(i) => if i < app.snapshot.files.len() {
            app.snapshot.files[i].path.as_str()
        } else {
            ""
        },
        None => match find_highlighted(&app.snapshot.files, app.file_sel) {
            Some(i) => app.snapshot.files[i].path.as_str(),
            None => "",
        },
    }
}

/// The cells that the left side of a bottom bar keeps.
pub open spec fn kept_left(width: int) -> int {
    if width >= 96 { 48 } else if width >= 64 { 28 } else { 12 }
}

/// The cells of the right side of a bottom bar: what it has to say and one more, as far as the
/// left side leaves them.
pub open spec fn right_cells(v: AppView, tokens: AiTokens, width: int) -> int {
    let wanted = display_width(bottom_right(shown_path(v), tokens, usize::MAX as int)) as int + 1;
    min_int(
        if wanted > usize::MAX { usize::MAX as int } else { wanted },
        monus(width, kept_left(width)),
    )
}

/// The two sides of a bottom bar.
pub open spec fn bar_sides(v: AppView, tokens: AiTokens, area: Rect) -> (Rect, Rect) {
    let right = right_cells(v, tokens, area.width as int);
    (
        Rect { width: (area.width - right) as u16, ..area },
        Rect { x: (area.x + area.width - right) as u16, width: right as u16, ..area },
    )
}

/// Split the bottom bar once for both rendering and mouse hit-testing. The left rectangle
/// is the clickable status/help segment; the right rectangle owns token usage and path.
pub fn bottom_bar_chunks(area: Rect, app: &App, snap: &UiSnapshot) -> (sides: (Rect, Rect))
    requires
        area.fits(),
    ensures
        sides == bar_sides(app@, snap.ai_tokens, area),
{
    let width: usize = area.width as usize;
    let path: &str = bar_path(app);
    let wanted: usize = str_width(bottom_right_text(path, snap.ai_tokens, usize::MAX).as_str()).saturating_add(1);
    let min_left: usize = if width >= 96 {
        48
    } else if width >= 64 {
        28
    } else {
        12
    };
    let right: u16 = sat_u16(min_usize(wanted, width.saturating_sub(min_left)));
    proof {
        lemma_rest_then_length(Axis::Horizontal, 0, right, area);
    }
    split_two(Axis::Horizontal, Share::Min(0), Share::Length(right), area)
}

/// A piece of text in one paint.
pub open spec fn piece(text: Seq<char>, paint: Paint) -> PieceView {
    PieceView { text, paint }
}

/// ` · ZOOM` title suffix while a pane is pinned-zoomed: at any size the user must be
/// able to tell a deliberate zoom apart from the automatic focus-only fallback.
pub open spec fn zoom_suffix(v: AppView, pane: Pane) -> Seq<char> {
    if v.zoomed && v.focused == pane { " · ZOOM"@ } else { Seq::empty() }
}

/// The zoom suffix of a pane's title.
pub fn zoom_tag(app: &App, pane: Pane) -> (tag: &'static str)
    ensures
        tag@ == zoom_suffix(app@, pane),
{
    proof {
        reveal(app_view);
        reveal_strlit("");
    }
    if app.zoomed && app.focused == pane {
        " · ZOOM"
    } else {
        proof {
            assert(""@ =~= Seq::<char>::empty());
        }
        ""
    }
}

/// How the language server is doing: ready `✓`, starting or indexing `…`, degraded `~`,
/// failed `×`.
pub open spec fn server_mark(ls: LsStatus) -> (Seq<char>, Tone) {
    match ls {
        LsStatus::Ready => ("✓"@, Tone::AddFg),
        LsStatus::Starting | LsStatus::Indexing => ("…"@, Tone::Warn),
        LsStatus::Degraded => ("~"@, Tone::Warn),
        LsStatus::Failed => ("×"@, Tone::Error),
    }
}

/// The mark of the language server.
pub fn ls_status_glyph(ls: LsStatus) -> (r: (&'static str, Tone))
    ensures
        (r.0@, r.1) == server_mark(ls),
{
    match ls {
        LsStatus::Ready => ("✓", Tone::AddFg),
        LsStatus::Starting | LsStatus::Indexing => ("…", Tone::Warn),
        LsStatus::Degraded => ("~", Tone::Warn),
        LsStatus::Failed => ("×", Tone::Error),
    }
}

/// How the generator is doing: ready `✓`, loading `…`, waiting `·`, stale `~`, disabled or
/// failed `×`.
pub open spec fn generator_mark(ai: AiStatus) -> (Seq<char>, Tone) {
    match ai {
        AiStatus::Ready { .. } => ("✓"@, Tone::AddFg),
        AiStatus::Loading { .. } => ("…"@, Tone::Warn),
        AiStatus::WaitingForSymbols { .. } => ("·"@, Tone::Warn),
        AiStatus::WaitingForRelations { .. } => ("·"@, Tone::Warn),
        AiStatus::Debouncing { .. } => ("·"@, Tone::Warn),
        AiStatus::Queued { .. } => ("·"@, Tone::Warn),
        AiStatus::Stale { .. } => ("~"@, Tone::Warn),
        AiStatus::Disabled => ("×"@, Tone::Muted),
        AiStatus::Idle => ("·"@, Tone::Muted),
        AiStatus::Failed { .. } => ("×"@, Tone::Error),
    }
}

/// The mark of the generator.
pub fn ai_status_glyph(ai: &AiStatus) -> (r: (&'static str, Tone))
    ensures
        (r.0@, r.1) == generator_mark(*ai),
{
    match ai {
        AiStatus::Ready { .. } => ("✓", Tone::AddFg),
        AiStatus::Loading { .. } => ("…", Tone::Warn),
        AiStatus::WaitingForSymbols { .. } => ("·", Tone::Warn),
        AiStatus::WaitingForRelations { .. } => ("·", Tone::Warn),
        AiStatus::Debouncing { .. } => ("·", Tone::Warn),
        AiStatus::Queued { .. } => ("·", Tone::Warn),
        AiStatus::Stale { .. } => ("~", Tone::Warn),
        AiStatus::Disabled => ("×", Tone::Muted),
        AiStatus::Idle => ("·", Tone::Muted),
        AiStatus::Failed { .. } => ("×", Tone::Error),
    }
}

/// What a scope is called.
pub open spec fn scope_word(scope: ChangeScope) -> Seq<char> {
    match scope {
        ChangeScope::Branch => "branch"@,
        ChangeScope::Staged => "staged"@,
        ChangeScope::Unstaged => "unstaged"@,
        ChangeScope::Working => "working"@,
    }
}

/// The full scope word for the top bar's right group.
pub fn scope_label(scope: ChangeScope) -> (word: &'static str)
    ensures
        word@ == scope_word(scope),
{
    match scope {
        ChangeScope::Branch => "branch",
        ChangeScope::Staged => "staged",
        ChangeScope::Unstaged => "unstaged",
        ChangeScope::Working => "working",
    }
}

/// The cells that a model's name may take.
pub open spec fn model_budget(width: int) -> int {
    clamp_int(width / 5, 8, 28)
}

/// The generator's part of the right side: provider, model and effort, as far as they are set.
pub open spec fn generator_pieces(s: UiSnapshot, width: int) -> Seq<PieceView> {
    let model = clipped(s.ai_model@, model_budget(width));
    seq![piece(if s.ai_provider@.len() == 0 { "AI"@ } else { s.ai_provider@ }, ink(Tone::Muted))] + (if model.len()
        > 0 {
        seq![piece(" "@, plain_paint()), piece(model, ink(Tone::Text))]
    } else {
        Seq::empty()
    }) + (if (s.ai_provider@.len() > 0 || s.ai_model@.len() > 0) && s.ai_reasoning_effort@.len() > 0 {
        seq![
            piece(" "@, plain_paint()),
            piece("reasoning:"@, ink(Tone::Muted)),
            piece(s.ai_reasoning_effort@, ink(Tone::Text)),
        ]
    } else {
        Seq::empty()
    })
}

/// The right side of the top bar: scope, language server, generator.
pub open spec fn top_right(s: UiSnapshot, width: int) -> Seq<PieceView> {
    let server = server_mark(s.ls);
    let generator = generator_mark(s.ai);
    seq![
        piece(scope_word(s.scope), ink(Tone::Muted)),
        piece("  "@, plain_paint()),
        piece("LSP "@, ink(Tone::Muted)),
        piece(server.0, ink(server.1)),
        piece("  "@, plain_paint()),
    ] + generator_pieces(s, width) + seq![piece(" "@, plain_paint()), piece(generator.0, ink(generator.1))] + (if s.refreshing {
        seq![piece("  ⟳"@, ink(Tone::Warn))]
    } else {
        Seq::empty()
    }) + seq![piece(" "@, plain_paint())]
}

fn push_generator(line: &mut PaintedLine, snap: &UiSnapshot, width: u16)
    ensures
        final(line)@ == old(line)@ + generator_pieces(*snap, width as int),
{
    let ghost before = line@;
    let provider: &str = if snap.ai_provider.as_str().is_empty() {
        "AI"
    } else {
        snap.ai_provider.as_str()
    };
    let fifth: usize = (width / 5) as usize;
    let budget: usize = if fifth < 8 {
        8
    } else if fifth > 28 {
        28
    } else {
        fifth
    };
    let model = truncate_cells(snap.ai_model.as_str(), budget);
    line.push(provider, Paint::ink(Tone::Muted));
    if !model.as_str().is_empty() {
        line.push(" ", Paint::plain());
        line.push(model.as_str(), Paint::ink(Tone::Text));
    }
    // `default` is itself useful state: it tells the user that no explicit budget controls
    // this model. It is left out only where no generator is configured at all.
    if (!snap.ai_provider.as_str().is_empty() || !snap.ai_model.as_str().is_empty())
        && !snap.ai_reasoning_effort.as_str().is_empty() {
        line.push(" ", Paint::plain());
        line.push("reasoning:", Paint::ink(Tone::Muted));
        line.push(snap.ai_reasoning_effort.as_str(), Paint::ink(Tone::Text));
    }
    proof {
        assert(line@ =~= before + generator_pieces(*snap, width as int));
    }
}

fn top_right_line(snap: &UiSnapshot, width: u16) -> (line: PaintedLine)
    ensures
        line@ == top_right(*snap, width as int),
{
    let server = ls_status_glyph(snap.ls);
    let generator = ai_status_glyph(&snap.ai);
    let mut line = PaintedLine::empty();
    line.push(scope_label(snap.scope), Paint::ink(Tone::Muted));
    line.push("  ", Paint::plain());
    line.push("LSP ", Paint::ink(Tone::Muted));
    line.push(server.0, Paint::ink(server.1));
    line.push("  ", Paint::plain());
    push_generator(&mut line, snap, width);
    line.push(" ", Paint::plain());
    line.push(generator.0, Paint::ink(generator.1));
    if snap.refreshing {
        line.push("  ⟳", Paint::ink(Tone::Warn));
    }
    line.push(" ", Paint::plain());
    proof {
        assert(line@ =~= top_right(*snap, width as int));
    }
    line
}

/// The comparison base: the chosen one, else the one of the repository, else `none`.
pub open spec fn shown_base(s: UiSnapshot) -> Seq<char> {
    if s.base_ref@.len() > 0 {
        s.base_ref@
    } else {
        match s.repo.base {
            Some(base) => base@,
            None => "none"@,
        }
    }
}

/// How many files changed.
pub open spec fn file_count(n: int) -> Seq<char> {
    " "@ + decimal_of(n) + " "@ + (if n == 1 { "file"@ } else { "files"@ }) + " "@
}

/// What is compared with what.
pub open spec fn comparison(s: UiSnapshot) -> Seq<char> {
    " "@ + shown_base(s) + " ← "@ + s.repo.branch@ + " "@
}

/// The cells that a comparison keeps before product and repository are shown.
pub const MIN_COMPARISON: usize = 8;

/// Product and repository, as far as count and comparison leave room for them.
pub open spec fn top_prefix(s: UiSnapshot, budget: int) -> Seq<PieceView> {
    let product = piece(" codescope "@, bold_paint(ink(Tone::Accent)));
    let repo = piece(" "@ + s.repo.repo_name@ + " "@, ink(Tone::Accent));
    let rest = display_width(file_count(s.files.len() as int)) + MIN_COMPARISON;
    if display_width(product.text) + display_width(repo.text) + rest <= budget {
        seq![product, repo]
    } else if display_width(product.text) + rest <= budget {
        seq![product]
    } else {
        Seq::empty()
    }
}

/// The left side of the top bar in a number of cells. The count and the comparison stay at
/// every usable width; product and repository are dropped before either of them.
pub open spec fn top_left(s: UiSnapshot, budget: int) -> Seq<PieceView> {
    let prefix = top_prefix(s, budget);
    let count = file_count(s.files.len() as int);
    let rest = monus(budget, line_width(prefix));
    prefix + seq![
        piece(clipped(comparison(s), monus(rest, display_width(count) as int)), ink(Tone::Text)),
    ] + (if display_width(count) <= rest {
        seq![piece(count, ink(Tone::Muted))]
    } else {
        Seq::empty()
    })
}

/// The cells of the right side of a top bar: what it has to say, but for one cell.
pub open spec fn top_right_cells(s: UiSnapshot, width: int) -> int {
    min_int(line_width(top_right(s, width)), width - 1)
}

/// The two sides of a top bar.
pub open spec fn top_sides(s: UiSnapshot, area: Rect) -> (Rect, Rect) {
    let right = top_right_cells(s, area.width as int);
    (
        Rect { width: (area.width - right) as u16, ..area },
        Rect { x: (area.x + area.width - right) as u16, width: right as u16, ..area },
    )
}

fn count_text(n: usize) -> (out: String)
    ensures
        out@ == file_count(n as int),
{
    let mut out = joined(" ", decimal(n as u64).as_str());
    out.append(" ");
    out.append(if n == 1 { "file" } else { "files" });
    out.append(" ");
    out
}

fn comparison_text(snap: &UiSnapshot) -> (out: String)
    ensures
        out@ == comparison(*snap),
{
    let base: &str = if !snap.base_ref.as_str().is_empty() {
        snap.base_ref.as_str()
    } else {
        match &snap.repo.base {
            Some(base) => base.as_str(),
            None => "none",
        }
    };
    let mut out = joined(" ", base);
    out.append(" ← ");
    out.append(snap.repo.branch.as_str());
    out.append(" ");
    out
}

fn top_left_line(snap: &UiSnapshot, budget: usize) -> (line: PaintedLine)
    requires
        budget <= u16::MAX,
    ensures
        line@ == top_left(*snap, budget as int),
{
    let count = count_text(snap.files.len());
    let mut repo = joined(" ", snap.repo.repo_name.as_str());
    repo.append(" ");
    let count_w: usize = str_width(count.as_str());
    let product_w: usize = str_width(" codescope ");
    let repo_w: usize = str_width(repo.as_str());
    let rest: u128 = count_w as u128 + MIN_COMPARISON as u128;
    let mut line = PaintedLine::empty();
    if product_w as u128 + repo_w as u128 + rest <= budget as u128 {
        line.push(" codescope ", Paint::ink(Tone::Accent).bold());
        line.push(repo.as_str(), Paint::ink(Tone::Accent));
    } else if product_w as u128 + rest <= budget as u128 {
        line.push(" codescope ", Paint::ink(Tone::Accent).bold());
    }
    proof {
        assert(line@ =~= top_prefix(*snap, budget as int));
    }
    let left: usize = budget.saturating_sub(line.width());
    let shown = truncate_cells(comparison_text(snap).as_str(), left.saturating_sub(count_w));
    line.push(shown.as_str(), Paint::ink(Tone::Text));
    if count_w <= left {
        line.push(count.as_str(), Paint::ink(Tone::Muted));
    }
    proof {
        assert(line@ =~= top_left(*snap, budget as int));
    }
    line
}

/// The top bar: its two sides, and what stands in them.
pub struct TopBar {
    pub left_area: Rect,
    pub left: PaintedLine,
    pub right_area: Rect,
    pub right: PaintedLine,
}

/// The top repository/service bar: `codescope  {repo}  {base} ← {branch}  {N} files`
/// on the left, and
/// `{scope}  LSP {status}  {provider} {model} reasoning:{effort} {status}` on the right.
pub fn top_bar(area: Rect, snap: &UiSnapshot) -> (bar: TopBar)
    requires
        area.fits(),
        area.width >= 1,
    ensures
        (bar.left_area, bar.right_area) == top_sides(*snap, area),
        bar.right@ == top_right(*snap, area.width as int),
        bar.left@ == top_left(*snap, top_sides(*snap, area).0.width as int),
{
    // Service/model state owns a bounded right-hand region. Model ids can be arbitrarily
    // long, so only that field is capped; provider and status remain visible.
    let right = top_right_line(snap, area.width);
    let cells: u16 = sat_u16(min_usize(right.width(), (area.width - 1) as usize));
    proof {
        lemma_rest_then_length(Axis::Horizontal, 1, cells, area);
    }
    let (left_area, right_area) = split_two(Axis::Horizontal, Share::Min(1), Share::Length(cells), area);
    let left = top_left_line(snap, left_area.width as usize);
    TopBar { left_area, left, right_area, right }
}

/// The keys that a help bar of some width names, and what they do.
pub open spec fn help_groups(width: int) -> Seq<(Seq<char>, Seq<char>)> {
    if width >= 83 {
        seq![
            ("R"@, "refresh"@),
            ("Tab"@, "expand"@),
            ("1-3"@, "pane"@),
            ("n/N"@, "hunk"@),
            ("wheel"@, "scroll"@),
            ("drag"@, "resize"@),
            ("?"@, "help"@),
        ]
    } else if width >= 48 {
        seq![("R"@, "refresh"@), ("Tab"@, "expand"@), ("1-3"@, "pane"@), ("?"@, "help"@)]
    } else {
        seq![("R"@, ""@), ("Tab"@, ""@), ("1-3"@, ""@), ("?"@, ""@)]
    }
}

/// The first `n` keys of a help bar.
pub open spec fn help_pieces(groups: Seq<(Seq<char>, Seq<char>)>, n: int) -> Seq<PieceView>
    decreases n,
{
    if n <= 0 {
        seq![piece(" "@, plain_paint())]
    } else {
        let (key, label) = groups[n - 1];
        help_pieces(groups, n - 1) + (if n > 1 { seq![piece(" · "@, ink(Tone::Muted))] } else { Seq::empty() }) + seq![
            piece(key, ink(Tone::Text)),
        ] + (if label.len() > 0 { seq![piece(" "@ + label, ink(Tone::Muted))] } else { Seq::empty() })
    }
}

/// A help bar.
pub open spec fn help_bar(width: int) -> Seq<PieceView> {
    let groups = help_groups(width);
    help_pieces(groups, groups.len() as int)
}

fn help_keys(width: usize) -> (groups: Vec<(&'static str, &'static str)>)
    ensures
        groups.len() == help_groups(width as int).len(),
        forall|i: int| #![trigger groups@[i]] 0 <= i < groups.len() ==> (groups@[i].0@, groups@[i].1@) == help_groups(
            width as int,
        )[i],
{
    let mut groups: Vec<(&'static str, &'static str)> = Vec::new();
    if width >= 83 {
        groups.push(("R", "refresh"));
        groups.push(("Tab", "expand"));
        groups.push(("1-3", "pane"));
        groups.push(("n/N", "hunk"));
        groups.push(("wheel", "scroll"));
        groups.push(("drag", "resize"));
        groups.push(("?", "help"));
    } else if width >= 48 {
        groups.push(("R", "refresh"));
        groups.push(("Tab", "expand"));
        groups.push(("1-3", "pane"));
        groups.push(("?", "help"));
    } else {
        groups.push(("R", ""));
        groups.push(("Tab", ""));
        groups.push(("1-3", ""));
        groups.push(("?", ""));
    }
    groups
}

/// The keys of the bottom bar.
pub fn help_line(width: usize) -> (line: PaintedLine)
    ensures
        line@ == help_bar(width as int),
{
    let groups = help_keys(width);
    let ghost all = help_groups(width as int);
    let mut line = PaintedLine::single(" ", Paint::plain());
    let mut i: usize = 0;
    while i < groups.len()
        invariant
            i <= groups.len() == all.len(),
            forall|k: int| #![trigger groups@[k]] 0 <= k < groups.len() ==> (groups@[k].0@, groups@[k].1@) == all[k],
            line@ == help_pieces(all, i as int),
        decreases groups.len() - i,
    {
        let ghost before = line@;
        let (key, label) = groups[i];
        proof {
            assert((groups@[i as int].0@, groups@[i as int].1@) == all[i as int]);
        }
        if i > 0 {
            line.push(" · ", Paint::ink(Tone::Muted));
        }
        line.push(key, Paint::ink(Tone::Text));
        if !label.is_empty() {
            line.push(joined(" ", label).as_str(), Paint::ink(Tone::Muted));
        }
        proof {
            assert(line@ =~= help_pieces(all, i + 1));
        }
        i = i + 1;
    }
    line
}

/// The color of a status message.
pub open spec fn level_tone(level: StatusLevel) -> Tone {
    match level {
        StatusLevel::Error => Tone::Error,
        StatusLevel::Warning => Tone::Warn,
        StatusLevel::Info => Tone::Muted,
    }
}

/// The left side of the bottom bar: the message, or the keys where there is none.
pub open spec fn bar_left(s: UiSnapshot, width: int) -> Seq<PieceView> {
    if s.status.text@.len() == 0 {
        help_bar(width)
    } else {
        single(clipped(" "@ + s.status.text@, width), ink(level_tone(s.status.level)))
    }
}

/// The left side of the bottom bar.
pub fn bottom_left_line(snap: &UiSnapshot, width: u16) -> (line: PaintedLine)
    ensures
        line@ == bar_left(*snap, width as int),
{
    if snap.status.text.as_str().is_empty() {
        return help_line(width as usize);
    }
    let tone: Tone = match snap.status.level {
        StatusLevel::Error => Tone::Error,
        StatusLevel::Warning => Tone::Warn,
        StatusLevel::Info => Tone::Muted,
    };
    let text = truncate_cells(joined(" ", snap.status.text.as_str()).as_str(), width as usize);
    PaintedLine::single(text.as_str(), Paint::ink(tone))
}

/// Both sides of a top bar lie in it beside each other, the left one has a cell, and what the
/// right one has to say is never clipped where the bar has room for it, however long the
/// names on the left are.
pub proof fn law_top_bar_is_shared_out(s: UiSnapshot, area: Rect)
    requires
        area.fits(),
        area.width >= 1,
    ensures
        ({
            let (left, right) = top_sides(s, area);
            &&& left.width >= 1
            &&& left.x == area.x
            &&& right.x == left.x + left.width
            &&& left.width + right.width == area.width
            &&& line_width(top_right(s, area.width as int)) < area.width ==> right.width == line_width(
                top_right(s, area.width as int),
            )
        }),
{
    lemma_line_width(top_right(s, area.width as int), top_right(s, area.width as int).len() as int);
}

proof fn lemma_line_width(line: Seq<PieceView>, n: int)
    ensures
        crate::style::pieces_width(line, n) >= 0,
    decreases n,
{
    if n > 0 {
        lemma_line_width(line, n - 1);
    }
}

} // verus!
