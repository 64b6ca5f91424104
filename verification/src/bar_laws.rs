//! What the bars and the dialogs say.

use vstd::prelude::*;
use crate::app::{candidates, selected_file, AppView, Pane};
use crate::chrome::{
    bar_left, bar_sides, bottom_right, compact, file_count, full_usage, generator_mark, help_bar, help_groups,
    help_pieces, model_budget, one_decimal, scope_word, server_mark, short_usage, shown_base, shown_path, tenths_of,
    top_left, top_right, zoom_suffix,
};
use crate::dialog::{
    base_picker, candidate_line, detail_rect, detail_width, discovery_lines, highlighted_effort, line_rows, middle_rect,
    model_lines, model_picker, model_title, takes_effort, text_rows, token_step, total_rows, Rows,
};
use crate::diff_view::clipped;
use crate::files_pane::highlighted_file;
use crate::mouse::failure_status;
use crate::rect::Rect;
use crate::snapshot::{AiStatus, AiTokens, ChangeScope, LsStatus, StatusLevel, UiSnapshot};
use crate::style::{flat, lemma_flat_concat, lemma_flat_push, line_width, PieceView, Tone};
use crate::text::{display_width, split_on};
use crate::wrap::{decimal_of, trimmed};

verus! {

/// A count below a thousand is written out; above it is rounded to a tenth of a thousand below
/// ten thousand, cut to thousands below a million, and so on with millions.
pub proof fn law_counts_are_shortened(value: int)
    requires
        0 <= value,
    ensures
        value < 1000 ==> compact(value) == decimal_of(value),
        1000 <= value < 10_000 ==> exists|t: int|
            compact(value) == #[trigger] one_decimal(t) + "k"@ && -50 <= 100 * t - value <= 50,
        10_000 <= value < 1_000_000 ==> exists|k: int|
            compact(value) == #[trigger] decimal_of(k) + "k"@ && 1000 * k <= value < 1000 * (k + 1),
        1_000_000 <= value < 10_000_000 ==> exists|t: int|
            compact(value) == #[trigger] one_decimal(t) + "m"@ && -50_000 <= 100_000 * t - value <= 50_000,
        10_000_000 <= value ==> exists|k: int|
            compact(value) == #[trigger] decimal_of(k) + "m"@ && 1_000_000 * k <= value < 1_000_000 * (k + 1),
{
    if 1000 <= value < 10_000 {
        let t = tenths_of(value, 1000);
        assert(compact(value) == one_decimal(t) + "k"@);
    } else if 10_000 <= value < 1_000_000 {
        assert(compact(value) == decimal_of(value / 1000) + "k"@);
    } else if 1_000_000 <= value < 10_000_000 {
        let t = tenths_of(value, 1_000_000);
        assert(compact(value) == one_decimal(t) + "m"@);
    } else if 10_000_000 <= value {
        assert(compact(value) == decimal_of(value / 1_000_000) + "m"@);
    }
}

/// A number of tenths shows its whole part, a point and its last digit.
pub proof fn law_tenths_show_a_point(t: int)
    requires
        0 <= t,
    ensures
        one_decimal(t) == decimal_of(t / 10) + seq!['.'] + decimal_of(t % 10),
{
    reveal_strlit(".");
    assert("."@ =~= seq!['.']);
}

/// The usage tells what went in before what came out.
pub proof fn law_usage_tells_in_and_out(tokens: AiTokens)
    ensures
        short_usage(tokens) == "in "@ + compact(tokens.input as int) + " out "@ + compact(tokens.output as int),
        full_usage(tokens) == "tokens "@ + short_usage(tokens),
{
}

/// The right of the bottom bar shows the usage and the path; where they do not fit, first the
/// path yields to its name, then the usage to its short form.
pub proof fn law_usage_yields_after_the_path(path: Seq<char>, tokens: AiTokens, budget: int)
    requires
        path.len() > 0,
    ensures
        ({
            let shown = bottom_right(path, tokens, budget);
            let name = split_on(path, '/').last();
            let a = full_usage(tokens) + " · "@ + path + " "@;
            let b = full_usage(tokens) + " · "@ + name + " "@;
            let c = short_usage(tokens) + " · "@ + path + " "@;
            let d = short_usage(tokens) + " · "@ + name + " "@;
            &&& display_width(a) <= budget ==> shown == a
            &&& display_width(a) > budget && display_width(b) <= budget ==> shown == b
            &&& display_width(a) > budget && display_width(b) > budget && display_width(c) <= budget ==> shown == c
            &&& display_width(a) > budget && display_width(b) > budget && display_width(c) > budget && display_width(d)
                <= budget ==> shown == d
        }),
{
}

/// Without a path the usage stands alone.
pub proof fn law_usage_stands_alone(tokens: AiTokens, budget: int)
    ensures
        display_width(full_usage(tokens) + " "@) <= budget ==> bottom_right(Seq::empty(), tokens, budget) == full_usage(tokens)
            + " "@,
{
}

/// The left of the bottom bar keeps 48 columns of a wide frame, 28 of a middling one and 12 of a
/// narrow one; the two sides share the bar out.
pub proof fn law_bottom_bar_is_shared_out(v: AppView, tokens: AiTokens, area: Rect)
    requires
        area.fits(),
    ensures
        ({
            let (left, right) = bar_sides(v, tokens, area);
            &&& left.x == area.x && left.y == area.y && left.height == area.height
            &&& right.x == left.x + left.width && right.y == area.y && right.height == area.height
            &&& left.width + right.width == area.width
            &&& area.width >= 96 ==> left.width >= 48
            &&& 64 <= area.width < 96 ==> left.width >= 28
            &&& 12 <= area.width < 64 ==> left.width >= 12
        }),
{
}

/// The language server: a check mark when it is ready, an ellipsis while it starts, a tilde when
/// it is degraded and a cross when it failed.
pub proof fn law_server_states_are_marked(ls: LsStatus)
    ensures
        ls is Ready ==> server_mark(ls) == ("✓"@, Tone::AddFg),
        ls is Starting || ls is Indexing ==> server_mark(ls) == ("…"@, Tone::Warn),
        ls is Degraded ==> server_mark(ls) == ("~"@, Tone::Warn),
        ls is Failed ==> server_mark(ls) == ("×"@, Tone::Error),
{
}

/// Generation: a check mark when it is ready, an ellipsis while it runs, a dot while it waits, a
/// tilde when it is stale and a cross when it failed or is off.
pub proof fn law_generator_states_are_marked(ai: AiStatus)
    ensures
        ai is Ready ==> generator_mark(ai) == ("✓"@, Tone::AddFg),
        ai is Loading ==> generator_mark(ai) == ("…"@, Tone::Warn),
        ai is WaitingForSymbols || ai is WaitingForRelations || ai is Debouncing || ai is Queued ==> generator_mark(ai) == (
            "·"@,
            Tone::Warn,
        ),
        ai is Stale ==> generator_mark(ai) == ("~"@, Tone::Warn),
        ai is Failed ==> generator_mark(ai) == ("×"@, Tone::Error),
        ai is Disabled ==> generator_mark(ai) == ("×"@, Tone::Muted),
        ai is Idle ==> generator_mark(ai) == ("·"@, Tone::Muted),
{
}

/// The scopes by name.
pub proof fn law_scopes_are_named(scope: ChangeScope)
    ensures
        scope == ChangeScope::Branch ==> scope_word(scope) == "branch"@,
        scope == ChangeScope::Staged ==> scope_word(scope) == "staged"@,
        scope == ChangeScope::Unstaged ==> scope_word(scope) == "unstaged"@,
        scope == ChangeScope::Working ==> scope_word(scope) == "working"@,
{
}

/// The right of the top bar: the scope, the language server with its mark, the provider, and at
/// the end the mark of generation; while refreshing, a sign after it.
pub proof fn law_top_bar_tells_the_state(s: UiSnapshot, width: int)
    ensures
        ({
            let line = top_right(s, width);
            let n = line.len() as int;
            &&& line[0].text == scope_word(s.scope)
            &&& line[2].text == "LSP "@
            &&& line[3].text == server_mark(s.ls).0 && line[3].paint.fg == Some(server_mark(s.ls).1)
            &&& s.ai_provider@.len() == 0 ==> line[5].text == "AI"@
            &&& s.ai_provider@.len() > 0 ==> line[5].text == s.ai_provider@
            &&& s.refreshing ==> n >= 9 && line[n - 2].text == "  ⟳"@ && line[n - 3].text == generator_mark(s.ai).0 && line[n
                - 3].paint.fg == Some(generator_mark(s.ai).1)
            &&& !s.refreshing ==> n >= 9 && line[n - 2].text == generator_mark(s.ai).0 && line[n - 2].paint.fg == Some(
                generator_mark(s.ai).1,
            )
            &&& clipped(s.ai_model@, model_budget(width)).len() > 0 ==> line[7].text == clipped(
                s.ai_model@,
                model_budget(width),
            )
            &&& clipped(s.ai_model@, model_budget(width)).len() > 0 && s.ai_reasoning_effort@.len() > 0 && s.ai_model@.len()
                > 0 ==> line[9].text == "reasoning:"@ && line[10].text == s.ai_reasoning_effort@
        }),
{
}

/// A model's name takes a fifth of the bar, between 8 and 28 columns.
pub proof fn law_model_names_take_a_fifth(width: int)
    requires
        0 <= width,
    ensures
        8 <= model_budget(width) <= 28,
        40 <= width < 145 ==> model_budget(width) == width / 5,
{
}

/// The left of the top bar reads the base before the branch, and the files at its end; the
/// product and the repository yield first.
pub proof fn law_top_bar_reads_the_comparison(s: UiSnapshot, budget: int)
    ensures
        ({
            let line = top_left(s, budget);
            let text = " "@ + shown_base(s) + " ← "@ + s.repo.branch@ + " "@;
            let count = file_count(s.files.len() as int);
            let product = " codescope "@;
            let repo = " "@ + s.repo.repo_name@ + " "@;
            let rest = display_width(count) + 8;
            let wide = display_width(product) + display_width(repo) + rest <= budget;
            let middling = display_width(product) + rest <= budget;
            &&& wide ==> line[0].text == product && line[1].text == repo && line[0].paint.bold
            &&& !wide && middling ==> line[0].text == product
            &&& !wide && !middling ==> line.len() <= 2 && (display_width(text) + display_width(count) <= budget
                ==> line[0].text == text && line[1].text == count)
        }),
{
    let line = top_left(s, budget);
    let prefix = crate::chrome::top_prefix(s, budget);
    if prefix.len() == 0 {
        assert(line_width(prefix) == 0);
    }
}

/// The base that was chosen is shown before the one that was detected; without any it says so.
pub proof fn law_chosen_base_is_shown(s: UiSnapshot)
    ensures
        s.base_ref@.len() > 0 ==> shown_base(s) == s.base_ref@,
        s.base_ref@.len() == 0 && s.repo.base is Some ==> shown_base(s) == s.repo.base->0@,
        s.base_ref@.len() == 0 && s.repo.base is None ==> shown_base(s) == "none"@,
{
}

/// One file is counted in the singular.
pub proof fn law_files_are_counted(n: int)
    ensures
        n == 1 ==> file_count(n) == " "@ + decimal_of(1) + " "@ + "file"@ + " "@,
        n != 1 ==> file_count(n) == " "@ + decimal_of(n) + " "@ + "files"@ + " "@,
{
}

/// A pane is marked as zoomed while it is focused and zoomed.
pub proof fn law_zoom_is_told(v: AppView, pane: Pane)
    ensures
        v.zoomed && v.focused == pane ==> zoom_suffix(v, pane) == " · ZOOM"@,
        !v.zoomed || v.focused != pane ==> zoom_suffix(v, pane).len() == 0,
{
}

/// A wide bar lists seven keys with what they do, a middling one four, a narrow one four without
/// words; the first is always the refresh and the last the help.
pub proof fn law_help_bar_lists_keys(width: int)
    ensures
        ({
            let groups = help_groups(width);
            &&& width >= 83 ==> groups.len() == 7
            &&& width < 83 ==> groups.len() == 4
            &&& groups[0].0 == "R"@ && groups.last().0 == "?"@
            &&& width >= 48 ==> groups[0].1 == "refresh"@ && groups.last().1 == "help"@ && groups[1] == ("Tab"@, "expand"@)
                && groups[2] == ("1-3"@, "pane"@)
            &&& width < 48 ==> groups[0].1 == ""@ && groups[1] == ("Tab"@, ""@) && groups[2] == ("1-3"@, ""@)
                && groups.last().1 == ""@
            &&& width >= 83 ==> groups[3] == ("n/N"@, "hunk"@) && groups[4] == ("wheel"@, "scroll"@) && groups[5] == (
                "drag"@,
                "resize"@,
            )
        }),
{
}

/// A status message takes the place of the keys, in the color of its level.
pub proof fn law_messages_take_the_bar(s: UiSnapshot, width: int)
    ensures
        s.status.text@.len() == 0 ==> bar_left(s, width) == help_bar(width),
        s.status.text@.len() > 0 ==> bar_left(s, width).len() == 1 && bar_left(s, width)[0].text == clipped(
            " "@ + s.status.text@,
            width,
        ),
        s.status.text@.len() > 0 && s.status.level == StatusLevel::Error ==> bar_left(s, width)[0].paint.fg == Some(
            Tone::Error,
        ),
        s.status.text@.len() > 0 && s.status.level == StatusLevel::Warning ==> bar_left(s, width)[0].paint.fg == Some(
            Tone::Warn,
        ),
        s.status.text@.len() > 0 && s.status.level == StatusLevel::Info ==> bar_left(s, width)[0].paint.fg == Some(
            Tone::Muted,
        ),
{
}

/// A box in the middle of an area has as much room on its left as on its right, and above as
/// below, up to one cell.
pub proof fn law_dialogs_stand_in_the_middle(area: Rect, width: int, height: int)
    requires
        area.fits(),
        0 <= width <= area.width,
        0 <= height <= area.height,
    ensures
        ({
            let r = middle_rect(area, width, height);
            let left = r.x - area.x;
            let above = r.y - area.y;
            &&& r.width == width && r.height == height
            &&& left <= area.width - width - left <= left + 1
            &&& above <= area.height - height - above <= above + 1
        }),
{
}

/// A message opens four fifths as wide as the frame, between 40 and 120 columns, and two columns
/// are left free at each side.
pub proof fn law_messages_open_wide(area: Rect)
    requires
        area.width <= 16383,
    ensures
        44 <= area.width ==> 40 <= detail_width(area) <= 120 && detail_width(area) <= area.width - 4,
        50 <= area.width <= 150 ==> detail_width(area) == area.width * 4 / 5,
        area.width > 150 ==> detail_width(area) == 120,
        5 <= area.width < 44 ==> detail_width(area) == area.width - 4,
{
}

/// A message opens as tall as its text and its border need, at least five rows, and two rows are
/// left free above and below.
pub proof fn law_messages_open_tall(area: Rect, text: Seq<char>)
    requires
        area.fits(),
        5 <= area.width <= 16383,
        9 <= area.height,
        0 <= text_rows(text, detail_width(area) - 2) <= 1000,
        3 <= detail_width(area),
    ensures
        ({
            let rows = text_rows(text, detail_width(area) - 2);
            let r = detail_rect(area, text);
            &&& 3 <= rows <= area.height - 6 ==> r.height == rows + 2
            &&& rows < 3 ==> r.height == 5
            &&& rows > area.height - 6 ==> r.height == area.height - 4
        }),
{
}

/// A token goes on the row that is open wherever it fits, and else begins the next; one longer
/// than a row fills as many rows as it needs.
pub proof fn law_tokens_fill_their_rows(r: Rows, cells: int, width: int)
    requires
        0 < width,
        0 <= r.used <= width,
        0 <= cells,
    ensures
        ({
            let after = token_step(r, cells, width);
            &&& r.used + cells <= width ==> after == (Rows { rows: r.rows, used: r.used + cells })
            &&& 0 < r.used && r.used + cells > width && 0 < cells <= width ==> after == (Rows { rows: r.rows + 1, used: cells })
            &&& r.used == 0 && cells > width ==> width * (after.rows - r.rows) + after.used == cells && 0 < after.used
                <= width
            &&& 0 < r.used && cells > width ==> width * (after.rows - r.rows - 1) + after.used == cells && 0 < after.used
                <= width
        }),
{
    if cells > width {
        let q = cells / width;
        let m = cells % width;
        assert(cells == width * q + m && 0 <= m < width) by (nonlinear_arith)
            requires
                q == cells / width,
                m == cells % width,
                0 < width,
                0 <= cells,
        ;
        assert(width * (q - 1) + width == width * q) by (nonlinear_arith);
    }
}

/// The rows of a text are those of its lines.
pub proof fn law_texts_take_the_rows_of_their_lines(text: Seq<char>, width: int)
    requires
        0 < width,
    ensures
        split_on(text, '\n').len() == 1 ==> text_rows(text, width) == line_rows(split_on(text, '\n')[0], width),
        split_on(text, '\n').len() == 2 ==> text_rows(text, width) == line_rows(split_on(text, '\n')[0], width) + line_rows(
            split_on(text, '\n')[1],
            width,
        ),
{
    let lines = split_on(text, '\n');
    assert(total_rows(lines, width, 0) == 0);
    if lines.len() >= 1 {
        assert(total_rows(lines, width, 1) == line_rows(lines[0], width));
    }
    if lines.len() == 2 {
        assert(total_rows(lines, width, 2) == total_rows(lines, width, 1) + line_rows(lines[1], width));
    }
}

/// In a list of choices the current one, and only it, carries a dot.
pub proof fn law_current_choice_is_marked(name: Seq<char>, current: Seq<char>)
    ensures
        ({
            let line = candidate_line(name, current);
            &&& line.len() == 2
            &&& name == current ==> line[0].text == " ●"@
            &&& name != current ==> line[0].text == "  "@
            &&& line[1].text == " "@ + name
        }),
{
}

/// The picker of bases lists the matches in order and points at the chosen one; below them stand
/// the filter and the keys.
pub proof fn law_base_picker_lists_the_matches(v: AppView, s: UiSnapshot, i: int)
    requires
        s.available_bases.len() > 0,
        candidates(s.available_bases@, v.base_query).len() > 0,
        0 <= v.base_sel,
    ensures
        ({
            let p = base_picker(v, s);
            let bases = candidates(s.available_bases@, v.base_query);
            let n = p.lines.len() as int;
            &&& 0 <= i < bases.len() ==> p.lines[i] == candidate_line(bases[i], s.base_ref@)
            &&& v.base_sel < bases.len() ==> p.selected == Some(v.base_sel)
            &&& v.base_sel >= bases.len() ==> p.selected == Some((bases.len() - 1) as int)
            &&& n == bases.len() + (if s.base_candidates_truncated { 3int } else { 2 })
            &&& p.lines[n - 2][0].text == "  filter: "@ + v.base_query
            &&& p.lines[n - 1][0].text == "  type to filter · ↑/↓ move · Enter select · Esc close"@
            &&& s.base_candidates_truncated ==> p.lines[n - 3][0].text == "  more ancestors omitted by the scan bound"@
        }),
{
}

/// Without a match, or before there are bases, the picker points at none and says why.
pub proof fn law_empty_base_picker_says_why(v: AppView, s: UiSnapshot)
    requires
        candidates(s.available_bases@, v.base_query).len() == 0,
    ensures
        base_picker(v, s).selected is None,
        s.available_bases.len() == 0 ==> base_picker(v, s).lines[0][0].text == "  fetching base candidates…"@,
        s.available_bases.len() > 0 ==> base_picker(v, s).lines[0][0].text == "  no matches"@,
{
}

/// The picker of models shows the effort first, then the matches in order, and points at the
/// chosen one.
pub proof fn law_model_picker_lists_the_matches(v: AppView, s: UiSnapshot, effort: Seq<char>, i: int)
    requires
        s.available_models.len() > 0,
        candidates(s.available_models@, v.model_query).len() > 0,
        0 <= v.model_sel,
    ensures
        ({
            let p = model_picker(v, s, effort);
            let models = candidates(s.available_models@, v.model_query);
            let n = p.lines.len() as int;
            &&& 0 <= i < models.len() ==> p.lines[2 + i] == candidate_line(models[i], s.ai_model@)
            &&& v.model_sel < models.len() ==> p.selected == Some(2 + v.model_sel)
            &&& v.model_sel >= models.len() ==> p.selected == Some((models.len() + 1) as int)
            &&& takes_effort(s) ==> p.lines[0][1].text == "← "@ + effort + " →"@
            &&& !takes_effort(s) ==> p.lines[0][0].text
                == "  reasoning effort is unavailable through Anthropic's native API"@
            &&& p.lines[n - 2][0].text == "  filter: "@ + v.model_query
        }),
{
}

/// Without a match the picker of models points at none; what was typed can be used as it is.
pub proof fn law_empty_model_picker_offers_what_was_typed(v: AppView, s: UiSnapshot, effort: Seq<char>)
    requires
        candidates(s.available_models@, v.model_query).len() == 0,
    ensures
        model_picker(v, s, effort).selected is None,
        s.available_models.len() > 0 && trimmed(v.model_query).len() == 0 ==> model_lines(v, s)[0][0].text == "  no matches"@,
        s.available_models.len() > 0 && trimmed(v.model_query).len() > 0 ==> model_lines(v, s)[0][0].text
            == "  Enter to use "@ + crate::dialog::quoted(trimmed(v.model_query)) + " as an exact model id"@,
        s.available_models.len() == 0 && s.ai_model@.len() == 0 && s.ai_provider@.len() == 0 ==> model_lines(
            v,
            s,
        )[0][0].text == "  AI is not configured; set a provider API key"@,
        s.available_models.len() == 0 && s.ai_provider@.len() > 0 && s.model_list_loading ==> model_lines(v, s)[0][0].text
            == "  fetching models from the configured provider…"@,
{
}

/// The effort that is shown is the chosen one, then the current one, then the default.
pub proof fn law_chosen_effort_is_shown(v: AppView, s: UiSnapshot)
    requires
        0 <= v.effort_sel,
    ensures
        v.effort_sel < s.available_reasoning_efforts.len() ==> highlighted_effort(v, s)
            == s.available_reasoning_efforts[v.effort_sel]@,
        v.effort_sel >= s.available_reasoning_efforts.len() && s.ai_reasoning_effort@.len() > 0 ==> highlighted_effort(v, s)
            == s.ai_reasoning_effort@,
        v.effort_sel >= s.available_reasoning_efforts.len() && s.ai_reasoning_effort@.len() == 0 ==> highlighted_effort(v, s)
            == "default"@,
        takes_effort(s) <==> s.ai_provider@ != "anthropic"@,
{
}

/// The path that is shown is that of the selected file.
pub proof fn law_shown_path_is_the_selected_one(v: AppView)
    ensures
        selected_file(v) is Some && selected_file(v)->0 < v.files.len() ==> shown_path(v) == v.files[selected_file(v)->0].path@,
        selected_file(v) is None && highlighted_file(v.files, v.file_sel, 0) is None ==> shown_path(v).len() == 0,
{
}

/// The settings are titled with the model and the provider in use.
pub proof fn law_settings_are_titled(s: UiSnapshot)
    ensures
        s.ai_model@.len() > 0 && s.ai_provider@.len() > 0 ==> model_title(s) == " AI settings"@ + (" (model: "@ + s.ai_model@
            + ")"@) + (" · via "@ + s.ai_provider@) + " "@,
        s.ai_model@.len() == 0 && s.ai_provider@.len() == 0 ==> model_title(s) == " AI settings"@ + " "@,
{
    assert(" AI settings"@ + Seq::<char>::empty() =~= " AI settings"@);
}

/// Discovery says that it goes on, and why it failed.
pub proof fn law_discovery_is_told(s: UiSnapshot)
    ensures
        s.model_list_loading && s.available_models.len() > 0 ==> discovery_lines(s).len() > 0 && discovery_lines(s)[0][0].text
            == "  fetching additional models…"@,
        !(s.model_list_loading && s.available_models.len() > 0) && s.model_list_error is Some ==> discovery_lines(
            s,
        ).len() == 2 && discovery_lines(s)[0][0].text == "  discovery failed: "@ + (s.model_list_error->0)@,
        !(s.model_list_loading && s.available_models.len() > 0) && s.model_list_error is None ==> discovery_lines(s).len()
            == 0,
{
}

/// A failed generation is opened as a warning, with its reason.
pub proof fn law_failures_open_as_warnings(ai: AiStatus)
    requires
        ai is Failed,
    ensures
        failure_status(ai).text == "AI generation failed"@,
        failure_status(ai).detail == Some(ai->reason@),
        failure_status(ai).level == StatusLevel::Warning,
{
}

/// The keys of the help bar are read one after the other with a dot between each two, each
/// followed by what it does.
pub proof fn law_help_keys_are_separated(groups: Seq<(Seq<char>, Seq<char>)>, n: int)
    requires
        0 < n <= groups.len(),
    ensures
        ({
            let (key, label) = groups[n - 1];
            let before = flat(help_pieces(groups, n - 1));
            let dot = if n > 1 { " · "@ } else { Seq::empty() };
            let word = if label.len() > 0 { " "@ + label } else { Seq::empty() };
            flat(help_pieces(groups, n)) == before + dot + key + word
        }),
        flat(help_pieces(groups, 0)) == " "@,
{
    let (key, label) = groups[n - 1];
    let before = help_pieces(groups, n - 1);
    let all = help_pieces(groups, n);
    let muted = crate::style::ink(Tone::Muted);
    let dot = if n > 1 { seq![PieceView { text: " · "@, paint: muted }] } else { Seq::empty() };
    let own = seq![PieceView { text: key, paint: crate::style::ink(Tone::Text) }];
    let word = if label.len() > 0 { seq![PieceView { text: " "@ + label, paint: muted }] } else { Seq::empty() };
    assert(all == before + dot + own + word);
    lemma_flat_concat(before + dot + own, word);
    lemma_flat_concat(before + dot, own);
    lemma_flat_concat(before, dot);
    lemma_flat_one(" · "@, muted);
    lemma_flat_one(key, crate::style::ink(Tone::Text));
    lemma_flat_one(" "@ + label, muted);
    lemma_flat_one(" "@, crate::style::plain_paint());
    assert(flat(Seq::<PieceView>::empty()) =~= Seq::<char>::empty());
    assert(help_pieces(groups, 0) =~= seq![PieceView { text: " "@, paint: crate::style::plain_paint() }]);
}

proof fn lemma_flat_one(text: Seq<char>, paint: crate::style::Paint)
    ensures
        flat(seq![PieceView { text, paint }]) == text,
{
    let piece = PieceView { text, paint };
    lemma_flat_push(Seq::empty(), piece);
    assert(Seq::<PieceView>::empty().push(piece) =~= seq![piece]);
    assert(flat(Seq::<PieceView>::empty()) + text =~= text);
}

} // verus!
