use codescope_tui::action::Action;
use codescope_tui::app::{App, Pane};
use codescope_tui::dialog::{status_detail_rect, wrapped_line_count};
use codescope_tui::diff_pane::{apply_linked_diff_style, linked_diff_rows};
use codescope_tui::diff_view::build_raw;
use codescope_tui::divider::DividerId;
use codescope_tui::intraline::row_spans;
use codescope_tui::plan::{
    DiffSide, Epoch, FormKind, PlanCodeRef, PlanEdge, PlanEdgeKind, PlanNode, PlanNodeChange, VisualizationPlan,
    VizForm,
};
use codescope_tui::rect::Rect;
use codescope_tui::render::{render, Drawing, Edge};
use codescope_tui::snapshot::{
    AiStatus, ChangeScope, DiffPane, DiffRow, DroppedItem, FileRow, FileSemanticLoad, ImpactList, ImpactLoadState,
    ImpactPane, ImpactRow, InterpretationSource, LsStatus, SelectedChange, SemanticPane, StatusLevel, StatusMessage,
    SymbolRow, UiSnapshot, ValidationReport, ValidationVerdict,
};
use codescope_tui::style::{Paint, PaintedLine, Tone};
use ratatui::backend::TestBackend;
use ratatui::layout::Alignment;
use ratatui::style::{Color, Modifier, Style};
use ratatui::text::{Line, Span};
use ratatui::widgets::{Block, Borders, Clear, List, ListItem, ListState, Paragraph, Wrap};
use ratatui::{Frame, Terminal};

const SURFACE: Color = Color::Rgb(24, 27, 32);
const SURFACE_ALT: Color = Color::Rgb(31, 35, 41);
const TEXT: Color = Color::Rgb(210, 214, 220);
const MUTED: Color = Color::Rgb(122, 128, 139);
const ACCENT: Color = Color::Rgb(91, 166, 255);
const SELECTED_BG: Color = Color::Rgb(46, 54, 66);
const OWNER_BG: Color = Color::Rgb(35, 41, 50);
const ADD_FG: Color = Color::Rgb(100, 190, 120);
const ADD_BG: Color = Color::Rgb(27, 49, 35);
const ADD_HI: Color = Color::Rgb(151, 232, 166);
const ADD_HI_BG: Color = Color::Rgb(46, 88, 58);
const DEL_FG: Color = Color::Rgb(225, 113, 122);
const WARN: Color = Color::Rgb(218, 174, 86);
const HUNK_FG: Color = Color::Rgb(132, 190, 229);
const ERROR: Color = Color::Rgb(238, 95, 101);

fn color(tone: Tone) -> Color {
    let (r, g, b) = tone.rgb();
    Color::Rgb(r, g, b)
}

fn style(paint: &Paint) -> Style {
    let mut out = Style::new();
    if let Some(fg) = paint.fg {
        out = out.fg(color(fg));
    }
    if let Some(bg) = paint.bg {
        out = out.bg(color(bg));
    }
    if paint.bold {
        out = out.add_modifier(Modifier::BOLD);
    }
    if paint.underlined {
        out = out.add_modifier(Modifier::UNDERLINED);
    }
    out
}

fn line(painted: &PaintedLine) -> Line<'static> {
    Line::from(painted.pieces.iter().map(|p| Span::styled(p.text.clone(), style(&p.paint))).collect::<Vec<_>>())
}

fn screen_rect(r: &Rect) -> ratatui::layout::Rect {
    ratatui::layout::Rect::new(r.x, r.y, r.width, r.height)
}

fn paint(frame: &mut Frame, drawing: &Drawing) {
    match drawing {
        Drawing::Clear { area } => frame.render_widget(Clear, screen_rect(area)),
        Drawing::Border { area, edge, tone, left, right } => {
            let borders = match edge {
                Edge::All => Borders::ALL,
                Edge::Bottom => Borders::BOTTOM,
                Edge::Left => Borders::LEFT,
            };
            let mut block = Block::default().borders(borders).border_style(Style::new().fg(color(*tone)));
            if !left.pieces.is_empty() {
                block = block.title(line(left).left_aligned());
            }
            if let Some(right) = right {
                block = block.title(line(right).right_aligned());
            }
            frame.render_widget(block, screen_rect(area));
        }
        Drawing::Text { area, lines, base, scroll } => {
            let text = lines.iter().map(line).collect::<Vec<_>>();
            frame.render_widget(Paragraph::new(text).style(style(base)).scroll((*scroll, 0)), screen_rect(area));
        }
        Drawing::Aside { area, line: text, base } => frame.render_widget(
            Paragraph::new(line(text)).style(style(base)).alignment(Alignment::Right),
            screen_rect(area),
        ),
        Drawing::Prose { area, text, base } => frame.render_widget(
            Paragraph::new(text.clone()).style(style(base)).wrap(Wrap { trim: false }),
            screen_rect(area),
        ),
        Drawing::Menu { area, lines, selected } => {
            let items = lines.iter().map(|l| ListItem::new(line(l))).collect::<Vec<_>>();
            let mut state = ListState::default();
            state.select(*selected);
            let list = List::new(items).highlight_style(Style::new().bg(color(Tone::SelectedBg)));
            frame.render_stateful_widget(list, screen_rect(area), &mut state);
        }
    }
}

fn draw(terminal: &mut Terminal<TestBackend>, app: &App, snap: &UiSnapshot) {
    terminal
        .draw(|frame| {
            let area = frame.area();
            for drawing in &render(Rect::new(area.x, area.y, area.width, area.height), app, snap) {
                paint(frame, drawing);
            }
        })
        .unwrap();
}

fn detailed(id: &str, label: &str, detail: &str) -> PlanNode {
    let mut node = PlanNode::new(id, label, PlanNodeChange::Modified);
    node.detail = Some(detail.to_string());
    node
}

fn code_ref(hunk: u32, side: DiffSide, start_line: u32, end_line: u32) -> PlanCodeRef {
    PlanCodeRef { file: "src/main.rs".to_string(), hunk, side, start_line, end_line }
}

fn clean_report() -> ValidationReport {
    ValidationReport { verdict: ValidationVerdict::Valid, dropped: Vec::new() }
}

fn report_with_drops(dropped: Vec<DroppedItem>) -> ValidationReport {
    ValidationReport { verdict: ValidationVerdict::ValidWithDrops, dropped }
}


fn buffer_text(t: &Terminal<TestBackend>) -> String {
    t.backend()
        .buffer()
        .content()
        .iter()
        .map(|c| c.symbol())
        .collect()
}

/// An app that has consumed `snap` (so `current_hunk` and scroll state are set).
fn app_with(snap: &UiSnapshot) -> App {
    let mut app = App::new();
    app.update(snap.clone());
    app
}

/// One buffer row as a string.
fn row_text(t: &Terminal<TestBackend>, y: u16) -> String {
    let buf = t.backend().buffer();
    let w = buf.area.width;
    (0..w)
        .map(|x| buf.cell((x, y)).map(|c| c.symbol()).unwrap_or(" "))
        .collect()
}

/// (symbol, fg, bg, modifier) of one buffer cell.
fn cell(t: &Terminal<TestBackend>, x: u16, y: u16) -> (String, Color, Color, Modifier) {
    let c = t.backend().buffer().cell((x, y)).unwrap();
    (c.symbol().to_string(), c.fg, c.bg, c.modifier)
}

fn snap_with_base() -> UiSnapshot {
    let mut snap = UiSnapshot::default();
    snap.repo.repo_name = "demo".to_string();
    snap.repo.branch = "feature/x".to_string();
    snap.repo.base = Some("origin/main".to_string());
    snap.base_ref = "release/2.0".to_string();
    snap.scope = ChangeScope::Branch;
    snap.ls = LsStatus::Ready;
    snap.ai = AiStatus::Disabled;
    snap.ai_provider = "prime".to_string();
    snap.ai_model = "z-ai/glm-5.3".to_string();
    snap.available_bases = vec![
        "release/2.0".to_string(),
        "main".to_string(),
        "origin/main".to_string(),
    ];
    snap
}

/// A snapshot with one changed file holding a symbol and one hunk of diff.
fn sample() -> UiSnapshot {
    let mut snap = snap_with_base();
    snap.files = vec![FileRow {
        path: "internal/service/service.go".to_string(),
        status: "M",
        expanded: true,
        changed_symbol_count: 1,
        added_lines: 1,
        removed_lines: 1,
        semantic: FileSemanticLoad::Ready,
        symbols: vec![SymbolRow {
            name: "GetDisplayName".to_string(),
            change: "modified",
            confidence: "",
            has_diagnostic: false,
            position: None,
        }],
    }];
    snap.diff = DiffPane {
        title: "internal/service/service.go".to_string(),
        focused_symbol: None,
        rows: vec![
            DiffRow::HunkHeader("@@ -10,3 +10,4 @@ func GetDisplayName".to_string()),
            DiffRow::Context {
                old_ln: 10,
                new_ln: 10,
                text: "func (s *UserService) GetDisplayName(".to_string(),
            },
            DiffRow::Del {
                old_ln: 11,
                text: "    return name".to_string(),
            },
            DiffRow::Add {
                new_ln: 11,
                text: "    return prefix + name".to_string(),
            },
        ],
        current_hunk: 1,
        total_hunks: 1,
    };
    snap
}


#[test]
fn geometry_140x40_exact() {
    let mut t = Terminal::new(TestBackend::new(140, 40)).unwrap();
    let app = app_with(&sample());
    draw(&mut t, &app, &sample());
    // Dense layout: top y=0, work y=1..22, Impact y=23..38, bottom y=39.
    assert!(
        row_text(&t, 0).contains("codescope"),
        "top bar: {}",
        row_text(&t, 0)
    );
    assert!(row_text(&t, 0).contains("1 file"), "count moved to top");
    assert!(
        row_text(&t, 1).contains("Changed files"),
        "files block top: {}",
        row_text(&t, 1)
    );
    // Work row split: files width 42 → its right border is x=41, diff starts x=42.
    assert_eq!(cell(&t, 41, 1).0, "┐", "files right border at x=41");
    assert_eq!(cell(&t, 42, 1).0, "┌", "diff left border at x=42");
    assert!(!row_text(&t, 23).contains("Impact"));
    assert!(row_text(&t, 23).starts_with('┌'), "impact top border");
    assert!(row_text(&t, 38).starts_with('└'), "impact bottom border");
    assert!(
        row_text(&t, 22).starts_with('└'),
        "files/diff bottom at y=22"
    );
    assert!(
        row_text(&t, 39).contains("? help"),
        "help: {}",
        row_text(&t, 39)
    );
    assert_eq!(cell(&t, 0, 39).2, SURFACE, "help bar bg surface");
}

#[test]
fn geometry_80x20_minimum() {
    let mut t = Terminal::new(TestBackend::new(80, 20)).unwrap();
    let app = app_with(&sample());
    draw(&mut t, &app, &sample());
    // At the minimum size the work area keeps its seven-row floor: work y=1..7,
    // Impact y=8..18, combined bottom y=19.
    assert_eq!(cell(&t, 31, 1).0, "┐", "files right border x=31");
    assert_eq!(cell(&t, 32, 1).0, "┌", "diff left border x=32");
    assert!(
        row_text(&t, 7).starts_with('└'),
        "work bottom y=7: {}",
        row_text(&t, 7)
    );
    assert!(row_text(&t, 8).starts_with('┌'), "impact top y=8");
    assert!(row_text(&t, 18).starts_with('└'), "impact bottom y=18");
}

#[test]
fn geometry_focus_only_below_normal() {
    // 79x40 and 140x19: focus-only; Tab changes the visible pane.
    for (w, h) in [(79u16, 40u16), (140, 19)] {
        let mut t = Terminal::new(TestBackend::new(w, h)).unwrap();
        let mut app = App::new();
        let snap = sample();
        draw(&mut t, &app, &snap);
        assert!(
            buffer_text(&t).contains("Changed files"),
            "{w}x{h} files first"
        );
        assert!(
            !buffer_text(&t).contains("func (s *UserService)"),
            "{w}x{h} no diff yet"
        );
        app.apply(Action::Focus(Pane::Diff));
        draw(&mut t, &app, &snap);
        assert!(
            buffer_text(&t).contains("func (s *UserService)"),
            "{w}x{h} diff after focus"
        );
        app.apply(Action::Focus(Pane::Impact));
        draw(&mut t, &app, &snap);
        assert!(
            buffer_text(&t).contains("SELECTED CHANGE"),
            "{w}x{h} impact after focus"
        );
    }
}

#[test]
fn geometry_too_small_and_minimum_usable() {
    for (w, h) in [(29u16, 8u16), (30, 7)] {
        let mut t = Terminal::new(TestBackend::new(w, h)).unwrap();
        draw(&mut t, &app_with(&sample()), &sample());
        assert!(buffer_text(&t).contains("too small"), "{w}x{h}");
    }
    // 30x8: no panic, valid frame.
    let mut t = Terminal::new(TestBackend::new(30, 8)).unwrap();
    draw(&mut t, &app_with(&sample()), &sample());
    assert!(!buffer_text(&t).contains("too small"));
}


#[test]
fn top_bar_content_and_right_reservation() {
    let mut t = Terminal::new(TestBackend::new(140, 40)).unwrap();
    draw(&mut t, &app_with(&sample()), &sample());
    let top = row_text(&t, 0);
    assert!(top.contains("codescope"), "{top}");
    assert!(top.contains("demo"), "repo: {top}");
    assert!(
        top.contains("release/2.0 ← feature/x"),
        "explicit branch/base labels: {top}"
    );
    assert!(
        top.contains("branch  LSP ✓  prime z-ai/glm-5.3 reasoning:default ×"),
        "right group: {top}"
    );
    // The right group is reserved flush against the terminal's right edge.
    assert!(top.ends_with("× "), "right-aligned: {top:?}");
}

#[test]
fn top_bar_puts_provider_and_selected_model_before_ai_status() {
    let mut snap = sample();
    snap.ai = AiStatus::Ready {
        epoch: Epoch(1),
    };
    let mut t = Terminal::new(TestBackend::new(140, 40)).unwrap();
    draw(&mut t, &App::new(), &snap);
    let top = row_text(&t, 0);
    assert!(
        top.contains("prime z-ai/glm-5.3 reasoning:default ✓"),
        "provider/model/reasoning/status order: {top}"
    );
    assert!(!top.contains("AI ✓ prime"), "retired order: {top}");
}

#[test]
fn top_bar_long_branch_never_clips_service_state() {
    let mut snap = sample();
    snap.repo.branch = "feature/".to_string() + &"a-very-long-branch-name".repeat(6);
    for w in [140u16, 100, 80] {
        let mut t = Terminal::new(TestBackend::new(w, 40)).unwrap();
        draw(&mut t, &App::new(), &snap);
        let top = row_text(&t, 0);
        assert!(top.contains("LSP ✓"), "{w}: lsp survives: {top}");
        assert!(
            top.contains("prime") && top.contains('×'),
            "{w}: ai survives: {top}"
        );
    }
}

#[test]
fn top_bar_reads_base_ref_then_repo_base() {
    let mut t = Terminal::new(TestBackend::new(140, 40)).unwrap();
    let app = App::new();
    draw(&mut t, &app, &snap_with_base());
    assert!(row_text(&t, 0).contains("release/2.0 ← feature/x"));
    let mut snap = snap_with_base();
    snap.base_ref.clear();
    draw(&mut t, &app, &snap);
    assert!(row_text(&t, 0).contains("origin/main ← feature/x"));
}

#[test]
fn top_bar_labels_missing_base_explicitly() {
    let mut snap = snap_with_base();
    snap.base_ref.clear();
    snap.repo.base = None;
    let mut t = Terminal::new(TestBackend::new(140, 40)).unwrap();
    draw(&mut t, &App::new(), &snap);
    assert!(row_text(&t, 0).contains("none ← feature/x"));
}

#[test]
fn top_bar_refresh_spinner() {
    let mut snap = sample();
    snap.refreshing = true;
    let mut t = Terminal::new(TestBackend::new(140, 40)).unwrap();
    draw(&mut t, &App::new(), &snap);
    assert!(row_text(&t, 0).contains('⟳'), "spinner");
}


#[test]
fn changed_file_count_lives_in_top_bar_and_summary_row_is_gone() {
    let mut t = Terminal::new(TestBackend::new(140, 40)).unwrap();
    let snap = sample();
    draw(&mut t, &app_with(&snap), &snap);
    assert!(row_text(&t, 0).contains("1 file"));
    assert!(row_text(&t, 1).contains("Changed files"));
    let text = buffer_text(&t);
    assert!(!text.contains("1 symbol in service.go"));
    assert!(!text.contains("semantics unavailable"));
}

#[test]
fn top_bar_file_count_handles_empty_and_plural() {
    let mut snap = snap_with_base();
    let mut t = Terminal::new(TestBackend::new(140, 40)).unwrap();
    draw(&mut t, &App::new(), &snap);
    assert!(row_text(&t, 0).contains("0 files"));
    snap.files = vec![sample().files[0].clone(), sample().files[0].clone()];
    draw(&mut t, &App::new(), &snap);
    assert!(row_text(&t, 0).contains("2 files"));
}

#[test]
fn hunk_navigation_remains_in_diff_title() {
    let mut snap = sample();
    snap.diff
        .rows
        .push(DiffRow::HunkHeader("@@ -30,2 +30,2 @@ tail".to_string()));
    snap.diff.rows.push(DiffRow::Context {
        old_ln: 30,
        new_ln: 30,
        text: "}".to_string(),
    });
    snap.diff.total_hunks = 2;
    let mut t = Terminal::new(TestBackend::new(140, 40)).unwrap();
    let mut app = app_with(&snap);
    app.apply(Action::NextHunk);
    draw(&mut t, &app, &snap);
    let diff_title_row = row_text(&t, 1);
    assert!(
        diff_title_row.contains("hunk 2/2"),
        "diff title: {diff_title_row}"
    );
}


#[test]
fn files_pane_titles_count_and_status_colors() {
    let mut snap = sample();
    snap.files.push(FileRow {
        path: "README.md".to_string(),
        status: "A",
        expanded: false,
        changed_symbol_count: 0,
        added_lines: 1,
        removed_lines: 0,
        semantic: FileSemanticLoad::Ready,
        symbols: vec![],
    });
    let mut t = Terminal::new(TestBackend::new(140, 40)).unwrap();
    draw(&mut t, &app_with(&snap), &snap);
    let files_top = row_text(&t, 1);
    assert!(
        files_top.contains("Changed files"),
        "left title: {files_top}"
    );
    // Right title is the active count, right-aligned against the right border (x=41).
    let files_top: String = (0..42u16).map(|x| cell(&t, x, 1).0).collect();
    assert!(
        files_top.contains("Changed files"),
        "left title: {files_top:?}"
    );
    assert_eq!(
        cell(&t, 39, 1).0,
        "2",
        "count right-aligned before the border: {files_top:?}"
    );
    // Status colors: M is WARN, A is ADD_FG.
    assert_eq!(cell(&t, 1, 2).0, "M");
    assert_eq!(cell(&t, 1, 2).1, WARN);
    let plus_x = (0..41u16)
        .find(|&x| cell(&t, x, 2).0 == "+" && cell(&t, x + 1, 2).0 == "1")
        .expect("added LoC");
    let minus_x = (0..41u16)
        .find(|&x| cell(&t, x, 2).0 == "-" && cell(&t, x + 1, 2).0 == "1")
        .expect("removed LoC");
    assert_eq!(cell(&t, plus_x, 2).1, ADD_FG, "added LoC is green");
    assert_eq!(cell(&t, minus_x, 2).1, DEL_FG, "removed LoC is red");
    // The file row is at y=2 (block top border y=1). Find the `A` row.
    let y_a = (2..28u16)
        .find(|&y| cell(&t, 1, y).0 == "A")
        .expect("added file row");
    assert_eq!(cell(&t, 1, y_a).1, ADD_FG);
    // Selected row background on the first file row (active file is file_sel=0);
    // the SELECTED_BG fills the whole inner row.
    assert_eq!(cell(&t, 10, 2).2, SELECTED_BG, "selected row bg");
    assert_eq!(
        cell(&t, 39, 2).2,
        SELECTED_BG,
        "selected row bg to the row end"
    );
}

#[test]
fn files_pane_dirs_muted_basename_text() {
    let mut t = Terminal::new(TestBackend::new(140, 40)).unwrap();
    draw(&mut t, &app_with(&sample()), &sample());
    // The file row (y=2) shows `M ▾ internal/service/service.go`: the directory
    // components and separators are MUTED; the basename is TEXT + BOLD (active).
    let buf = t.backend().buffer();
    let cells: Vec<(String, Color, Modifier)> = (0..42u16)
        .map(|x| {
            let c = buf.cell((x, 2)).unwrap();
            (c.symbol().to_string(), c.fg, c.modifier)
        })
        .collect();
    let joined: String = cells.iter().map(|(s, _, _)| s.as_str()).collect();
    assert!(
        joined.contains("internal/service/service.go"),
        "row: {joined:?}"
    );
    // Basename = the chars after the LAST '/' in the path text. Find the LAST '/'
    // cell (char index == x because every glyph here is one cell wide).
    let slash = cells
        .iter()
        .position(|(s, _, _)| s == "/")
        .map(|first| {
            // there are two '/'; take the last one
            cells
                .iter()
                .rposition(|(s, _, _)| s == "/")
                .unwrap_or(first)
        })
        .unwrap();
    for (x, (sym, fg, _)) in cells.iter().enumerate() {
        if x > 4 && x < slash && !sym.trim().is_empty() {
            assert_eq!(*fg, MUTED, "dir char {sym:?} at x{x} muted");
        }
    }
    // The basename chars sit strictly between the last '/' and the LoC suffix.
    let count_x = cells.iter().position(|(s, _, _)| s == "+").unwrap();
    for (x, (sym, fg, mods)) in cells.iter().enumerate() {
        if x > slash && x < count_x && !sym.trim().is_empty() {
            assert_eq!(*fg, TEXT, "basename char {sym:?} at x{x} text");
            assert!(mods.contains(Modifier::BOLD), "basename char {sym:?} bold");
        }
    }
    let plus = cells.iter().position(|(s, _, _)| s == "+").unwrap();
    let minus = cells.iter().position(|(s, _, _)| s == "-").unwrap();
    assert_eq!(cells[plus].1, ADD_FG, "added LoC is green");
    assert_eq!(cells[minus].1, DEL_FG, "removed LoC is red");
}

#[test]
fn files_pane_symbol_indent_and_owner_bg() {
    let mut t = Terminal::new(TestBackend::new(140, 40)).unwrap();
    let snap = sample();
    let mut app = app_with(&snap);
    // Select the symbol row (flat index 1): its owning file keeps OWNER_BG.
    app.apply(Action::Down);
    draw(&mut t, &app, &snap);
    assert_eq!(
        cell(&t, 5, 3).0,
        "~",
        "change glyph after the 4-cell indent"
    );
    assert_eq!(cell(&t, 5, 3).2, SELECTED_BG, "active symbol row bg");
    assert_eq!(
        cell(&t, 10, 2).2,
        OWNER_BG,
        "owning file row keeps OWNER_BG"
    );
}


#[test]
fn hovered_node_links_exact_old_and_new_hunk_rows() {
    let diff = DiffPane {
        title: "src/main.rs".to_string(),
        focused_symbol: None,
        rows: vec![
            DiffRow::HunkHeader("@@ -10,2 +10,2 @@".to_string()),
            DiffRow::Del {
                old_ln: 10,
                text: "old value".to_string(),
            },
            DiffRow::Add {
                new_ln: 10,
                text: "new value".to_string(),
            },
            DiffRow::Context {
                old_ln: 11,
                new_ln: 11,
                text: "context".to_string(),
            },
            DiffRow::HunkHeader("@@ -30,0 +30,1 @@".to_string()),
            DiffRow::Add {
                new_ln: 30,
                text: "finish".to_string(),
            },
        ],
        current_hunk: 1,
        total_hunks: 2,
    };
    let mut node = PlanNode::new("n1", "update", PlanNodeChange::Modified);
    node.code_refs.push(code_ref(0, DiffSide::Old, 10, 11));
    node.code_refs.push(code_ref(1, DiffSide::New, 30, 30));
    let linked = linked_diff_rows(&diff, Some(&node));
    assert_eq!(linked, vec![false, true, false, true, false, true]);

    let spans = row_spans(&diff.rows);
    let mut built = build_raw(&diff.rows, &spans, 2, 0, 40, 48);
    apply_linked_diff_style(&mut built, &linked);
    for index in [1usize, 3, 5] {
        assert!(built.lines[index]
            .pieces
            .iter()
            .all(|span| span.paint.underlined));
        assert!(built.lines[index]
            .pieces
            .iter()
            .any(|span| span.paint.bg == Some(Tone::CodeLinkBg)));
    }
    assert!(
        built.lines[1]
            .pieces
            .iter()
            .any(|span| span.paint.bg == Some(Tone::DelBg)),
        "deleted body retains its semantic background"
    );
    assert!(
        built.lines[5]
            .pieces
            .iter()
            .any(|span| span.paint.bg == Some(Tone::AddBg)),
        "added body retains its semantic background"
    );
    assert!(built.lines[2]
        .pieces
            .iter()
        .all(|span| span.paint.bg != Some(Tone::CodeLinkBg)));
}

#[test]
fn diff_dual_gutter_blanks_on_the_absent_side() {
    let mut t = Terminal::new(TestBackend::new(140, 40)).unwrap();
    draw(&mut t, &app_with(&sample()), &sample());
    // Diff pane x starts at 43 (border at 42); ln_width = 4 (max ln 11 → 2 digits,
    // clamped to 4). Rows: header y=2, context y=3, del y=4, add y=5.
    // Context row y=3: both numbers present. The gutter starts at x=43 (block inner).
    let ctx: String = (43..54u16).map(|x| cell(&t, x, 3).0).collect();
    assert_eq!(ctx, "  10 │   10", "dual gutter: {ctx:?}");
    // Del row y=4: old number present, new side exactly ln_width blanks.
    let del_old: String = (43..47u16).map(|x| cell(&t, x, 4).0).collect();
    assert_eq!(del_old, "  11", "del old number: {del_old:?}");
    let del_new: String = (50..54u16).map(|x| cell(&t, x, 4).0).collect();
    assert_eq!(del_new, "    ", "del new side blank: {del_new:?}");
    assert_eq!(cell(&t, 48, 4).0, "│");
    assert_eq!(cell(&t, 55, 4).0, "-", "sign cell");
    // Add row y=5: old side blank, new number present.
    let add_old: String = (43..47u16).map(|x| cell(&t, x, 5).0).collect();
    assert_eq!(add_old, "    ", "add old side blank");
    let add_new: String = (50..54u16).map(|x| cell(&t, x, 5).0).collect();
    assert_eq!(add_new, "  11", "add new number");
    assert_eq!(cell(&t, 55, 5).0, "+");
}

#[test]
fn diff_expands_source_tabs_in_raw_and_wrapped_modes() {
    for wrapped in [false, true] {
        let mut snap = sample();
        snap.diff.rows = vec![
            DiffRow::HunkHeader("@@ -1,0 +1,2 @@ func handler()".to_string()),
            DiffRow::Add {
                new_ln: 1,
                text: "\tif ready {".to_string(),
            },
            DiffRow::Add {
                new_ln: 2,
                text: "\t\treturn".to_string(),
            },
        ];
        let mut app = app_with(&snap);
        app.diff_wrap = wrapped;
        let mut terminal = Terminal::new(TestBackend::new(140, 40)).unwrap();
        draw(&mut terminal, &app, &snap);

        // Diff inner x=43, 4-cell dual gutter + sign ends at x=55, body starts x=56.
        assert_eq!(cell(&terminal, 55, 3).0, "+");
        assert_eq!(
            (56..60)
                .map(|x| cell(&terminal, x, 3).0)
                .collect::<String>(),
            "    ",
            "first tab indentation, wrapped={wrapped}"
        );
        assert_eq!(cell(&terminal, 60, 3).0, "i");
        assert_eq!(
            (56..64)
                .map(|x| cell(&terminal, x, 4).0)
                .collect::<String>(),
            "        ",
            "nested tab indentation, wrapped={wrapped}"
        );
        assert_eq!(cell(&terminal, 64, 4).0, "r");
    }
}

#[test]
fn diff_gutter_fixed_during_hscroll() {
    let mut snap = sample();
    // A line long enough to make hscroll non-trivial (longer than the 83-cell body).
    snap.diff.rows.push(DiffRow::Add {
        new_ln: 12,
        text: "let result = compute_something(with_some, arguments, that, make, this, line, quite, long, indeed);".to_string(),
    });
    let mut app = app_with(&snap);
    app.focused = Pane::Diff;
    // Raw mode is the default; scroll right by 8.
    app.apply(Action::Expand);
    let mut t = Terminal::new(TestBackend::new(140, 40)).unwrap();
    draw(&mut t, &app, &snap);
    // The gutter columns are unchanged at hscroll x+08.
    let del_old: String = (43..47u16).map(|x| cell(&t, x, 4).0).collect();
    assert_eq!(del_old, "  11", "gutter fixed under hscroll");
    assert_eq!(cell(&t, 48, 4).0, "│");
    assert_eq!(cell(&t, 55, 4).0, "-", "sign fixed under hscroll");
    // The title shows the raw offset.
    assert!(
        row_text(&t, 1).contains("x+08"),
        "title: {}",
        row_text(&t, 1)
    );
}

#[test]
fn hunk_header_band_spans_the_full_inner_width() {
    let mut t = Terminal::new(TestBackend::new(140, 40)).unwrap();
    draw(&mut t, &app_with(&sample()), &sample());
    // The header band is row y=2; the diff block spans x 42..139, so the inner is
    // x 43..=138. EVERY interior cell carries the band style (padded to the right).
    for x in [43u16, 60, 100, 138] {
        let (_, _, bg, _) = cell(&t, x, 2);
        assert_eq!(bg, SURFACE_ALT, "x={x} band bg");
    }
    let (_, fg, _, mods) = cell(&t, 43, 2);
    assert_eq!(fg, HUNK_FG);
    assert!(mods.contains(Modifier::BOLD));
}

#[test]
fn intraline_only_changed_words_brighten() {
    // `    return name` → `    return prefix + name` (paired): only the inserted
    // words get the bright style; the equal prefix keeps the restrained body.
    let mut t = Terminal::new(TestBackend::new(140, 40)).unwrap();
    draw(&mut t, &app_with(&sample()), &sample());
    // Del row y=4: nothing changes on the old side (pure deletion of nothing) —
    // `return` is equal, `name` moves; the del side has no inserted span.
    // Add row y=5: body starts at x=57 (gutter x=43, 14 cells: 2*4+5+1 → 43+14).
    let body_x = 57u16;
    // `    return ` is equal → restrained ADD body (fg TEXT, bg ADD_BG).
    let (_, fg, bg, mods) = cell(&t, body_x + 5, 5); // 'e' in "return"
    assert_eq!((fg, bg), (TEXT, ADD_BG), "equal words restrained");
    assert!(!mods.contains(Modifier::BOLD));
    // `prefix + ` was inserted → bright.
    let (_, fg, bg, mods) = cell(&t, body_x + 12, 5); // inside "prefix"
    assert_eq!((fg, bg), (ADD_HI, ADD_HI_BG), "changed words bright");
    assert!(mods.contains(Modifier::BOLD));
}

#[test]
fn diff_title_basename_and_state() {
    let mut t = Terminal::new(TestBackend::new(140, 40)).unwrap();
    let app = app_with(&sample());
    draw(&mut t, &app, &sample());
    let title = row_text(&t, 1);
    // Basename only (not the full path) on the left; hunk + wrap on the right.
    assert!(title.contains("service.go"), "{title}");
    assert!(
        !title.contains("internal/service"),
        "no full path in title: {title}"
    );
    assert!(title.contains("hunk 1/1"), "{title}");
    assert!(title.contains("wrap off"), "{title}");
}

#[test]
fn diff_title_shows_focused_symbol_on_symbol_rows() {
    let mut t = Terminal::new(TestBackend::new(140, 40)).unwrap();
    let mut snap = sample();
    snap.diff.focused_symbol = Some("GetDisplayName".to_string());
    let app = app_with(&snap);
    draw(&mut t, &app, &snap);
    assert!(
        row_text(&t, 1).contains("GetDisplayName · hunk 1/1"),
        "{}",
        row_text(&t, 1)
    );
    // File-row selection (no focused_symbol): no symbol in the title.
    snap.diff.focused_symbol = None;
    draw(&mut t, &app, &snap);
    assert!(
        !row_text(&t, 1).contains("GetDisplayName ·"),
        "no symbol: {}",
        row_text(&t, 1)
    );
}


#[test]
fn impact_three_headers_always_present() {
    let mut t = Terminal::new(TestBackend::new(140, 40)).unwrap();
    draw(&mut t, &app_with(&sample()), &sample());
    let text = buffer_text(&t);
    assert!(text.contains("SELECTED CHANGE"), "{text}");
    assert!(text.contains("CALLERS ·"), "{text}");
    assert!(text.contains("DOWNSTREAM ·"), "{text}");
}

/// An impact pane for a selected symbol with callers/downstream.
fn impact_sample() -> ImpactPane {
    ImpactPane {
        selected_change: Some(SelectedChange {
            file: "internal/service/service.go".to_string(),
            label: "GetDisplayName".to_string(),
            change: "modified",
            interpretation: "Modified implementation across 1 hunk.".to_string(),
            interpretation_source: InterpretationSource::Deterministic,
        }),
        callers: ImpactList {
            rows: vec![
                ImpactRow {
                    label: "Handler.HandleGetUser".to_string(),
                    relation: "calls",
                    changed: false,
                    has_diagnostic: false,
                },
                ImpactRow {
                    label: "main".to_string(),
                    relation: "calls",
                    changed: false,
                    has_diagnostic: false,
                },
            ],
            state: ImpactLoadState::Ready,
            partial: false,
        },
        downstream: ImpactList {
            rows: vec![ImpactRow {
                label: "formatName".to_string(),
                relation: "calls",
                changed: false,
                has_diagnostic: false,
            }],
            state: ImpactLoadState::Ready,
            partial: false,
        },
        note: String::new(),
    }
}

#[test]
fn impact_shows_selected_change_and_counts() {
    let mut snap = sample();
    snap.impact = impact_sample();
    let mut app = App::new();
    app.dividers.set(DividerId::WorkReview, 16);
    let mut t = Terminal::new(TestBackend::new(140, 40)).unwrap();
    draw(&mut t, &app, &snap);
    let text = buffer_text(&t);
    assert!(text.contains("GetDisplayName"), "symbol label: {text}");
    assert!(text.contains("modified"), "badge: {text}");
    assert!(
        text.contains("Modified implementation across 1 hunk."),
        "deterministic interpretation: {text}"
    );
    assert!(text.contains("CALLERS · 2"), "callers count: {text}");
    assert!(text.contains("DOWNSTREAM · 1"), "downstream count: {text}");
    assert!(text.contains("Handler.HandleGetUser"), "caller row: {text}");
}

#[test]
fn impact_loading_state_shows_ellipsis_not_zero() {
    let mut snap = sample();
    let mut impact = impact_sample();
    impact.callers.state = ImpactLoadState::Loading;
    impact.callers.rows.clear();
    snap.impact = impact;
    let mut t = Terminal::new(TestBackend::new(140, 40)).unwrap();
    draw(&mut t, &App::new(), &snap);
    let text = buffer_text(&t);
    assert!(text.contains("CALLERS · …"), "loading shows …: {text}");
    assert!(!text.contains("CALLERS · 0"), "never a false zero: {text}");
}

#[test]
fn impact_relationship_lists_render_their_independent_scroll_offsets() {
    let mut snap = sample();
    let mut impact = impact_sample();
    impact.callers.rows = (0..10)
        .map(|index| ImpactRow {
            label: format!("caller-{index}"),
            relation: "calls",
            changed: false,
            has_diagnostic: false,
        })
        .collect();
    snap.impact = impact;
    let mut app = App::new();
    app.callers_scroll = 3;
    let mut t = Terminal::new(TestBackend::new(140, 40)).unwrap();
    draw(&mut t, &app, &snap);
    let text = buffer_text(&t);
    let relationship_stack = (0..40)
        .map(|y| row_text(&t, y).chars().take(54).collect::<String>())
        .collect::<Vec<_>>()
        .join("\n");
    assert!(text.contains("CALLERS · 10 · ↑3"), "scroll marker: {text}");
    assert!(
        relationship_stack.contains("caller-3"),
        "scrolled first row: {text}"
    );
    assert!(
        !relationship_stack.contains("caller-0"),
        "earlier row stays above viewport: {text}"
    );
}

#[test]
fn impact_empty_selection_is_graceful() {
    let mut snap = sample();
    snap.impact = ImpactPane::default();
    let mut t = Terminal::new(TestBackend::new(140, 40)).unwrap();
    draw(&mut t, &App::new(), &snap);
    let text = buffer_text(&t);
    assert!(text.contains("SELECTED CHANGE"), "header stays: {text}");
    assert!(
        text.contains("select a changed file or symbol"),
        "guidance: {text}"
    );
}

// -- generated half of the combined Impact pane --------------------------------------

/// A snapshot whose semantic pane carries a validated, epoch-matched AI plan.
/// `report` defaults to a clean `Valid`; tests swap in drops to exercise the
/// sanitizer-warning line.
fn ai_plan_snap(rows: usize) -> UiSnapshot {
    ai_plan_snap_with_report(rows, clean_report())
}

fn ai_plan_snap_with_report(
    rows: usize,
    report: ValidationReport,
) -> UiSnapshot {

    let mut snap = sample();
    snap.epoch = Epoch(3);
    snap.ai = AiStatus::Ready {
        epoch: Epoch(3),
    };
    snap.semantic = SemanticPane {
        report: Some(report),
        plan: (rows > 0).then(|| {
            let mut plan = VisualizationPlan::new(Epoch(3));
            plan.intent = "Each request moves through the changed authentication path.".into();
            plan.forms.push(VizForm {
                kind: FormKind::RelationshipFlow,
                nodes: (0..rows)
                    .map(|i| {
                        detailed(&format!("n{i}"), &format!("PlanStep{i}"), &format!("explains effect {i}"))
                    })
                    .collect(),
                edges: (1..rows)
                    .map(|i| PlanEdge {
                        from: format!("n{}", i - 1),
                        to: format!("n{i}"),
                        kind: PlanEdgeKind::Calls,
                        label: Some(format!("passes step {i}")),
                    })
                    .collect(),
            });
            plan
        }),
        note: String::new(),
        ai_generated: true,
    };
    snap
}

/// Drive the Loading → Ready edge so the generated half is populated.
fn app_after_ai_landed(plan: &UiSnapshot) -> App {
    let mut app = App::new();
    let mut loading = sample();
    loading.epoch = Epoch(3);
    loading.ai = AiStatus::Loading {
        since_epoch: Epoch(3),
    };
    app.update(loading);
    app.update(plan.clone());
    app
}

#[test]
fn ai_plan_renders_one_description_after_loading_to_ready() {
    let plan = ai_plan_snap(3);
    let app = app_after_ai_landed(&plan);
    let mut t = Terminal::new(TestBackend::new(140, 40)).unwrap();
    draw(&mut t, &app, &plan);
    assert!(
        !row_text(&t, 23).contains("Impact") && !row_text(&t, 23).contains("AI Plan"),
        "title-free border: {}",
        row_text(&t, 23)
    );
    // The fuller intent is the sole prose description; the redundant title is hidden.
    let header = row_text(&t, 24);
    assert!(
        header.contains("Each request moves through"),
        "description: {header}"
    );
    assert!(
        !buffer_text(&t).contains("Authentication request flow"),
        "redundant title is hidden"
    );
    assert!(
        !header.contains("AI-selected"),
        "opaque provenance: {header}"
    );
    assert_eq!(
        (24..38)
            .map(|y| row_text(&t, y))
            .collect::<String>()
            .matches("Each request moves through")
            .count(),
        1,
        "the description renders once"
    );
    // Rows carry explanation and visual grammar, never a metadata badge inventory.
    let generated: String = (24..38).map(|y| row_text(&t, y)).collect();
    assert!(generated.contains('┌'), "node box: {generated}");
    assert!(
        generated.contains("PlanStep0"),
        "selected node: {generated}"
    );
    assert!(
        generated.contains("explains effect"),
        "node detail: {generated}"
    );
    assert!(
        !generated.contains("diff modified"),
        "old badge: {generated}"
    );
    assert!(!generated.contains("LSP info"), "old badge: {generated}");
    assert!(
        !generated.contains("AI-selected"),
        "old legend: {generated}"
    );
    // The deterministic context stays visible beside generated Impact.
    let body: String = (24..38).map(|y| row_text(&t, y)).collect();
    assert!(body.contains("SELECTED CHANGE"), "impact context: {body}");
}

#[test]
fn combined_impact_has_no_section_title_and_keeps_both_halves() {
    let plan = ai_plan_snap(2);
    let mut app = App::new();
    app.update(plan.clone());
    let mut t = Terminal::new(TestBackend::new(140, 40)).unwrap();
    draw(&mut t, &app, &plan);
    assert!(!row_text(&t, 22).contains("Impact"));
    let text = buffer_text(&t);
    assert!(!text.contains("AI Plan"), "retired tab name: {text}");
    assert!(text.contains("SELECTED CHANGE"), "left half: {text}");
    assert!(text.contains("PlanStep0"), "right half: {text}");
}

#[test]
fn generated_impact_shows_progress_while_loading() {
    let mut snap = sample();
    snap.ai = AiStatus::Loading {
        since_epoch: Epoch(3),
    };
    let mut t = Terminal::new(TestBackend::new(140, 40)).unwrap();
    draw(&mut t, &App::new(), &snap);
    assert!(
        buffer_text(&t).contains("Generating a deeper explanation…"),
        "loading state: {}",
        buffer_text(&t)
    );
}

#[test]
fn generated_impact_distinguishes_prerequisites_and_queue_position() {
    let cases = [
        (
            AiStatus::WaitingForSymbols {
                epoch: Epoch(3),
            },
            "Waiting for symbol analysis…",
        ),
        (
            AiStatus::WaitingForRelations {
                epoch: Epoch(3),
            },
            "Waiting for symbol relationships…",
        ),
        (
            AiStatus::Queued {
                epoch: Epoch(3),
                position: 4,
            },
            "Waiting for AI capacity · priority #4",
        ),
    ];
    for (status, expected) in cases {
        let mut snap = sample();
        snap.ai = status;
        let mut t = Terminal::new(TestBackend::new(140, 40)).unwrap();
        draw(&mut t, &App::new(), &snap);
        assert!(
            buffer_text(&t).contains(expected),
            "missing {expected:?}: {}",
            buffer_text(&t)
        );
    }
}

#[test]
fn ai_plan_view_explains_empty_or_unavailable_states() {
    let mut t = Terminal::new(TestBackend::new(140, 40)).unwrap();
    // A validated-but-empty plan falls back to deterministic selection guidance.
    let mut app = App::new();
    let empty = ai_plan_snap(0);
    app.update(empty.clone());
    draw(&mut t, &app, &empty);
    assert!(
        buffer_text(&t).contains("Select a changed file or symbol"),
        "empty generated impact: {}",
        buffer_text(&t)
    );
    // AI off: unavailable. (update() flips the view back; toggle after it.)
    let mut snap = sample(); // ai: Disabled, semantic: default
    let mut app = App::new();
    app.update(snap.clone());
    draw(&mut t, &app, &snap);
    assert!(
        buffer_text(&t).contains("Known relationships · AI not configured"),
        "disabled: {}",
        buffer_text(&t)
    );
    // A stale publish carries the dispatcher's note.
    snap.ai = AiStatus::Stale {
        epoch: Epoch(2),
    };
    snap.semantic.note = "AI view stale (repo changed); regenerating…".to_string();
    let mut app = App::new();
    app.update(snap.clone());
    draw(&mut t, &app, &snap);
    assert!(
        buffer_text(&t).contains("Repository changed; showing known relationships"),
        "stale note: {}",
        buffer_text(&t)
    );
}

/// A sanitized plan (ValidWithDrops) gets exactly one WARN line before the diagram;
/// the drop reasons stay out of the small pane (full detail lives in debug-ai JSON).
#[test]
fn sanitized_plan_warns_once_before_the_diagram() {
    let report = report_with_drops(vec![
        DroppedItem {
            subject: "edge n3 -> n1 in form 0".to_string(),
            reason: "nonconsecutive or duplicate sequence edge".to_string(),
        },
        DroppedItem {
            subject: "node n9 in form 0".to_string(),
            reason: "entity does not resolve".to_string(),
        },
    ]);
    let plan = ai_plan_snap_with_report(3, report);
    let app = app_after_ai_landed(&plan);
    let mut t = Terminal::new(TestBackend::new(140, 40)).unwrap();
    draw(&mut t, &app, &plan);
    let text = buffer_text(&t);
    assert_eq!(
        text.matches("sanitized AI plan").count(),
        1,
        "exactly one warning line: {text}"
    );
    assert!(
        text.contains("sanitized AI plan · 2 items removed"),
        "concise count line (plural): {text}"
    );
    assert!(
        !text.contains("entity does not resolve")
            && !text.contains("nonconsecutive or duplicate sequence edge"),
        "drop reasons stay out of the small pane: {text}"
    );
    // The warning precedes the plan's sole description, and uses WARN styling.
    let warn_row = (24..38u16)
        .find(|y| row_text(&t, *y).contains("sanitized AI plan"))
        .expect("warning visible in the default viewport");
    let description_row = (24..38u16)
        .find(|y| row_text(&t, *y).contains("Each request moves through"))
        .expect("plan description visible");
    assert!(
        warn_row < description_row,
        "warning precedes the plan: {text}"
    );
    let mut styled = false;
    for x in 0..140u16 {
        let (symbol, fg, _, _) = cell(&t, x, warn_row);
        if symbol == "⚠" && fg == WARN {
            styled = true;
        }
    }
    assert!(styled, "the warning uses WARN styling");
}

/// A clean report (Valid, zero drops) adds no warning line; neither does a fallback
/// pane (no AI plan) nor a report-less semantic pane.
#[test]
fn clean_report_adds_no_warning_line() {
    // Valid with zero drops: no line anywhere.
    let plan = ai_plan_snap(3);
    let app = app_after_ai_landed(&plan);
    let mut t = Terminal::new(TestBackend::new(140, 40)).unwrap();
    draw(&mut t, &app, &plan);
    assert!(
        !buffer_text(&t).contains("sanitized AI plan"),
        "a clean report must not warn: {}",
        buffer_text(&t)
    );
    // Fallback pane (deterministic relationships): the slot stays warning-free even
    // if a stale report were left behind.
    let mut snap = sample();
    snap.semantic.report = Some(report_with_drops(vec![
        DroppedItem {
            subject: "node n1 in form 0".to_string(),
            reason: "entity does not resolve".to_string(),
        },
    ]));
    let app = App::new();
    let mut t = Terminal::new(TestBackend::new(140, 40)).unwrap();
    draw(&mut t, &app, &snap);
    assert!(
        !buffer_text(&t).contains("sanitized AI plan"),
        "fallback panes never carry the AI sanitizer warning: {}",
        buffer_text(&t)
    );
}


/// Node highlighting is wired to the actual selected change: a plan node whose label
/// matches `impact.selected_change.label` renders with the selection style. The old
/// wiring passed the dispatcher's data-quality note, which could never match.
#[test]
fn selected_node_label_is_highlighted() {
    let mut plan = ai_plan_snap(5);
    plan.semantic.plan.as_mut().unwrap().forms[0].nodes[2].label = "WiredTarget".into();
    plan.impact.selected_change = Some(SelectedChange {
        file: "internal/service/service.go".to_string(),
        label: "WiredTarget".to_string(),
        change: "modified",
        interpretation: "Signature changed.".to_string(),
        interpretation_source: InterpretationSource::Deterministic,
    });
    let mut app = App::new();
    app.update(plan.clone());
    let mut t = Terminal::new(TestBackend::new(140, 40)).unwrap();
    draw(&mut t, &app, &plan);
    // Five steps cannot fit side by side: the ladder renders, step 3 at the last row
    // of the default pane.
    let mut highlighted = false;
    for y in 24..38u16 {
        let row = row_text(&t, y);
        if !row.contains("WiredTarget") {
            continue;
        }
        for x in 0..140u16 {
            let (symbol, fg, _, modifier) = cell(&t, x, y);
            if symbol == "W" && fg == ACCENT && modifier.contains(Modifier::BOLD) {
                highlighted = true;
            }
        }
    }
    assert!(
        highlighted,
        "the matching node uses the selection style: {}",
        (24..38).map(|y| row_text(&t, y)).collect::<String>()
    );
}

/// At a 40-column focus-only size no box border is ever clipped: every top border
/// that opens also closes within the pane (the old clamp forced 18-cell boxes into a
/// 17-cell half).
#[test]
fn narrow_focus_renders_without_clipped_borders() {
    let plan = ai_plan_snap(3);
    let mut app = App::new();
    app.update(plan.clone());
    app.apply(Action::Focus(Pane::Impact));
    let mut t = Terminal::new(TestBackend::new(40, 24)).unwrap();
    draw(&mut t, &app, &plan);
    let buf = t.backend().buffer();
    for y in 0..24u16 {
        let mut opens = 0usize;
        let mut closes = 0usize;
        let mut bottom_opens = 0usize;
        let mut bottom_closes = 0usize;
        for x in 0..40u16 {
            match buf.cell((x, y)).map(|c| c.symbol()).unwrap_or(" ") {
                "┌" => opens += 1,
                "┐" => closes += 1,
                "└" => bottom_opens += 1,
                "┘" => bottom_closes += 1,
                _ => {}
            }
        }
        assert_eq!(
            opens,
            closes,
            "clipped top border at row {y}: {}",
            row_text(&t, y)
        );
        assert_eq!(
            bottom_opens,
            bottom_closes,
            "clipped bottom border at row {y}: {}",
            row_text(&t, y)
        );
    }
    let text = buffer_text(&t);
    assert!(text.contains("PlanStep0"), "steps survive at 40x24: {text}");
}

#[test]
fn zoomed_ai_plan_renders_rows_full_area() {
    let plan = ai_plan_snap(3);
    let mut app = app_after_ai_landed(&plan);
    app.apply(Action::Focus(Pane::Impact));
    app.apply(Action::ToggleZoom);
    let mut t = Terminal::new(TestBackend::new(140, 40)).unwrap();
    draw(&mut t, &app, &plan);
    let text = buffer_text(&t);
    assert!(!text.contains("Impact"), "section title removed: {text}");
    assert!(!text.contains("AI Plan"), "retired tab absent: {text}");
    assert!(text.contains("ZOOM"), "zoom tag: {text}");
    assert!(text.contains("PlanStep0"), "rows in zoom: {text}");
}

#[test]
fn ai_plan_renders_at_narrow_sizes_without_panic() {
    let plan = ai_plan_snap(3);
    // 90x20: normal tier, bottom pane visible.
    let app = app_after_ai_landed(&plan);
    let mut t = Terminal::new(TestBackend::new(90, 20)).unwrap();
    draw(&mut t, &app, &plan);
    assert!(buffer_text(&t).contains("PlanStep0"), "90x20 rows");
    // 30x8: focus-only minimum with the bottom pane focused.
    let mut app = app_after_ai_landed(&plan);
    app.apply(Action::Focus(Pane::Impact));
    let mut t = Terminal::new(TestBackend::new(30, 8)).unwrap();
    draw(&mut t, &app, &plan);
    // 79x40: focus-only fallback keeps the same combined layout.
    let mut app = app_after_ai_landed(&plan);
    app.apply(Action::Focus(Pane::Impact));
    let mut t = Terminal::new(TestBackend::new(79, 40)).unwrap();
    draw(&mut t, &app, &plan);
    let text = buffer_text(&t);
    assert!(!text.contains("Impact"), "79x40 title removed: {text}");
    assert!(!text.contains("AI Plan"), "79x40 retired tab: {text}");
    assert!(text.contains("PlanStep0"), "79x40 rows: {text}");
}

#[test]
fn generated_impact_wraps_long_explanations_instead_of_truncating_them() {
    // The intent is capped at two lines: a length that wraps into exactly two lines
    // must be shown complete, not clipped or elided.
    let mut plan = ai_plan_snap(1);
    plan.semantic.plan.as_mut().unwrap().intent =
        "The readiness endpoint returns unavailable before shutdown so new traffic stops"
            .to_string();
    let app = app_after_ai_landed(&plan);
    let mut t = Terminal::new(TestBackend::new(100, 40)).unwrap();
    draw(&mut t, &app, &plan);
    let body: String = (24..38).map(|y| format!("{}\n", row_text(&t, y))).collect();
    assert!(
        body.contains("The readiness endpoint"),
        "first line: {body}"
    );
    assert!(body.contains("before shutdown"), "wrapped line: {body}");
    assert!(
        body.contains("new traffic stops"),
        "untruncated ending: {body}"
    );
    assert!(!body.contains('…'), "long content was not elided: {body}");
}

#[test]
fn combined_impact_renders_relationship_stack_and_generated_breakdown() {
    let mut snap = sample();
    snap.impact = impact_sample();
    snap.ai = AiStatus::Ready {
        epoch: Epoch(3),
    };
    snap.semantic = ai_plan_snap(3).semantic;
    let mut app = App::new();
    app.dividers.set(DividerId::WorkReview, 16);
    let mut t = Terminal::new(TestBackend::new(140, 40)).unwrap();
    draw(&mut t, &app, &snap);
    let text = buffer_text(&t);
    assert!(text.contains("SELECTED CHANGE"), "{text}");
    assert!(text.contains("CALLERS ·"), "{text}");
    assert!(text.contains("DOWNSTREAM ·"), "{text}");
    assert!(text.contains("PlanStep0"), "generated half: {text}");
    assert!(!text.contains("AI Plan"), "retired tab: {text}");
}


#[test]
fn bottom_bar_right_justifies_tokens_and_path() {
    let mut snap = sample();
    snap.ai_tokens.input = 1_250;
    snap.ai_tokens.output = 42;
    let mut t = Terminal::new(TestBackend::new(140, 40)).unwrap();
    draw(&mut t, &app_with(&snap), &snap);
    let status = row_text(&t, 39);
    assert!(
        status.contains("internal/service/service.go"),
        "full path: {status}"
    );
    assert!(status.contains("tokens in 1.2k out 42"), "usage: {status}");
    assert!(
        status.trim_end().ends_with("internal/service/service.go"),
        "path is final and right-aligned: {status:?}"
    );
    let path_x = status.find("internal/service/service.go").unwrap() as u16;
    assert_eq!(cell(&t, path_x, 39).1, MUTED, "path muted");
}

#[test]
fn status_bar_colors_messages_by_severity() {
    let mut snap = sample();
    snap.status = StatusMessage {
        text: "AI timed out after 20s · m change model · retries automatically".to_string(),
        detail: None,
        level: StatusLevel::Error,
    };
    let mut t = Terminal::new(TestBackend::new(140, 40)).unwrap();
    draw(&mut t, &App::new(), &snap);
    assert_eq!(cell(&t, 2, 39).1, ERROR, "AI failure is an error");
    assert!(
        row_text(&t, 39).contains("AI timed out after 20s"),
        "actionable text"
    );
    snap.status = StatusMessage {
        text: "base: main".to_string(),
        detail: None,
        level: StatusLevel::Info,
    };
    draw(&mut t, &App::new(), &snap);
    assert_eq!(cell(&t, 2, 39).1, MUTED, "info is muted");
}

#[test]
fn status_bar_warning_level() {
    let mut snap = sample();
    snap.status = StatusMessage {
        text: "git-only (no supported language detected)".to_string(),
        detail: None,
        level: StatusLevel::Warning,
    };
    let mut t = Terminal::new(TestBackend::new(140, 40)).unwrap();
    draw(&mut t, &App::new(), &snap);
    assert_eq!(cell(&t, 2, 39).1, WARN, "warning");
}

#[test]
fn clicked_status_detail_wraps_and_shows_the_untruncated_tail() {
    let mut snap = sample();
    let tail = "TAIL_OF_PROVIDER_RESPONSE";
    snap.status = StatusMessage {
        text: "AI provider returned HTTP 400…".to_string(),
        detail: Some(format!(
            "AI provider returned HTTP 400: {{\"error\":{{\"message\":\"{} {tail}\"}}}}",
            "unsupported provider parameter ".repeat(8)
        )),
        level: StatusLevel::Warning,
    };
    let mut app = App::new();
    app.update(snap.clone());
    app.apply(Action::ToggleStatusDetail);

    let mut t = Terminal::new(TestBackend::new(80, 20)).unwrap();
    draw(&mut t, &app, &snap);
    let text = buffer_text(&t);

    assert!(text.contains("status details"), "overlay title: {text}");
    assert!(
        text.contains("AI provider returned HTTP 400"),
        "message prefix: {text}"
    );
    assert!(text.contains(tail), "untruncated tail: {text}");
    assert!(text.contains("click or Esc to close"), "close hint: {text}");
}

#[test]
fn status_detail_dialog_is_content_sized_and_width_capped() {
    let area = Rect::new(0, 0, 200, 40);
    let short = status_detail_rect(area, "brief provider error");
    assert_eq!(
        short.width, 120,
        "wide terminals keep a readable line length"
    );
    assert_eq!(
        short.height, 5,
        "short errors use the minimum dialog height"
    );
    assert!(short.width < area.width && short.height < area.height);

    let long = status_detail_rect(area, &"provider response detail ".repeat(40));
    assert!(long.height > short.height, "content grows the dialog");
    assert!(long.height < area.height.saturating_sub(4));
    assert_eq!(wrapped_line_count("abcdefghij", 4), 3);
}

#[test]
fn help_bar_compacts_with_width() {
    let snap = sample();
    let mut t = Terminal::new(TestBackend::new(140, 40)).unwrap();
    draw(&mut t, &App::new(), &snap);
    assert!(
        row_text(&t, 39).contains("drag resize"),
        "full: {}",
        row_text(&t, 39)
    );
    // Focus-only at 79 wide: manual refresh remains visible while mouse guidance drops.
    let mut t = Terminal::new(TestBackend::new(79, 40)).unwrap();
    draw(&mut t, &App::new(), &snap);
    let help = row_text(&t, 39);
    assert!(
        help.contains("R refresh"),
        "manual mode is discoverable: {help}"
    );
    assert!(!help.contains("resize"), "resize dropped: {help}");
}

#[test]
fn zoom_keeps_all_chrome_rows() {
    let mut app = App::new();
    app.apply(Action::ToggleZoom);
    let mut t = Terminal::new(TestBackend::new(140, 40)).unwrap();
    draw(&mut t, &app, &sample());
    assert!(row_text(&t, 0).contains("codescope"), "top survives zoom");
    assert!(
        row_text(&t, 0).contains("1 file"),
        "file count survives zoom"
    );
    assert!(row_text(&t, 39).contains("? help"), "help survives zoom");
    assert!(buffer_text(&t).contains("· ZOOM"), "zoom tag visible");
}

#[test]
fn width_sweep_never_panics() {
    let mut w = 20u16;
    while w <= 200 {
        let mut h = 6u16;
        while h <= 40 {
            let mut t = Terminal::new(TestBackend::new(w, h)).unwrap();
            draw(&mut t, &app_with(&sample()), &sample());
            h += 3;
        }
        w += 7;
    }
}

#[test]
fn help_modal_covers_screen() {
    let mut app = App::new();
    app.show_help = true;
    let mut t = Terminal::new(TestBackend::new(160, 40)).unwrap();
    draw(&mut t, &app, &sample());
    assert!(buffer_text(&t).contains("codescope — controls"));
}

#[test]
fn empty_state_is_graceful() {
    let mut t = Terminal::new(TestBackend::new(160, 40)).unwrap();
    draw(&mut t, &App::new(), &UiSnapshot::placeholder());
    let text = buffer_text(&t);
    assert!(text.contains("no changes") || text.contains("scanning repository"));
}

// -- picker modals (unchanged behavior) ---------------------------------------------

#[test]
fn base_picker_renders_candidates_and_current() {
    let mut t = Terminal::new(TestBackend::new(120, 30)).unwrap();
    let mut app = App::new();
    app.show_base_picker = true;
    draw(&mut t, &app, &snap_with_base());
    let text = buffer_text(&t);
    assert!(text.contains("comparison base"), "picker title: {text}");
    assert!(
        text.contains("selected: release/2.0"),
        "picker names the selected base explicitly: {text}"
    );
    assert!(text.contains("release/2.0"), "current base listed");
    assert!(text.contains("origin/main"), "a candidate listed");
    assert!(text.contains("●"), "current-base marker");
}

#[test]
fn base_picker_filter_shows_query_and_only_matches() {
    let mut t = Terminal::new(TestBackend::new(120, 30)).unwrap();
    let mut app = App::new();
    app.show_base_picker = true;
    app.base_query = "main".to_string();
    let mut snap = snap_with_base();
    snap.base_ref = "main".to_string();
    snap.available_bases = vec![
        "main".to_string(),
        "origin/main".to_string(),
        "develop".to_string(),
    ];
    draw(&mut t, &app, &snap);
    let text = buffer_text(&t);
    assert!(text.contains("filter: main"), "query footer: {text}");
    assert!(text.contains("origin/main"), "matching entry listed");
    assert!(
        !text.contains("develop"),
        "non-matching entry filtered: {text}"
    );
}

#[test]
fn base_picker_labels_no_selection_explicitly() {
    let mut t = Terminal::new(TestBackend::new(120, 30)).unwrap();
    let mut app = App::new();
    app.show_base_picker = true;
    let mut snap = snap_with_base();
    snap.base_ref.clear();
    snap.repo.base = None;
    draw(&mut t, &app, &snap);
    assert!(buffer_text(&t).contains("selected: none"));
}

#[test]
fn base_picker_marks_a_bounded_candidate_scan() {
    let mut t = Terminal::new(TestBackend::new(120, 30)).unwrap();
    let mut app = App::new();
    app.show_base_picker = true;
    let mut snap = snap_with_base();
    snap.base_candidates_truncated = true;
    draw(&mut t, &app, &snap);
    let text = buffer_text(&t);
    assert!(text.contains("bounded list"), "picker title: {text}");
    assert!(
        text.contains("more ancestors omitted"),
        "picker note: {text}"
    );
}

/// The files pane renders each semantic load state distinctly (asynchronous per-file
/// analysis): Unloaded shows no fake zero, Loading shows the analyzing marker,
/// Unsupported/Failed explain themselves, Ready-with-zero says so explicitly.
#[test]
fn files_pane_semantic_states_render_distinctly() {
    let mut snap = sample();
    let mk = |path: &str, expanded: bool, semantic: FileSemanticLoad, symbols: Vec<SymbolRow>| FileRow {
        path: path.to_string(),
        status: "M",
        changed_symbol_count: symbols.len(),
        added_lines: 0,
        removed_lines: 0,
        symbols,
        expanded,
        semantic,
    };
    let sym = SymbolRow {
        name: "Handle".to_string(),
        change: "modified",
        confidence: "",
        has_diagnostic: false,
        position: Some((10, 4)),
    };
    snap.files = vec![
        mk("a_unloaded.go", false, FileSemanticLoad::Unloaded, vec![]),
        mk("b_loading.go", true, FileSemanticLoad::Loading, vec![]),
        mk("c_unsupported.go", true, FileSemanticLoad::Unsupported, vec![]),
        mk("d_failed.go", true, FileSemanticLoad::Failed, vec![]),
        mk("e_empty.go", true, FileSemanticLoad::Ready, vec![]),
        mk("f_ready.go", true, FileSemanticLoad::Ready, vec![sym]),
    ];
    let app = app_with(&snap);
    let mut t = Terminal::new(TestBackend::new(140, 40)).unwrap();
    draw(&mut t, &app, &snap);
    let text = buffer_text(&t);
    assert!(
        text.contains("… analyzing symbols"),
        "loading row: {text:?}"
    );
    assert!(
        text.contains("semantic analysis unavailable"),
        "unsupported: {text:?}"
    );
    assert!(
        text.contains("analysis failed — retries after"),
        "failed: {text:?}"
    );
    assert!(
        text.contains("no changed symbols mapped"),
        "ready-empty: {text:?}"
    );
    assert!(text.contains("Handle"), "ready symbols: {text:?}");
    // The unloaded row must not claim `0` symbols (unknown): find its pane row and
    // assert the count cell (right-aligned before the border) is blank, not a digit.
    let buf = t.backend().buffer();
    let a_y = (0..40u16)
        .find(|&y| {
            (0..42u16)
                .map(|x| buf.cell((x, y)).unwrap().symbol())
                .collect::<String>()
                .contains("a_unloaded.go")
        })
        .expect("a_unloaded row rendered");
    let count_cell = buf.cell((38, a_y)).unwrap().symbol();
    assert!(
        count_cell.trim().is_empty() || count_cell == "…",
        "no fake zero on unloaded (count cell: {count_cell:?})"
    );
}

/// Tab on the files pane flips the selected file's expansion optimistically (the
/// dispatcher reconciles); on other panes it is inert. `1`/`2`/`3` focus panes.
#[test]
fn tab_toggles_the_selected_file_not_pane_focus() {
    let mut app = app_with(&sample());
    assert_eq!(app.focused, Pane::Files);
    let path = app.snapshot.files[0].path.clone();
    let before = app.focused;
    // The targeted command: optimistic apply flips expansion without moving focus.
    app.apply(Action::SetFileExpanded {
        path: path.clone(),
        expanded: false,
    });
    assert_eq!(app.focused, before, "Tab never changes focus");
    assert!(!app.snapshot.files[0].expanded, "toggled off");
    app.apply(Action::SetFileExpanded {
        path: path.clone(),
        expanded: true,
    });
    assert!(app.snapshot.files[0].expanded, "toggled back on");
    // Idempotent: re-applying the same target state is a no-op.
    app.apply(Action::SetFileExpanded {
        path,
        expanded: true,
    });
    assert!(app.snapshot.files[0].expanded);
}
