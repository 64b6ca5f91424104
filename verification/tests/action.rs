use codescope_tui::action::{map_key, next_scope, Action};
use codescope_tui::app::{App, Pane};
use codescope_tui::event::{KeyCode, KeyEvent, KeyEventKind, KeyModifiers};
use codescope_tui::snapshot::{ChangeScope, FileRow, FileSemanticLoad, StatusLevel, StatusMessage, UiSnapshot};

fn key(code: KeyCode) -> KeyEvent {
    KeyEvent::new(code, KeyModifiers::none())
}

fn app() -> App {
    App::default()
}

#[test]
fn release_events_are_ignored() {
    let mut k = key(KeyCode::Char('j'));
    k.kind = KeyEventKind::Release;
    assert_eq!(map_key(k, &app()), Action::Nothing);
}

#[test]
fn held_navigation_repeats_but_commands_do_not() {
    let mut down = key(KeyCode::Down);
    down.kind = KeyEventKind::Repeat;
    assert_eq!(map_key(down, &app()), Action::Down);

    let mut j = key(KeyCode::Char('j'));
    j.kind = KeyEventKind::Repeat;
    assert_eq!(map_key(j, &app()), Action::Down);

    let mut toggle = key(KeyCode::Char('A'));
    toggle.kind = KeyEventKind::Repeat;
    assert_eq!(map_key(toggle, &app()), Action::Nothing);

    let mut picker = app();
    picker.show_base_picker = true;
    assert_eq!(map_key(down, &picker), Action::Down);
    assert_eq!(map_key(j, &picker), Action::Nothing);
}

#[test]
fn quit_keys() {
    assert_eq!(map_key(key(KeyCode::Char('q')), &app()), Action::Quit);
    let ctrl_c = KeyEvent::new(KeyCode::Char('c'), KeyModifiers::control_only());
    assert_eq!(map_key(ctrl_c, &app()), Action::Quit);
}

#[test]
fn navigation_both_styles() {
    assert_eq!(map_key(key(KeyCode::Char('j')), &app()), Action::Down);
    assert_eq!(map_key(key(KeyCode::Down), &app()), Action::Down);
    assert_eq!(map_key(key(KeyCode::Char('k')), &app()), Action::Up);
    assert_eq!(map_key(key(KeyCode::Up), &app()), Action::Up);
    assert_eq!(map_key(key(KeyCode::Home), &app()), Action::Top);
    assert_eq!(map_key(key(KeyCode::Char('G')), &app()), Action::Bottom);
}

#[test]
fn scope_keys() {
    assert_eq!(
        map_key(key(KeyCode::Char('s')), &app()),
        Action::ScopeStaged
    );
    assert_eq!(
        map_key(key(KeyCode::Char('u')), &app()),
        Action::ScopeUnstaged
    );
    assert_eq!(
        map_key(key(KeyCode::Char('B')), &app()),
        Action::ScopeBranch
    );
    assert_eq!(
        map_key(key(KeyCode::Char('w')), &app()),
        Action::ScopeWorking
    );
    assert_eq!(map_key(key(KeyCode::Char('S')), &app()), Action::ScopeCycle);
}

#[test]
fn manual_refresh_key() {
    assert_eq!(map_key(key(KeyCode::Char('g')), &app()), Action::RefreshGit);
    assert_eq!(map_key(key(KeyCode::Char('R')), &app()), Action::Nothing);
}

#[test]
fn focus_keys() {
    // Tab is lazy file expansion on the files pane, inert elsewhere; Shift-Tab is
    // inert everywhere. 1/2/3 focus panes directly.
    let mut files_focused = app();
    files_focused.focused = Pane::Files;
    files_focused.update(UiSnapshot {
        files: vec![FileRow {
            path: "a.go".to_string(),
            status: "M",
            changed_symbol_count: 0,
            added_lines: 0,
            removed_lines: 0,
            symbols: Vec::new(),
            expanded: false,
            semantic: FileSemanticLoad::Unloaded,
        }],
        ..UiSnapshot::default()
    });
    assert_eq!(
        map_key(key(KeyCode::Tab), &files_focused),
        Action::SetFileExpanded {
            path: "a.go".to_string(),
            expanded: true,
        }
    );
    let mut diff_focused = app();
    diff_focused.focused = Pane::Diff;
    assert_eq!(map_key(key(KeyCode::Tab), &diff_focused), Action::Nothing);
    assert_eq!(map_key(key(KeyCode::BackTab), &files_focused), Action::Nothing);
    assert_eq!(
        map_key(key(KeyCode::Char('2')), &app()),
        Action::Focus(Pane::Diff)
    );
}

#[test]
fn tree_keys() {
    assert_eq!(
        map_key(key(KeyCode::Char(' ')), &app()),
        Action::ToggleExpand
    );
    assert_eq!(map_key(key(KeyCode::Char('h')), &app()), Action::Collapse);
    assert_eq!(map_key(key(KeyCode::Char('l')), &app()), Action::Expand);
}

#[test]
fn resize_keys_are_unbound() {
    assert_eq!(map_key(key(KeyCode::Char('[')), &app()), Action::Nothing);
    assert_eq!(map_key(key(KeyCode::Char(']')), &app()), Action::Nothing);
    assert_eq!(map_key(key(KeyCode::Char('/')), &app()), Action::Nothing);
}

#[test]
fn hunk_keys() {
    assert_eq!(map_key(key(KeyCode::Char('n')), &app()), Action::NextHunk);
    assert_eq!(map_key(key(KeyCode::Char('N')), &app()), Action::PrevHunk);
}

#[test]
fn help_modal_swallows_keys() {
    let mut a = app();
    a.show_help = true;
    assert_eq!(map_key(key(KeyCode::Char('j')), &a), Action::Nothing);
    assert_eq!(map_key(key(KeyCode::Char('q')), &a), Action::Nothing);
    assert_eq!(map_key(key(KeyCode::Char('?')), &a), Action::ToggleHelp);
    assert_eq!(map_key(key(KeyCode::Esc), &a), Action::ToggleHelp);
}

#[test]
fn status_detail_swallows_keys_and_esc_closes_it() {
    let mut a = app();
    a.snapshot.status = StatusMessage {
        text: "provider returned HTTP 400".to_string(),
        detail: None,
        level: StatusLevel::Warning,
    };
    a.apply(Action::ToggleStatusDetail);
    assert_eq!(map_key(key(KeyCode::Char('q')), &a), Action::Nothing);
    assert_eq!(map_key(key(KeyCode::Char('?')), &a), Action::Nothing);
    assert_eq!(map_key(key(KeyCode::Esc), &a), Action::ToggleStatusDetail);
}

#[test]
fn unmapped_is_none() {
    assert_eq!(map_key(key(KeyCode::Char('x')), &app()), Action::Nothing);
}

#[test]
fn zoom_wrap_reset_keys() {
    assert_eq!(map_key(key(KeyCode::Char('z')), &app()), Action::ToggleZoom);
    assert_eq!(map_key(key(KeyCode::Char('W')), &app()), Action::ToggleWrap);
    assert_eq!(
        map_key(key(KeyCode::Char('0')), &app()),
        Action::ResetHScroll
    );
}

#[test]
fn ai_generation_keys_use_lowercase_for_trigger_and_uppercase_for_mode() {
    assert_eq!(map_key(key(KeyCode::Char('a')), &app()), Action::GenerateAi);
    assert_eq!(
        map_key(key(KeyCode::Char('A')), &app()),
        Action::ToggleAiGenerationMode
    );
}

#[test]
fn v_toggles_review_only_in_the_files_pane() {
    assert_eq!(
        map_key(key(KeyCode::Char('v')), &app()),
        Action::ToggleReviewed
    );
    let mut a = app();
    a.focused = Pane::Diff;
    assert_eq!(map_key(key(KeyCode::Char('v')), &a), Action::Nothing);
}

#[test]
fn esc_exits_zoom_but_is_otherwise_inert() {
    assert_eq!(map_key(key(KeyCode::Esc), &app()), Action::Nothing);
    let mut a = app();
    a.zoomed = true;
    assert_eq!(map_key(key(KeyCode::Esc), &a), Action::ToggleZoom);
}

#[test]
fn b_opens_base_picker() {
    assert_eq!(map_key(key(KeyCode::Char('b')), &app()), Action::BasePicker);
}

#[test]
fn base_picker_modal_swallows_keys() {
    let mut a = app();
    a.show_base_picker = true;
    // Non-character keys stay swallowed; characters now feed the filter query.
    assert_eq!(map_key(key(KeyCode::Tab), &a), Action::Nothing);
    assert_eq!(map_key(key(KeyCode::Esc), &a), Action::BasePicker);
    // Plain chars (incl. j/k) are filter input; arrows navigate.
    assert_eq!(
        map_key(key(KeyCode::Char('j')), &a),
        Action::PickerInput('j')
    );
    assert_eq!(
        map_key(key(KeyCode::Char('k')), &a),
        Action::PickerInput('k')
    );
    assert_eq!(map_key(key(KeyCode::Down), &a), Action::Down);
    assert_eq!(map_key(key(KeyCode::Up), &a), Action::Up);
    assert_eq!(
        map_key(key(KeyCode::Enter), &a),
        Action::BaseSelected(String::new())
    );
}

#[test]
fn open_picker_maps_chars_and_backspace_to_query_input() {
    for (open, close, select) in [
        (
            Action::BasePicker,
            Action::BasePicker,
            Action::BaseSelected(String::new()),
        ),
        (
            Action::ModelPicker,
            Action::ModelPicker,
            Action::AiSettingsSelected {
                model: String::new(),
                reasoning_effort: String::new(),
            },
        ),
    ] {
        let mut a = app();
        a.apply(open);
        assert_eq!(
            map_key(key(KeyCode::Char('q')), &a),
            Action::PickerInput('q')
        );
        assert_eq!(
            map_key(key(KeyCode::Char('m')), &a),
            Action::PickerInput('m')
        );
        assert_eq!(
            map_key(key(KeyCode::Char('1')), &a),
            Action::PickerInput('1')
        );
        assert_eq!(
            map_key(key(KeyCode::Backspace), &a),
            Action::PickerBackspace
        );
        assert_eq!(map_key(key(KeyCode::Esc), &a), close);
        assert_eq!(map_key(key(KeyCode::Enter), &a), select);
        // Plain chars (incl. j/k) are filter input; modified chars are swallowed.
        assert_eq!(
            map_key(key(KeyCode::Char('j')), &a),
            Action::PickerInput('j')
        );
        assert_eq!(
            map_key(key(KeyCode::Char('k')), &a),
            Action::PickerInput('k')
        );
        let ctrl_x = KeyEvent::new(KeyCode::Char('x'), KeyModifiers::control_only());
        assert_eq!(map_key(ctrl_x, &a), Action::Nothing);
    }
}

#[test]
fn scope_cycle_order() {
    assert_eq!(next_scope(ChangeScope::Branch), ChangeScope::Staged);
    assert_eq!(next_scope(ChangeScope::Staged), ChangeScope::Unstaged);
    assert_eq!(next_scope(ChangeScope::Unstaged), ChangeScope::Working);
    assert_eq!(next_scope(ChangeScope::Working), ChangeScope::Branch);
}
