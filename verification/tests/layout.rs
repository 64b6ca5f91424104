use codescope_tui::layout::{
    choose_tier, files_width, impact_height, impact_left_width, impact_section_heights, Tier, MIN_DIFF_WIDTH,
    MIN_FILES_WIDTH, MIN_GENERATED_IMPACT_WIDTH, MIN_IMPACT_LEFT_WIDTH,
};
use codescope_tui::rect::Rect;

fn tier(w: u16, h: u16) -> Tier {
    choose_tier(Rect::new(0, 0, w, h), false)
}

#[test]
fn too_small_boundaries() {
    assert_eq!(tier(29, 8), Tier::TooSmall);
    assert_eq!(tier(30, 7), Tier::TooSmall);
    assert_ne!(tier(30, 8), Tier::TooSmall);
    assert_eq!(tier(29, 40), Tier::TooSmall);
}

#[test]
fn normal_needs_80x20() {
    assert_eq!(tier(80, 20), Tier::Normal);
    assert_eq!(tier(140, 40), Tier::Normal);
    assert_eq!(tier(200, 60), Tier::Normal);
    assert_eq!(tier(79, 40), Tier::FocusOnly);
    assert_eq!(tier(140, 19), Tier::FocusOnly);
}

#[test]
fn zoom_always_wins() {
    assert_eq!(choose_tier(Rect::new(0, 0, 200, 50), true), Tier::FocusOnly);
    assert_eq!(choose_tier(Rect::new(0, 0, 40, 20), true), Tier::FocusOnly);
}

#[test]
fn focus_only_covers_every_usable_small_size() {
    // Every size at or above the hard stop that is not normal is focus-only.
    assert_eq!(tier(30, 8), Tier::FocusOnly);
    assert_eq!(tier(79, 19), Tier::FocusOnly);
    assert_eq!(tier(60, 20), Tier::FocusOnly);
    assert_eq!(tier(80, 12), Tier::FocusOnly);
}

#[test]
fn files_width_clamps_request_and_yields_to_diff() {
    assert_eq!(files_width(42, 140), 42);
    assert_eq!(files_width(10, 140), MIN_FILES_WIDTH);
    // No arbitrary maximum: a wide request is limited only by the diff's minimum.
    assert_eq!(files_width(200, 140), 140 - MIN_DIFF_WIDTH);
    // At 80 columns the diff's 48-cell minimum wins over the requested 42.
    assert_eq!(files_width(42, 80), 32);
    assert_eq!(files_width(56, 80), 32);
    // Pathological widths fall back to the floor, never panic or zero the pane.
    assert_eq!(files_width(42, 10), MIN_FILES_WIDTH);
}

#[test]
fn impact_split_preserves_both_halves_and_degrades_evenly() {
    assert_eq!(impact_left_width(52, 138), 52);
    assert_eq!(impact_left_width(10, 100), MIN_IMPACT_LEFT_WIDTH);
    assert_eq!(
        impact_left_width(200, 100),
        100 - MIN_GENERATED_IMPACT_WIDTH
    );
    assert_eq!(impact_left_width(52, 40), 20);
}

#[test]
fn impact_height_reserves_only_the_visible_chrome_and_work_floor() {
    assert_eq!(impact_height(12, 40), 12);
    assert_eq!(impact_height(12, 20), 11);
}

#[test]
fn impact_sections_honor_both_requests_and_reserve_downstream() {
    assert_eq!(impact_section_heights(4, 5, 14), [4, 5, 5]);
    assert_eq!(impact_section_heights(8, 9, 14), [8, 4, 2]);
    assert_eq!(impact_section_heights(99, 99, 7), [3, 2, 2]);
    assert_eq!(impact_section_heights(4, 5, 3), [3, 0, 0]);
}
