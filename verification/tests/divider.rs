use codescope_tui::divider::{DividerHandle, DividerId, DividerSizes};
use codescope_tui::rect::Rect;

#[test]
fn every_divider_has_a_unique_stable_key_and_valid_default() {
    let mut keys = std::collections::HashSet::new();
    let sizes = DividerSizes::default();
    for id in DividerId::ALL {
        assert!(keys.insert(id.config_key()));
        assert!(sizes.get(id) >= id.minimum_extent());
    }
}

#[test]
fn handle_math_comes_from_axis_and_extent_side() {
    let vertical = DividerHandle::new(DividerId::FilesDiff, Rect::new(0, 0, 2, 10), 40);
    assert_eq!(vertical.resized_extent_from(40, 10, 4, 15, 99), 45);

    let leading_horizontal =
        DividerHandle::new(DividerId::SelectedCallers, Rect::new(0, 0, 10, 2), 4);
    assert_eq!(leading_horizontal.resized_extent_from(4, 4, 10, 99, 12), 6);

    let trailing_horizontal =
        DividerHandle::new(DividerId::WorkReview, Rect::new(0, 0, 10, 2), 9);
    assert_eq!(trailing_horizontal.resized_extent_from(9, 4, 10, 99, 8), 11);
}
