use uiart::angle::ScopeAngle;
use uiart::navigation::{distance_two_positions, find_center_of_bounding_box, Position};
use uiart::state::State;
use uiart::ui_bounding_box::UiBoundingBox;

// Positions are in half-units of the box grid: a box with integer fields
// has its exact centre at integer half-unit coordinates.

#[test]
fn center_is_exact() {
    let b = UiBoundingBox { x: 8, y: -1, w: 4, h: 2 };
    let c = find_center_of_bounding_box(&b);
    // centre (10, 0) in grid units
    assert_eq!(c, Position { x: 20, y: 0 });
}

#[test]
fn center_of_odd_extents_is_exact() {
    let b = UiBoundingBox { x: 0, y: 0, w: 3, h: 3 };
    let c = find_center_of_bounding_box(&b);
    // centre (1.5, 1.5) in grid units: exactly (3, 3) half-units
    assert_eq!(c, Position { x: 3, y: 3 });
}

#[test]
fn center_of_zero_area_box() {
    let b = UiBoundingBox { x: 10, y: -4, w: 0, h: 0 };
    let c = find_center_of_bounding_box(&b);
    assert_eq!(c, Position { x: 20, y: -8 });
}

#[test]
fn distance_squares_both_axes() {
    let a = Position::new(0, 0);
    let b = Position::new(3, 4);
    // off-axis pair: the true squared norm is 9 + 16 = 25; squaring only
    // the x difference would give 9 + 4 = 13
    let d = distance_two_positions(&a, &b);
    assert_eq!(d, 25);
    assert_ne!(d, 13);
}

#[test]
fn distance_is_symmetric() {
    let a = Position::new(-7, 11);
    let b = Position::new(40, -2);
    assert_eq!(
        distance_two_positions(&a, &b),
        distance_two_positions(&b, &a)
    );
}

#[test]
fn distance_of_equal_points_is_zero() {
    let a = Position::new(123, -456);
    assert_eq!(distance_two_positions(&a, &a), 0);
}

#[test]
fn position_new_keeps_coordinates() {
    let p = Position::new(17, -9);
    assert_eq!(p.x, 17);
    assert_eq!(p.y, -9);
}

#[test]
fn scope_angle_new_keeps_cosine() {
    let s = ScopeAngle::new(30274, 32768);
    assert_eq!(s.cos_num, 30274);
    assert_eq!(s.cos_den, 32768);
}

#[test]
fn state_default_is_empty() {
    let s = State::default();
    assert_eq!(s.id, 0);
    assert_eq!(s.elements.len(), 0);
    assert_eq!(s.selected, Position { x: 0, y: 0 });
}
