use uiart::angle::ScopeAngle;
use uiart::navigation::{Movement, NearestElementResult, Position};
use uiart::ui_bounding_box::UiBoundingBox;

// Positions are in half-units of the box grid. The scope angle carries
// the cosine of its half-angle as a rational with denominator 32768:
//   45 degrees  -> cos(22.5 deg) ~ 30274/32768
//   90 degrees  -> cos(45 deg)   ~ 23170/32768
//   100 degrees -> cos(50 deg)   ~ 21063/32768
//   160 degrees -> cos(80 deg)   ~  5690/32768
//   360 degrees -> cos(180 deg)  == -32768/32768

fn scope_45() -> ScopeAngle {
    ScopeAngle::new(30274, 32768)
}

fn scope_90() -> ScopeAngle {
    ScopeAngle::new(23170, 32768)
}

fn scope_100() -> ScopeAngle {
    ScopeAngle::new(21063, 32768)
}

fn scope_160() -> ScopeAngle {
    ScopeAngle::new(5690, 32768)
}

fn scope_360() -> ScopeAngle {
    ScopeAngle::new(-32768, 32768)
}

#[test]
fn selects_box_straight_ahead() {
    // current (0,0), requested (10,0) grid units, box centred on (10,0)
    let boxes = vec![UiBoundingBox { x: 8, y: -1, w: 4, h: 2 }];
    let r = Movement::maybe_new(
        Position::new(0, 0),
        Position::new(20, 0),
        boxes.clone(),
        scope_45(),
    );
    let m = r.expect("the box straight ahead must be selected");
    assert_eq!(m.new_position, Position { x: 20, y: 0 });
    assert_eq!(m.select_bounding_box, Some(boxes[0]));
    assert_eq!(m.current_position, Position { x: 0, y: 0 });
}

#[test]
fn steep_candidate_is_outside_narrow_window() {
    // box centred on (1,101) grid units: ~89.4 degrees off the +x
    // direction, outside the +-22.5 degree window
    let boxes = vec![UiBoundingBox { x: 0, y: 100, w: 2, h: 2 }];
    let r = Movement::maybe_new(Position::new(0, 0), Position::new(20, 0), boxes, scope_45());
    assert!(r.is_none());
}

#[test]
fn no_displacement_yields_no_result() {
    let boxes = vec![
        UiBoundingBox { x: 8, y: -1, w: 4, h: 2 },
        UiBoundingBox { x: 0, y: 100, w: 2, h: 2 },
    ];
    let p = Position::new(10, 10);
    let r = Movement::maybe_new(p, p, boxes, scope_45());
    assert!(r.is_none());
}

#[test]
fn nearest_to_requested_wins() {
    // current (0,0), requested (100,0) grid units; centres (50,0) and
    // (90,0): the one closer to the requested position wins, although
    // the other is closer to the current position
    let near_current = UiBoundingBox { x: 48, y: -1, w: 4, h: 2 };
    let near_requested = UiBoundingBox { x: 88, y: -1, w: 4, h: 2 };
    let r = Movement::maybe_new(
        Position::new(0, 0),
        Position::new(200, 0),
        vec![near_current, near_requested],
        scope_90(),
    );
    let m = r.expect("a candidate inside the window must be selected");
    assert_eq!(m.select_bounding_box, Some(near_requested));
    assert_eq!(m.new_position, Position { x: 180, y: 0 });

    // the input order of the candidates does not matter here
    let r2 = Movement::maybe_new(
        Position::new(0, 0),
        Position::new(200, 0),
        vec![near_requested, near_current],
        scope_90(),
    );
    assert_eq!(r2.unwrap().select_bounding_box, Some(near_requested));
}

#[test]
fn empty_candidates_yield_no_result() {
    let r = Movement::maybe_new(
        Position::new(0, 0),
        Position::new(20, 0),
        Vec::new(),
        scope_45(),
    );
    assert!(r.is_none());
}

#[test]
fn equal_scores_keep_the_earlier_candidate() {
    // centres (10,2) and (10,-2) half-units: both score 4 from the
    // requested position (10,0)
    let upper = UiBoundingBox { x: 4, y: 0, w: 2, h: 2 };
    let lower = UiBoundingBox { x: 4, y: -2, w: 2, h: 2 };
    let r = Movement::maybe_new(
        Position::new(0, 0),
        Position::new(10, 0),
        vec![upper, lower],
        scope_160(),
    );
    assert_eq!(r.unwrap().select_bounding_box, Some(upper));

    let r2 = Movement::maybe_new(
        Position::new(0, 0),
        Position::new(10, 0),
        vec![lower, upper],
        scope_160(),
    );
    assert_eq!(r2.unwrap().select_bounding_box, Some(lower));
}

#[test]
fn identical_inputs_yield_identical_results() {
    let boxes = vec![
        UiBoundingBox { x: 8, y: -1, w: 4, h: 2 },
        UiBoundingBox { x: 4, y: 0, w: 2, h: 2 },
    ];
    let r1 = Movement::maybe_new(
        Position::new(0, 0),
        Position::new(20, 0),
        boxes.clone(),
        scope_45(),
    );
    let r2 = Movement::maybe_new(
        Position::new(0, 0),
        Position::new(20, 0),
        boxes,
        scope_45(),
    );
    assert_eq!(r1, r2);
}

#[test]
fn box_centred_on_current_position_never_self_selects() {
    // centre (0,0) == current position: excluded even by a full turn
    let boxes = vec![UiBoundingBox { x: -1, y: -1, w: 2, h: 2 }];
    let r = Movement::maybe_new(
        Position::new(0, 0),
        Position::new(20, 0),
        boxes,
        scope_360(),
    );
    assert!(r.is_none());
}

#[test]
fn window_is_cut_at_the_angle_seam() {
    // direction ~ -177 degrees; candidate at ~ +177 degrees: only ~6
    // degrees apart on the circle, but the unnormalised window
    // [-257, -97] degrees does not wrap past -180, so it is excluded
    let across_seam = UiBoundingBox { x: -11, y: 0, w: 2, h: 1 }; // centre (-20, 1)
    let r = Movement::maybe_new(
        Position::new(0, 0),
        Position::new(-20, -1),
        vec![across_seam],
        scope_160(),
    );
    assert!(r.is_none());

    // the mirror candidate at ~ -174 degrees stays on the same side of
    // the seam and is selected; it is also a zero-height box
    let same_side = UiBoundingBox { x: -11, y: -1, w: 2, h: 0 }; // centre (-20, -2)
    let r2 = Movement::maybe_new(
        Position::new(0, 0),
        Position::new(-20, -1),
        vec![same_side],
        scope_160(),
    );
    let m = r2.expect("a candidate on the near side of the seam is admissible");
    assert_eq!(m.new_position, Position { x: -20, y: -2 });
}

#[test]
fn full_turn_admits_the_opposite_direction() {
    // centre (-10,0): exactly behind the movement direction; admitted
    // only because cos(180 deg) == -1 is reached at a full turn
    let behind = UiBoundingBox { x: -6, y: 0, w: 2, h: 0 };
    let r = Movement::maybe_new(
        Position::new(0, 0),
        Position::new(20, 0),
        vec![behind],
        scope_360(),
    );
    assert_eq!(r.unwrap().select_bounding_box, Some(behind));

    // the same candidate is rejected by any window short of a full turn
    let r2 = Movement::maybe_new(
        Position::new(0, 0),
        Position::new(20, 0),
        vec![behind],
        scope_160(),
    );
    assert!(r2.is_none());
}

#[test]
fn widening_the_window_keeps_candidates() {
    // centre (10,10) half-units: 45 degrees off the +x direction;
    // outside a 45 degree window, inside a 100 degree window
    let diagonal = UiBoundingBox { x: 4, y: 4, w: 2, h: 2 };
    let r_narrow = Movement::maybe_new(
        Position::new(0, 0),
        Position::new(20, 0),
        vec![diagonal],
        scope_45(),
    );
    assert!(r_narrow.is_none());

    let r_wide = Movement::maybe_new(
        Position::new(0, 0),
        Position::new(20, 0),
        vec![diagonal],
        scope_100(),
    );
    assert_eq!(r_wide.unwrap().select_bounding_box, Some(diagonal));
}

#[test]
fn ranking_squares_both_axes() {
    // requested (10,0) half-units; centres (10,6) and (14,2): the true
    // squared distances are 36 and 20, so the second box wins. Summing
    // the squared x difference with the *linear* y difference would rank
    // them 6 and 18 and pick the first box instead.
    let above_target = UiBoundingBox { x: 4, y: 2, w: 2, h: 2 }; // centre (10, 6)
    let past_target = UiBoundingBox { x: 6, y: 0, w: 2, h: 2 }; // centre (14, 2)
    let r = Movement::maybe_new(
        Position::new(0, 0),
        Position::new(10, 0),
        vec![above_target, past_target],
        scope_160(),
    );
    assert_eq!(r.unwrap().select_bounding_box, Some(past_target));
}

#[test]
fn filter_keeps_admissible_candidates_in_order() {
    let straight = UiBoundingBox { x: 8, y: -1, w: 4, h: 2 };
    let steep = UiBoundingBox { x: 0, y: 100, w: 2, h: 2 };
    let movement = Movement {
        current_position: Position::new(0, 0),
        new_position: Position::new(20, 0),
        select_bounding_box: None,
    };
    let filtered = movement.filter_by_angle(vec![steep, straight, steep], scope_45());
    assert_eq!(filtered.len(), 1);
    assert_eq!(filtered[0], straight);
}

#[test]
fn find_nearest_reports_centre_and_score() {
    let far = UiBoundingBox { x: 48, y: -1, w: 4, h: 2 }; // centre (100, 0)
    let near = UiBoundingBox { x: 88, y: -1, w: 4, h: 2 }; // centre (180, 0)
    let movement = Movement {
        current_position: Position::new(0, 0),
        new_position: Position::new(200, 0),
        select_bounding_box: None,
    };
    let NearestElementResult { p, bounding_box, distance } = movement
        .find_nearest_ui_element(&vec![far, near])
        .expect("a non-empty list always has a nearest element");
    assert_eq!(bounding_box, near);
    assert_eq!(p, Position { x: 180, y: 0 });
    assert_eq!(distance, 400);
}

#[test]
fn find_nearest_of_nothing_is_none() {
    let movement = Movement {
        current_position: Position::new(0, 0),
        new_position: Position::new(200, 0),
        select_bounding_box: None,
    };
    assert!(movement.find_nearest_ui_element(&Vec::new()).is_none());
}
