use que::geometry::{Axis, AxisDirection, Direction, PlaneOrientation, Point};

#[test]
fn to_points_starts_at_origin_and_follows_steps() {
    let steps = [
        PlaneOrientation::Up,
        PlaneOrientation::Right,
        PlaneOrientation::Right,
        PlaneOrientation::Down,
        PlaneOrientation::Left,
    ];
    let points = PlaneOrientation::to_points(&steps);
    assert_eq!(
        points,
        vec![Point(0, 0), Point(0, 1), Point(1, 1), Point(2, 1), Point(2, 0), Point(1, 0)]
    );
}

#[test]
fn to_points_of_no_steps_is_the_origin() {
    assert_eq!(PlaneOrientation::to_points(&[]), vec![Point(0, 0)]);
}

#[test]
fn in_scope_is_strict_on_both_axes() {
    assert!(Point(0, 0).in_scope((1, 1)));
    assert!(Point(31, -31).in_scope((32, 32)));
    assert!(!Point(32, 0).in_scope((32, 32)));
    assert!(!Point(0, -32).in_scope((32, 32)));
    assert!(!Point(0, 0).in_scope((0, 5)));
    assert!(!Point(i64::MIN, 0).in_scope((i64::MAX, i64::MAX)));
}

#[test]
fn axis_directions_hold_the_known_asymmetry() {
    assert_eq!(
        AxisDirection::all(),
        vec![
            AxisDirection(Axis::X, Direction::Just),
            AxisDirection(Axis::Y, Direction::Just),
            AxisDirection(Axis::Y, Direction::Burden),
            AxisDirection(Axis::Y, Direction::Burden),
        ]
    );
}

#[test]
fn orientations_map_to_unit_moves() {
    assert_eq!(PlaneOrientation::all().len(), 4);
    assert_eq!(
        PlaneOrientation::to_axis_direction(&PlaneOrientation::Left),
        AxisDirection(Axis::X, Direction::Burden)
    );
    assert_eq!(Point(3, 4).step(AxisDirection(Axis::Y, Direction::Burden)), Point(3, 3));
    assert_eq!(Point(3, 4).offset_by(Point(-5, 2)), Point(-2, 6));
}
