use xenos::constructions::{midpoint, HasNeighbour, Point, PointGeometry};

#[test]
fn test_halfway_simple() {
    let a = (1, 4);
    let b = (5, 6);

    let result = midpoint(a, b);

    assert_eq!(result.0, 3);
    assert_eq!(result.1, 5);
}

#[test]
fn midpoint_rounds_down() {
    assert_eq!(midpoint((0, 0), (1, 3)), (0, 1));
    assert_eq!(midpoint((49, 49), (0, 0)), (24, 24));
}

#[test]
fn point_midpoint_halves_the_sum() {
    assert_eq!(Point(1, 4).midpoint(&Point(5, 6)), Point(3, 5));
    assert_eq!(Point(10, 3).midpoint(&Point(13, 4)), Point(11, 3));
    // rounding towards zero
    assert_eq!(Point(-3, 0).midpoint(&Point(0, -1)), Point(-1, 0));
}

#[test]
fn neighbours_come_sides_first_then_diagonals() {
    let n = Point(10, 20).neighbours();
    assert_eq!(
        n,
        [
            Point(9, 20),
            Point(11, 20),
            Point(10, 19),
            Point(10, 21),
            Point(9, 19),
            Point(9, 21),
            Point(11, 19),
            Point(11, 21),
        ]
    );
}

#[test]
fn point_arithmetic() {
    assert_eq!(Point(1, 2) + Point(3, -4), Point(4, -2));
    assert_eq!(Point(1, 2) - Point(3, -4), Point(-2, 6));
    assert_eq!(Point(3, -4) * 3, Point(9, -12));
    assert_eq!(Point(7, -7) / 2i32, Point(3, -3));
    assert_eq!(Point(9, 4) / 2u32, Point(4, 2));
    assert_eq!(Point(1, 1).manhatten_dist(&Point(4, -3)), 7);
    assert!(Point(0, 49).is_valid_room_position());
    assert!(!Point(50, 3).is_valid_room_position());
    assert!(!Point(-1, 3).is_valid_room_position());
}
