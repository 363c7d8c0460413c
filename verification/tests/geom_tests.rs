use jp_mesh::geom::{midpoint, Coordinates, Rect, UNITS_PER_ARC_SECOND, UNITS_PER_DEGREE};

#[test]
fn units_of_the_coordinates() {
    assert_eq!(UNITS_PER_ARC_SECOND, 1_000_000);
    assert_eq!(UNITS_PER_DEGREE, 3600 * UNITS_PER_ARC_SECOND);
}

#[test]
fn coordinates_keep_their_fields() {
    let point = Coordinates::new(503_161_650_000, 128_452_449_600);
    assert_eq!(point.lng, 503_161_650_000);
    assert_eq!(point.lat, 128_452_449_600);
    assert_eq!(point, Coordinates { lng: 503_161_650_000, lat: 128_452_449_600 });
}

#[test]
fn rect_corners_and_center() {
    let min = Coordinates::new(10, 20);
    let max = Coordinates::new(30, 50);
    let rect = Rect::new(min, max);
    assert_eq!(rect.min(), min);
    assert_eq!(rect.max(), max);
    assert_eq!(rect.center(), Coordinates::new(20, 35));
}

#[test]
fn rect_center_rounds_down() {
    let rect = Rect::new(Coordinates::new(1, -4), Coordinates::new(2, 1));
    assert_eq!(rect.center(), Coordinates::new(1, -2));
    let rect = Rect::new(Coordinates::new(-3, -3), Coordinates::new(-2, 0));
    assert_eq!(rect.center(), Coordinates::new(-3, -2));
}

#[test]
fn midpoint_of_extreme_values() {
    assert_eq!(midpoint(i64::MAX, i64::MAX), i64::MAX);
    assert_eq!(midpoint(i64::MIN, i64::MIN), i64::MIN);
    assert_eq!(midpoint(i64::MIN, i64::MAX), -1);
    assert_eq!(midpoint(i64::MAX, i64::MIN), -1);
    assert_eq!(midpoint(0, 1), 0);
    assert_eq!(midpoint(-1, 0), -1);
    assert_eq!(midpoint(-7, 2), -3);
    assert_eq!(midpoint(7, -2), 2);
    assert_eq!(midpoint(4, 10), 7);
}

#[test]
fn rect_includes_is_half_open() {
    let rect = Rect::new(Coordinates::new(10, 20), Coordinates::new(30, 50));
    assert!(rect.includes(Coordinates::new(10, 20)));
    assert!(rect.includes(Coordinates::new(29, 49)));
    assert!(rect.includes(Coordinates::new(10, 49)));
    assert!(rect.includes(Coordinates::new(29, 20)));
    assert!(!rect.includes(Coordinates::new(30, 20)));
    assert!(!rect.includes(Coordinates::new(10, 50)));
    assert!(!rect.includes(Coordinates::new(30, 50)));
    assert!(!rect.includes(Coordinates::new(9, 20)));
    assert!(!rect.includes(Coordinates::new(10, 19)));
}

#[test]
fn rect_without_extent_includes_nothing() {
    let point = Coordinates::new(10, 20);
    let rect = Rect::new(point, point);
    assert!(!rect.includes(point));
    let inverted = Rect::new(Coordinates::new(30, 50), Coordinates::new(10, 20));
    assert!(!inverted.includes(Coordinates::new(20, 35)));
}
