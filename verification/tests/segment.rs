use snake_game::fixed::LIMIT;
use snake_game::fixed::UNIT;
use snake_game::segment::Segment;
use snake_game::vector::Vector;

fn segment_point(x: f64, y: f64) -> Vector {
    Vector::new((x * 1e6).round() as i64, (y * 1e6).round() as i64)
}

#[test]
fn new_keeps_the_ends() {
    let s = Segment::new(Vector::new(1, 2), Vector::new(3, 4));
    assert_eq!(s.start, Vector::new(1, 2));
    assert_eq!(s.end, Vector::new(3, 4));
}

#[test]
fn point_on_the_segment_is_inside() {
    let s = Segment::new(segment_point(0.0, 0.0), segment_point(10.0, 0.0));
    assert!(s.is_point_inside(segment_point(5.0, 0.0)));
}

#[test]
fn point_beside_the_segment_is_not_inside() {
    let s = Segment::new(segment_point(0.0, 0.0), segment_point(10.0, 0.0));
    assert!(!s.is_point_inside(segment_point(5.0, 1.0)));
    assert!(!s.is_point_inside(Vector::new(5 * UNIT, 1)));
    assert!(!s.is_point_inside(Vector::new(5 * UNIT, -1)));
}

#[test]
fn the_ends_are_inside() {
    let s = Segment::new(segment_point(0.0, 0.0), segment_point(10.0, 0.0));
    assert!(s.is_point_inside(segment_point(0.0, 0.0)));
    assert!(s.is_point_inside(segment_point(10.0, 0.0)));
}

#[test]
fn points_past_the_ends_are_not_inside() {
    let s = Segment::new(segment_point(0.0, 0.0), segment_point(10.0, 0.0));
    assert!(!s.is_point_inside(Vector::new(-1, 0)));
    assert!(!s.is_point_inside(Vector::new(10 * UNIT + 1, 0)));
    assert!(!s.is_point_inside(segment_point(11.0, 0.0)));
}

#[test]
fn direction_of_the_segment_does_not_matter() {
    let s = Segment::new(segment_point(10.0, 0.0), segment_point(0.0, 0.0));
    assert!(s.is_point_inside(segment_point(5.0, 0.0)));
    assert!(!s.is_point_inside(segment_point(5.0, 1.0)));
    let t = Segment::new(segment_point(2.0, 7.0), segment_point(2.0, -3.0));
    assert!(t.is_point_inside(segment_point(2.0, 0.0)));
    assert!(!t.is_point_inside(segment_point(2.0, 7.5)));
}

#[test]
fn slanted_segment_holds_the_points_on_its_line() {
    let s = Segment::new(Vector::new(0, 0), Vector::new(4, 6));
    assert!(s.is_point_inside(Vector::new(2, 3)));
    assert!(!s.is_point_inside(Vector::new(2, 4)));
    assert!(!s.is_point_inside(Vector::new(1, 1)));
    assert!(!s.is_point_inside(Vector::new(6, 9)));
    assert!(!s.is_point_inside(Vector::new(-2, -3)));
}

#[test]
fn segment_without_length_holds_its_one_point() {
    let s = Segment::new(segment_point(3.5, 3.5), segment_point(3.5, 3.5));
    assert!(s.is_point_inside(segment_point(3.5, 3.5)));
    assert!(!s.is_point_inside(segment_point(3.5, 3.6)));
    assert!(!s.is_point_inside(Vector::new(3_500_001, 3_500_000)));
}

#[test]
fn point_test_is_exact_at_the_limit() {
    let s = Segment::new(Vector::new(-LIMIT, -LIMIT), Vector::new(LIMIT, LIMIT));
    assert!(s.is_point_inside(Vector::new(0, 0)));
    assert!(s.is_point_inside(Vector::new(LIMIT - 1, LIMIT - 1)));
    assert!(!s.is_point_inside(Vector::new(LIMIT, LIMIT - 1)));
    assert!(!s.is_point_inside(Vector::new(1, 0)));
}

#[test]
fn point_test_is_exact_for_the_largest_coordinates() {
    let s = Segment::new(Vector::new(i64::MIN, i64::MIN), Vector::new(i64::MAX, i64::MAX));
    assert!(s.is_point_inside(Vector::new(0, 0)));
    assert!(s.is_point_inside(Vector::new(-1, -1)));
    assert!(s.is_point_inside(Vector::new(i64::MAX, i64::MAX)));
    assert!(s.is_point_inside(Vector::new(i64::MIN, i64::MIN)));
    assert!(!s.is_point_inside(Vector::new(0, 1)));
    assert!(!s.is_point_inside(Vector::new(i64::MAX, i64::MAX - 1)));
    assert!(!s.is_point_inside(Vector::new(i64::MIN, i64::MAX)));
    let t = Segment::new(Vector::new(i64::MIN, 0), Vector::new(i64::MAX, 0));
    assert!(t.is_point_inside(Vector::new(i64::MAX - 1, 0)));
    assert!(!t.is_point_inside(Vector::new(5, i64::MIN)));
    assert!(!t.is_point_inside(Vector::new(5, i64::MAX)));
    let point = Segment::new(Vector::new(i64::MAX, i64::MIN), Vector::new(i64::MAX, i64::MIN));
    assert!(point.is_point_inside(Vector::new(i64::MAX, i64::MIN)));
    assert!(!point.is_point_inside(Vector::new(i64::MIN, i64::MAX)));
}

#[test]
fn vector_leads_from_start_to_end() {
    let s = Segment::new(Vector::new(1, 2), Vector::new(4, -2));
    assert_eq!(s.vector(), Vector::new(3, -4));
}

#[test]
fn segment_length_is_the_length_of_its_vector() {
    let s = Segment::new(Vector::new(UNIT, 2 * UNIT), Vector::new(4 * UNIT, -2 * UNIT));
    assert_eq!(s.length(), 5 * UNIT as u64);
    let t = Segment::new(Vector::new(7, 7), Vector::new(7, 7));
    assert_eq!(t.length(), 0);
}
