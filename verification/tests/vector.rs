use snake_game::fixed::HALF_UNIT;
use snake_game::fixed::LIMIT;
use snake_game::fixed::UNIT;
use snake_game::vector::Vector;

#[test]
fn new_keeps_the_coordinates() {
    let v = Vector::new(-3, 7);
    assert_eq!(v.x, -3);
    assert_eq!(v.y, 7);
    assert_eq!(v, Vector { x: -3, y: 7 });
}

#[test]
fn vectors_are_equal_when_their_coordinates_are() {
    assert_eq!(Vector::new(1, 2), Vector::new(1, 2));
    assert_ne!(Vector::new(1, 2), Vector::new(1, 3));
    assert_ne!(Vector::new(1, 2), Vector::new(2, 2));
}

#[test]
fn length_of_three_four_is_five() {
    let v = Vector::new(3 * UNIT, 4 * UNIT);
    assert_eq!(v.length(), 5 * UNIT as u64);
}

#[test]
fn length_is_rounded_down() {
    assert_eq!(Vector::new(1, 1).length(), 1);
    assert_eq!(Vector::new(UNIT, UNIT).length(), 1_414_213);
    assert_eq!(Vector::new(3_000_000, 4_000_001).length(), 5_000_000);
    assert_eq!(Vector::new(0, 0).length(), 0);
}

#[test]
fn length_ignores_the_signs() {
    assert_eq!(Vector::new(-3 * UNIT, 4 * UNIT).length(), 5 * UNIT as u64);
    assert_eq!(Vector::new(3 * UNIT, -4 * UNIT).length(), 5 * UNIT as u64);
    assert_eq!(Vector::new(-7, 0).length(), 7);
    assert_eq!(Vector::new(0, -7).length(), 7);
}

#[test]
fn length_of_the_longest_vector() {
    assert_eq!(Vector::new(i64::MIN, i64::MIN).length(), 13_043_817_825_332_782_212);
    assert_eq!(Vector::new(i64::MIN, 0).length(), 9_223_372_036_854_775_808);
}

#[test]
fn add_and_sub_undo_each_other() {
    let a = Vector::new(1_250_000, -7_000_000);
    let b = Vector::new(-300_001, 42);
    assert_eq!(a + b - b, a);
    assert_eq!(a - b + b, a);
}

#[test]
fn add_sub_and_neg_work_by_coordinate() {
    let a = Vector::new(1, 20);
    let b = Vector::new(300, -4000);
    assert_eq!(a + b, Vector::new(301, -3980));
    assert_eq!(a - b, Vector::new(-299, 4020));
    assert_eq!(-b, Vector::new(-300, 4000));
}

#[test]
fn scale_by_one_is_identity() {
    let v = Vector::new(-1_234_567, 7_654_321);
    assert_eq!(v.scale(UNIT), v);
    assert_eq!(v * UNIT, v);
}

#[test]
fn scale_multiplies_both_coordinates() {
    let v = Vector::new(3 * UNIT, -4 * UNIT);
    assert_eq!(v.scale(2 * UNIT), Vector::new(6 * UNIT, -8 * UNIT));
    assert_eq!(v.scale(HALF_UNIT), Vector::new(1_500_000, -2_000_000));
    assert_eq!(v.scale(-UNIT), Vector::new(-3 * UNIT, 4 * UNIT));
    assert_eq!(v.scale(0), Vector::new(0, 0));
}

#[test]
fn scale_rounds_toward_zero() {
    assert_eq!(Vector::new(3, -3).scale(HALF_UNIT), Vector::new(1, -1));
    assert_eq!(Vector::new(1, -1).scale(999_999), Vector::new(0, 0));
    assert_eq!(Vector::new(-3, 3).scale(-HALF_UNIT), Vector::new(1, -1));
}

#[test]
fn normalize_along_an_axis_is_exact() {
    assert_eq!(Vector::new(-5 * UNIT, 0).normalize(), Some(Vector::new(-UNIT, 0)));
    assert_eq!(Vector::new(0, 7).normalize(), Some(Vector::new(0, UNIT)));
    assert_eq!(Vector::new(1, 0).normalize(), Some(Vector::new(UNIT, 0)));
    assert_eq!(Vector::new(0, i64::MIN).normalize(), Some(Vector::new(0, -UNIT)));
}

#[test]
fn normalize_divides_by_the_length() {
    assert_eq!(
        Vector::new(3 * UNIT, 4 * UNIT).normalize(),
        Some(Vector::new(600_000, 800_000))
    );
    assert_eq!(
        Vector::new(-3 * UNIT, 4 * UNIT).normalize(),
        Some(Vector::new(-600_000, 800_000))
    );
    assert_eq!(Vector::new(UNIT, UNIT).normalize(), Some(Vector::new(707_106, 707_106)));
    assert_eq!(
        Vector::new(-7_123_456, 2_000_001).normalize(),
        Some(Vector::new(-962_773, 270_310))
    );
}

#[test]
fn normalize_of_zero_is_none() {
    assert_eq!(Vector::new(0, 0).normalize(), None);
}

#[test]
fn normalize_of_the_shortest_vectors_has_length_one() {
    assert_eq!(Vector::new(1, 1).normalize(), Some(Vector::new(707_106, 707_106)));
    assert_eq!(Vector::new(1, 1).normalize().unwrap().length(), 999_998);
    assert_eq!(Vector::new(1, -2).normalize(), Some(Vector::new(447_213, -894_427)));
    assert_eq!(Vector::new(5, -3).normalize(), Some(Vector::new(857_492, -514_495)));
    assert_eq!(Vector::new(999_999, 1).normalize(), Some(Vector::new(999_999, 1)));
}

#[test]
fn normalize_of_the_longest_vectors_has_length_one() {
    assert_eq!(
        Vector::new(i64::MAX, i64::MIN).normalize(),
        Some(Vector::new(707_106, -707_106))
    );
    assert_eq!(
        Vector::new(2_147_483_647, 2_147_483_647).normalize(),
        Some(Vector::new(707_106, 707_106))
    );
    assert_eq!(Vector::new(2_147_483_648, 1).normalize(), Some(Vector::new(UNIT, 0)));
}

#[test]
fn normalized_length_is_one() {
    let samples = [
        Vector::new(3 * UNIT, 4 * UNIT),
        Vector::new(UNIT, UNIT),
        Vector::new(-7_123_456, 2_000_001),
        Vector::new(123_456_789_012, -987_654_321),
        Vector::new(i64::MAX, i64::MIN),
        Vector::new(i64::MIN, i64::MIN),
        Vector::new(1, 1),
        Vector::new(-1, 1),
        Vector::new(5, -3),
        Vector::new(999_999, 1),
        Vector::new(1, 999_999),
        Vector::new(2_147_483_647, -1),
        Vector::new(2_147_483_648, -1),
    ];
    for v in samples {
        let unit = v.normalize().unwrap();
        assert!(unit.length() >= UNIT as u64 - 3);
        assert!(unit.length() <= UNIT as u64);
        assert!(unit.x == 0 || unit.x.signum() == v.x.signum());
        assert!(unit.y == 0 || unit.y.signum() == v.y.signum());
        let across = unit.x as i128 * v.y as i128 - unit.y as i128 * v.x as i128;
        assert!(across.abs() <= (v.x as i128).abs() + (v.y as i128).abs());
    }
}

#[test]
fn within_limit_tests_both_coordinates() {
    assert!(Vector::new(0, 0).within_limit());
    assert!(Vector::new(LIMIT, -LIMIT).within_limit());
    assert!(!Vector::new(LIMIT + 1, 0).within_limit());
    assert!(!Vector::new(0, -LIMIT - 1).within_limit());
}

#[test]
fn try_scale_agrees_with_scale() {
    let v = Vector::new(3 * UNIT, -4 * UNIT);
    assert_eq!(v.try_scale(HALF_UNIT), Some(v.scale(HALF_UNIT)));
    assert_eq!(v.try_scale(-2 * UNIT), Some(Vector::new(-6 * UNIT, 8 * UNIT)));
    assert_eq!(
        Vector::new(i64::MAX, i64::MIN).try_scale(UNIT),
        Some(Vector::new(i64::MAX, i64::MIN))
    );
}

#[test]
fn try_scale_refuses_what_does_not_fit() {
    assert_eq!(Vector::new(i64::MAX, 0).try_scale(UNIT + 1), None);
    assert_eq!(Vector::new(0, i64::MIN).try_scale(-UNIT), None);
    assert_eq!(Vector::new(i64::MIN, 0).try_scale(i64::MIN), None);
    assert_eq!(Vector::new(i64::MAX, 0).try_scale(UNIT), Some(Vector::new(i64::MAX, 0)));
    assert_eq!(
        Vector::new(i64::MIN, 0).try_scale(-UNIT + 1),
        Some(Vector::new(9_223_362_813_482_738_953, 0))
    );
}
