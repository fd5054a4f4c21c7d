use snake_game::error::GameError;
use snake_game::path::erode;
use snake_game::vector::Vector;

fn path_point(x: f64, y: f64) -> Vector {
    Vector::new((x * 1e6).round() as i64, (y * 1e6).round() as i64)
}

fn bent_path() -> Vec<Vector> {
    vec![
        path_point(1.5, 4.5),
        path_point(3.5, 4.5),
        path_point(3.5, 1.5),
        path_point(0.5, 1.5),
    ]
}

#[test]
fn erode_moves_the_tail_along_the_first_piece() {
    let worn = erode(&bent_path(), 500_000).unwrap();
    assert_eq!(
        worn,
        vec![
            path_point(2.0, 4.5),
            path_point(3.5, 4.5),
            path_point(3.5, 1.5),
            path_point(0.5, 1.5),
        ]
    );
}

#[test]
fn erode_by_nothing_changes_nothing() {
    assert_eq!(erode(&bent_path(), 0).unwrap(), bent_path());
}

#[test]
fn erode_drops_the_pieces_that_are_used_up() {
    let worn = erode(&bent_path(), 3_000_000).unwrap();
    assert_eq!(worn, vec![path_point(3.5, 3.5), path_point(3.5, 1.5), path_point(0.5, 1.5)]);
    let worn = erode(&bent_path(), 7_250_000).unwrap();
    assert_eq!(worn, vec![path_point(1.25, 1.5), path_point(0.5, 1.5)]);
}

#[test]
fn erode_by_a_whole_piece_leaves_the_tail_on_the_corner() {
    let worn = erode(&bent_path(), 2_000_000).unwrap();
    assert_eq!(
        worn,
        vec![
            path_point(3.5, 4.5),
            path_point(3.5, 4.5),
            path_point(3.5, 1.5),
            path_point(0.5, 1.5),
        ]
    );
}

#[test]
fn erode_by_the_whole_length_leaves_the_head_twice() {
    let worn = erode(&bent_path(), 8_000_000).unwrap();
    assert_eq!(worn, vec![path_point(0.5, 1.5), path_point(0.5, 1.5)]);
}

#[test]
fn erode_by_more_than_the_length_fails() {
    assert_eq!(erode(&bent_path(), 8_000_001), Err(GameError::InsufficientTailLength));
    assert_eq!(erode(&bent_path(), u128::MAX), Err(GameError::InsufficientTailLength));
}

#[test]
fn erode_of_less_than_two_waypoints_fails() {
    assert_eq!(erode(&vec![], 0), Err(GameError::InsufficientTailLength));
    assert_eq!(erode(&vec![path_point(1.0, 1.0)], 0), Err(GameError::InsufficientTailLength));
}

#[test]
fn erode_by_nothing_on_a_piece_without_length_fails() {
    let path = vec![path_point(1.0, 1.0), path_point(1.0, 1.0), path_point(1.0, 2.0)];
    assert_eq!(erode(&path, 0), Err(GameError::GeometricDegeneracy));
}

#[test]
fn erode_skips_a_piece_without_length() {
    let path = vec![path_point(1.0, 1.0), path_point(1.0, 1.0), path_point(1.0, 2.0)];
    assert_eq!(erode(&path, 250_000).unwrap(), vec![path_point(1.0, 1.25), path_point(1.0, 2.0)]);
}
