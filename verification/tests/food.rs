use snake_game::error::GameError;
use snake_game::food::free_positions;
use snake_game::food::generate_food_position;
use snake_game::food::pick_food_position;
use snake_game::segment::Segment;
use snake_game::vector::Vector;

fn food_point(x: f64, y: f64) -> Vector {
    Vector::new((x * 1e6).round() as i64, (y * 1e6).round() as i64)
}

fn lies_on(snake: &[Vector], point: Vector) -> bool {
    snake.windows(2).any(|ends| Segment::new(ends[0], ends[1]).is_point_inside(point))
}

#[test]
fn free_positions_of_an_empty_board_are_all_cells_by_column() {
    let free = free_positions(2, 3, &vec![]);
    assert_eq!(
        free,
        vec![
            food_point(0.5, 0.5),
            food_point(0.5, 1.5),
            food_point(0.5, 2.5),
            food_point(1.5, 0.5),
            food_point(1.5, 1.5),
            food_point(1.5, 2.5),
        ]
    );
}

#[test]
fn free_positions_leave_out_the_cells_under_the_snake() {
    let snake = vec![food_point(0.5, 1.5), food_point(1.5, 1.5)];
    let free = free_positions(3, 3, &snake);
    assert_eq!(
        free,
        vec![
            food_point(0.5, 0.5),
            food_point(0.5, 2.5),
            food_point(1.5, 0.5),
            food_point(1.5, 2.5),
            food_point(2.5, 0.5),
            food_point(2.5, 1.5),
            food_point(2.5, 2.5),
        ]
    );
}

#[test]
fn free_positions_follow_a_bent_snake() {
    let snake = vec![food_point(0.5, 0.5), food_point(2.5, 0.5), food_point(2.5, 2.0)];
    let free = free_positions(3, 3, &snake);
    assert_eq!(
        free,
        vec![
            food_point(0.5, 1.5),
            food_point(0.5, 2.5),
            food_point(1.5, 1.5),
            food_point(1.5, 2.5),
            food_point(2.5, 2.5),
        ]
    );
}

#[test]
fn snake_between_the_centers_covers_no_cell() {
    let snake = vec![food_point(0.0, 1.0), food_point(3.0, 1.0)];
    assert_eq!(free_positions(3, 3, &snake).len(), 9);
}

#[test]
fn snake_of_one_waypoint_covers_no_cell() {
    let snake = vec![food_point(0.5, 0.5)];
    assert_eq!(free_positions(2, 2, &snake).len(), 4);
}

#[test]
fn snake_without_length_covers_its_cell() {
    let snake = vec![food_point(0.5, 0.5), food_point(0.5, 0.5)];
    assert_eq!(
        free_positions(2, 2, &snake),
        vec![food_point(0.5, 1.5), food_point(1.5, 0.5), food_point(1.5, 1.5)]
    );
}

#[test]
fn board_without_cells_has_no_free_positions() {
    assert!(free_positions(0, 5, &vec![]).is_empty());
    assert!(free_positions(5, 0, &vec![]).is_empty());
    assert!(free_positions(-3, 5, &vec![]).is_empty());
    assert!(free_positions(5, -3, &vec![]).is_empty());
}

#[test]
fn food_is_never_put_on_the_snake() {
    let snake = vec![
        food_point(0.5, 0.5),
        food_point(3.5, 0.5),
        food_point(3.5, 2.5),
        food_point(1.5, 2.5),
    ];
    for _ in 0..500 {
        let food = generate_food_position(4, 4, &snake).unwrap();
        assert!(!lies_on(&snake, food));
        assert!(free_positions(4, 4, &snake).contains(&food));
    }
}

#[test]
fn food_is_put_on_the_center_of_a_cell_of_the_board() {
    for _ in 0..200 {
        let food = generate_food_position(3, 2, &vec![]).unwrap();
        assert!(food.x == 500_000 || food.x == 1_500_000 || food.x == 2_500_000);
        assert!(food.y == 500_000 || food.y == 1_500_000);
    }
}

#[test]
fn food_goes_on_the_one_free_cell() {
    let snake = vec![food_point(0.5, 0.5), food_point(1.5, 0.5), food_point(1.5, 1.5)];
    for _ in 0..50 {
        assert_eq!(generate_food_position(2, 2, &snake), Ok(food_point(0.5, 1.5)));
    }
}

#[test]
fn sampling_reaches_every_cell_of_an_empty_board() {
    let mut seen = [[false; 3]; 3];
    for _ in 0..3000 {
        let food = generate_food_position(3, 3, &vec![]).unwrap();
        let x = (food.x / 1_000_000) as usize;
        let y = (food.y / 1_000_000) as usize;
        seen[x][y] = true;
    }
    for column in seen {
        for cell in column {
            assert!(cell);
        }
    }
}

#[test]
fn full_board_is_reported() {
    let through_the_center = vec![food_point(0.0, 0.5), food_point(1.0, 0.5)];
    assert_eq!(generate_food_position(1, 1, &through_the_center), Err(GameError::BoardFull));
    let both_cells = vec![food_point(0.5, 0.5), food_point(1.5, 0.5)];
    assert_eq!(generate_food_position(2, 1, &both_cells), Err(GameError::BoardFull));
    assert_eq!(pick_food_position(2, 1, &both_cells, 0), Err(GameError::BoardFull));
}

#[test]
fn board_without_cells_is_full() {
    assert_eq!(generate_food_position(0, 0, &vec![]), Err(GameError::BoardFull));
    assert_eq!(generate_food_position(-1, 4, &vec![]), Err(GameError::BoardFull));
    assert_eq!(pick_food_position(4, 0, &vec![], 7), Err(GameError::BoardFull));
}

#[test]
fn pick_takes_the_free_cell_at_the_place_asked_for() {
    let snake = vec![food_point(0.5, 1.5), food_point(1.5, 1.5)];
    assert_eq!(pick_food_position(3, 3, &snake, 0), Ok(food_point(0.5, 0.5)));
    assert_eq!(pick_food_position(3, 3, &snake, 1), Ok(food_point(0.5, 2.5)));
    assert_eq!(pick_food_position(3, 3, &snake, 6), Ok(food_point(2.5, 2.5)));
}

#[test]
fn pick_goes_round_past_the_last_free_cell() {
    let snake = vec![food_point(0.5, 1.5), food_point(1.5, 1.5)];
    assert_eq!(pick_food_position(3, 3, &snake, 7), Ok(food_point(0.5, 0.5)));
    assert_eq!(pick_food_position(3, 3, &snake, 15), Ok(food_point(0.5, 2.5)));
    assert_eq!(pick_food_position(3, 3, &snake, usize::MAX), pick_food_position(
        3,
        3,
        &snake,
        usize::MAX % 7
    ));
}

#[test]
fn every_free_cell_can_be_picked() {
    let snake = vec![food_point(0.5, 0.5), food_point(2.5, 0.5), food_point(2.5, 2.0)];
    let free = free_positions(3, 3, &snake);
    for (place, cell) in free.iter().enumerate() {
        assert_eq!(pick_food_position(3, 3, &snake, place), Ok(*cell));
    }
}
