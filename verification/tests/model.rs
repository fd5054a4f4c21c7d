use snake_game::game::Game;
use snake_game::movement::Movement;
use snake_game::vector::Vector;

/// The same motion computed in floating point, on numbers that floating
/// point holds exactly.
struct FloatSnake {
    speed: f64,
    direction: (f64, f64),
    snake: Vec<(f64, f64)>,
}

fn heading(movement: Movement) -> (f64, f64) {
    match movement {
        Movement::Top => (0.0, -1.0),
        Movement::Right => (1.0, 0.0),
        Movement::Down => (0.0, 1.0),
        Movement::Left => (-1.0, 0.0),
    }
}

/// The nearest whole number, halves toward where the point comes from.
fn behind(v: f64, rising: bool) -> f64 {
    if rising {
        (v - 0.5).ceil()
    } else {
        (v + 0.5).floor()
    }
}

impl FloatSnake {
    fn tick(&mut self, timespan: f64, movement: Option<Movement>) {
        let full_distance = self.speed * timespan;
        let mut remaining = full_distance;
        let mut worn: Vec<(f64, f64)> = Vec::new();
        while self.snake.len() > 1 {
            let point = self.snake.remove(0);
            let next = self.snake[0];
            let step = (next.0 - point.0, next.1 - point.1);
            let length = step.0.hypot(step.1);
            if length >= remaining {
                let unit = (step.0 * (1.0 / length), step.1 * (1.0 / length));
                worn.push((point.0 + unit.0 * remaining, point.1 + unit.1 * remaining));
                break;
            }
            remaining -= length;
        }
        worn.append(&mut self.snake);
        self.snake = worn;

        let old_head = self.snake.pop().unwrap();
        let new_head = (
            old_head.0 + self.direction.0 * full_distance,
            old_head.1 + self.direction.1 * full_distance,
        );
        if let Some(movement) = movement {
            let turned = heading(movement);
            let reverse = (-turned.0, -turned.1);
            if self.direction != reverse && self.direction != turned {
                let old_x = behind(old_head.0, new_head.0 > old_head.0);
                let new_x = behind(new_head.0, new_head.0 > old_head.0);
                let old_y = behind(old_head.1, new_head.1 > old_head.1);
                let new_y = behind(new_head.1, new_head.1 > old_head.1);
                let x_changed = old_x != new_x;
                let y_changed = old_y != new_y;
                if x_changed || y_changed {
                    let (old, old_rounded, new_rounded) = if x_changed {
                        (old_head.0, old_x, new_x)
                    } else {
                        (old_head.1, old_y, new_y)
                    };
                    let edge = if new_rounded > old_rounded {
                        old_rounded + 0.5
                    } else {
                        old_rounded - 0.5
                    };
                    let breakpoint =
                        if x_changed { (edge, old_head.1) } else { (old_head.0, edge) };
                    let leftover = full_distance - (old - edge).abs();
                    self.snake.push(breakpoint);
                    self.snake.push((
                        breakpoint.0 + turned.0 * leftover,
                        breakpoint.1 + turned.1 * leftover,
                    ));
                    self.direction = turned;
                    return;
                }
            }
        }
        self.snake.push(new_head);
    }
}

fn in_cells(vector: Vector) -> (f64, f64) {
    (vector.x as f64 / 1e6, vector.y as f64 / 1e6)
}

fn close(a: (f64, f64), b: (f64, f64)) -> bool {
    (a.0 - b.0).abs() < 1e-9 && (a.1 - b.1).abs() < 1e-9
}

fn compare_over(ticks: usize, speed: f64, snake_length: i32, start: Movement, seed: u64) {
    let mut game = Game::new(
        10,
        10,
        (speed * 1e6) as u64,
        snake_length,
        start.vector(),
    )
    .unwrap();
    let waypoints = game.snake();
    let mut model = FloatSnake {
        speed,
        direction: heading(start),
        snake: waypoints.iter().map(|v| in_cells(*v)).collect(),
    };
    let spans = [0.125, 0.25, 0.375, 0.5, 0.625, 0.75, 1.0];
    let turns = [
        None,
        Some(Movement::Top),
        Some(Movement::Right),
        Some(Movement::Down),
        Some(Movement::Left),
    ];
    let mut state = seed;
    for _ in 0..ticks {
        state = state.wrapping_mul(6364136223846793005).wrapping_add(1442695040888963407);
        let timespan = spans[(state >> 33) as usize % spans.len()];
        state = state.wrapping_mul(6364136223846793005).wrapping_add(1442695040888963407);
        let movement = turns[(state >> 33) as usize % turns.len()];

        assert_eq!(game.process((timespan * 1e6) as u64, movement), Ok(()));
        model.tick(timespan, movement);

        let snake = game.snake();
        assert_eq!(in_cells(game.direction()), model.direction);
        assert_eq!(snake.len(), model.snake.len());
        for (exact, float) in snake.iter().zip(model.snake.iter()) {
            assert!(close(in_cells(*exact), *float));
        }
    }
}

#[test]
fn fixed_point_motion_agrees_with_floating_point() {
    compare_over(400, 1.0, 3, Movement::Right, 1);
}

#[test]
fn agreement_holds_for_other_speeds_and_headings() {
    compare_over(400, 0.5, 2, Movement::Top, 2);
    compare_over(400, 2.0, 5, Movement::Left, 3);
    compare_over(400, 1.5, 4, Movement::Down, 4);
}
