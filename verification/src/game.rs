//! The game: a grid, a snake on it, and the tick that moves the snake.

use crate::error::GameError;
use crate::fixed::distance_travelled;
use crate::fixed::lemma_nearest_cell_close;
use crate::fixed::lemma_scaled_by_unit;
use crate::fixed::lemma_trailing_cell_close;
use crate::fixed::magnitude;
use crate::fixed::round_behind;
use crate::fixed::round_to_cell;
use crate::fixed::HALF_UNIT;
use crate::fixed::UNIT;
use crate::food::free_cells;
use crate::food::generate_food_position;
use crate::food::in_grid;
use crate::food::on_snake;
use crate::food::pick_food_position;
use crate::motion::corner_of;
use crate::motion::initial_snake;
use crate::motion::lemma_travelled_nonnegative;
use crate::motion::straight;
use crate::motion::GameView;
use crate::movement::is_heading;
use crate::movement::Movement;
use crate::path::erode;
use crate::path::is_path;
use crate::path::lemma_eroded;
use crate::path::piece_aligned;
use crate::path::total_length;
use crate::vector::Vector;
use std::ops::Add;
use std::ops::Mul;
use std::ops::Neg;
use std::ops::Sub;
use vstd::prelude::*;

verus! {

/// No tick that covers more than this keeps the head in range.
const FAR: u128 = 0x2000_0000_0000_0000 + 1_000_000;

/// A game of snake. The snake is a polyline of waypoints, tail first, whose
/// pieces run along the axes; its head moves on by `speed` times the time that
/// passes, and its tail follows by as much.
#[derive(Debug)]
pub struct Game {
    width: i32,
    height: i32,
    speed: u64,
    score: i32,
    direction: Vector,
    food: Vector,
    snake: Vec<Vector>,
}

impl View for Game {
    type V = GameView;

    closed spec fn view(&self) -> GameView {
        GameView {
            width: self.width as int,
            height: self.height as int,
            speed: self.speed as int,
            score: self.score as int,
            direction: self.direction,
            food: self.food,
            snake: self.snake@,
        }
    }
}

/// Decides whether the tick makes a turn, and where: given the head before
/// the tick, where going straight on by `full_distance` would take it, the
/// heading and the turn asked for, returns the breakpoint, the head after the
/// turn and the new heading, or `None` when the snake goes straight on.
fn steer(
    old_head: Vector,
    new_head: Vector,
    direction: Vector,
    full_distance: i64,
    movement: Option<Movement>,
) -> (r: Option<(Vector, Vector, Vector)>)
    requires
        old_head.in_range(),
        is_heading(direction),
        0 <= full_distance <= FAR,
        new_head.x == straight(old_head, direction, full_distance as int).x,
        new_head.y == straight(old_head, direction, full_distance as int).y,
    ensures
        match corner_of(old_head, direction, full_distance as int, movement) {
            None => r is None,
            Some(c) => r matches Some((breakpoint, head, heading)) && breakpoint.x
                == c.breakpoint.x && breakpoint.y == c.breakpoint.y && head.x == c.head.x && head.y
                == c.head.y && heading == c.direction,
        },
{
    if let Some(movement) = movement {
        let new_direction = movement.vector();

        if direction != new_direction.neg() && direction != new_direction {
            let old_x = old_head.x;
            let old_y = old_head.y;
            let old_x_rounded = round_behind(old_x, new_head.x > old_x);
            let old_y_rounded = round_behind(old_y, new_head.y > old_y);
            let new_x_rounded = round_behind(new_head.x, new_head.x > old_x);
            let new_y_rounded = round_behind(new_head.y, new_head.y > old_y);

            let rounded_x_changed = old_x_rounded != new_x_rounded;
            let rounded_y_changed = old_y_rounded != new_y_rounded;

            if rounded_x_changed || rounded_y_changed {
                let (old, old_rounded, new_rounded) = if rounded_x_changed {
                    (old_x, old_x_rounded, new_x_rounded)
                } else {
                    (old_y, old_y_rounded, new_y_rounded)
                };
                proof {
                    lemma_trailing_cell_close(old_x as int, new_head.x > old_x);
                    lemma_trailing_cell_close(old_y as int, new_head.y > old_y);
                }
                let breakpoint_component = if new_rounded > old_rounded {
                    old_rounded * UNIT + HALF_UNIT
                } else {
                    old_rounded * UNIT - HALF_UNIT
                };
                let breakpoint = if rounded_x_changed {
                    Vector::new(breakpoint_component, old_y)
                } else {
                    Vector::new(old_x, breakpoint_component)
                };
                let leftover = full_distance - magnitude(old - breakpoint_component) as i64;
                proof {
                    lemma_scaled_by_unit(leftover as int);
                }
                let head = breakpoint.add(new_direction.mul(leftover));
                return Some((breakpoint, head, new_direction));
            }
        }
    }
    None
}

/// The snake that a game starts with: its tail tip, then its head.
fn starting_snake(width: i32, height: i32, snake_length: i32, direction: Vector) -> (snake: Vec<
    Vector,
>)
    requires
        is_heading(direction),
    ensures
        snake@ == initial_snake(width as int, height as int, snake_length as int, direction),
        is_path(snake@),
        direction.x == 0 ==> snake@[0].x == snake@[1].x,
        direction.y == 0 ==> snake@[0].y == snake@[1].y,
        snake_length >= 0 && direction.x > 0 ==> snake@[0].x <= snake@[1].x,
        snake_length >= 0 && direction.x < 0 ==> snake@[0].x >= snake@[1].x,
        snake_length >= 0 && direction.y > 0 ==> snake@[0].y <= snake@[1].y,
        snake_length >= 0 && direction.y < 0 ==> snake@[0].y >= snake@[1].y,
{
    let head = Vector::new(
        round_to_cell(width as i64 * HALF_UNIT) * UNIT - HALF_UNIT,
        round_to_cell(height as i64 * HALF_UNIT) * UNIT - HALF_UNIT,
    );
    proof {
        lemma_nearest_cell_close(width * HALF_UNIT);
        lemma_nearest_cell_close(height * HALF_UNIT);
        lemma_scaled_by_unit(snake_length * UNIT);
    }
    let tail_tip = head.sub(direction.mul(snake_length as i64 * UNIT));

    let snake = vec![tail_tip, head];
    proof {
        assert(snake@ =~= initial_snake(
            width as int,
            height as int,
            snake_length as int,
            direction,
        ));
        assert(piece_aligned(snake@, 0));
    }
    snake
}

impl Game {
    /// The game is in a state that ticks keep: see `GameView::valid`.
    pub open spec fn wf(&self) -> bool {
        self@.valid()
    }

    /// A new game on a grid of `width` by `height` cells. The head of the
    /// snake is put next to the middle of the grid, its tail `snake_length`
    /// cells behind it, against `direction`; the food on the center of a cell,
    /// picked at random among those that the snake does not cross.
    /// `InvalidDirection` when `direction` is none of the four headings,
    /// `BoardFull` when there is no such cell.
    pub fn new(width: i32, height: i32, speed: u64, snake_length: i32, direction: Vector) -> (r:
        Result<Game, GameError>)
        ensures
            r == Err::<Game, GameError>(GameError::InvalidDirection) <==> !is_heading(direction),
            r == Err::<Game, GameError>(GameError::BoardFull) <==> is_heading(direction)
                && free_cells(
                width as int,
                height as int,
                initial_snake(width as int, height as int, snake_length as int, direction),
            ).len() == 0,
            r is Err ==> r == Err::<Game, GameError>(GameError::InvalidDirection) || r == Err::<
                Game,
                GameError,
            >(GameError::BoardFull),
            r matches Ok(game) ==> ({
                &&& game.wf()
                &&& game@.width == width
                &&& game@.height == height
                &&& game@.speed == speed
                &&& game@.score == 0
                &&& game@.direction == direction
                &&& game@.snake == initial_snake(
                    width as int,
                    height as int,
                    snake_length as int,
                    direction,
                )
                &&& free_cells(width as int, height as int, game@.snake).contains(game@.food)
                &&& in_grid(width as int, height as int, game@.food)
                &&& !on_snake(game@.snake, game@.food)
                &&& snake_length >= 0 ==> game@.forward()
            }),
    {
        if Movement::from_vector(direction).is_none() {
            return Err(GameError::InvalidDirection);
        }
        let snake = starting_snake(width, height, snake_length, direction);

        let food = match generate_food_position(width, height, &snake) {
            Ok(food) => food,
            Err(e) => {
                return Err(e);
            },
        };

        Ok(Game { width, height, speed, score: 0, direction, food, snake })
    }

    /// As `new`, with the draw of the food handed in: the food lies on the free
    /// cell at the place `choice` of `free_cells`, counted from 0 and round
    /// again past the end.
    pub fn with_food_choice(
        width: i32,
        height: i32,
        speed: u64,
        snake_length: i32,
        direction: Vector,
        choice: usize,
    ) -> (r: Result<Game, GameError>)
        ensures
            r == Err::<Game, GameError>(GameError::InvalidDirection) <==> !is_heading(direction),
            r == Err::<Game, GameError>(GameError::BoardFull) <==> is_heading(direction)
                && free_cells(
                width as int,
                height as int,
                initial_snake(width as int, height as int, snake_length as int, direction),
            ).len() == 0,
            r is Err ==> r == Err::<Game, GameError>(GameError::InvalidDirection) || r == Err::<
                Game,
                GameError,
            >(GameError::BoardFull),
            r matches Ok(game) ==> ({
                let free = free_cells(width as int, height as int, game@.snake);
                &&& game.wf()
                &&& game@ == (GameView {
                    width: width as int,
                    height: height as int,
                    speed: speed as int,
                    score: 0,
                    direction,
                    food: free[choice as int % free.len() as int],
                    snake: initial_snake(
                        width as int,
                        height as int,
                        snake_length as int,
                        direction,
                    ),
                })
                &&& snake_length >= 0 ==> game@.forward()
            }),
    {
        if Movement::from_vector(direction).is_none() {
            return Err(GameError::InvalidDirection);
        }
        let snake = starting_snake(width, height, snake_length, direction);

        let food = match pick_food_position(width, height, &snake, choice) {
            Ok(food) => food,
            Err(e) => {
                return Err(e);
            },
        };

        Ok(Game { width, height, speed, score: 0, direction, food, snake })
    }

    /// The waypoints of the snake, from its tail to its head.
    pub fn snake(&self) -> (waypoints: Vec<Vector>)
        ensures
            waypoints@ == self@.snake,
    {
        let waypoints = self.snake.clone();
        assert(waypoints@ =~= self.snake@);
        waypoints
    }

    /// The number of columns of the grid.
    pub fn width(&self) -> (r: i32)
        ensures
            r == self@.width,
    {
        self.width
    }

    /// The number of rows of the grid.
    pub fn height(&self) -> (r: i32)
        ensures
            r == self@.height,
    {
        self.height
    }

    /// The speed of the snake, in cells per unit of time.
    pub fn speed(&self) -> (r: u64)
        ensures
            r == self@.speed,
    {
        self.speed
    }

    /// The score, which a new game starts at zero.
    pub fn score(&self) -> (r: i32)
        ensures
            r == self@.score,
    {
        self.score
    }

    /// The heading of the snake: one step of length one along an axis.
    pub fn direction(&self) -> (r: Vector)
        ensures
            r == self@.direction,
    {
        self.direction
    }

    /// Where the food lies.
    pub fn food(&self) -> (r: Vector)
        ensures
            r == self@.food,
    {
        self.food
    }

    /// Gives the grid another number of columns. The snake and the food stay
    /// where they are.
    pub fn set_width(&mut self, width: i32)
        ensures
            final(self)@ == (GameView { width: width as int, ..old(self)@ }),
            final(self).wf() == old(self).wf(),
    {
        self.width = width;
    }

    /// Gives the grid another number of rows. The snake and the food stay
    /// where they are.
    pub fn set_height(&mut self, height: i32)
        ensures
            final(self)@ == (GameView { height: height as int, ..old(self)@ }),
            final(self).wf() == old(self).wf(),
    {
        self.height = height;
    }

    /// Gives the snake another speed, in cells per unit of time, for the ticks
    /// to come.
    pub fn set_speed(&mut self, speed: u64)
        ensures
            final(self)@ == (GameView { speed: speed as int, ..old(self)@ }),
            final(self).wf() == old(self).wf(),
    {
        self.speed = speed;
    }

    /// Sets the score.
    pub fn set_score(&mut self, score: i32)
        ensures
            final(self)@ == (GameView { score: score as int, ..old(self)@ }),
            final(self).wf() == old(self).wf(),
    {
        self.score = score;
    }

    /// Moves the snake on by the way it covers in `timespan`, its tail as far
    /// as its head, and turns it toward `movement` if that asks for a turn and
    /// the head crosses a boundary in this tick; a head that stands on a
    /// boundary crosses it as it moves on. The game is left
    /// as it was when the tick cannot be taken: `InsufficientTailLength` when
    /// the snake is shorter than the way to cover, `GeometricDegeneracy` when
    /// nothing is to cover and the first piece of the snake has no length,
    /// `OutOfRange` when a new waypoint would be out of range.
    pub fn process(&mut self, timespan: u64, movement: Option<Movement>) -> (r: Result<
        (),
        GameError,
    >)
        requires
            old(self).wf(),
        ensures
            final(self).wf(),
            match old(self)@.advance(timespan as int, movement) {
                Ok(next) => r is Ok && final(self)@ == next,
                Err(e) => r == Err::<(), GameError>(e) && final(self)@ == old(self)@,
            },
            r == Err::<(), GameError>(GameError::InsufficientTailLength) <==> total_length(
                old(self)@.snake,
            ) < old(self)@.full_distance(timespan as int),
            r == Err::<(), GameError>(GameError::GeometricDegeneracy) <==> old(
                self,
            )@.full_distance(timespan as int) == 0 && old(self)@.snake[0] == old(self)@.snake[1],
            old(self)@.turn_heading(movement) is None ==> final(self)@.direction == old(
                self,
            )@.direction,
            old(self)@.forward() ==> final(self)@.forward() && total_length(final(self)@.snake)
                == total_length(old(self)@.snake),
    {
        proof {
            self@.lemma_advance_errors(timespan as int, movement);
            if self@.advance(timespan as int, movement) is Ok {
                self@.lemma_advance_valid(timespan as int, movement);
                if self@.forward() {
                    self@.lemma_advance_keeps_length(timespan as int, movement);
                }
            }
        }
        self.process_movement(timespan, movement)
    }

    /// The engine behind `process`.
    fn process_movement(&mut self, timespan: u64, movement: Option<Movement>) -> (r: Result<
        (),
        GameError,
    >)
        requires
            old(self).wf(),
        ensures
            match old(self)@.advance(timespan as int, movement) {
                Ok(next) => r is Ok && final(self)@ == next,
                Err(e) => r == Err::<(), GameError>(e) && final(self)@ == old(self)@,
            },
    {
        let full = distance_travelled(self.speed, timespan);
        let mut snake = match erode(&self.snake, full) {
            Ok(snake) => snake,
            Err(e) => {
                return Err(e);
            },
        };
        proof {
            lemma_travelled_nonnegative(self.speed as int, timespan as int);
            lemma_eroded(self.snake@, full as int);
        }
        if full > FAR {
            proof {
                self@.lemma_advance_far(timespan as int, movement);
            }
            return Err(GameError::OutOfRange);
        }
        let full_distance = full as i64;
        let ghost rest = snake@;
        let old_head = snake.pop().unwrap();
        assert(snake@ == rest.drop_last());
        assert(old_head == self@.head());
        assert(old_head.in_range());
        proof {
            lemma_scaled_by_unit(full_distance as int);
        }
        let new_head = old_head.add(self.direction.mul(full_distance));

        if let Some((breakpoint, head, new_direction)) = steer(
            old_head,
            new_head,
            self.direction,
            full_distance,
            movement,
        ) {
            if !breakpoint.within_limit() || !head.within_limit() {
                return Err(GameError::OutOfRange);
            }
            snake.push(breakpoint);
            snake.push(head);
            self.snake = snake;
            self.direction = new_direction;

            return Ok(());
        }
        if !new_head.within_limit() {
            return Err(GameError::OutOfRange);
        }
        snake.push(new_head);
        self.snake = snake;
        Ok(())
    }
}

} // verus!
