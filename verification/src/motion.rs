//! What one tick does to the snake, stated on the mathematical view of a game.

use crate::error::GameError;
use crate::fixed::lemma_scaled_by_unit;
use crate::fixed::lemma_trailing_cell_close;
use crate::fixed::lemma_trailing_cell_monotone;
use crate::fixed::nearest_cell;
use crate::fixed::scaled;
use crate::fixed::signum;
use crate::fixed::trailing_cell;
use crate::fixed::travelled;
use crate::fixed::HALF_UNIT;
use crate::fixed::LIMIT;
use crate::fixed::UNIT;
use crate::movement::is_heading;
use crate::movement::Movement;
use crate::path::distance;
use crate::path::eroded;
use crate::path::is_path;
use crate::path::lemma_eroded;
use crate::path::lemma_eroded_errors;
use crate::path::lemma_eroded_tail;
use crate::path::lemma_path_drop_last;
use crate::path::lemma_path_push;
use crate::path::lemma_point_at_eroded;
use crate::path::lemma_point_at_extended;
use crate::path::lemma_total_length_push;
use crate::path::point_at;
use crate::path::total_length;
use crate::vector::Vector;
use vstd::math::abs;
use vstd::prelude::*;
use vstd::std_specs::ops::NegSpec;

verus! {

/// A point of the plane whose coordinates know no bounds.
pub struct Point {
    pub x: int,
    pub y: int,
}

impl Point {
    /// Neither coordinate is farther from zero than `LIMIT`.
    pub open spec fn in_range(self) -> bool {
        &&& -LIMIT <= self.x <= LIMIT
        &&& -LIMIT <= self.y <= LIMIT
    }

    /// The same point as a vector; meaningful for a point in range.
    pub open spec fn vector(self) -> Vector {
        Vector { x: self.x as i64, y: self.y as i64 }
    }
}

/// A turn made within a tick: the waypoint where the snake leaves its old
/// line, where its head ends up, and its new heading.
pub struct Corner {
    pub breakpoint: Point,
    pub head: Point,
    pub direction: Vector,
}

/// The coordinate of the boundary that is crossed on the way from grid line
/// `old_cell` to grid line `new_cell`: halfway from `old_cell` to its
/// neighbor on that side.
pub open spec fn crossing(old_cell: int, new_cell: int) -> int {
    if new_cell > old_cell {
        old_cell * UNIT + HALF_UNIT
    } else {
        old_cell * UNIT - HALF_UNIT
    }
}

/// The grid line that a point is nearest to as it sets out from `v` for `w`.
pub open spec fn cell_from(v: int, w: int) -> int {
    trailing_cell(v, w > v)
}

/// The grid line that a point is nearest to as it gets to `w` from `v`.
pub open spec fn cell_to(v: int, w: int) -> int {
    trailing_cell(w, w > v)
}

/// The boundary crossed on the way from `v` to a `w` nearest to another grid
/// line is met at `v` or after it and before `w`, and less than a cell from
/// `v`. A point that stands on a boundary crosses it as it moves on, and a
/// point that gets to a boundary has not crossed it yet.
pub proof fn lemma_crossing(v: int, w: int)
    requires
        cell_from(v, w) != cell_to(v, w),
    ensures
        v != w,
        v < w ==> v <= crossing(cell_from(v, w), cell_to(v, w)) < w,
        w < v ==> w < crossing(cell_from(v, w), cell_to(v, w)) <= v,
        abs(v - crossing(cell_from(v, w), cell_to(v, w))) < UNIT,
{
    lemma_trailing_cell_close(v, w > v);
    lemma_trailing_cell_close(w, w > v);
    if v <= w {
        lemma_trailing_cell_monotone(v, w, w > v);
    } else {
        lemma_trailing_cell_monotone(w, v, w > v);
    }
}

/// No time span is covered backwards.
pub proof fn lemma_travelled_nonnegative(speed: int, timespan: int)
    requires
        speed >= 0,
        timespan >= 0,
    ensures
        travelled(speed, timespan) >= 0,
{
    assert(speed * timespan >= 0) by (nonlinear_arith)
        requires
            speed >= 0,
            timespan >= 0,
    ;
}

/// Where a head at `head` gets to when it goes on by `d` along `direction`.
pub open spec fn straight(head: Vector, direction: Vector, d: int) -> Point {
    Point {
        x: head.x + scaled(direction.x as int, d),
        y: head.y + scaled(direction.y as int, d),
    }
}

/// The heading that `turn` asks for, if it asks for a turn at all: asking for
/// the present heading or for its reverse asks for nothing.
pub open spec fn requested_heading(direction: Vector, turn: Option<Movement>) -> Option<Vector> {
    match turn {
        Some(m) => {
            let heading = m.spec_vector();
            if direction != heading.neg_spec() && direction != heading {
                Some(heading)
            } else {
                None
            }
        },
        None => None,
    }
}

/// The turn made in a tick that covers `d`, if one is made: a turn is asked
/// for, and going straight on takes the head across a boundary, which is
/// where it is nearest to another grid line across or, failing that, down.
/// The snake then goes straight as far as the boundary it crosses first and
/// spends the rest of the way on its new heading.
pub open spec fn corner_of(
    head: Vector,
    direction: Vector,
    d: int,
    turn: Option<Movement>,
) -> Option<Corner> {
    let new = straight(head, direction, d);
    match requested_heading(direction, turn) {
        None => None,
        Some(heading) => {
            if cell_from(head.x as int, new.x) != cell_to(head.x as int, new.x) {
                let edge = crossing(cell_from(head.x as int, new.x), cell_to(head.x as int, new.x));
                let leftover = d - abs(head.x - edge);
                Some(
                    Corner {
                        breakpoint: Point { x: edge, y: head.y as int },
                        head: Point {
                            x: edge + scaled(heading.x as int, leftover),
                            y: head.y + scaled(heading.y as int, leftover),
                        },
                        direction: heading,
                    },
                )
            } else if cell_from(head.y as int, new.y) != cell_to(head.y as int, new.y) {
                let edge = crossing(cell_from(head.y as int, new.y), cell_to(head.y as int, new.y));
                let leftover = d - abs(head.y - edge);
                Some(
                    Corner {
                        breakpoint: Point { x: head.x as int, y: edge },
                        head: Point {
                            x: head.x + scaled(heading.x as int, leftover),
                            y: edge + scaled(heading.y as int, leftover),
                        },
                        direction: heading,
                    },
                )
            } else {
                None
            }
        },
    }
}

/// What a turn looks like when the snake is on one of the four headings. The
/// breakpoint lies on the line of travel, at the head or ahead of it, before
/// the place that going straight on would lead to, and less than a cell from
/// the head. The new heading is the one asked for and runs across the old
/// one. The new head lies on the line through the breakpoint along the new
/// heading, and by way of the breakpoint it is as far from the old head as
/// the tick covers.
pub proof fn lemma_corner(head: Vector, direction: Vector, d: int, turn: Option<Movement>)
    requires
        is_heading(direction),
        d >= 0,
        corner_of(head, direction, d, turn) is Some,
    ensures
        ({
            let corner = corner_of(head, direction, d, turn).unwrap();
            let new = straight(head, direction, d);
            &&& turn is Some
            &&& corner.direction == turn.unwrap().spec_vector()
            &&& (corner.direction.x == 0) != (direction.x == 0)
            &&& (corner.direction.y == 0) != (direction.y == 0)
            &&& direction.x > 0 ==> head.x <= corner.breakpoint.x < new.x
            &&& direction.x < 0 ==> new.x < corner.breakpoint.x <= head.x
            &&& direction.x == 0 ==> corner.breakpoint.x == head.x
            &&& direction.y > 0 ==> head.y <= corner.breakpoint.y < new.y
            &&& direction.y < 0 ==> new.y < corner.breakpoint.y <= head.y
            &&& direction.y == 0 ==> corner.breakpoint.y == head.y
            &&& (corner.breakpoint.x - HALF_UNIT) % (UNIT as int) == 0 || (corner.breakpoint.y
                - HALF_UNIT) % (UNIT as int) == 0
            &&& abs(corner.breakpoint.x - head.x) + abs(corner.breakpoint.y - head.y) < UNIT
            &&& corner.direction.x == 0 ==> corner.head.x == corner.breakpoint.x
            &&& corner.direction.y == 0 ==> corner.head.y == corner.breakpoint.y
            &&& corner.direction.x > 0 ==> corner.head.x > corner.breakpoint.x
            &&& corner.direction.x < 0 ==> corner.head.x < corner.breakpoint.x
            &&& corner.direction.y > 0 ==> corner.head.y > corner.breakpoint.y
            &&& corner.direction.y < 0 ==> corner.head.y < corner.breakpoint.y
            &&& abs(corner.breakpoint.x - head.x) + abs(corner.breakpoint.y - head.y) + abs(
                corner.head.x - corner.breakpoint.x,
            ) + abs(corner.head.y - corner.breakpoint.y) == d
        }),
{
    let new = straight(head, direction, d);
    lemma_scaled_by_unit(d);
    if cell_from(head.x as int, new.x) != cell_to(head.x as int, new.x) {
        lemma_crossing(head.x as int, new.x);
        let edge = crossing(cell_from(head.x as int, new.x), cell_to(head.x as int, new.x));
        lemma_scaled_by_unit(d - abs(head.x - edge));
    } else {
        lemma_crossing(head.y as int, new.y);
        let edge = crossing(cell_from(head.y as int, new.y), cell_to(head.y as int, new.y));
        lemma_scaled_by_unit(d - abs(head.y - edge));
    }
}

/// Where the head is when a game starts: on the center of the cell that lies
/// half a cell below and left of the grid line nearest to the middle of the
/// grid.
pub open spec fn initial_head(width: int, height: int) -> Vector {
    Vector {
        x: (nearest_cell(width * HALF_UNIT) * UNIT - HALF_UNIT) as i64,
        y: (nearest_cell(height * HALF_UNIT) * UNIT - HALF_UNIT) as i64,
    }
}

/// The snake when a game starts: one piece, from a tail that lies
/// `snake_length` cells behind the head to the head.
pub open spec fn initial_snake(
    width: int,
    height: int,
    snake_length: int,
    direction: Vector,
) -> Seq<Vector> {
    let head = initial_head(width, height);
    let tail = Vector {
        x: (head.x - scaled(direction.x as int, snake_length * UNIT)) as i64,
        y: (head.y - scaled(direction.y as int, snake_length * UNIT)) as i64,
    };
    seq![tail, head]
}

/// The state of a game: the size of the grid in cells, the speed in cells per
/// unit of time, the score, the heading, the place of the food, and the
/// waypoints of the snake from its tail to its head.
pub struct GameView {
    pub width: int,
    pub height: int,
    pub speed: int,
    pub score: int,
    pub direction: Vector,
    pub food: Vector,
    pub snake: Seq<Vector>,
}

impl GameView {
    /// The last waypoint.
    pub open spec fn head(self) -> Vector {
        self.snake.last()
    }

    /// The waypoint before the head.
    pub open spec fn neck(self) -> Vector {
        self.snake[self.snake.len() - 2]
    }

    /// What every game keeps: a snake of two waypoints or more, all in range,
    /// whose pieces run along the axes and whose last piece lies on the line
    /// through the head along the heading, which is one of the four.
    pub open spec fn valid(self) -> bool {
        &&& self.snake.len() >= 2
        &&& is_path(self.snake)
        &&& is_heading(self.direction)
        &&& self.direction.x == 0 ==> self.neck().x == self.head().x
        &&& self.direction.y == 0 ==> self.neck().y == self.head().y
        &&& 0 <= self.speed
    }

    /// The last piece leads to the head the way the snake is heading, not
    /// against it.
    pub open spec fn forward(self) -> bool {
        &&& self.direction.x > 0 ==> self.neck().x <= self.head().x
        &&& self.direction.x < 0 ==> self.neck().x >= self.head().x
        &&& self.direction.y > 0 ==> self.neck().y <= self.head().y
        &&& self.direction.y < 0 ==> self.neck().y >= self.head().y
    }

    /// The length of way that the snake covers in `timespan`.
    pub open spec fn full_distance(self, timespan: int) -> int {
        travelled(self.speed, timespan)
    }

    /// Where the head gets to when it goes straight on for `timespan`.
    pub open spec fn straight_head(self, timespan: int) -> Point {
        straight(self.head(), self.direction, self.full_distance(timespan))
    }

    /// The heading that `turn` asks for, if it asks for a turn at all.
    pub open spec fn turn_heading(self, turn: Option<Movement>) -> Option<Vector> {
        requested_heading(self.direction, turn)
    }

    /// The turn made in this tick, if one is made.
    pub open spec fn corner(self, timespan: int, turn: Option<Movement>) -> Option<Corner> {
        corner_of(self.head(), self.direction, self.full_distance(timespan), turn)
    }

    /// The game after a tick of `timespan` in which `turn` is asked for. The
    /// tail end is worn down by the distance covered. Then, with no turn made,
    /// the head moves straight on by that distance; with a turn made, the head
    /// is replaced by the corner's breakpoint, the new head follows it, and the
    /// heading changes. There is no next state when the tail cannot be worn
    /// down, nor when a new waypoint would be out of range.
    pub open spec fn advance(self, timespan: int, turn: Option<Movement>) -> Result<
        GameView,
        GameError,
    > {
        match eroded(self.snake, self.full_distance(timespan)) {
            Err(e) => Err(e),
            Ok(rest) => {
                let body = rest.drop_last();
                match self.corner(timespan, turn) {
                    None => {
                        let head = self.straight_head(timespan);
                        if head.in_range() {
                            Ok(GameView { snake: body.push(head.vector()), ..self })
                        } else {
                            Err(GameError::OutOfRange)
                        }
                    },
                    Some(corner) => {
                        if corner.breakpoint.in_range() && corner.head.in_range() {
                            Ok(
                                GameView {
                                    snake: body.push(corner.breakpoint.vector()).push(
                                        corner.head.vector(),
                                    ),
                                    direction: corner.direction,
                                    ..self
                                },
                            )
                        } else {
                            Err(GameError::OutOfRange)
                        }
                    },
                }
            },
        }
    }
}

impl GameView {
    /// A tick takes a valid game to a valid game, and changes nothing but the
    /// snake and the heading.
    pub proof fn lemma_advance_valid(self, timespan: int, turn: Option<Movement>)
        requires
            self.valid(),
            timespan >= 0,
            self.advance(timespan, turn) is Ok,
        ensures
            self.advance(timespan, turn).unwrap().valid(),
            self.advance(timespan, turn).unwrap().width == self.width,
            self.advance(timespan, turn).unwrap().height == self.height,
            self.advance(timespan, turn).unwrap().speed == self.speed,
            self.advance(timespan, turn).unwrap().score == self.score,
            self.advance(timespan, turn).unwrap().food == self.food,
    {
        let d = self.full_distance(timespan);
        lemma_travelled_nonnegative(self.speed, timespan);
        lemma_eroded(self.snake, d);
        let rest = eroded(self.snake, d).unwrap();
        let body = rest.drop_last();
        lemma_path_drop_last(rest);
        let old = self.head();
        let new = self.straight_head(timespan);
        let next = self.advance(timespan, turn).unwrap();
        assert(body.last() == rest[rest.len() - 2]);
        assert(old.in_range());
        lemma_scaled_by_unit(d);
        match self.corner(timespan, turn) {
            None => {
                let p = new.vector();
                lemma_path_push(body, p);
                assert(next.snake == body.push(p));
                assert(next.neck() == body.last());
                assert(next.head() == p);
            },
            Some(corner) => {
                let heading = self.turn_heading(turn).unwrap();
                let bp = corner.breakpoint.vector();
                let head = corner.head.vector();
                lemma_corner(old, self.direction, d, turn);
                lemma_path_push(body, bp);
                lemma_path_push(body.push(bp), head);
                assert(next.snake == body.push(bp).push(head));
                assert(next.neck() == bp);
                assert(next.head() == head);
            },
        }
    }
}

impl GameView {
    /// The tick in which a turn is made. A turn is made exactly when one is
    /// asked for that is neither the heading nor its reverse and the head
    /// crosses a boundary on its line of travel. Then the waypoint before the
    /// new head is the breakpoint: it lies on that boundary, half a cell from
    /// the grid line that the head was nearest to, and has the other
    /// coordinate of the old head, which is no waypoint any more unless it is
    /// the breakpoint. The new head lies on the line through the breakpoint
    /// along the new heading, and the heading is the one asked for.
    pub proof fn lemma_turn_made(self, timespan: int, movement: Movement)
        requires
            self.valid(),
            timespan >= 0,
            self.advance(timespan, Some(movement)) is Ok,
        ensures
            ({
                let next = self.advance(timespan, Some(movement)).unwrap();
                let old = self.head();
                let new = self.straight_head(timespan);
                let asked = movement.spec_vector() != self.direction && movement.spec_vector()
                    != self.direction.neg_spec();
                let crossed = cell_from(old.x as int, new.x) != cell_to(old.x as int, new.x)
                    || cell_from(old.y as int, new.y) != cell_to(old.y as int, new.y);
                &&& self.corner(timespan, Some(movement)) is Some <==> asked && crossed
                &&& !(asked && crossed) ==> next.direction == self.direction && next.head()
                    == new.vector()
                &&& asked && crossed ==> {
                    &&& next.direction == movement.spec_vector()
                    &&& next.snake.len() >= 3
                    &&& self.direction.y == 0 ==> {
                        &&& next.neck().x == crossing(
                            cell_from(old.x as int, new.x),
                            cell_to(old.x as int, new.x),
                        )
                        &&& next.neck().y == old.y
                        &&& next.head().x == next.neck().x
                        &&& abs(next.head().y - old.y) == self.full_distance(timespan) - abs(
                            next.neck().x - old.x,
                        )
                    }
                    &&& self.direction.x == 0 ==> {
                        &&& next.neck().y == crossing(
                            cell_from(old.y as int, new.y),
                            cell_to(old.y as int, new.y),
                        )
                        &&& next.neck().x == old.x
                        &&& next.head().y == next.neck().y
                        &&& abs(next.head().x - old.x) == self.full_distance(timespan) - abs(
                            next.neck().y - old.y,
                        )
                    }
                }
            }),
    {
        let d = self.full_distance(timespan);
        let old = self.head();
        lemma_travelled_nonnegative(self.speed, timespan);
        lemma_eroded(self.snake, d);
        lemma_scaled_by_unit(d);
        let rest = eroded(self.snake, d).unwrap();
        let body = rest.drop_last();
        let next = self.advance(timespan, Some(movement)).unwrap();
        match self.corner(timespan, Some(movement)) {
            None => {
                let p = self.straight_head(timespan).vector();
                assert(next.snake == body.push(p));
                assert(next.head() == p);
            },
            Some(corner) => {
                lemma_corner(old, self.direction, d, Some(movement));
                let bp = corner.breakpoint.vector();
                let head = corner.head.vector();
                assert(next.snake == body.push(bp).push(head));
                assert(next.neck() == bp);
                assert(next.head() == head);
            },
        }
    }

    /// A tick that covers more than twice the limit and a cell cannot keep the
    /// head in range, turn or no turn.
    pub proof fn lemma_advance_far(self, timespan: int, turn: Option<Movement>)
        requires
            self.valid(),
            timespan >= 0,
            self.full_distance(timespan) > 2 * LIMIT + UNIT,
            eroded(self.snake, self.full_distance(timespan)) is Ok,
        ensures
            self.advance(timespan, turn) == Err::<GameView, GameError>(GameError::OutOfRange),
    {
        let d = self.full_distance(timespan);
        let old = self.head();
        let new = self.straight_head(timespan);
        assert(old.in_range());
        lemma_scaled_by_unit(d);
        if self.corner(timespan, turn) is Some {
            lemma_corner(old, self.direction, d, turn);
        }
    }
}

impl GameView {
    /// A tick takes nothing from the snake and adds nothing to it: when its
    /// last piece leads the way it is heading, the snake is as long after the
    /// tick as before, turn or no turn, and its last piece again leads the way
    /// it is heading. The tail end loses the distance covered, as `lemma_eroded`
    /// says, and the head end gains it.
    pub proof fn lemma_advance_keeps_length(self, timespan: int, turn: Option<Movement>)
        requires
            self.valid(),
            self.forward(),
            timespan >= 0,
            self.advance(timespan, turn) is Ok,
        ensures
            total_length(self.advance(timespan, turn).unwrap().snake) == total_length(self.snake),
            self.advance(timespan, turn).unwrap().forward(),
    {
        let d = self.full_distance(timespan);
        lemma_travelled_nonnegative(self.speed, timespan);
        lemma_eroded(self.snake, d);
        let rest = eroded(self.snake, d).unwrap();
        let body = rest.drop_last();
        let old = self.head();
        let new = self.straight_head(timespan);
        let next = self.advance(timespan, turn).unwrap();
        assert(rest =~= body.push(old));
        assert(body.last() == rest[rest.len() - 2]);
        lemma_total_length_push(body, old);
        lemma_scaled_by_unit(d);
        match self.corner(timespan, turn) {
            None => {
                let p = new.vector();
                lemma_total_length_push(body, p);
                assert(next.snake == body.push(p));
                assert(next.neck() == body.last());
                assert(next.head() == p);
                assert(distance(body.last(), p) == distance(body.last(), old) + d);
            },
            Some(corner) => {
                let bp = corner.breakpoint.vector();
                let head = corner.head.vector();
                lemma_corner(old, self.direction, d, turn);
                lemma_total_length_push(body, bp);
                lemma_total_length_push(body.push(bp), head);
                assert(next.snake == body.push(bp).push(head));
                assert(next.neck() == bp);
                assert(next.head() == head);
                assert(distance(body.last(), bp) + distance(bp, head) == distance(
                    body.last(),
                    old,
                ) + d);
            },
        }
    }

    /// Asking for the present heading or for its reverse is asking for
    /// nothing: the tick is the one that is taken when no turn is asked for,
    /// and the heading stays.
    pub proof fn lemma_turn_suppressed(self, timespan: int, movement: Movement)
        requires
            is_heading(self.direction),
            movement.spec_vector() == self.direction || movement.spec_vector()
                == self.direction.neg_spec(),
        ensures
            self.advance(timespan, Some(movement)) == self.advance(timespan, None),
            self.advance(timespan, Some(movement)) matches Ok(next) ==> next.direction
                == self.direction,
    {
    }

    /// Without a turn the heading stays and the head moves on by the distance
    /// covered.
    pub proof fn lemma_straight_head(self, timespan: int)
        requires
            self.valid(),
            self.advance(timespan, None) is Ok,
        ensures
            self.advance(timespan, None).unwrap().direction == self.direction,
            self.advance(timespan, None).unwrap().head().x == self.head().x + signum(
                self.direction.x as int,
            ) * self.full_distance(timespan),
            self.advance(timespan, None).unwrap().head().y == self.head().y + signum(
                self.direction.y as int,
            ) * self.full_distance(timespan),
    {
        let d = self.full_distance(timespan);
        lemma_scaled_by_unit(d);
        assert(1 * d == d && (-1) * d == -d && 0 * d == 0) by (nonlinear_arith);
    }

    /// One tick or two: a tick of `first + second` takes the head where a tick
    /// of `first` followed by a tick of `second` takes it, or one step of the
    /// smallest size farther along the heading, which is what rounding the
    /// two distances down can lose. Nothing is lost when the first tick covers
    /// a whole number of steps.
    pub proof fn lemma_subdivision(self, first: int, second: int)
        requires
            self.valid(),
            first >= 0,
            second >= 0,
            self.advance(first + second, None) is Ok,
            self.advance(first, None) is Ok,
            self.advance(first, None).unwrap().advance(second, None) is Ok,
        ensures
            ({
                let whole = self.advance(first + second, None).unwrap().head();
                let middle = self.advance(first, None).unwrap();
                let halves = middle.advance(second, None).unwrap().head();
                let lost = self.full_distance(first + second) - self.full_distance(first)
                    - self.full_distance(second);
                &&& 0 <= lost <= 1
                &&& (self.speed * first) % (UNIT as int) == 0 ==> lost == 0
                &&& whole.x == halves.x + signum(self.direction.x as int) * lost
                &&& whole.y == halves.y + signum(self.direction.y as int) * lost
            }),
    {
        let middle = self.advance(first, None).unwrap();
        self.lemma_advance_valid(first, None);
        self.lemma_straight_head(first + second);
        self.lemma_straight_head(first);
        middle.lemma_straight_head(second);
        let a = self.speed * first;
        let b = self.speed * second;
        assert(self.speed * (first + second) == a + b) by (nonlinear_arith)
            requires
                a == self.speed * first,
                b == self.speed * second,
        ;
        let lost = self.full_distance(first + second) - self.full_distance(first)
            - self.full_distance(second);
        assert(lost == (a + b) / (UNIT as int) - a / (UNIT as int) - b / (UNIT as int));
        assert(0 <= lost <= 1);
        let sx = signum(self.direction.x as int);
        let sy = signum(self.direction.y as int);
        assert(sx * (self.full_distance(first) + self.full_distance(second) + lost) == sx
            * self.full_distance(first) + sx * self.full_distance(second) + sx * lost)
            by (nonlinear_arith);
        assert(sy * (self.full_distance(first) + self.full_distance(second) + lost) == sy
            * self.full_distance(first) + sy * self.full_distance(second) + sy * lost)
            by (nonlinear_arith);
    }
}

impl GameView {
    /// One tick or two, and the tail: after a tick the tail lies as far along
    /// the old snake as the tick covers, and after two ticks as far as both
    /// cover together. So where rounding the two distances down loses nothing,
    /// a tick of `first + second` leaves tail, head and heading where a tick of
    /// `first` followed by a tick of `second` leaves them.
    pub proof fn lemma_subdivision_tail(self, first: int, second: int)
        requires
            self.valid(),
            self.forward(),
            first >= 0,
            second >= 0,
            self.advance(first + second, None) is Ok,
            self.advance(first, None) is Ok,
            self.advance(first, None).unwrap().advance(second, None) is Ok,
        ensures
            ({
                let whole = self.advance(first + second, None).unwrap();
                let middle = self.advance(first, None).unwrap();
                let halves = middle.advance(second, None).unwrap();
                let covered = self.full_distance(first) + self.full_distance(second);
                &&& whole.snake[0] == point_at(self.snake, self.full_distance(first + second))
                &&& halves.snake[0] == point_at(self.snake, covered)
                &&& self.full_distance(first + second) == covered ==> {
                    &&& whole.snake[0] == halves.snake[0]
                    &&& whole.head() == halves.head()
                    &&& whole.direction == halves.direction
                }
            }),
    {
        let s = self.snake;
        let d = self.full_distance(first + second);
        let d1 = self.full_distance(first);
        let d2 = self.full_distance(second);
        lemma_travelled_nonnegative(self.speed, first);
        lemma_travelled_nonnegative(self.speed, second);
        lemma_travelled_nonnegative(self.speed, first + second);
        self.lemma_subdivision(first, second);
        self.lemma_advance_valid(first, None);
        let middle = self.advance(first, None).unwrap();

        let whole_rest = eroded(s, d).unwrap();
        lemma_eroded(s, d);
        lemma_eroded_tail(s, d);
        lemma_eroded_errors(s, d);
        assert(self.advance(first + second, None).unwrap().snake[0] == whole_rest[0]);

        let rest = eroded(s, d1).unwrap();
        lemma_eroded(s, d1);
        lemma_scaled_by_unit(d1);
        let reached = middle.head();
        assert(middle.snake == rest.drop_last().push(reached));
        assert(rest.drop_last().last() == rest[rest.len() - 2]);
        lemma_point_at_extended(rest, reached, d2);
        lemma_point_at_eroded(s, d1, d2);

        let second_rest = eroded(middle.snake, d2).unwrap();
        lemma_eroded(middle.snake, d2);
        lemma_eroded_tail(middle.snake, d2);
        assert(middle.advance(second, None).unwrap().snake[0] == second_rest[0]);
    }

    /// When a tick cannot be taken: the snake is shorter than the distance
    /// covered; or nothing is covered and the first piece has no length, so
    /// that the tail has no direction to stay on; or, with the tail worn down,
    /// a new waypoint would be out of range. Nothing else stops a tick.
    pub proof fn lemma_advance_errors(self, timespan: int, turn: Option<Movement>)
        requires
            self.valid(),
            timespan >= 0,
        ensures
            self.advance(timespan, turn) == Err::<GameView, GameError>(
                GameError::InsufficientTailLength,
            ) <==> total_length(self.snake) < self.full_distance(timespan),
            self.advance(timespan, turn) == Err::<GameView, GameError>(
                GameError::GeometricDegeneracy,
            ) <==> self.full_distance(timespan) == 0 && self.snake[0] == self.snake[1],
            self.advance(timespan, turn) == Err::<GameView, GameError>(GameError::OutOfRange)
                <==> eroded(self.snake, self.full_distance(timespan)) is Ok && match self.corner(
                timespan,
                turn,
            ) {
                None => !self.straight_head(timespan).in_range(),
                Some(corner) => !corner.breakpoint.in_range() || !corner.head.in_range(),
            },
            self.advance(timespan, turn) != Err::<GameView, GameError>(GameError::BoardFull),
            self.advance(timespan, turn) != Err::<GameView, GameError>(
                GameError::InvalidDirection,
            ),
    {
        lemma_travelled_nonnegative(self.speed, timespan);
        lemma_eroded_errors(self.snake, self.full_distance(timespan));
    }
}

} // verus!
