//! Where food can be put: on the center of a cell that the snake does not
//! cross.

use crate::error::GameError;
use crate::fixed::HALF_UNIT;
use crate::fixed::UNIT;
use crate::segment::Segment;
use crate::vector::Vector;
use rand::seq::SliceRandom;
use vstd::prelude::*;

verus! {

/// The center of the cell in column `x` and row `y`.
pub open spec fn cell_center(x: int, y: int) -> Vector {
    Vector { x: (x * UNIT + HALF_UNIT) as i64, y: (y * UNIT + HALF_UNIT) as i64 }
}

/// The pieces of the snake, from the tail on: one less than it has waypoints.
pub open spec fn pieces(snake: Seq<Vector>) -> Seq<Segment> {
    Seq::new(
        if snake.len() == 0 {
            0
        } else {
            (snake.len() - 1) as nat
        },
        |i: int| Segment { start: snake[i], end: snake[i + 1] },
    )
}

/// `p` lies on one of `segments`.
pub open spec fn on_any(segments: Seq<Segment>, p: Vector) -> bool {
    exists|i: int| 0 <= i < segments.len() && (#[trigger] segments[i]).contains(p)
}

/// `p` lies on a piece of the snake.
pub open spec fn on_snake(snake: Seq<Vector>, p: Vector) -> bool {
    on_any(pieces(snake), p)
}

/// The centers of the first `rows` cells of column `x`, from row 0 on.
pub open spec fn column_centers(x: int, rows: int) -> Seq<Vector>
    decreases rows,
{
    if rows <= 0 {
        Seq::empty()
    } else {
        column_centers(x, rows - 1).push(cell_center(x, rows - 1))
    }
}

/// The centers of the cells of the first `columns` columns of a grid that is
/// `height` cells high: column after column, each from row 0 on.
pub open spec fn grid_centers(columns: int, height: int) -> Seq<Vector>
    decreases columns,
{
    if columns <= 0 {
        Seq::empty()
    } else {
        grid_centers(columns - 1, height) + column_centers(columns - 1, height)
    }
}

/// The test that a point passes when it does not lie on the snake.
pub open spec fn off_snake(snake: Seq<Vector>) -> spec_fn(Vector) -> bool {
    |p: Vector| !on_snake(snake, p)
}

/// The centers of the cells that the snake leaves free, in the order of
/// `grid_centers`.
pub open spec fn free_cells(width: int, height: int, snake: Seq<Vector>) -> Seq<Vector> {
    grid_centers(width, height).filter(off_snake(snake))
}

/// `p` is the center of a cell of a grid `width` cells wide and `height`
/// cells high.
pub open spec fn in_grid(width: int, height: int, p: Vector) -> bool {
    exists|x: int, y: int| 0 <= x < width && 0 <= y < height && p == #[trigger] cell_center(x, y)
}

/// `column_centers` holds the centers of the first `rows` cells of the column
/// and nothing else.
pub proof fn lemma_column_centers(x: int, rows: int, p: Vector)
    ensures
        column_centers(x, rows).contains(p) <==> exists|y: int|
            0 <= y < rows && p == #[trigger] cell_center(x, y),
    decreases rows,
{
    if rows > 0 {
        lemma_column_centers(x, rows - 1, p);
        let shorter = column_centers(x, rows - 1);
        let column = column_centers(x, rows);
        let last = cell_center(x, rows - 1);
        assert(column == shorter.push(last));
        if column.contains(p) {
            let i = choose|i: int| 0 <= i < column.len() && column[i] == p;
            if i < shorter.len() {
                assert(shorter[i] == p);
            }
        }
        if shorter.contains(p) {
            let i = choose|i: int| 0 <= i < shorter.len() && shorter[i] == p;
            assert(column[i] == p);
        }
        if p == last {
            assert(column[column.len() - 1] == p);
        }
    }
}

/// `grid_centers` holds the centers of the cells of the grid and nothing
/// else.
pub proof fn lemma_grid_centers(columns: int, height: int, p: Vector)
    ensures
        grid_centers(columns, height).contains(p) <==> in_grid(columns, height, p),
    decreases columns,
{
    if columns > 0 {
        lemma_grid_centers(columns - 1, height, p);
        lemma_column_centers(columns - 1, height, p);
        let narrower = grid_centers(columns - 1, height);
        let column = column_centers(columns - 1, height);
        let grid = grid_centers(columns, height);
        assert(grid == narrower + column);
        if grid.contains(p) {
            let i = choose|i: int| 0 <= i < grid.len() && grid[i] == p;
            if i < narrower.len() {
                assert(narrower[i] == p);
            } else {
                assert(column[i - narrower.len()] == p);
            }
        }
        if narrower.contains(p) {
            let i = choose|i: int| 0 <= i < narrower.len() && narrower[i] == p;
            assert(grid[i] == p);
        }
        if column.contains(p) {
            let i = choose|i: int| 0 <= i < column.len() && column[i] == p;
            assert(grid[narrower.len() + i] == p);
        }
    }
}

/// The free cells are the cells of the grid whose centers do not lie on the
/// snake: each of them, and nothing else.
pub proof fn lemma_free_cells(width: int, height: int, snake: Seq<Vector>, p: Vector)
    ensures
        free_cells(width, height, snake).contains(p) <==> in_grid(width, height, p) && !on_snake(
            snake,
            p,
        ),
{
    let grid = grid_centers(width, height);
    let free = free_cells(width, height, snake);
    lemma_grid_centers(width, height, p);
    if free.contains(p) {
        grid.lemma_filter_contains_rev(off_snake(snake), p);
        let i = choose|i: int| 0 <= i < free.len() && free[i] == p;
        grid.lemma_filter_pred(off_snake(snake), i);
    }
    if grid.contains(p) && !on_snake(snake, p) {
        let i = choose|i: int| 0 <= i < grid.len() && grid[i] == p;
        grid.lemma_filter_contains(off_snake(snake), i);
    }
}

/// The board is full, that is no cell is free, exactly when the center of
/// every cell of the grid lies on the snake.
pub proof fn lemma_board_full(width: int, height: int, snake: Seq<Vector>)
    ensures
        free_cells(width, height, snake).len() == 0 <==> forall|p: Vector|
            in_grid(width, height, p) ==> on_snake(snake, p),
{
    let free = free_cells(width, height, snake);
    if free.len() > 0 {
        assert(free.contains(free[0]));
        lemma_free_cells(width, height, snake, free[0]);
    } else {
        assert forall|p: Vector| in_grid(width, height, p) implies on_snake(snake, p) by {
            lemma_free_cells(width, height, snake, p);
            assert(!free.contains(p));
        }
    }
}

/// The pieces of the snake, from the tail on.
fn segments_of(snake: &Vec<Vector>) -> (segments: Vec<Segment>)
    ensures
        segments@ == pieces(snake@),
{
    let mut segments: Vec<Segment> = Vec::new();
    let mut i: usize = 1;
    while i < snake.len()
        invariant
            1 <= i,
            i <= snake@.len() || (snake@.len() == 0 && i == 1),
            segments@ == pieces(snake@).take(i - 1),
        decreases snake.len() - i,
    {
        segments.push(Segment::new(snake[i - 1], snake[i]));
        assert(segments@ =~= pieces(snake@).take(i as int));
        i = i + 1;
    }
    assert(pieces(snake@).take(i - 1) =~= pieces(snake@));
    segments
}

/// Whether `point` lies on one of `segments`.
fn is_occupied(segments: &Vec<Segment>, point: Vector) -> (r: bool)
    ensures
        r == on_any(segments@, point),
{
    let mut i: usize = 0;
    while i < segments.len()
        invariant
            i <= segments@.len(),
            forall|k: int| 0 <= k < i ==> !(#[trigger] segments@[k]).contains(point),
        decreases segments.len() - i,
    {
        if segments[i].is_point_inside(point) {
            return true;
        }
        i = i + 1;
    }
    false
}

/// Picks one of `items` at random: `SliceRandom::choose` of `rand`, drawing
/// from `rand::thread_rng()`. Believed of it: it returns nothing for an empty
/// list and otherwise one of the items of the list. Which one is not said.
/// The generator stops the program when the operating system gives it no
/// seed.
#[verifier::external_body]
fn choose_position(items: &Vec<Vector>) -> (r: Option<Vector>)
    ensures
        items@.len() == 0 ==> r is None,
        items@.len() > 0 ==> r is Some && items@.contains(r.unwrap()),
{
    items.choose(&mut rand::thread_rng()).copied()
}

/// The centers of the cells of a grid `width` cells wide and `height` cells
/// high that do not lie on `snake`, column after column.
pub fn free_positions(width: i32, height: i32, snake: &Vec<Vector>) -> (free: Vec<Vector>)
    ensures
        free@ == free_cells(width as int, height as int, snake@),
{
    let mut free_positions: Vec<Vector> = Vec::new();
    let segments = segments_of(snake);
    let ghost is_free = off_snake(snake@);
    proof {
        reveal(Seq::filter);
        assert(grid_centers(0, height as int).filter(is_free) =~= Seq::<Vector>::empty());
    }
    let mut x: i32 = 0;
    while x < width
        invariant
            0 <= x,
            x <= width || (width < 0 && x == 0),
            segments@ == pieces(snake@),
            is_free == off_snake(snake@),
            free_positions@ == grid_centers(x as int, height as int).filter(is_free),
        decreases width - x,
    {
        let ghost before = free_positions@;
        proof {
            assert(column_centers(x as int, 0).filter(is_free) =~= Seq::<Vector>::empty());
            assert(before + Seq::<Vector>::empty() =~= before);
        }
        let mut y: i32 = 0;
        while y < height
            invariant
                0 <= x < width,
                0 <= y,
                y <= height || (height < 0 && y == 0),
                segments@ == pieces(snake@),
                is_free == off_snake(snake@),
                before == grid_centers(x as int, height as int).filter(is_free),
                free_positions@ == before + column_centers(x as int, y as int).filter(is_free),
            decreases height - y,
        {
            let point = Vector::new(
                x as i64 * UNIT + HALF_UNIT,
                y as i64 * UNIT + HALF_UNIT,
            );
            assert(point == cell_center(x as int, y as int));
            let occupied = is_occupied(&segments, point);
            proof {
                reveal(Seq::filter);
                let column = column_centers(x as int, y as int);
                assert(column_centers(x as int, y + 1) == column.push(point));
                assert(column.push(point).drop_last() =~= column);
                assert(is_free(point) == !occupied);
                if !occupied {
                    assert(before + column.filter(is_free).push(point) =~= (before
                        + column.filter(is_free)).push(point));
                }
            }
            if !occupied {
                free_positions.push(point);
            }
            y = y + 1;
        }
        proof {
            assert(column_centers(x as int, height as int) == column_centers(x as int, y as int));
            assert(grid_centers(x + 1, height as int) == grid_centers(x as int, height as int)
                + column_centers(x as int, height as int));
            Seq::filter_distributes_over_add(
                grid_centers(x as int, height as int),
                column_centers(x as int, height as int),
                is_free,
            );
        }
        x = x + 1;
    }
    assert(grid_centers(width as int, height as int) == grid_centers(x as int, height as int));
    free_positions
}

/// Picks at random the center of a cell that does not lie on `snake`, each
/// such cell being one that can be picked. `BoardFull` when there is none.
pub fn generate_food_position(width: i32, height: i32, snake: &Vec<Vector>) -> (r: Result<
    Vector,
    GameError,
>)
    ensures
        r is Err <==> free_cells(width as int, height as int, snake@).len() == 0,
        r matches Err(e) ==> e == GameError::BoardFull,
        r matches Ok(p) ==> free_cells(width as int, height as int, snake@).contains(p),
        r matches Ok(p) ==> in_grid(width as int, height as int, p) && !on_snake(snake@, p),
{
    let free_positions = free_positions(width, height, snake);
    proof {
        assert forall|p: Vector| free_positions@.contains(p) implies in_grid(
            width as int,
            height as int,
            p,
        ) && !on_snake(snake@, p) by {
            lemma_free_cells(width as int, height as int, snake@, p);
        }
    }
    match choose_position(&free_positions) {
        Some(point) => Ok(point),
        None => Err(GameError::BoardFull),
    }
}

/// As `generate_food_position`, with the draw handed in: the free cell at the
/// place `choice` of `free_cells`, counted from 0 and round again past the
/// end. Every free cell is picked by some `choice`.
pub fn pick_food_position(width: i32, height: i32, snake: &Vec<Vector>, choice: usize) -> (r:
    Result<Vector, GameError>)
    ensures
        r is Err <==> free_cells(width as int, height as int, snake@).len() == 0,
        r matches Err(e) ==> e == GameError::BoardFull,
        r matches Ok(p) ==> ({
            let free = free_cells(width as int, height as int, snake@);
            &&& p == free[choice as int % free.len() as int]
            &&& in_grid(width as int, height as int, p)
            &&& !on_snake(snake@, p)
        }),
{
    let free_positions = free_positions(width, height, snake);
    if free_positions.len() == 0 {
        Err(GameError::BoardFull)
    } else {
        let point = free_positions[choice % free_positions.len()];
        proof {
            lemma_free_cells(width as int, height as int, snake@, point);
        }
        Ok(point)
    }
}

} // verus!
