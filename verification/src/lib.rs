//! A snake that glides over a grid of cells instead of hopping from cell to cell.
//!
//! Every coordinate, distance, speed and time span is a fixed-point number: an
//! integer count of [`fixed::UNIT`]ths. The snake is a polyline of waypoints
//! whose pieces run along the grid axes, so that every length the motion engine
//! works with is exact.

pub mod error;
pub mod fixed;
pub mod vector;
pub mod segment;
pub mod movement;
pub mod path;
pub mod food;
pub mod motion;
pub mod game;

pub use error::GameError;
pub use game::Game;
pub use movement::Movement;
pub use segment::Segment;
pub use vector::Vector;
