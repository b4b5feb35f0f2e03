//! The movement-and-collision core of a grid-based snake game.
//!
//! The grid's origin is its top left cell; `x` grows to the right and `y`
//! grows downwards. A [`Snake`] is advanced once per tick and reports whether
//! that step was fatal. A [`Game`] adds the rules of a round around it: the
//! queue of pending key presses, the apple and the score.

pub mod xy;
pub mod snake;
pub mod game;

pub use xy::{Direction, XY};
pub use snake::{Snake, SnakeView};
pub use game::{DeathScreenResult, Game, GameView, Key, Tick};
