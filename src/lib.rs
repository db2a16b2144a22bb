//! A snake game on a square board whose edges wrap around: the snake's moves, its growth on
//! reaching the reward, collisions and the game's status, each specified over a
//! mathematical model of the game and verified against it.
use vstd::prelude::*;

pub mod grid;
pub mod laws;
pub mod state;
pub mod world;

pub use grid::{step_from, Direction};
pub use state::{GameStatus, WorldState};
pub use world::{SnakeCell, World};

verus! {

} // verus!
