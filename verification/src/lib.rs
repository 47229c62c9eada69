//! The simulation core of a snake game played inside a wraparound cube.
//!
//! All lengths are fixed-point integers and all times whole milliseconds, so
//! every rule of the game is exact arithmetic:
//!
//! - [`toroidal`]: remainders, vectors and distances in the wraparound cube;
//! - [`snake`]: the head, its recorded path, and the segments that replay it;
//! - [`food`]: the food, the collision pass, and regeneration;
//! - [`difficulty`]: how the food supply scales with the score;
//! - [`game`]: one tick of a run and the state of the game;
//! - [`score`]: what goes into the list of past scores and how it is shown;
//! - [`random`]: the one call into the random number generator.

pub mod difficulty;
pub mod food;
pub mod game;
pub mod random;
pub mod score;
pub mod snake;
pub mod toroidal;
