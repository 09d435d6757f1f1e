//! A verified tic-tac-toe engine: board rules plus a brute-force negamax
//! search with configurable depth limits and randomized tie-breaking and
//! blunders.

pub mod game;
pub mod rng;
pub mod search;

pub use game::Cell;
pub use game::Seat;
