//! Finding a way through the world and walking it, one tick at a time.

pub mod astar;
pub mod basic;
pub mod costs;
pub mod executor;
pub mod goals;
pub mod moves;
