//! Decision-support engine for a turn-based grid-combat game.
//!
//! The library models a square board with a diamond-shaped playable arena,
//! layered unit occupancy, a rule engine that validates build and deploy
//! actions, and a path predictor that reproduces the game engine's
//! deterministic movement rule.

pub mod bounds;
pub mod coords;
pub mod grid;
pub mod map;
pub mod messages;
pub mod parse;
pub mod pathfinding;
pub mod tiles;
pub mod units;
