//! Authoritative state engine for a hex-grid, turn-based tactical combat
//! simulation: a spatial occupancy grid, a unit roster, a speed-ordered turn
//! queue, an action-resolution pipeline, and an append-only history with
//! round snapshots for deterministic replay.

pub mod delta;
pub mod direction;
pub mod position;
pub mod path;
pub mod terrain;
pub mod shapes;
pub mod unit;
pub mod turn;
pub mod grid;
pub mod combat;
pub mod game;
