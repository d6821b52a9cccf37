//! Simulation core of a two-world gravity-flip puzzle platformer: tile grids,
//! the player's kinematics and collision response, and the per-tick world rules.
//!
//! All lengths are integers in sub-pixel units (see `geometry::UNITS_PER_PIXEL`),
//! so that every tick is exact and deterministic.
use vstd::prelude::*;

pub mod geometry;
pub mod tile;
pub mod tilemap;
pub mod player;
pub mod world;

verus! {

} // verus!
