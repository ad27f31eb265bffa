//! Procedural dungeon generation and turn-phase scheduling for a grid roguelike.
use vstd::prelude::*;

pub mod components;
pub mod distance;
pub mod geometry;
pub mod map;
pub mod map_builder;
pub mod rng;
pub mod system;
pub mod turn_state;

verus! {

/// Width of the tile grid.
pub const SCREEN_WIDTH: i32 = 80;

/// Height of the tile grid.
pub const SCREEN_HEIGHT: i32 = 50;

/// Number of tiles in the grid: width times height.
pub const NUM_TILES: usize = 4000;

} // verus!
