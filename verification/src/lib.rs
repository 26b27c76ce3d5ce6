//! Deterministic simulation core of a grid-based growing-creature arcade game.
//!
//! A multi-segment creature moves on a fine grid; consumables and walls live
//! on a coarse grid (one coarse cell covers a 2x2 block of fine cells).  The
//! library tracks the pool of unoccupied coarse cells, advances the creature
//! one step per tick, resolves collisions with consumables and walls, spawns
//! new consumables on a growth cadence, and handles the end-of-round
//! transition.  Rendering, input polling and timing are left to the caller.
use vstd::prelude::*;

pub mod components;
pub mod control;
pub mod events;
pub mod food;
pub mod gameover;
pub mod laws;
pub mod random;
pub mod resources;
pub mod seqs;
pub mod simulation;

verus! {

/// Width of the coarse grid in cells; consumable x coordinates lie in
/// `[0, CONSUMABLE_WIDTH]`, the column at `CONSUMABLE_WIDTH` being wall.
pub const CONSUMABLE_WIDTH: i32 = 22;

/// Height of the coarse grid in cells.
pub const CONSUMABLE_HEIGHT: i32 = 22;

/// Width of the fine grid the creature moves on: two fine cells per coarse cell.
pub const ARENA_WIDTH: i32 = CONSUMABLE_WIDTH * 2;

/// Height of the fine grid the creature moves on.
pub const ARENA_HEIGHT: i32 = CONSUMABLE_HEIGHT * 2;

/// Number of food items placed when a round starts.
pub const AMOUNT_OF_FOOD: u32 = 16;

/// Number of poison items placed when a round starts.
pub const AMOUNT_OF_POISON: u32 = 17;

/// Growth cadence: special consumables respawn whenever the creature's
/// prospective size exceeds the last spawn mark by more than this interval.
pub const SPECIAL_SPAWN_INTERVAL: u32 = 16;

} // verus!
