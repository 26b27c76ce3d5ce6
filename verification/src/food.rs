//! Names under which an embedding layer wires the food subsystem.
//!
//! Inside the core, food lives in the consumable registry tagged
//! `ConsumableKind::Food`; these zero-sized types give an entity- or
//! plugin-based embedding stable names to attach its own food entities,
//! events and systems to.
use vstd::prelude::*;

verus! {

/// Marker for a live food entity in an embedding entity store.
#[derive(Clone, Copy, PartialEq, Eq, Structural, Debug)]
pub struct Food;

/// A bare request to place one replacement food, for embeddings that carry
/// the regular spawn request as an event of its own.
#[derive(Clone, Copy, PartialEq, Eq, Structural, Debug)]
pub struct SpawnFood;

/// Handle for the food subsystem as a whole.
#[derive(Clone, Copy, PartialEq, Eq, Structural, Debug)]
pub struct FoodPlugin;

} // verus!
