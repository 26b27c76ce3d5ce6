//! The end-of-round transition.
use vstd::prelude::*;

use crate::components::{Direction, GameState};
use crate::simulation::{universe, SimulationState};
use crate::{CONSUMABLE_HEIGHT, CONSUMABLE_WIDTH};

verus! {

/// Handle for the end-of-round subsystem as a whole, for embeddings that
/// wire systems up under named plugins.
#[derive(Clone, Copy, PartialEq, Eq, Structural, Debug)]
pub struct GameOverPlugin;

/// What the round controller does once the round is over: the score is the
/// segment count, the high score is raised when beaten, the position pool is
/// rebuilt to the full grid, the cadence mark and the immunity timer are
/// cleared, the round entities are gone, and the phase moves to the score
/// screen, the only path back to a new round.
pub open spec fn game_over_rel(pre: SimulationState, post: SimulationState) -> bool {
    &&& post.phase is Highscore
    &&& post.lastscore == pre.segments@.len()
    &&& post.highscore == if pre.segments@.len() > pre.highscore {
        pre.segments@.len() as int
    } else {
        pre.highscore as int
    }
    &&& post.free_positions.cells() == universe()
    &&& post.free_positions@.len() == CONSUMABLE_WIDTH * CONSUMABLE_HEIGHT
    &&& post.last_special_spawn == 0
    &&& post.immunity_time == 0
    &&& post.segments@.len() == 0
    &&& post.consumables@.len() == 0
    &&& post.direction is Still
    &&& post.last_tail_position is None
    &&& post.paused == pre.paused
}

/// Ends the round: records the score, updates the high score, resets the
/// pool and the timers, clears the round entities and shows the score screen.
pub fn game_over(state: &mut SimulationState)
    requires
        old(state).well_formed(),
    ensures
        final(state).well_formed(),
        final(state).cadence_mark_ok(),
        game_over_rel(*old(state), *final(state)),
{
    state.lastscore = state.segments.len();
    if state.lastscore > state.highscore {
        state.highscore = state.lastscore;
    }
    state.free_positions.reset();
    state.last_special_spawn = 0;
    state.immunity_time = 0;
    state.segments = Vec::new();
    state.consumables = Vec::new();
    state.direction = Direction::Still;
    state.last_tail_position = None;
    state.phase = GameState::Highscore;
}

} // verus!
