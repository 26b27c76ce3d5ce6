//! The general laws of the simulation, stated and proved over the same
//! relations the executable stages are specified with.
use vstd::prelude::*;

use crate::components::Position;
use crate::control::{eat_rel, growth_rel, movement_rel};
use crate::events::{Growth, TickEvents};
use crate::simulation::{border_cells, consumable_cells, spawn_stage, universe, SimulationState};

verus! {

/// The pool of free cells and the occupied cells (walls and consumables)
/// partition the grid: while a round runs they are disjoint, and together
/// they cover every cell.
pub proof fn lemma_pool_partition(s: SimulationState)
    requires
        s.well_formed(),
        s.phase is Game,
    ensures
        s.free_positions.cells().intersect(
            border_cells().union(consumable_cells(s.consumables@)),
        ) == Set::<Position>::empty(),
        s.free_positions.cells().union(border_cells().union(consumable_cells(s.consumables@)))
            == universe(),
{
    assert(s.free_positions.cells().intersect(
        border_cells().union(consumable_cells(s.consumables@)),
    ) =~= Set::<Position>::empty());
    assert(s.free_positions.cells().union(border_cells().union(consumable_cells(s.consumables@)))
        =~= universe());
}

/// While a round runs the creature always has at least one segment.
pub proof fn lemma_segments_nonempty(s: SimulationState)
    requires
        s.well_formed(),
        s.phase is Game,
    ensures
        s.segments@.len() >= 1,
{
}

/// Moving right for `n` consecutive ticks, with nothing stopping the round,
/// advances the head exactly `n` fine cells in x and leaves y unchanged.
pub proof fn lemma_straight_run(states: Seq<SimulationState>, collisions: Seq<bool>, n: int)
    requires
        0 <= n,
        states.len() == n + 1,
        collisions.len() == n,
        states[0].direction is Right,
        states[0].segments@.len() >= 1,
        forall|i: int| 0 <= i < n ==> movement_rel(#[trigger] states[i], states[i + 1], collisions[i]),
    ensures
        states[n].direction is Right,
        states[n].segments@.len() == states[0].segments@.len(),
        states[n].segments@[0].x == states[0].segments@[0].x + n,
        states[n].segments@[0].y == states[0].segments@[0].y,
    decreases n,
{
    if n > 0 {
        let shorter = states.drop_last();
        let fewer = collisions.drop_last();
        assert forall|i: int|
            0 <= i < n - 1 implies movement_rel(#[trigger] shorter[i], shorter[i + 1], fewer[i]) by {
            assert(movement_rel(states[i], states[i + 1], collisions[i]));
        }
        lemma_straight_run(shorter, fewer, n - 1);
        assert(shorter[n - 1] == states[n - 1]);
        assert(movement_rel(states[n - 1], states[n], collisions[n - 1]));
    }
}

/// A growth award is applied at the tail position the movement stage
/// recorded before this very tick's shift: every appended segment sits on
/// the creature's pre-move tail cell.
pub proof fn lemma_growth_placement(
    s0: SimulationState,
    s1: SimulationState,
    s2: SimulationState,
    s3: SimulationState,
    s4: SimulationState,
    collided: bool,
    eaten: TickEvents,
    g: Growth,
)
    requires
        !(s0.direction is Still),
        s0.segments@.len() >= 1,
        movement_rel(s0, s1, collided),
        eat_rel(s1, s2, eaten),
        spawn_stage(s2, s3, eaten),
        eaten.growth == Some(g),
        growth_rel(s3, s4, g),
    ensures
        s4.segments@.len() == s3.segments@.len() + g.0,
        forall|i: int|
            s3.segments@.len() <= i < s4.segments@.len() ==> s4.segments@[i] == s0.segments@[
                s0.segments@.len() - 1],
{
    assert(s1.last_tail_position == Some(s0.segments@[s0.segments@.len() - 1]));
    assert(s2.last_tail_position == s1.last_tail_position);
    assert(s3.last_tail_position == s2.last_tail_position);
    let t = s0.segments@[s0.segments@.len() - 1];
    assert(s4.segments@ == s3.segments@ + Seq::new(g.0 as nat, |i: int| t));
    assert forall|i: int|
        s3.segments@.len() <= i < s4.segments@.len() implies s4.segments@[i] == t by {
        assert(s4.segments@[i] == Seq::new(g.0 as nat, |k: int| t)[i - s3.segments@.len()]);
    }
}

} // verus!
