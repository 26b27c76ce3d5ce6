//! The per-tick stages: movement, collision resolution, spawning, growth,
//! the wandering antidote and the immunity countdown.
use vstd::prelude::*;

use crate::components::{Consumable, ConsumableKind, DiplopodPosition, Direction, Position};
use crate::events::{digit_text, spec_digit_text, Growth, ShowMessage, SpawnConsumables, TickEvents};
use crate::random::random_growth_amount;
use crate::seqs::lemma_swap_remove_contains;
use crate::resources::vec_contains;
use crate::{AMOUNT_OF_FOOD, AMOUNT_OF_POISON, CONSUMABLE_HEIGHT, CONSUMABLE_WIDTH, SPECIAL_SPAWN_INTERVAL};
use crate::simulation::{at_most_one_of, border_cells, consumable_cells, distinct_cells, is_wall,
    is_wall_cell, segment_cells, universe, SimulationState};

verus! {

/// What one movement step does: the head advances one fine cell in the
/// current direction, every other segment takes its predecessor's place, the
/// pre-move tail is recorded for growth, and a self-collision is reported.
/// With an empty creature or no direction yet, nothing happens.
pub open spec fn movement_rel(pre: SimulationState, post: SimulationState, game_over: bool) -> bool {
    if pre.direction is Still || pre.segments@.len() == 0 {
        &&& post == pre
        &&& !game_over
    } else {
        &&& post.segments@.len() == pre.segments@.len()
        &&& post.segments@[0].x == pre.segments@[0].x + pre.direction.spec_dx()
        &&& post.segments@[0].y == pre.segments@[0].y + pre.direction.spec_dy()
        &&& (forall|i: int|
            1 <= i < pre.segments@.len() ==> post.segments@[i] == pre.segments@[i - 1])
        &&& post.last_tail_position == Some(pre.segments@[pre.segments@.len() - 1])
        &&& (game_over <==> pre.segments@.contains(post.segments@[0]))
        &&& post == (SimulationState {
            segments: post.segments,
            last_tail_position: post.last_tail_position,
            ..pre
        })
    }
}

/// The head's single-cell step stays within machine integer range.
pub open spec fn step_fits(s: SimulationState) -> bool {
    s.direction is Still || s.segments@.len() == 0 || {
        &&& i32::MIN <= s.segments@[0].x + s.direction.spec_dx() <= i32::MAX
        &&& i32::MIN <= s.segments@[0].y + s.direction.spec_dy() <= i32::MAX
    }
}

/// Advances the creature one step: the head moves one fine cell in the
/// current direction and the body follows the leader.  Returns whether the
/// new head ran into one of the segments' pre-move positions; the movement
/// still completes on such a tick.
pub fn movement(state: &mut SimulationState) -> (game_over: bool)
    requires
        old(state).well_formed(),
        step_fits(*old(state)),
    ensures
        final(state).well_formed(),
        movement_rel(*old(state), *final(state), game_over),
{
    if matches!(state.direction, Direction::Still) || state.segments.len() == 0 {
        return false;
    }
    let len = state.segments.len();
    let head = state.segments[0];
    let new_head = DiplopodPosition { x: head.x + state.direction.dx(), y: head.y
        + state.direction.dy() };
    let mut moved: Vec<DiplopodPosition> = Vec::new();
    moved.push(new_head);
    let mut i: usize = 1;
    while i < len
        invariant
            len == state.segments@.len(),
            1 <= i <= len,
            moved@.len() == i,
            moved@[0] == new_head,
            forall|k: int| 1 <= k < i ==> moved@[k] == state.segments@[k - 1],
        decreases len - i,
    {
        let follower = state.segments[i - 1];
        moved.push(follower);
        i = i + 1;
    }
    let mut collided: bool = false;
    let mut k: usize = 0;
    while k < len
        invariant
            len == state.segments@.len(),
            k <= len,
            collided <==> exists|j: int| 0 <= j < k && state.segments@[j] == new_head,
        decreases len - k,
    {
        if state.segments[k] == new_head {
            collided = true;
        }
        k = k + 1;
    }
    let tail = state.segments[len - 1];
    state.segments = moved;
    state.last_tail_position = Some(tail);
    proof {
        assert(collided <==> old(state).segments@.contains(new_head));
        assert(state.well_formed()) by {
            if state.phase is Game {
                assert(state.game_invariant());
            }
        }
    }
    collided
}

/// Entries with pairwise distinct cells never repeat.
proof fn lemma_distinct_cells_no_duplicates(cs: Seq<Consumable>)
    requires
        distinct_cells(cs),
    ensures
        cs.no_duplicates(),
{
    assert forall|i: int, j: int| 0 <= i < j < cs.len() implies cs[i] != cs[j] by {
        assert(cs[i].pos != cs[j].pos);
    }
}

/// A duplicate-free selection from a registry keeps its cells distinct and
/// its per-kind bounds.
proof fn lemma_registry_subset(sub: Seq<Consumable>, sup: Seq<Consumable>)
    requires
        sub.no_duplicates(),
        distinct_cells(sup),
        forall|c: Consumable| sub.contains(c) ==> sup.contains(c),
    ensures
        distinct_cells(sub),
        forall|kind: ConsumableKind|
            #[trigger] at_most_one_of(sup, kind) ==> at_most_one_of(sub, kind),
{
    assert forall|i: int, j: int| 0 <= i < j < sub.len() implies sub[i].pos != sub[j].pos by {
        assert(sub.contains(sub[i]) && sub.contains(sub[j]));
        let a = choose|a: int| 0 <= a < sup.len() && sup[a] == sub[i];
        let b = choose|b: int| 0 <= b < sup.len() && sup[b] == sub[j];
        assert(sub[i] != sub[j]);
        if a < b {
            assert(sup[a].pos != sup[b].pos);
        } else {
            assert(sup[b].pos != sup[a].pos);
        }
    }
    assert forall|kind: ConsumableKind| #[trigger]
        at_most_one_of(sup, kind) implies at_most_one_of(sub, kind) by {
        assert forall|i: int, j: int|
            0 <= i < j < sub.len() implies !((#[trigger] sub[i]).kind == kind && (#[trigger]
        sub[j]).kind == kind) by {
            if sub[i].kind == kind && sub[j].kind == kind {
                assert(sub.contains(sub[i]) && sub.contains(sub[j]));
                let a = choose|a: int| 0 <= a < sup.len() && sup[a] == sub[i];
                let b = choose|b: int| 0 <= b < sup.len() && sup[b] == sub[j];
                assert(sub[i] != sub[j]);
                if a < b {
                    assert(!(sup[a].kind == kind && sup[b].kind == kind));
                } else {
                    assert(!(sup[b].kind == kind && sup[a].kind == kind));
                }
            }
        }
    }
}

/// The first consumable of this kind at this cell, if any.
fn find_consumable(consumables: &Vec<Consumable>, kind: ConsumableKind, pos: &Position) -> (found:
    Option<usize>)
    ensures
        match found {
            Some(i) => i < consumables@.len() && consumables@[i as int] == (Consumable {
                kind,
                pos: *pos,
            }),
            None => !consumables@.contains(Consumable { kind, pos: *pos }),
        },
{
    let target = Consumable { kind, pos: *pos };
    let n = consumables.len();
    let mut i: usize = 0;
    while i < n
        invariant
            n == consumables@.len(),
            i <= n,
            target == (Consumable { kind, pos: *pos }),
            forall|k: int| 0 <= k < i ==> consumables@[k] != target,
        decreases n - i,
    {
        let c = consumables[i];
        if c == target {
            return Some(i);
        }
        i = i + 1;
    }
    None
}

/// The consumable at index `i` was despawned and its cell handed back to the
/// position pool.
pub open spec fn despawned_entry(pre: SimulationState, post: SimulationState, c: Consumable) -> bool {
    &&& pre.consumables@.contains(c)
    &&& post.consumables@.len() == pre.consumables@.len() - 1
    &&& (forall|d: Consumable|
        post.consumables@.contains(d) <==> (pre.consumables@.contains(d) && d != c))
    &&& post.free_positions.cells() == pre.free_positions.cells().insert(c.pos)
}

/// Despawns the consumable at index `i` and releases its cell.
fn despawn_index(state: &mut SimulationState, i: usize) -> (c: Consumable)
    requires
        old(state).well_formed(),
        old(state).phase is Game,
        i < old(state).consumables@.len(),
    ensures
        final(state).well_formed(),
        c == old(state).consumables@[i as int],
        despawned_entry(*old(state), *final(state), c),
        *final(state) == (SimulationState {
            consumables: final(state).consumables,
            free_positions: final(state).free_positions,
            ..*old(state)
        }),
{
    proof {
        lemma_distinct_cells_no_duplicates(state.consumables@);
    }
    let c = state.consumables.swap_remove(i);
    proof {
        lemma_swap_remove_contains(old(state).consumables@, i as int);
        lemma_registry_subset(state.consumables@, old(state).consumables@);
        assert(consumable_cells(old(state).consumables@).contains(c.pos));
    }
    state.free_positions.release(c.pos);
    proof {
        let pre = *old(state);
        assert forall|p: Position| #[trigger]
            consumable_cells(state.consumables@).contains(p) <==> (consumable_cells(
            pre.consumables@).contains(p) && p != c.pos) by {
            if consumable_cells(state.consumables@).contains(p) {
                let k = choose|k: int|
                    0 <= k < state.consumables@.len() && (#[trigger] state.consumables@[k]).pos
                        == p;
                let d = state.consumables@[k];
                assert(state.consumables@.contains(d));
                assert(pre.consumables@.contains(d) && d != c);
                if p == c.pos {
                    // d and c are distinct entries on one cell, which
                    // distinct_cells rules out
                    let a = choose|a: int| 0 <= a < pre.consumables@.len() && pre.consumables@[a] == d;
                    assert(a != i);
                    if a < i {
                        assert(pre.consumables@[a].pos != pre.consumables@[i as int].pos);
                    } else {
                        assert(pre.consumables@[i as int].pos != pre.consumables@[a].pos);
                    }
                    assert(false);
                }
            }
            if consumable_cells(pre.consumables@).contains(p) && p != c.pos {
                let k = choose|k: int|
                    0 <= k < pre.consumables@.len() && (#[trigger] pre.consumables@[k]).pos == p;
                let d = pre.consumables@[k];
                assert(pre.consumables@.contains(d));
                assert(d != c);
                assert(state.consumables@.contains(d));
                let b = choose|b: int|
                    0 <= b < state.consumables@.len() && state.consumables@[b] == d;
                assert((#[trigger] state.consumables@[b]).pos == p);
            }
        }
        assert(state.well_formed()) by {
            assert(state.game_invariant()) by {
                let pool = state.free_positions.cells();
                let cons = consumable_cells(state.consumables@);
                assert(pool.union(border_cells()).union(cons) =~= universe());
                if state.direction is Still {
                    assert(!cons.contains(state.head_cell()));
                }
            }
        }
    }
    c
}

/// What collision resolution does, checked in the fixed order food, super
/// food, antidote, poison, wall.  At most one consumable can sit at the
/// head's coarse cell, so at most one effect applies per tick:
/// - food: despawned, cell released, growth 1, one replacement food requested;
/// - super food: despawned, cell released, a random growth in [2, 10) awarded,
///   announced as a message at the head, and a special spawn requested;
/// - antidote: despawned, cell released, ten immune ticks added;
/// - poison with immunity: despawned, cell released, growth 1;
/// - poison without immunity: the round ends and the poison remains;
/// - wall: the round ends.
pub open spec fn eat_rel(pre: SimulationState, post: SimulationState, ev: TickEvents) -> bool {
    if pre.segments@.len() == 0 {
        &&& post == pre
        &&& ev.is_empty()
    } else {
        let h = pre.head_cell();
        let cons = pre.consumables@;
        if cons.contains(Consumable { kind: ConsumableKind::Food, pos: h }) {
            &&& despawned_entry(pre, post, Consumable { kind: ConsumableKind::Food, pos: h })
            &&& ev.growth == Some(Growth(1))
            &&& ev.spawn == Some(SpawnConsumables { regular: true, new_segments: 1 })
            &&& ev.message is None
            &&& ev.game_over is None
            &&& post == (SimulationState {
                consumables: post.consumables,
                free_positions: post.free_positions,
                ..pre
            })
        } else if cons.contains(Consumable { kind: ConsumableKind::SuperFood, pos: h }) {
            &&& despawned_entry(pre, post, Consumable { kind: ConsumableKind::SuperFood, pos: h })
            &&& (exists|g: u8|
                #![auto]
                {
                    &&& 2 <= g < 10
                    &&& ev.growth == Some(Growth(g))
                    &&& ev.spawn == Some(SpawnConsumables { regular: false, new_segments: g })
                    &&& (ev.message matches Some(m) && m.position == pre.segments@[0] && m.text@
                        == spec_digit_text(g as int))
                })
            &&& ev.game_over is None
            &&& post == (SimulationState {
                consumables: post.consumables,
                free_positions: post.free_positions,
                ..pre
            })
        } else if cons.contains(Consumable { kind: ConsumableKind::AntiDote, pos: h }) {
            &&& despawned_entry(pre, post, Consumable { kind: ConsumableKind::AntiDote, pos: h })
            &&& post.immunity_time == if pre.immunity_time + 10 <= u8::MAX {
                pre.immunity_time + 10
            } else {
                u8::MAX as int
            }
            &&& ev.growth is None
            &&& ev.spawn is None
            &&& ev.message is None
            &&& ev.game_over is None
            &&& post == (SimulationState {
                consumables: post.consumables,
                free_positions: post.free_positions,
                immunity_time: post.immunity_time,
                ..pre
            })
        } else if cons.contains(Consumable { kind: ConsumableKind::Poison, pos: h }) {
            if pre.immunity_time > 0 {
                &&& despawned_entry(pre, post, Consumable { kind: ConsumableKind::Poison, pos: h })
                &&& ev.growth == Some(Growth(1))
                &&& ev.spawn is None
                &&& ev.message is None
                &&& ev.game_over is None
                &&& post == (SimulationState {
                    consumables: post.consumables,
                    free_positions: post.free_positions,
                    ..pre
                })
            } else {
                &&& post == pre
                &&& ev.game_over is Some
                &&& ev.growth is None
                &&& ev.spawn is None
                &&& ev.message is None
            }
        } else if is_wall(h) {
            &&& post == pre
            &&& ev.game_over is Some
            &&& ev.growth is None
            &&& ev.spawn is None
            &&& ev.message is None
        } else {
            &&& post == pre
            &&& ev.is_empty()
        }
    }
}

/// Checks the creature's head against consumables and walls and applies the
/// effects of whatever it reached this tick.
pub fn eat(state: &mut SimulationState) -> (events: TickEvents)
    requires
        old(state).well_formed(),
        old(state).phase is Game,
    ensures
        final(state).well_formed(),
        eat_rel(*old(state), *final(state), events),
{
    if state.segments.len() == 0 {
        return TickEvents::none();
    }
    let head = state.segments[0];
    let h = head.to_position();
    if let Some(i) = find_consumable(&state.consumables, ConsumableKind::Food, &h) {
        despawn_index(state, i);
        TickEvents {
            game_over: None,
            growth: Some(Growth(1)),
            spawn: Some(SpawnConsumables { regular: true, new_segments: 1 }),
            message: None,
        }
    } else if let Some(i) = find_consumable(&state.consumables, ConsumableKind::SuperFood, &h) {
        despawn_index(state, i);
        let g = random_growth_amount();
        let events = TickEvents {
            game_over: None,
            growth: Some(Growth(g)),
            spawn: Some(SpawnConsumables { regular: false, new_segments: g }),
            message: Some(ShowMessage { text: digit_text(g), position: head }),
        };
        proof {
            assert(eat_rel(*old(state), *state, events));
        }
        events
    } else if let Some(i) = find_consumable(&state.consumables, ConsumableKind::AntiDote, &h) {
        despawn_index(state, i);
        state.immunity_time = if state.immunity_time > u8::MAX - 10 {
            u8::MAX
        } else {
            state.immunity_time + 10
        };
        TickEvents { game_over: None, growth: None, spawn: None, message: None }
    } else if let Some(i) = find_consumable(&state.consumables, ConsumableKind::Poison, &h) {
        if state.immunity_time > 0 {
            despawn_index(state, i);
            TickEvents { game_over: None, growth: Some(Growth(1)), spawn: None, message: None }
        } else {
            TickEvents { game_over: Some(crate::events::GameOver), growth: None, spawn: None, message: None }
        }
    } else if is_wall_cell(&h) {
        TickEvents { game_over: Some(crate::events::GameOver), growth: None, spawn: None, message: None }
    } else {
        TickEvents::none()
    }
}

/// The coarse projection of each segment, in order.
pub fn coarse_segments(segments: &Vec<DiplopodPosition>) -> (cells: Vec<Position>)
    ensures
        cells@.len() == segments@.len(),
        forall|i: int|
            0 <= i < segments@.len() ==> cells@[i] == (#[trigger] segments@[i]).spec_to_position(),
        forall|p: Position| cells@.contains(p) <==> segment_cells(segments@).contains(p),
{
    let n = segments.len();
    let mut cells: Vec<Position> = Vec::new();
    let mut i: usize = 0;
    while i < n
        invariant
            n == segments@.len(),
            i <= n,
            cells@.len() == i,
            forall|k: int|
                0 <= k < i ==> cells@[k] == (#[trigger] segments@[k]).spec_to_position(),
        decreases n - i,
    {
        let c = segments[i].to_position();
        cells.push(c);
        i = i + 1;
    }
    proof {
        assert forall|p: Position|
            cells@.contains(p) <==> segment_cells(segments@).contains(p) by {
            if cells@.contains(p) {
                let k = choose|k: int| 0 <= k < cells@.len() && cells@[k] == p;
                assert(segments@[k].spec_to_position() == p);
            }
            if segment_cells(segments@).contains(p) {
                let k = choose|k: int|
                    0 <= k < segments@.len() && (#[trigger] segments@[k]).spec_to_position() == p;
                assert(cells@[k] == p);
            }
        }
    }
    cells
}

/// No free cell is left off the creature's own cells: a spawn request must be
/// skipped.
pub open spec fn pool_exhausted_for(s: SimulationState) -> bool {
    s.free_positions.cells().subset_of(segment_cells(s.segments@))
}

/// A consumable of this kind appeared at `p`: the cell was free, off the
/// creature, and moved from the pool to the registry.
pub open spec fn spawned_at(
    pre: SimulationState,
    post: SimulationState,
    kind: ConsumableKind,
    p: Position,
) -> bool {
    &&& pre.free_positions.cells().contains(p)
    &&& !segment_cells(pre.segments@).contains(p)
    &&& post.free_positions.cells() == pre.free_positions.cells().remove(p)
    &&& post.free_positions@.len() == pre.free_positions@.len() - 1
    &&& post.consumables@ == pre.consumables@.push(Consumable { kind, pos: p })
    &&& !pre.consumables@.contains(Consumable { kind, pos: p })
    &&& (forall|c: Consumable|
        post.consumables@.contains(c) <==> (pre.consumables@.contains(c) || c == Consumable {
            kind,
            pos: p,
        }))
    &&& post == (SimulationState {
        consumables: post.consumables,
        free_positions: post.free_positions,
        ..pre
    })
}

/// Places one consumable of this kind on a random free cell that is not
/// under the creature; returns the cell, or `None` when no candidate exists.
fn spawn_one(state: &mut SimulationState, kind: ConsumableKind) -> (placed: Option<Position>)
    requires
        old(state).well_formed(),
        old(state).phase is Game,
        (kind is SuperFood || kind is AntiDote) ==> (forall|c: Consumable|
            old(state).consumables@.contains(c) ==> c.kind != kind),
    ensures
        final(state).well_formed(),
        match placed {
            Some(p) => spawned_at(*old(state), *final(state), kind, p),
            None => *final(state) == *old(state) && pool_exhausted_for(*old(state)),
        },
{
    let excluded = coarse_segments(&state.segments);
    let mut cand = state.free_positions.candidates(&excluded);
    match cand.draw() {
        None => {
            proof {
                assert forall|p: Position| #[trigger]
                    state.free_positions.cells().contains(p) implies segment_cells(
                    state.segments@).contains(p) by {
                    assert(!cand.cells().contains(p));
                }
            }
            None
        },
        Some(p) => {
            state.free_positions.remove(&p);
            let entry = Consumable { kind, pos: p };
            state.consumables.push(entry);
            proof {
                let pre = *old(state);
                assert(!consumable_cells(pre.consumables@).contains(p));
                assert(!pre.consumables@.contains(entry)) by {
                    if pre.consumables@.contains(entry) {
                        let k = choose|k: int|
                            0 <= k < pre.consumables@.len() && pre.consumables@[k] == entry;
                        assert((#[trigger] pre.consumables@[k]).pos == p);
                    }
                }
                assert forall|c: Consumable|
                    state.consumables@.contains(c) <==> (pre.consumables@.contains(c) || c
                        == entry) by {
                    crate::seqs::lemma_push_contains(pre.consumables@, entry, c);
                }
                assert forall|q: Position| #[trigger]
                    consumable_cells(state.consumables@).contains(q) <==> (consumable_cells(
                    pre.consumables@).contains(q) || q == p) by {
                    if consumable_cells(state.consumables@).contains(q) {
                        let k = choose|k: int|
                            0 <= k < state.consumables@.len() && (#[trigger] state.consumables@[k]).pos
                                == q;
                        if k < pre.consumables@.len() {
                            assert((#[trigger] pre.consumables@[k]).pos == q);
                        }
                    }
                    if consumable_cells(pre.consumables@).contains(q) {
                        let k = choose|k: int|
                            0 <= k < pre.consumables@.len() && (#[trigger] pre.consumables@[k]).pos
                                == q;
                        assert((#[trigger] state.consumables@[k]).pos == q);
                    }
                    if q == p {
                        assert((#[trigger] state.consumables@[pre.consumables@.len() as int]).pos
                            == q);
                    }
                }
                assert(state.game_invariant()) by {
                    let pool = state.free_positions.cells();
                    let cons = consumable_cells(state.consumables@);
                    assert(pool.union(border_cells()).union(cons) =~= universe());
                    assert(distinct_cells(state.consumables@)) by {
                        assert forall|i: int, j: int|
                            0 <= i < j < state.consumables@.len() implies state.consumables@[i].pos
                            != state.consumables@[j].pos by {
                            if j == pre.consumables@.len() {
                                assert(consumable_cells(pre.consumables@).contains(
                                    pre.consumables@[i].pos));
                            }
                        }
                    }
                    assert(at_most_one_of(state.consumables@, ConsumableKind::SuperFood)) by {
                        assert forall|i: int, j: int|
                            0 <= i < j < state.consumables@.len() implies !((#[trigger]
                        state.consumables@[i]).kind is SuperFood && (#[trigger]
                        state.consumables@[j]).kind is SuperFood) by {
                            if j == pre.consumables@.len() && state.consumables@[i].kind
                                is SuperFood && state.consumables@[j].kind is SuperFood {
                                assert(pre.consumables@.contains(pre.consumables@[i]));
                            }
                        }
                    }
                    assert(at_most_one_of(state.consumables@, ConsumableKind::AntiDote)) by {
                        assert forall|i: int, j: int|
                            0 <= i < j < state.consumables@.len() implies !((#[trigger]
                        state.consumables@[i]).kind is AntiDote && (#[trigger]
                        state.consumables@[j]).kind is AntiDote) by {
                            if j == pre.consumables@.len() && state.consumables@[i].kind
                                is AntiDote && state.consumables@[j].kind is AntiDote {
                                assert(pre.consumables@.contains(pre.consumables@[i]));
                            }
                        }
                    }
                    if state.direction is Still {
                        assert(segment_cells(state.segments@).contains(state.head_cell()));
                    }
                }
            }
            Some(p)
        },
    }
}

/// Handles a regular spawn request: places one replacement food on a random
/// free cell that is not under the creature.
pub fn spawn_food(state: &mut SimulationState) -> (placed: Option<Position>)
    requires
        old(state).well_formed(),
        old(state).phase is Game,
    ensures
        final(state).well_formed(),
        match placed {
            Some(p) => spawned_at(*old(state), *final(state), ConsumableKind::Food, p),
            None => *final(state) == *old(state) && pool_exhausted_for(*old(state)),
        },
{
    spawn_one(state, ConsumableKind::Food)
}

/// The first consumable of this kind, if any.
fn find_kind(consumables: &Vec<Consumable>, kind: ConsumableKind) -> (found: Option<usize>)
    ensures
        match found {
            Some(i) => i < consumables@.len() && consumables@[i as int].kind == kind,
            None => forall|c: Consumable| consumables@.contains(c) ==> c.kind != kind,
        },
{
    let n = consumables.len();
    let mut i: usize = 0;
    while i < n
        invariant
            n == consumables@.len(),
            i <= n,
            forall|k: int| 0 <= k < i ==> (#[trigger] consumables@[k]).kind != kind,
        decreases n - i,
    {
        let c = consumables[i];
        if c.kind == kind {
            return Some(i);
        }
        i = i + 1;
    }
    proof {
        assert forall|c: Consumable| consumables@.contains(c) implies c.kind != kind by {
            let k = choose|k: int| 0 <= k < consumables@.len() && consumables@[k] == c;
            assert((#[trigger] consumables@[k]).kind != kind);
        }
    }
    None
}

/// Despawns the one live consumable of this kind, if any, releasing its cell.
fn despawn_kind(state: &mut SimulationState, kind: ConsumableKind) -> (released: Option<Position>)
    requires
        old(state).well_formed(),
        old(state).phase is Game,
        kind is SuperFood || kind is AntiDote,
    ensures
        final(state).well_formed(),
        forall|c: Consumable| final(state).consumables@.contains(c) ==> c.kind != kind,
        match released {
            Some(p) => despawned_entry(*old(state), *final(state), Consumable { kind, pos: p })
                && *final(state) == (SimulationState {
                consumables: final(state).consumables,
                free_positions: final(state).free_positions,
                ..*old(state)
            }),
            None => *final(state) == *old(state) && (forall|c: Consumable|
                old(state).consumables@.contains(c) ==> c.kind != kind),
        },
{
    match find_kind(&state.consumables, kind) {
        None => None,
        Some(i) => {
            let ghost pre = *old(state);
            let c = despawn_index(state, i);
            proof {
                assert(pre.consumables@.contains(pre.consumables@[i as int]));
                assert forall|d: Consumable|
                    final(state).consumables@.contains(d) implies d.kind != kind by {
                    if d.kind == kind {
                        assert(pre.consumables@.contains(d) && d != c);
                        let a = choose|a: int| 0 <= a < pre.consumables@.len() && pre.consumables@[a] == d;
                        if a < i {
                            assert(!((#[trigger] pre.consumables@[a]).kind == kind && (#[trigger]
                            pre.consumables@[i as int]).kind == kind));
                        } else {
                            assert(!((#[trigger] pre.consumables@[i as int]).kind == kind
                                && (#[trigger] pre.consumables@[a]).kind == kind));
                        }
                    }
                }
            }
            Some(c.pos)
        },
    }
}

/// Places up to `amount` consumables of this kind, each on a random free cell
/// off the creature; stops early when the pool has no candidate left.
pub fn spawn_random_consumables(
    state: &mut SimulationState,
    kind: ConsumableKind,
    amount: u32,
) -> (placed: u32)
    requires
        old(state).well_formed(),
        old(state).phase is Game,
        kind is Food || kind is Poison,
    ensures
        final(state).well_formed(),
        placed <= amount,
        final(state).consumables@.len() == old(state).consumables@.len() + placed,
        forall|c: Consumable|
            old(state).consumables@.contains(c) ==> final(state).consumables@.contains(c),
        forall|c: Consumable|
            final(state).consumables@.contains(c) && !old(state).consumables@.contains(c) ==> c.kind
                == kind && old(state).free_positions.cells().contains(c.pos) && !segment_cells(
            old(state).segments@).contains(c.pos),
        final(state).free_positions.cells() == old(state).free_positions.cells().difference(
            consumable_cells(final(state).consumables@),
        ),
        placed < amount ==> pool_exhausted_for(*final(state)),
        final(state).free_positions@.len() == old(state).free_positions@.len() - placed,
        *final(state) == (SimulationState {
            consumables: final(state).consumables,
            free_positions: final(state).free_positions,
            ..*old(state)
        }),
{
    let mut placed: u32 = 0;
    proof {
        assert(state.free_positions.cells() =~= old(state).free_positions.cells().difference(
            consumable_cells(state.consumables@),
        ));
    }
    while placed < amount
        invariant
            state.well_formed(),
            state.phase is Game,
            placed <= amount,
            kind is Food || kind is Poison,
            state.consumables@.len() == old(state).consumables@.len() + placed,
            forall|c: Consumable|
                old(state).consumables@.contains(c) ==> state.consumables@.contains(c),
            forall|c: Consumable|
                state.consumables@.contains(c) && !old(state).consumables@.contains(c) ==> c.kind
                    == kind && old(state).free_positions.cells().contains(c.pos) && !segment_cells(
                old(state).segments@).contains(c.pos),
            state.free_positions.cells() == old(state).free_positions.cells().difference(
                consumable_cells(state.consumables@),
            ),
            state.free_positions@.len() == old(state).free_positions@.len() - placed,
            *state == (SimulationState {
                consumables: state.consumables,
                free_positions: state.free_positions,
                ..*old(state)
            }),
        decreases amount - placed,
    {
        let ghost mid = *state;
        match spawn_one(state, kind) {
            None => {
                return placed;
            },
            Some(p) => {
                proof {
                    assert forall|c: Consumable|
                        state.consumables@.contains(c) && !old(state).consumables@.contains(c)
                            implies c.kind == kind && old(state).free_positions.cells().contains(
                        c.pos) && !segment_cells(old(state).segments@).contains(c.pos) by {
                        crate::seqs::lemma_push_contains(mid.consumables@, Consumable { kind, pos: p }, c);
                        if !mid.consumables@.contains(c) {
                            assert(c == Consumable { kind, pos: p });
                            assert(mid.free_positions.cells().contains(p));
                        }
                    }
                    assert forall|c: Consumable|
                        old(state).consumables@.contains(c) implies state.consumables@.contains(
                        c) by {
                        crate::seqs::lemma_push_contains(mid.consumables@, Consumable { kind, pos: p }, c);
                    }
                    assert(state.free_positions.cells() =~= old(
                        state,
                    ).free_positions.cells().difference(consumable_cells(state.consumables@))) by {
                        assert forall|q: Position| #[trigger]
                            consumable_cells(state.consumables@).contains(q) <==> (consumable_cells(
                            mid.consumables@).contains(q) || q == p) by {
                            if consumable_cells(state.consumables@).contains(q) {
                                let k = choose|k: int|
                                    0 <= k < state.consumables@.len() && (#[trigger]
                                state.consumables@[k]).pos == q;
                                if k < mid.consumables@.len() {
                                    assert((#[trigger] mid.consumables@[k]).pos == q);
                                }
                            }
                            if consumable_cells(mid.consumables@).contains(q) {
                                let k = choose|k: int|
                                    0 <= k < mid.consumables@.len() && (#[trigger]
                                mid.consumables@[k]).pos == q;
                                assert((#[trigger] state.consumables@[k]).pos == q);
                            }
                            if q == p {
                                assert((#[trigger] state.consumables@[mid.consumables@.len() as int]).pos
                                    == q);
                            }
                        }
                    }
                }
                placed = placed + 1;
            },
        }
    }
    placed
}

/// Exactly one consumable of this kind is live, and it sits at `p`.
pub open spec fn only_kind_at(cs: Seq<Consumable>, kind: ConsumableKind, p: Position) -> bool {
    forall|c: Consumable|
        c.kind == kind ==> (cs.contains(c) <==> c == Consumable { kind, pos: p })
}

/// What the spawn scheduler does with one request.  A regular request places
/// one replacement food.  Then, with `new_size` the creature's prospective
/// size (current segments plus the growth just awarded), the special cadence
/// fires when `new_size` exceeds the last spawn mark by more than
/// `SPECIAL_SPAWN_INTERVAL`: the mark moves to the highest interval multiple
/// not above `new_size`, the super food respawns at a fresh cell, and on
/// every second mark the antidote respawns too.  Spawns are skipped when no
/// free cell off the creature is left.
pub open spec fn spawn_rel(
    pre: SimulationState,
    post: SimulationState,
    req: SpawnConsumables,
) -> bool {
    let new_size = pre.segments@.len() + req.new_segments;
    let fired = new_size - pre.last_special_spawn > SPECIAL_SPAWN_INTERVAL;
    let mark = (new_size / (SPECIAL_SPAWN_INTERVAL as int)) * (SPECIAL_SPAWN_INTERVAL as int);
    &&& post.last_special_spawn == if fired {
        mark
    } else {
        pre.last_special_spawn as int
    }
    &&& post.last_special_spawn <= new_size
    &&& (!req.regular && !fired ==> post == pre)
    // food and poison are never taken away by the scheduler:
    &&& (forall|c: Consumable|
        pre.consumables@.contains(c) && (c.kind is Food || c.kind is Poison)
            ==> post.consumables@.contains(c))
    // a regular request places exactly one new food, unless the pool held
    // no candidate:
    &&& (req.regular ==> ((exists|p: Position|
        #![auto]
        !pre.consumables@.contains(Consumable { kind: ConsumableKind::Food, pos: p })
            && (forall|c: Consumable|
            c.kind is Food ==> (post.consumables@.contains(c) <==> (pre.consumables@.contains(c)
                || c == Consumable { kind: ConsumableKind::Food, pos: p })))) || (
    pool_exhausted_for(pre) && (forall|c: Consumable|
        c.kind is Food ==> (post.consumables@.contains(c) <==> pre.consumables@.contains(c))))))
    &&& (!req.regular ==> (forall|c: Consumable|
        c.kind is Food ==> (post.consumables@.contains(c) <==> pre.consumables@.contains(c))))
    // without the cadence firing, specials are untouched:
    &&& (!fired ==> (forall|c: Consumable|
        !(c.kind is Food) ==> (post.consumables@.contains(c) <==> pre.consumables@.contains(c))))
    // when it fires the super food respawns: exactly one fresh super food is
    // live afterwards, or none when no free cell was left:
    &&& (fired ==> ((exists|p: Position|
        #[trigger] only_kind_at(post.consumables@, ConsumableKind::SuperFood, p)) || (
    pool_exhausted_for(post) && (forall|c: Consumable|
        c.kind is SuperFood ==> !post.consumables@.contains(c)))))
    // on every second mark the antidote respawns the same way:
    &&& (fired && mark % (2 * SPECIAL_SPAWN_INTERVAL as int) == 0 ==> ((exists|q: Position|
        #[trigger] only_kind_at(post.consumables@, ConsumableKind::AntiDote, q)) || (
    pool_exhausted_for(post) && (forall|c: Consumable|
        c.kind is AntiDote ==> !post.consumables@.contains(c)))))
    // on other marks the antidote is left alone:
    &&& (fired && mark % (2 * SPECIAL_SPAWN_INTERVAL as int) != 0 ==> (forall|c: Consumable|
        c.kind is AntiDote ==> (post.consumables@.contains(c) <==> pre.consumables@.contains(c))))
    // nothing is ever placed under the creature:
    &&& (forall|c: Consumable|
        post.consumables@.contains(c) && !pre.consumables@.contains(c) ==> !segment_cells(
        pre.segments@).contains(c.pos))
    &&& post == (SimulationState {
        consumables: post.consumables,
        free_positions: post.free_positions,
        last_special_spawn: post.last_special_spawn,
        ..pre
    })
}

/// Consumes one spawn request: places the regular replacement food and runs
/// the special-consumable cadence.
pub fn spawn_consumables(state: &mut SimulationState, event: &SpawnConsumables)
    requires
        old(state).well_formed(),
        old(state).phase is Game,
        old(state).segments@.len() + event.new_segments <= u32::MAX,
        old(state).last_special_spawn <= old(state).segments@.len() + event.new_segments,
    ensures
        final(state).well_formed(),
        spawn_rel(*old(state), *final(state), *event),
{
    let ghost pre = *old(state);
    let mut new_food: Option<Position> = None;
    if event.regular {
        new_food = spawn_food(state);
    }
    let ghost s_reg = *state;
    proof {
        assert forall|c: Consumable| #[trigger]
            s_reg.consumables@.contains(c) <==> (pre.consumables@.contains(c) || (
            new_food matches Some(p) && c == Consumable { kind: ConsumableKind::Food, pos: p })) by {}
    }
    let new_size: u32 = (state.segments.len() as u32) + (event.new_segments as u32);
    if new_size - state.last_special_spawn > SPECIAL_SPAWN_INTERVAL {
        let mark: u32 = (new_size / SPECIAL_SPAWN_INTERVAL) * SPECIAL_SPAWN_INTERVAL;
        proof {
            assert(mark <= new_size && new_size - mark < SPECIAL_SPAWN_INTERVAL) by (nonlinear_arith)
                requires
                    mark == (new_size / SPECIAL_SPAWN_INTERVAL) * SPECIAL_SPAWN_INTERVAL,
                    SPECIAL_SPAWN_INTERVAL == 16u32,
            ;
        }
        state.last_special_spawn = mark;
        let ghost s_mark = *state;
        let sf_removed = despawn_kind(state, ConsumableKind::SuperFood);
        let ghost s_nosf = *state;
        proof {
            assert forall|c: Consumable| #[trigger]
                s_nosf.consumables@.contains(c) <==> (s_reg.consumables@.contains(c) && (
                sf_removed matches Some(p) ==> c != Consumable {
                    kind: ConsumableKind::SuperFood,
                    pos: p,
                })) by {}
        }
        let do_antidote = mark % (SPECIAL_SPAWN_INTERVAL * 2) == 0;
        let mut ad_removed: Option<Position> = None;
        let mut ad_placed: Option<Position> = None;
        if do_antidote {
            ad_removed = despawn_kind(state, ConsumableKind::AntiDote);
            proof {
                assert forall|c: Consumable|
                    s_nosf.consumables@.contains(c) && (ad_removed matches Some(p) ==> c
                        != Consumable { kind: ConsumableKind::AntiDote, pos: p }) implies c.kind
                    != ConsumableKind::AntiDote by {
                    assert(state.consumables@.contains(c));
                }
            }
            ad_placed = spawn_one(state, ConsumableKind::AntiDote);
        }
        let ghost s_spec = *state;
        proof {
            assert forall|c: Consumable| #[trigger]
                s_spec.consumables@.contains(c) <==> ((s_nosf.consumables@.contains(c) && (
                ad_removed matches Some(p) ==> c != Consumable {
                    kind: ConsumableKind::AntiDote,
                    pos: p,
                })) || (ad_placed matches Some(p) && c == Consumable {
                    kind: ConsumableKind::AntiDote,
                    pos: p,
                })) by {}
            assert forall|c: Consumable|
                s_spec.consumables@.contains(c) implies c.kind != ConsumableKind::SuperFood by {}
            assert(!do_antidote ==> s_spec == s_nosf);
        }
        let sf_placed = spawn_one(state, ConsumableKind::SuperFood);
        proof {
            let post = *state;
            assert forall|c: Consumable| #[trigger]
                post.consumables@.contains(c) <==> (s_spec.consumables@.contains(c) || (
                sf_placed matches Some(p) && c == Consumable {
                    kind: ConsumableKind::SuperFood,
                    pos: p,
                })) by {}
            // exhaustion propagates: draws only shrink the pool, and the
            // segments never change within the scheduler
            if ad_placed is None && do_antidote {
                assert(pool_exhausted_for(s_spec));
                assert(sf_placed is None);
            }
            if sf_placed is None {
                assert(post == s_spec);
            }
            let new_size_spec = pre.segments@.len() + event.new_segments;
            assert(new_size == new_size_spec);
            assert(spawn_rel(pre, post, *event)) by {
                let fired = new_size_spec - pre.last_special_spawn > SPECIAL_SPAWN_INTERVAL;
                assert(fired);
                assert(post.last_special_spawn == (new_size_spec / (
                SPECIAL_SPAWN_INTERVAL as int)) * (SPECIAL_SPAWN_INTERVAL as int));
                // food and poison stay
                assert forall|c: Consumable|
                    pre.consumables@.contains(c) && (c.kind is Food || c.kind is Poison) implies
                    post.consumables@.contains(c) by {
                    assert(s_reg.consumables@.contains(c));
                    assert(s_nosf.consumables@.contains(c));
                    assert(s_spec.consumables@.contains(c));
                }
                // a regular request changes the food stock by exactly the
                // one new entry
                if event.regular {
                    if new_food is Some {
                        let p = new_food->Some_0;
                        let fresh = Consumable { kind: ConsumableKind::Food, pos: p };
                        assert(!pre.consumables@.contains(fresh));
                        assert forall|c: Consumable|
                            c.kind is Food implies (post.consumables@.contains(c) <==> (
                        pre.consumables@.contains(c) || c == fresh)) by {
                            assert(s_reg.consumables@.contains(c) <==> (pre.consumables@.contains(
                                c) || c == fresh));
                            assert(s_nosf.consumables@.contains(c)
                                <==> s_reg.consumables@.contains(c));
                            assert(s_spec.consumables@.contains(c)
                                <==> s_nosf.consumables@.contains(c));
                            assert(post.consumables@.contains(c)
                                <==> s_spec.consumables@.contains(c));
                        }
                    } else {
                        assert(pool_exhausted_for(pre));
                        assert forall|c: Consumable|
                            c.kind is Food implies (post.consumables@.contains(c)
                                <==> pre.consumables@.contains(c)) by {
                            assert(s_reg.consumables@.contains(c)
                                <==> pre.consumables@.contains(c));
                            assert(s_nosf.consumables@.contains(c)
                                <==> s_reg.consumables@.contains(c));
                            assert(s_spec.consumables@.contains(c)
                                <==> s_nosf.consumables@.contains(c));
                        }
                    }
                }
                // without a regular request no food changes
                if !event.regular {
                    assert forall|c: Consumable|
                        c.kind is Food implies (post.consumables@.contains(c)
                            <==> pre.consumables@.contains(c)) by {
                        assert(s_reg.consumables@.contains(c) <==> pre.consumables@.contains(c));
                        assert(s_nosf.consumables@.contains(c) <==> s_reg.consumables@.contains(c));
                        assert(s_spec.consumables@.contains(c) <==> s_nosf.consumables@.contains(c));
                    }
                }
                // the super food outcome: exactly the fresh one, or none
                if sf_placed is Some {
                    let p = sf_placed->Some_0;
                    assert(only_kind_at(post.consumables@, ConsumableKind::SuperFood, p)) by {
                        assert forall|c: Consumable|
                            c.kind == ConsumableKind::SuperFood implies (post.consumables@.contains(
                        c) <==> c == Consumable { kind: ConsumableKind::SuperFood, pos: p }) by {
                            if post.consumables@.contains(c) && c != (Consumable {
                                kind: ConsumableKind::SuperFood,
                                pos: p,
                            }) {
                                assert(s_spec.consumables@.contains(c));
                            }
                            if c == (Consumable { kind: ConsumableKind::SuperFood, pos: p }) {
                                assert(post.consumables@.contains(c));
                            }
                        }
                    }
                } else {
                    assert(pool_exhausted_for(post));
                    assert forall|c: Consumable|
                        c.kind is SuperFood implies !post.consumables@.contains(c) by {
                        if post.consumables@.contains(c) {
                            assert(s_spec.consumables@.contains(c));
                        }
                    }
                }
                // the antidote outcome on a doubled mark: exactly the
                // fresh one, or none
                if do_antidote {
                    if ad_placed is Some {
                        let q = ad_placed->Some_0;
                        let fresh = Consumable { kind: ConsumableKind::AntiDote, pos: q };
                        assert(only_kind_at(post.consumables@, ConsumableKind::AntiDote, q)) by {
                            assert forall|c: Consumable|
                                c.kind == ConsumableKind::AntiDote implies (
                            post.consumables@.contains(c) <==> c == fresh) by {
                                if post.consumables@.contains(c) && c != fresh {
                                    assert(s_spec.consumables@.contains(c));
                                    assert(s_nosf.consumables@.contains(c) && (
                                    ad_removed matches Some(p) ==> c != Consumable {
                                        kind: ConsumableKind::AntiDote,
                                        pos: p,
                                    }));
                                }
                                if c == fresh {
                                    assert(s_spec.consumables@.contains(c));
                                    assert(post.consumables@.contains(c));
                                }
                            }
                        }
                    } else {
                        assert(pool_exhausted_for(post));
                        assert forall|c: Consumable|
                            c.kind is AntiDote implies !post.consumables@.contains(c) by {
                            if post.consumables@.contains(c) {
                                assert(s_spec.consumables@.contains(c));
                                assert(s_nosf.consumables@.contains(c) && (
                                ad_removed matches Some(p) ==> c != Consumable {
                                    kind: ConsumableKind::AntiDote,
                                    pos: p,
                                }));
                            }
                        }
                    }
                } else {
                    assert forall|c: Consumable|
                        c.kind is AntiDote implies (post.consumables@.contains(c)
                            <==> pre.consumables@.contains(c)) by {
                        assert(s_reg.consumables@.contains(c) <==> pre.consumables@.contains(c));
                        assert(s_nosf.consumables@.contains(c) <==> s_reg.consumables@.contains(c));
                        assert(s_spec.consumables@.contains(c) <==> s_nosf.consumables@.contains(c));
                    }
                }
                // nothing new under the creature
                assert forall|c: Consumable|
                    post.consumables@.contains(c) && !pre.consumables@.contains(c) implies
                    !segment_cells(pre.segments@).contains(c.pos) by {
                    assert(s_spec.segments@ == pre.segments@ && s_nosf.segments@ == pre.segments@
                        && s_reg.segments@ == pre.segments@);
                }
            }
        }
    } else {
        proof {
            let post = *state;
            let new_size_spec = pre.segments@.len() + event.new_segments;
            assert(new_size == new_size_spec);
            assert(spawn_rel(pre, post, *event)) by {
                let fired = new_size_spec - pre.last_special_spawn > SPECIAL_SPAWN_INTERVAL;
                assert(!fired);
                if event.regular {
                    if new_food is Some {
                        let p = new_food->Some_0;
                        let fresh = Consumable { kind: ConsumableKind::Food, pos: p };
                        assert(!pre.consumables@.contains(fresh));
                        assert forall|c: Consumable|
                            c.kind is Food implies (post.consumables@.contains(c) <==> (
                        pre.consumables@.contains(c) || c == fresh)) by {
                            assert(s_reg.consumables@.contains(c) <==> (pre.consumables@.contains(
                                c) || c == fresh));
                        }
                    } else {
                        assert(pool_exhausted_for(pre));
                    }
                }
            }
        }
    }
}
/// What applying a growth award does: the new segments appear at the tail
/// position recorded before this tick's shift.  Without a recorded tail (no
/// movement has happened yet) the award is dropped.
pub open spec fn growth_rel(pre: SimulationState, post: SimulationState, event: Growth) -> bool {
    match pre.last_tail_position {
        None => post == pre,
        Some(t) => {
            &&& post.segments@ == pre.segments@ + Seq::new(event.0 as nat, |i: int| t)
            &&& post == (SimulationState { segments: post.segments, ..pre })
        },
    }
}

/// Appends the awarded segments at the recorded pre-move tail position.
pub fn growth(state: &mut SimulationState, event: &Growth)
    requires
        old(state).well_formed(),
        old(state).phase is Game,
    ensures
        final(state).well_formed(),
        growth_rel(*old(state), *final(state), *event),
{
    let t = match state.last_tail_position {
        None => {
            return ;
        },
        Some(t) => t,
    };
    let amount = event.0;
    let mut added: u8 = 0;
    while added < amount
        invariant
            old(state).well_formed(),
            old(state).phase is Game,
            old(state).last_tail_position == Some(t),
            added <= amount,
            state.segments@ == old(state).segments@ + Seq::new(added as nat, |i: int| t),
            *state == (SimulationState { segments: state.segments, ..*old(state) }),
        decreases amount - added,
    {
        let ghost before = state.segments@;
        state.segments.push(t);
        proof {
            assert(state.segments@ =~= old(state).segments@ + Seq::new((added + 1) as nat, |i: int| t));
        }
        added = added + 1;
    }
    proof {
        assert(state.well_formed()) by {
            assert(state.game_invariant()) by {
                assert(state.segments@[0] == old(state).segments@[0]);
                assert(state.segments@.len() >= 1);
            }
        }
    }
}

/// What the wandering antidote does on its slower cadence: if one is live,
/// it tries a single random one-cell step; the step is taken only when the
/// target lies strictly inside the walls, is not under the creature, and is
/// free, so the spatial partition is kept intact.
pub open spec fn move_antidote_rel(pre: SimulationState, post: SimulationState) -> bool {
    ||| post == pre
    ||| (exists|a: Position, b: Position|
        #![auto]
        {
            &&& pre.consumables@.contains(Consumable { kind: ConsumableKind::AntiDote, pos: a })
            &&& ((b.y == a.y && (b.x == a.x + 1 || b.x == a.x - 1)) || (b.x == a.x && (b.y == a.y
                + 1 || b.y == a.y - 1)))
            &&& 1 <= b.x < CONSUMABLE_WIDTH
            &&& 1 <= b.y < CONSUMABLE_HEIGHT
            &&& !segment_cells(pre.segments@).contains(b)
            &&& pre.free_positions.cells().contains(b)
            &&& (forall|c: Consumable|
                post.consumables@.contains(c) <==> ((pre.consumables@.contains(c) && c
                    != Consumable { kind: ConsumableKind::AntiDote, pos: a }) || c == Consumable {
                    kind: ConsumableKind::AntiDote,
                    pos: b,
                }))
            &&& post.free_positions.cells() == pre.free_positions.cells().remove(b).insert(a)
            &&& post == (SimulationState {
                consumables: post.consumables,
                free_positions: post.free_positions,
                ..pre
            })
        })
}

/// Lets a live antidote wander one random cell, never through walls, the
/// creature, or an occupied cell.
pub fn move_antidote(state: &mut SimulationState)
    requires
        old(state).well_formed(),
        old(state).phase is Game,
    ensures
        final(state).well_formed(),
        move_antidote_rel(*old(state), *final(state)),
{
    let i = match find_kind(&state.consumables, ConsumableKind::AntiDote) {
        None => {
            return ;
        },
        Some(i) => i,
    };
    let a = state.consumables[i].pos;
    proof {
        assert(consumable_cells(state.consumables@).contains(a));
        assert(universe().contains(a));
    }
    let r = crate::random::random_index(4);
    let b = if r == 0 {
        Position { x: a.x - 1, y: a.y }
    } else if r == 1 {
        Position { x: a.x + 1, y: a.y }
    } else if r == 2 {
        Position { x: a.x, y: a.y - 1 }
    } else {
        Position { x: a.x, y: a.y + 1 }
    };
    if b.x < 1 || b.x >= CONSUMABLE_WIDTH || b.y < 1 || b.y >= CONSUMABLE_HEIGHT {
        return ;
    }
    let excluded = coarse_segments(&state.segments);
    if vec_contains(&excluded, &b) {
        return ;
    }
    if !state.free_positions.contains_pos(&b) {
        return ;
    }
    let ghost pre = *old(state);
    let entry = state.consumables.swap_remove(i);
    proof {
        lemma_distinct_cells_no_duplicates(pre.consumables@);
        lemma_swap_remove_contains(pre.consumables@, i as int);
    }
    state.free_positions.remove(&b);
    state.free_positions.release(a);
    let ghost mid = *state;
    let moved = Consumable { kind: ConsumableKind::AntiDote, pos: b };
    proof {
        assert(!mid.consumables@.contains(moved)) by {
            if mid.consumables@.contains(moved) {
                assert(pre.consumables@.contains(moved));
                let k = choose|k: int|
                    0 <= k < pre.consumables@.len() && pre.consumables@[k] == moved;
                assert(consumable_cells(pre.consumables@).contains(b));
            }
        }
    }
    state.consumables.push(moved);
    proof {
        assert forall|c: Consumable|
            state.consumables@.contains(c) <==> ((pre.consumables@.contains(c) && c != entry) || c
                == moved) by {
            crate::seqs::lemma_push_contains(mid.consumables@, moved, c);
        }
        assert(state.free_positions.cells() =~= pre.free_positions.cells().remove(b).insert(a));
        assert forall|q: Position| #[trigger]
            consumable_cells(state.consumables@).contains(q) <==> ((consumable_cells(
            pre.consumables@).contains(q) && q != a) || q == b) by {
            if consumable_cells(state.consumables@).contains(q) {
                let k = choose|k: int|
                    0 <= k < state.consumables@.len() && (#[trigger] state.consumables@[k]).pos
                        == q;
                let d = state.consumables@[k];
                assert(state.consumables@.contains(d));
                if d != moved {
                    assert(pre.consumables@.contains(d) && d != entry);
                    if q == a {
                        let m = choose|m: int|
                            0 <= m < pre.consumables@.len() && pre.consumables@[m] == d;
                        assert(pre.consumables@[m].pos == pre.consumables@[i as int].pos);
                        assert(false);
                    }
                }
            }
            if consumable_cells(pre.consumables@).contains(q) && q != a {
                let k = choose|k: int|
                    0 <= k < pre.consumables@.len() && (#[trigger] pre.consumables@[k]).pos == q;
                let d = pre.consumables@[k];
                assert(pre.consumables@.contains(d));
                assert(d != entry);
                assert(state.consumables@.contains(d));
                let m = choose|m: int| 0 <= m < state.consumables@.len() && state.consumables@[m] == d;
                assert((#[trigger] state.consumables@[m]).pos == q);
            }
            if q == b {
                assert(state.consumables@.contains(moved));
                let m = choose|m: int| 0 <= m < state.consumables@.len() && state.consumables@[m] == moved;
                assert((#[trigger] state.consumables@[m]).pos == q);
            }
        }
        assert(state.well_formed()) by {
            assert(state.game_invariant()) by {
                let pool = state.free_positions.cells();
                let cons = consumable_cells(state.consumables@);
                assert(universe().contains(b));
                assert(pool.union(border_cells()).union(cons) =~= universe());
                assert(distinct_cells(state.consumables@)) by {
                    assert forall|x: int, y: int|
                        0 <= x < y < state.consumables@.len() implies state.consumables@[x].pos
                        != state.consumables@[y].pos by {
                        let cx = state.consumables@[x];
                        let cy = state.consumables@[y];
                        assert(state.consumables@.contains(cx) && state.consumables@.contains(cy));
                        if cx.pos == cy.pos && cx != cy {
                            assert(consumable_cells(state.consumables@).contains(cx.pos));
                            if cx != moved && cy != moved {
                                let m1 = choose|m: int|
                                    0 <= m < pre.consumables@.len() && pre.consumables@[m] == cx;
                                let m2 = choose|m: int|
                                    0 <= m < pre.consumables@.len() && pre.consumables@[m] == cy;
                                assert(false);
                            } else {
                                assert(consumable_cells(pre.consumables@).contains(b));
                                assert(false);
                            }
                        } else if cx.pos == cy.pos {
                            let t = state.consumables@;
                            assert(t.no_duplicates()) by {
                                crate::seqs::lemma_push_no_duplicates(mid.consumables@, moved);
                            }
                        }
                    }
                }
                assert(at_most_one_of(state.consumables@, ConsumableKind::SuperFood)) by {
                    lemma_at_most_chain(pre.consumables@, mid.consumables@, state.consumables@, entry, moved, ConsumableKind::SuperFood);
                }
                assert(at_most_one_of(state.consumables@, ConsumableKind::AntiDote)) by {
                    lemma_at_most_chain(pre.consumables@, mid.consumables@, state.consumables@, entry, moved, ConsumableKind::AntiDote);
                }
                if state.direction is Still {
                    assert(segment_cells(state.segments@).contains(state.head_cell()));
                    assert(!consumable_cells(state.consumables@).contains(state.head_cell()));
                }
            }
        }
        assert(move_antidote_rel(pre, *state)) by {
            assert(pre.consumables@.contains(entry));
        }
    }
}

/// The moved registry keeps at most one consumable of each special kind.
proof fn lemma_at_most_chain(
    pre: Seq<Consumable>,
    mid: Seq<Consumable>,
    post: Seq<Consumable>,
    removed: Consumable,
    added: Consumable,
    kind: ConsumableKind,
)
    requires
        pre.no_duplicates(),
        at_most_one_of(pre, kind),
        removed.kind == added.kind,
        pre.contains(removed),
        forall|c: Consumable| mid.contains(c) <==> (pre.contains(c) && c != removed),
        mid.no_duplicates(),
        !mid.contains(added),
        post == mid.push(added),
    ensures
        at_most_one_of(post, kind),
{
    assert forall|x: int, y: int|
        0 <= x < y < post.len() implies !((#[trigger] post[x]).kind == kind && (#[trigger]
    post[y]).kind == kind) by {
        if post[x].kind == kind && post[y].kind == kind {
            if y == mid.len() {
                // post[y] is the added entry; post[x] is an entry of mid
                assert(post[x] == mid[x]);
                assert(mid.contains(mid[x]));
                assert(pre.contains(post[x]) && post[x] != removed);
                if added.kind == kind {
                    let m1 = choose|m: int| 0 <= m < pre.len() && pre[m] == post[x];
                    let m2 = choose|m: int| 0 <= m < pre.len() && pre[m] == removed;
                    assert(pre[m1].kind == kind && pre[m2].kind == kind);
                    assert(m1 != m2);
                    if m1 < m2 {
                        assert(!(pre[m1].kind == kind && pre[m2].kind == kind));
                    } else {
                        assert(!(pre[m2].kind == kind && pre[m1].kind == kind));
                    }
                }
            } else {
                assert(post[x] == mid[x] && post[y] == mid[y]);
                assert(mid.contains(mid[x]) && mid.contains(mid[y]));
                assert(pre.contains(post[x]) && pre.contains(post[y]));
                assert(mid.no_duplicates());
                assert(post[x] != post[y]);
                let m1 = choose|m: int| 0 <= m < pre.len() && pre[m] == post[x];
                let m2 = choose|m: int| 0 <= m < pre.len() && pre[m] == post[y];
                assert(m1 != m2);
                if m1 < m2 {
                    assert(!(pre[m1].kind == kind && pre[m2].kind == kind));
                } else {
                    assert(!(pre[m2].kind == kind && pre[m1].kind == kind));
                }
            }
        }
    }
}

/// Counts down one immune tick; never goes below zero.
pub fn limit_immunity(state: &mut SimulationState)
    requires
        old(state).well_formed(),
    ensures
        final(state).well_formed(),
        final(state).immunity_time == if old(state).immunity_time > 0 {
            old(state).immunity_time - 1
        } else {
            0int
        },
        *final(state) == (SimulationState {
            immunity_time: final(state).immunity_time,
            ..*old(state)
        }),
{
    if state.immunity_time > 0 {
        state.immunity_time = state.immunity_time - 1;
    }
}

/// Places the initial stock of food for a fresh round.
pub fn init_food(state: &mut SimulationState) -> (placed: u32)
    requires
        old(state).well_formed(),
        old(state).phase is Game,
    ensures
        final(state).well_formed(),
        placed <= AMOUNT_OF_FOOD,
        final(state).consumables@.len() == old(state).consumables@.len() + placed,
        forall|c: Consumable|
            old(state).consumables@.contains(c) ==> final(state).consumables@.contains(c),
        forall|c: Consumable|
            final(state).consumables@.contains(c) && !old(state).consumables@.contains(c)
                ==> c.kind is Food && old(state).free_positions.cells().contains(c.pos)
                && !segment_cells(old(state).segments@).contains(c.pos),
        final(state).free_positions.cells() == old(state).free_positions.cells().difference(
            consumable_cells(final(state).consumables@),
        ),
        placed < AMOUNT_OF_FOOD ==> pool_exhausted_for(*final(state)),
        final(state).free_positions@.len() == old(state).free_positions@.len() - placed,
        *final(state) == (SimulationState {
            consumables: final(state).consumables,
            free_positions: final(state).free_positions,
            ..*old(state)
        }),
{
    spawn_random_consumables(state, ConsumableKind::Food, AMOUNT_OF_FOOD)
}

/// Places the initial stock of poison for a fresh round.
pub fn init_poison(state: &mut SimulationState) -> (placed: u32)
    requires
        old(state).well_formed(),
        old(state).phase is Game,
    ensures
        final(state).well_formed(),
        placed <= AMOUNT_OF_POISON,
        final(state).consumables@.len() == old(state).consumables@.len() + placed,
        forall|c: Consumable|
            old(state).consumables@.contains(c) ==> final(state).consumables@.contains(c),
        forall|c: Consumable|
            final(state).consumables@.contains(c) && !old(state).consumables@.contains(c)
                ==> c.kind is Poison && old(state).free_positions.cells().contains(c.pos)
                && !segment_cells(old(state).segments@).contains(c.pos),
        final(state).free_positions.cells() == old(state).free_positions.cells().difference(
            consumable_cells(final(state).consumables@),
        ),
        placed < AMOUNT_OF_POISON ==> pool_exhausted_for(*final(state)),
        final(state).free_positions@.len() == old(state).free_positions@.len() - placed,
        *final(state) == (SimulationState {
            consumables: final(state).consumables,
            free_positions: final(state).free_positions,
            ..*old(state)
        }),
{
    spawn_random_consumables(state, ConsumableKind::Poison, AMOUNT_OF_POISON)
}

} // verus!
