//! The whole simulation state and the per-tick pipeline around it.
use vstd::prelude::*;

use crate::components::{Consumable, ConsumableKind, DiplopodPosition, Direction, GameState,
    Position};
use crate::control::{eat, eat_rel, growth, growth_rel, init_food, init_poison, movement,
    movement_rel, spawn_consumables, spawn_rel, step_fits};
use crate::events::{GameOver, TickEvents};
use crate::gameover::{game_over, game_over_rel};
use crate::resources::{all_cells, FreePositions};
use crate::seqs::lemma_push_contains;
use crate::{AMOUNT_OF_FOOD, AMOUNT_OF_POISON, CONSUMABLE_HEIGHT, CONSUMABLE_WIDTH};

verus! {

/// The cells the position pool ranges over: `[0, width) x [0, height)` on the
/// coarse grid.
pub open spec fn universe() -> Set<Position> {
    all_cells(CONSUMABLE_WIDTH as int, CONSUMABLE_HEIGHT as int)
}

/// Is this coarse cell part of the wall ring around the arena?
pub open spec fn is_wall(p: Position) -> bool {
    &&& 0 <= p.x <= CONSUMABLE_WIDTH
    &&& 0 <= p.y <= CONSUMABLE_HEIGHT
    &&& (p.x == 0 || p.x == CONSUMABLE_WIDTH || p.y == 0 || p.y == CONSUMABLE_HEIGHT)
}

/// Does this coarse cell lie on the wall ring?
pub fn is_wall_cell(p: &Position) -> (wall: bool)
    ensures
        wall == is_wall(*p),
{
    0 <= p.x && p.x <= CONSUMABLE_WIDTH && 0 <= p.y && p.y <= CONSUMABLE_HEIGHT && (p.x == 0 || p.x
        == CONSUMABLE_WIDTH || p.y == 0 || p.y == CONSUMABLE_HEIGHT)
}

/// The wall cells that lie inside the pool's universe.
pub open spec fn border_cells() -> Set<Position> {
    Set::new(|p: Position| is_wall(p) && universe().contains(p))
}

/// The coarse cells occupied by live consumables.
pub open spec fn consumable_cells(cs: Seq<Consumable>) -> Set<Position> {
    Set::new(|p: Position| exists|i: int| 0 <= i < cs.len() && (#[trigger] cs[i]).pos == p)
}

/// No two live consumables share a coarse cell.
pub open spec fn distinct_cells(cs: Seq<Consumable>) -> bool {
    forall|i: int, j: int| 0 <= i < j < cs.len() ==> cs[i].pos != cs[j].pos
}

/// At most one live consumable of the given kind.
pub open spec fn at_most_one_of(cs: Seq<Consumable>, kind: ConsumableKind) -> bool {
    forall|i: int, j: int|
        0 <= i < j < cs.len() ==> !((#[trigger] cs[i]).kind == kind && (#[trigger] cs[j]).kind
            == kind)
}

/// The coarse cells covered by the creature's segments.
pub open spec fn segment_cells(segments: Seq<DiplopodPosition>) -> Set<Position> {
    Set::new(
        |p: Position|
            exists|i: int|
                0 <= i < segments.len() && (#[trigger] segments[i]).spec_to_position() == p,
    )
}

/// All mutable state of the simulation core, threaded through the tick
/// pipeline by reference; there are no ambient globals.
pub struct SimulationState {
    /// The round phase external menu and score screens read.
    pub phase: GameState,
    /// The pool of unoccupied coarse cells.
    pub free_positions: FreePositions,
    /// The creature's segments, head first; non-empty while a round runs.
    pub segments: Vec<DiplopodPosition>,
    /// Current movement direction.
    pub direction: Direction,
    /// The live consumables.
    pub consumables: Vec<Consumable>,
    /// Remaining immune ticks; poison is survivable while positive.
    pub immunity_time: u8,
    /// The growth mark the special-spawn cadence last fired at.
    pub last_special_spawn: u32,
    /// The pre-move tail position of the current tick: where growth inserts.
    pub last_tail_position: Option<DiplopodPosition>,
    /// Best score of this session.
    pub highscore: usize,
    /// Score of the last finished round.
    pub lastscore: usize,
    /// While set, no tick stage runs.
    pub paused: bool,
}

impl SimulationState {
    /// The coarse cell under the creature's head.
    pub open spec fn head_cell(self) -> Position {
        self.segments@[0].spec_to_position()
    }

    /// The free pool and the occupied cells partition the universe: no cell
    /// is both free and occupied, and none is neither.
    pub open spec fn pool_partition(self) -> bool {
        let pool = self.free_positions.cells();
        let cons = consumable_cells(self.consumables@);
        &&& pool.disjoint(border_cells())
        &&& pool.disjoint(cons)
        &&& cons.disjoint(border_cells())
        &&& cons.subset_of(universe())
        &&& pool.union(border_cells()).union(cons) == universe()
    }

    /// What holds of every reachable state while a round is running.
    pub open spec fn game_invariant(self) -> bool {
        &&& self.segments@.len() >= 1
        &&& self.pool_partition()
        &&& distinct_cells(self.consumables@)
        &&& at_most_one_of(self.consumables@, ConsumableKind::SuperFood)
        &&& at_most_one_of(self.consumables@, ConsumableKind::AntiDote)
        &&& (self.direction is Still ==> !consumable_cells(self.consumables@).contains(
            self.head_cell()) && !is_wall(self.head_cell()))
    }

    /// The special-spawn mark never exceeds the creature's size.  This holds
    /// at every tick boundary; within a tick the scheduler may set the mark
    /// up to the size the pending growth is about to reach.
    pub open spec fn cadence_mark_ok(self) -> bool {
        self.last_special_spawn <= self.segments@.len()
    }

    /// Well-formedness of the whole state.
    pub open spec fn well_formed(self) -> bool {
        &&& self.free_positions.inv()
        &&& self.free_positions.width == CONSUMABLE_WIDTH
        &&& self.free_positions.height == CONSUMABLE_HEIGHT
        &&& (self.phase is Game ==> self.game_invariant())
    }

    /// A fresh simulation: menu phase, full pool, no creature, no consumables.
    pub fn new() -> (state: Self)
        ensures
            state.well_formed(),
            state.phase is Menu,
            state.free_positions.cells() == universe(),
            state.free_positions@.len() == CONSUMABLE_WIDTH * CONSUMABLE_HEIGHT,
            state.segments@.len() == 0,
            state.consumables@.len() == 0,
            state.direction is Still,
            state.immunity_time == 0,
            state.last_special_spawn == 0,
            state.last_tail_position is None,
            state.highscore == 0,
            state.lastscore == 0,
            !state.paused,
    {
        SimulationState {
            phase: GameState::Menu,
            free_positions: FreePositions::new(CONSUMABLE_WIDTH, CONSUMABLE_HEIGHT),
            segments: Vec::new(),
            direction: Direction::Still,
            consumables: Vec::new(),
            immunity_time: 0,
            last_special_spawn: 0,
            last_tail_position: None,
            highscore: 0,
            lastscore: 0,
            paused: false,
        }
    }

    /// Accepts a new movement direction from the input collaborator.  The
    /// collaborator filters reversals; the core never returns to `Still`.
    pub fn set_direction(&mut self, direction: Direction)
        requires
            old(self).well_formed(),
            !(direction is Still),
        ensures
            final(self).well_formed(),
            *final(self) == (SimulationState { direction, ..*old(self) }),
    {
        self.direction = direction;
    }

    /// Sets or clears the global pause gate.
    pub fn set_paused(&mut self, paused: bool)
        requires
            old(self).well_formed(),
        ensures
            final(self).well_formed(),
            *final(self) == (SimulationState { paused, ..*old(self) }),
    {
        self.paused = paused;
    }
}

/// The wall ring as a list of coarse cells: the top and bottom rows for every
/// column, then the left and right columns for the rows between them.
pub fn wall_positions() -> (walls: Vec<Position>)
    ensures
        forall|p: Position| #[trigger] walls@.contains(p) <==> is_wall(p),
        walls@.len() == 2 * (CONSUMABLE_WIDTH + 1) + 2 * (CONSUMABLE_HEIGHT - 1),
{
    let mut walls: Vec<Position> = Vec::new();
    let mut x: i32 = 0;
    while x < CONSUMABLE_WIDTH + 1
        invariant
            0 <= x <= CONSUMABLE_WIDTH + 1,
            walls@.len() == 2 * x,
            forall|p: Position|
                #[trigger] walls@.contains(p) <==> ((p.y == 0 || p.y == CONSUMABLE_HEIGHT) && 0
                    <= p.x < x),
        decreases CONSUMABLE_WIDTH + 1 - x,
    {
        let ghost pre1 = walls@;
        walls.push(Position { x, y: 0 });
        let ghost pre2 = walls@;
        walls.push(Position { x, y: CONSUMABLE_HEIGHT });
        proof {
            assert forall|p: Position|
                #[trigger] walls@.contains(p) <==> ((p.y == 0 || p.y == CONSUMABLE_HEIGHT) && 0
                    <= p.x < x + 1) by {
                lemma_push_contains(pre1, Position { x, y: 0 }, p);
                lemma_push_contains(pre2, Position { x, y: CONSUMABLE_HEIGHT }, p);
            }
        }
        x = x + 1;
    }
    let mut y: i32 = 1;
    while y < CONSUMABLE_HEIGHT
        invariant
            1 <= y <= CONSUMABLE_HEIGHT,
            walls@.len() == 2 * (CONSUMABLE_WIDTH + 1) + 2 * (y - 1),
            forall|p: Position|
                #[trigger] walls@.contains(p) <==> (((p.y == 0 || p.y == CONSUMABLE_HEIGHT) && 0
                    <= p.x <= CONSUMABLE_WIDTH) || ((p.x == 0 || p.x == CONSUMABLE_WIDTH) && 1
                    <= p.y < y)),
        decreases CONSUMABLE_HEIGHT - y,
    {
        let ghost pre1 = walls@;
        walls.push(Position { x: 0, y });
        let ghost pre2 = walls@;
        walls.push(Position { x: CONSUMABLE_WIDTH, y });
        proof {
            assert forall|p: Position|
                #[trigger] walls@.contains(p) <==> (((p.y == 0 || p.y == CONSUMABLE_HEIGHT) && 0
                    <= p.x <= CONSUMABLE_WIDTH) || ((p.x == 0 || p.x == CONSUMABLE_WIDTH) && 1
                    <= p.y < y + 1)) by {
                lemma_push_contains(pre1, Position { x: 0, y }, p);
                lemma_push_contains(pre2, Position { x: CONSUMABLE_WIDTH, y }, p);
            }
        }
        y = y + 1;
    }
    walls
}

impl SimulationState {
    /// Starts a new round: full pool minus the wall ring, the creature as a
    /// single segment at the arena's center, no direction yet, cleared
    /// timers, and the initial stock of food and poison on random free
    /// cells.  Scores survive; everything else is rebuilt.
    pub fn start_round(&mut self)
        requires
            old(self).well_formed(),
        ensures
            final(self).well_formed(),
            final(self).cadence_mark_ok(),
            final(self).phase is Game,
            final(self).segments@.len() == 1,
            final(self).segments@[0] == (DiplopodPosition {
                x: CONSUMABLE_WIDTH,
                y: CONSUMABLE_HEIGHT,
            }),
            final(self).direction is Still,
            final(self).immunity_time == 0,
            final(self).last_special_spawn == 0,
            final(self).last_tail_position is None,
            !final(self).paused,
            final(self).highscore == old(self).highscore,
            final(self).lastscore == old(self).lastscore,
            final(self).consumables@.len() == AMOUNT_OF_FOOD + AMOUNT_OF_POISON,
            forall|c: Consumable|
                #[trigger] final(self).consumables@.contains(c) ==> (c.kind is Food || c.kind
                    is Poison) && !segment_cells(final(self).segments@).contains(c.pos),
            final(self).free_positions.cells() == universe().difference(border_cells()).difference(
                consumable_cells(final(self).consumables@),
            ),
    {
        self.free_positions.reset();
        let walls = wall_positions();
        let removed = self.free_positions.remove_all(&walls);
        let mut segments: Vec<DiplopodPosition> = Vec::new();
        segments.push(DiplopodPosition { x: CONSUMABLE_WIDTH, y: CONSUMABLE_HEIGHT });
        self.segments = segments;
        self.consumables = Vec::new();
        self.direction = Direction::Still;
        self.immunity_time = 0;
        self.last_special_spawn = 0;
        self.last_tail_position = None;
        self.paused = false;
        self.phase = GameState::Game;
        let ghost head = DiplopodPosition { x: CONSUMABLE_WIDTH, y: CONSUMABLE_HEIGHT };
        let ghost head_cell = head.spec_to_position();
        proof {
            assert(walls@.to_set().contains(Position { x: 0, y: 0 }));
            assert(self.free_positions@.len() >= 396) by {
                assert(self.free_positions@.len() == CONSUMABLE_WIDTH * CONSUMABLE_HEIGHT
                    - removed);
            }
            assert forall|q: Position| #[trigger]
                self.free_positions.cells().contains(q) <==> (universe().contains(q) && !is_wall(
                q)) by {}
            assert(head_cell == (Position { x: 11, y: 11 }));
            assert(self.game_invariant()) by {
                assert(self.free_positions.cells().union(border_cells()).union(consumable_cells(
                    self.consumables@)) =~= universe());
                assert(!consumable_cells(self.consumables@).contains(self.head_cell()));
            }
            assert(segment_cells(self.segments@) =~= Set::<Position>::empty().insert(head_cell));
            assert(segment_cells(self.segments@).len() == 1);
        }
        let ghost s_ready = *self;
        let food_placed = init_food(self);
        proof {
            assert(segment_cells(self.segments@).len() == 1);
            if food_placed < AMOUNT_OF_FOOD {
                self.free_positions@.unique_seq_to_set();
                vstd::set_lib::lemma_len_subset(
                    self.free_positions.cells(),
                    segment_cells(self.segments@),
                );
                assert(false);
            }
        }
        let ghost s_fed = *self;
        let poison_placed = init_poison(self);
        proof {
            if poison_placed < AMOUNT_OF_POISON {
                self.free_positions@.unique_seq_to_set();
                vstd::set_lib::lemma_len_subset(
                    self.free_positions.cells(),
                    segment_cells(self.segments@),
                );
                assert(false);
            }
            assert forall|c: Consumable| #[trigger]
                self.consumables@.contains(c) implies (c.kind is Food || c.kind is Poison)
                && !segment_cells(self.segments@).contains(c.pos) by {
                if s_fed.consumables@.contains(c) {
                    assert(!s_ready.consumables@.contains(c));
                }
            }
            assert(self.free_positions.cells() =~= universe().difference(
                border_cells(),
            ).difference(consumable_cells(self.consumables@))) by {
                assert forall|q: Position| #[trigger]
                    consumable_cells(s_fed.consumables@).contains(q) implies consumable_cells(
                    self.consumables@).contains(q) by {
                    let k = choose|k: int|
                        0 <= k < s_fed.consumables@.len() && (#[trigger] s_fed.consumables@[k]).pos
                            == q;
                    let d = s_fed.consumables@[k];
                    assert(s_fed.consumables@.contains(d));
                    assert(self.consumables@.contains(d));
                    let m = choose|m: int|
                        0 <= m < self.consumables@.len() && self.consumables@[m] == d;
                    assert((#[trigger] self.consumables@[m]).pos == q);
                }
            }
        }
    }
}

/// What one full tick does, stage by stage: movement, then collision
/// resolution, then spawn scheduling on the first spawn request, then growth
/// on the first growth award, and finally the round controller if a game
/// over was emitted anywhere.  While paused, or outside a running round,
/// nothing happens at all.
/// The spawn-scheduling stage of a tick: it consumes the first spawn
/// request, if one was emitted.
pub open spec fn spawn_stage(s2: SimulationState, s3: SimulationState, eaten: TickEvents) -> bool {
    match eaten.spawn {
        Some(req) => spawn_rel(s2, s3, req),
        None => s3 == s2,
    }
}

/// The growth stage of a tick: it consumes the first growth award, if one
/// was emitted.
pub open spec fn growth_stage(s3: SimulationState, s4: SimulationState, eaten: TickEvents) -> bool {
    match eaten.growth {
        Some(g) => growth_rel(s3, s4, g),
        None => s4 == s3,
    }
}

pub open spec fn tick_rel(pre: SimulationState, post: SimulationState, ev: TickEvents) -> bool {
    if pre.paused || !(pre.phase is Game) {
        &&& post == pre
        &&& ev.is_empty()
    } else {
        exists|
            s1: SimulationState,
            s2: SimulationState,
            s3: SimulationState,
            s4: SimulationState,
            collided: bool,
            eaten: TickEvents,
        |
            #![trigger movement_rel(pre, s1, collided), eat_rel(s1, s2, eaten), spawn_stage(s2, s3, eaten), growth_stage(s3, s4, eaten)]
            {
                &&& movement_rel(pre, s1, collided)
                &&& eat_rel(s1, s2, eaten)
                &&& spawn_stage(s2, s3, eaten)
                &&& growth_stage(s3, s4, eaten)
                &&& ev.growth == eaten.growth
                &&& ev.spawn == eaten.spawn
                &&& ev.message == eaten.message
                &&& (ev.game_over is Some <==> (collided || eaten.game_over is Some))
                &&& (if collided || eaten.game_over is Some {
                    game_over_rel(s4, post)
                } else {
                    post == s4
                })
            }
    }
}

impl SimulationState {
    /// The creature's size leaves room for one growth award in the cadence
    /// arithmetic.
    pub open spec fn tick_fits(self) -> bool {
        self.segments@.len() + 255 <= u32::MAX
    }

    /// Runs one fixed tick of the simulation: movement, collision
    /// resolution, spawn scheduling, growth, and the end-of-round transition
    /// when a game over was emitted.  Gated by the pause flag and the phase.
    pub fn tick(&mut self) -> (events: TickEvents)
        requires
            old(self).well_formed(),
            old(self).cadence_mark_ok(),
            step_fits(*old(self)),
            old(self).tick_fits(),
        ensures
            final(self).well_formed(),
            final(self).cadence_mark_ok(),
            tick_rel(*old(self), *final(self), events),
    {
        if self.paused || !matches!(self.phase, GameState::Game) {
            return TickEvents::none();
        }
        let ghost pre = *old(self);
        let collided = movement(self);
        let ghost s1 = *self;
        let stage_events = eat(self);
        let ghost s2 = *self;
        let ghost eaten = stage_events;
        proof {
            // a growth award implies something stood at the head, so the
            // creature was already moving and the pre-move tail is recorded
            if eaten.growth is Some {
                assert(s1.segments@.len() >= 1);
                if s1.direction is Still {
                    let h = s1.head_cell();
                    assert forall|kind: ConsumableKind|
                        !s1.consumables@.contains(Consumable { kind, pos: h }) by {
                        if s1.consumables@.contains(Consumable { kind, pos: h }) {
                            let k = choose|k: int|
                                0 <= k < s1.consumables@.len() && s1.consumables@[k] == (Consumable {
                                    kind,
                                    pos: h,
                                });
                            assert((#[trigger] s1.consumables@[k]).pos == h);
                            assert(consumable_cells(s1.consumables@).contains(h));
                        }
                    }
                    assert(false);
                }
                assert(s1.last_tail_position is Some);
                assert(s2.last_tail_position is Some);
            }
            // a spawn request never comes without a growth award
            if eaten.spawn is Some {
                assert(eaten.growth is Some);
            }
        }
        if let Some(req) = &stage_events.spawn {
            proof {
                assert(s2.segments@.len() == pre.segments@.len());
                assert(s2.last_special_spawn == pre.last_special_spawn);
            }
            spawn_consumables(self, req);
        }
        let ghost s3 = *self;
        if let Some(g) = &stage_events.growth {
            growth(self, g);
        }
        let ghost s4 = *self;
        proof {
            // the cadence mark stays below the creature's size
            if eaten.growth is Some {
                let g = eaten.growth->Some_0;
                assert(s4.segments@.len() == s3.segments@.len() + g.0);
                if eaten.spawn is Some {
                    let req = eaten.spawn->Some_0;
                    assert(req.new_segments == g.0);
                    assert(s3.last_special_spawn <= s2.segments@.len() + req.new_segments);
                } else {
                    assert(s3 == s2);
                }
                assert(s4.cadence_mark_ok());
            } else {
                assert(s4 == s2);
                assert(s4.cadence_mark_ok());
            }
        }
        let round_over = collided || stage_events.game_over.is_some();
        if round_over {
            game_over(self);
        }
        let events = TickEvents {
            game_over: if round_over {
                Some(GameOver)
            } else {
                None
            },
            growth: stage_events.growth,
            spawn: stage_events.spawn,
            message: stage_events.message,
        };
        proof {
            assert(movement_rel(pre, s1, collided));
            assert(eat_rel(s1, s2, eaten));
            assert(spawn_stage(s2, s3, eaten));
            assert(growth_stage(s3, s4, eaten));
            assert(tick_rel(pre, *self, events));
        }
        events
    }
}

} // verus!
