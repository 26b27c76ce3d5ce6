use snake::components::{Consumable, ConsumableKind, DiplopodPosition, Direction, GameState, Position};
use snake::gameover::game_over;
use snake::resources::FreePositions;
use snake::simulation::{wall_positions, SimulationState};
use snake::{AMOUNT_OF_FOOD, AMOUNT_OF_POISON};

fn fine(x: i32, y: i32) -> DiplopodPosition {
    DiplopodPosition { x, y }
}

#[test]
fn start_round_stocks_the_board() {
    let mut state = SimulationState::new();
    state.start_round();
    assert_eq!(state.phase, GameState::Game);
    assert_eq!(state.segments, vec![fine(22, 22)]);
    assert_eq!(state.direction, Direction::Still);
    assert_eq!(state.immunity_time, 0);
    assert_eq!(state.last_special_spawn, 0);
    assert!(state.last_tail_position.is_none());
    assert_eq!(
        state.consumables.len() as u32,
        AMOUNT_OF_FOOD + AMOUNT_OF_POISON,
    );
    let food = state.consumables.iter().filter(|c| c.kind == ConsumableKind::Food).count();
    let poison = state.consumables.iter().filter(|c| c.kind == ConsumableKind::Poison).count();
    assert_eq!(food as u32, AMOUNT_OF_FOOD);
    assert_eq!(poison as u32, AMOUNT_OF_POISON);
    // 484 grid cells, minus the 43 wall cells inside the pool's range,
    // minus one cell per placed consumable
    assert_eq!(state.free_positions.len(), 484 - 43 - 33);
    for c in &state.consumables {
        assert!((1..22).contains(&c.pos.x) && (1..22).contains(&c.pos.y));
        assert_ne!(c.pos, Position { x: 11, y: 11 }, "nothing spawns under the creature");
        assert!(!state.free_positions.contains_pos(&c.pos));
    }
}

#[test]
fn board_partitions_every_cell() {
    let mut state = SimulationState::new();
    state.start_round();
    state.set_direction(Direction::Right);
    for _ in 0..200 {
        let events = state.tick();
        if events.game_over.is_some() {
            assert_eq!(state.phase, GameState::Highscore);
            return;
        }
        assert_eq!(state.phase, GameState::Game);
        assert!(state.segments.len() >= 1);
        // every coarse cell is free, wall, or consumable-occupied, and
        // exactly one of the three
        for x in 0..22 {
            for y in 0..22 {
                let here = Position { x, y };
                let free = state.free_positions.contains_pos(&here);
                let wall = x == 0 || y == 0;
                let occupied =
                    state.consumables.iter().filter(|c| c.pos == here).count();
                assert!(occupied <= 1);
                assert_eq!(
                    [free as usize, wall as usize, occupied].iter().sum::<usize>(),
                    1,
                    "cell ({x},{y}) must be exactly one of free, wall, occupied"
                );
            }
        }
    }
    panic!("a creature sent straight at the wall must meet it");
}

#[test]
fn tick_applies_growth_where_the_tail_was() {
    let mut state = SimulationState::new();
    state.start_round();
    state.consumables = Vec::new();
    // put one food two fine cells ahead of the head, at coarse (12, 11)
    state.free_positions.remove(&Position { x: 12, y: 11 });
    state.consumables.push(Consumable { kind: ConsumableKind::Food, pos: Position { x: 12, y: 11 } });
    state.set_direction(Direction::Right);
    let first = state.tick();
    assert!(first.growth.is_none());
    assert_eq!(state.segments, vec![fine(23, 22)]);
    let second = state.tick();
    assert!(second.game_over.is_none());
    assert_eq!(second.growth.map(|g| g.0), Some(1));
    assert!(second.spawn.map(|s| s.regular).unwrap_or(false));
    // the head moved on, and the new segment appeared at the pre-move tail
    assert_eq!(state.segments, vec![fine(24, 22), fine(23, 22)]);
    // the eaten food is gone; the scheduler placed one replacement food
    let food: Vec<&Consumable> =
        state.consumables.iter().filter(|c| c.kind == ConsumableKind::Food).collect();
    assert_eq!(food.len(), 1);
    assert_ne!(food[0].pos, Position { x: 12, y: 11 });
    assert!(!state.free_positions.contains_pos(&food[0].pos));
}

#[test]
fn game_over_resets_for_a_new_round() {
    let mut state = SimulationState::new();
    state.start_round();
    state.segments = vec![fine(10, 10), fine(9, 10), fine(8, 10)];
    state.immunity_time = 7;
    state.last_special_spawn = 16;
    game_over(&mut state);
    assert_eq!(state.phase, GameState::Highscore);
    assert_eq!(state.lastscore, 3);
    assert_eq!(state.highscore, 3);
    assert_eq!(state.immunity_time, 0);
    assert_eq!(state.last_special_spawn, 0);
    // the pool equals a freshly initialized one: same cardinality, covering
    // the whole grid
    let fresh = FreePositions::new(22, 22);
    assert_eq!(state.free_positions.len(), fresh.len());
    for x in 0..22 {
        for y in 0..22 {
            assert!(state.free_positions.contains_pos(&Position { x, y }));
        }
    }
}

#[test]
fn highscore_keeps_the_best_round() {
    let mut state = SimulationState::new();
    state.start_round();
    state.segments = vec![fine(10, 10), fine(9, 10), fine(8, 10)];
    game_over(&mut state);
    assert_eq!(state.highscore, 3);
    state.start_round();
    state.segments = vec![fine(10, 10), fine(9, 10)];
    game_over(&mut state);
    assert_eq!(state.lastscore, 2);
    assert_eq!(state.highscore, 3);
}

#[test]
fn pause_gates_the_whole_tick() {
    let mut state = SimulationState::new();
    state.start_round();
    state.set_direction(Direction::Right);
    state.set_paused(true);
    let head = state.segments[0];
    let events = state.tick();
    assert!(events.game_over.is_none() && events.growth.is_none());
    assert_eq!(state.segments[0], head);
    state.set_paused(false);
    state.tick();
    assert_eq!(state.segments[0], fine(head.x + 1, head.y));
}

#[test]
fn running_right_meets_the_wall() {
    let mut state = SimulationState::new();
    state.start_round();
    state.consumables = Vec::new();
    state.set_direction(Direction::Right);
    // head starts at fine x = 22; the wall column is coarse x = 22, reached
    // at fine x = 44, so the round ends on the 22nd tick
    let mut ticks = 0;
    loop {
        ticks += 1;
        let events = state.tick();
        if events.game_over.is_some() {
            break;
        }
        assert!(ticks < 100);
    }
    assert_eq!(ticks, 22);
    assert_eq!(state.phase, GameState::Highscore);
    assert_eq!(state.lastscore, 1);
}

#[test]
fn opposite_directions_pair_up() {
    assert_eq!(Direction::Left.opposite(), Direction::Right);
    assert_eq!(Direction::Right.opposite(), Direction::Left);
    assert_eq!(Direction::Up.opposite(), Direction::Down);
    assert_eq!(Direction::Down.opposite(), Direction::Up);
    assert_eq!(Direction::Still.opposite(), Direction::Still);
}

#[test]
fn wall_ring_surrounds_the_grid() {
    let walls = wall_positions();
    assert_eq!(walls.len(), 2 * 23 + 2 * 21);
    assert!(walls.contains(&Position { x: 0, y: 0 }));
    assert!(walls.contains(&Position { x: 22, y: 22 }));
    assert!(walls.contains(&Position { x: 0, y: 11 }));
    assert!(walls.contains(&Position { x: 11, y: 22 }));
    assert!(!walls.contains(&Position { x: 11, y: 11 }));
    assert!(!walls.contains(&Position { x: 1, y: 1 }));
}
