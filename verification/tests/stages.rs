use snake::components::{Consumable, ConsumableKind, DiplopodPosition, Direction, Position};
use snake::control::{eat, growth, limit_immunity, move_antidote, movement, spawn_consumables};
use snake::events::{Growth, SpawnConsumables};
use snake::simulation::SimulationState;

fn fine(x: i32, y: i32) -> DiplopodPosition {
    DiplopodPosition { x, y }
}

fn coarse(x: i32, y: i32) -> Position {
    Position { x, y }
}

/// A running round whose board was cleared of the random initial stock, so
/// each test can place exactly what it needs.
fn bare_round() -> SimulationState {
    let mut state = SimulationState::new();
    state.start_round();
    state.consumables = Vec::new();
    state
}

fn count_kind(state: &SimulationState, kind: ConsumableKind) -> usize {
    state.consumables.iter().filter(|c| c.kind == kind).count()
}

#[test]
fn coarse_projection_halves_coordinates() {
    assert_eq!(fine(22, 22).to_position(), coarse(11, 11));
    assert_eq!(fine(5, 4).to_position(), coarse(2, 2));
    assert_eq!(fine(1, 0).to_position(), coarse(0, 0));
    assert_eq!(fine(-1, 3).to_position(), coarse(0, 1));
}

#[test]
fn straight_run_advances_head_linearly() {
    let mut state = bare_round();
    state.set_direction(Direction::Right);
    for _ in 0..5 {
        let game_over = movement(&mut state);
        assert!(!game_over);
    }
    assert_eq!(state.segments[0], fine(27, 22));
}

#[test]
fn self_collision_emits_game_over() {
    let mut state = bare_round();
    state.segments = vec![fine(5, 5), fine(4, 5), fine(3, 5)];
    state.direction = Direction::Left;
    let game_over = movement(&mut state);
    assert!(game_over);
    assert_eq!(state.segments, vec![fine(4, 5), fine(5, 5), fine(4, 5)]);
}

#[test]
fn still_direction_moves_nothing() {
    let mut state = bare_round();
    let before = state.segments.clone();
    let game_over = movement(&mut state);
    assert!(!game_over);
    assert_eq!(state.segments, before);
    assert!(state.last_tail_position.is_none());
}

#[test]
fn body_follows_the_leader() {
    let mut state = bare_round();
    state.segments = vec![fine(5, 5), fine(4, 5)];
    state.direction = Direction::Right;
    let game_over = movement(&mut state);
    assert!(!game_over);
    assert_eq!(state.segments, vec![fine(6, 5), fine(5, 5)]);
    assert_eq!(state.last_tail_position, Some(fine(4, 5)));
}

#[test]
fn growth_appends_at_recorded_tail() {
    let mut state = bare_round();
    state.segments = vec![fine(6, 5), fine(5, 5)];
    state.direction = Direction::Right;
    movement(&mut state);
    let recorded = state.last_tail_position.unwrap();
    assert_eq!(recorded, fine(5, 5));
    growth(&mut state, &Growth(2));
    assert_eq!(state.segments.len(), 4);
    assert_eq!(state.segments[2], recorded);
    assert_eq!(state.segments[3], recorded);
}

#[test]
fn food_awards_growth_and_requests_respawn() {
    let mut state = bare_round();
    state.segments = vec![fine(10, 10)];
    state.free_positions.remove(&coarse(5, 5));
    state.consumables.push(Consumable { kind: ConsumableKind::Food, pos: coarse(5, 5) });
    let ev = eat(&mut state);
    assert_eq!(ev.growth, Some(Growth(1)));
    assert_eq!(ev.spawn, Some(SpawnConsumables { regular: true, new_segments: 1 }));
    assert!(ev.game_over.is_none());
    assert!(ev.message.is_none());
    assert!(state.consumables.is_empty());
    assert!(state.free_positions.contains_pos(&coarse(5, 5)));
}

#[test]
fn superfood_awards_random_growth_with_message() {
    let mut state = bare_round();
    state.segments = vec![fine(10, 10)];
    state.free_positions.remove(&coarse(5, 5));
    state.consumables.push(Consumable { kind: ConsumableKind::SuperFood, pos: coarse(5, 5) });
    let ev = eat(&mut state);
    let g = match ev.growth {
        Some(Growth(g)) => g,
        None => panic!("super food must award growth"),
    };
    assert!((2..10).contains(&g));
    assert_eq!(ev.spawn, Some(SpawnConsumables { regular: false, new_segments: g }));
    let message = ev.message.expect("super food announces its award");
    assert_eq!(message.text, format!("{}", g));
    assert_eq!(message.position, fine(10, 10));
    assert!(ev.game_over.is_none());
    assert!(state.consumables.is_empty());
}

#[test]
fn antidote_grants_ten_immune_ticks() {
    let mut state = bare_round();
    state.segments = vec![fine(10, 10)];
    state.free_positions.remove(&coarse(5, 5));
    state.consumables.push(Consumable { kind: ConsumableKind::AntiDote, pos: coarse(5, 5) });
    let ev = eat(&mut state);
    assert_eq!(state.immunity_time, 10);
    assert!(ev.growth.is_none());
    assert!(ev.spawn.is_none());
    assert!(ev.message.is_none());
    assert!(ev.game_over.is_none());
    assert!(state.consumables.is_empty());
}

#[test]
fn poison_without_immunity_ends_the_round() {
    let mut state = bare_round();
    state.segments = vec![fine(10, 10)];
    state.free_positions.remove(&coarse(5, 5));
    state.consumables.push(Consumable { kind: ConsumableKind::Poison, pos: coarse(5, 5) });
    state.immunity_time = 0;
    let ev = eat(&mut state);
    assert!(ev.game_over.is_some());
    assert!(ev.growth.is_none());
    assert_eq!(state.consumables.len(), 1, "the poison remains on the board");
}

#[test]
fn poison_with_immunity_is_survivable() {
    let mut state = bare_round();
    state.segments = vec![fine(10, 10)];
    state.free_positions.remove(&coarse(5, 5));
    state.consumables.push(Consumable { kind: ConsumableKind::Poison, pos: coarse(5, 5) });
    state.immunity_time = 3;
    let ev = eat(&mut state);
    assert!(ev.game_over.is_none());
    assert_eq!(ev.growth, Some(Growth(1)));
    assert!(ev.spawn.is_none());
    assert!(state.consumables.is_empty());
    assert!(state.free_positions.contains_pos(&coarse(5, 5)));
}

#[test]
fn wall_hit_ends_the_round() {
    let mut state = bare_round();
    state.segments = vec![fine(1, 1)];
    let ev = eat(&mut state);
    assert!(ev.game_over.is_some());
    assert!(ev.growth.is_none());
}

#[test]
fn empty_cell_changes_nothing() {
    let mut state = bare_round();
    state.segments = vec![fine(10, 10)];
    let pool_before = state.free_positions.len();
    let ev = eat(&mut state);
    assert!(ev.game_over.is_none() && ev.growth.is_none() && ev.spawn.is_none());
    assert_eq!(state.free_positions.len(), pool_before);
}

#[test]
fn cadence_first_mark_spawns_one_superfood() {
    let mut state = bare_round();
    state.segments = vec![fine(10, 10); 16];
    state.last_special_spawn = 0;
    spawn_consumables(&mut state, &SpawnConsumables { regular: false, new_segments: 1 });
    assert_eq!(state.last_special_spawn, 16);
    assert_eq!(count_kind(&state, ConsumableKind::SuperFood), 1);
    assert_eq!(count_kind(&state, ConsumableKind::AntiDote), 0);
    assert_eq!(count_kind(&state, ConsumableKind::Food), 0);
}

#[test]
fn cadence_second_mark_respawns_antidote_too() {
    let mut state = bare_round();
    state.segments = vec![fine(10, 10); 32];
    state.last_special_spawn = 16;
    spawn_consumables(&mut state, &SpawnConsumables { regular: false, new_segments: 1 });
    assert_eq!(state.last_special_spawn, 32);
    assert_eq!(count_kind(&state, ConsumableKind::SuperFood), 1);
    assert_eq!(count_kind(&state, ConsumableKind::AntiDote), 1);
}

#[test]
fn cadence_rests_between_marks() {
    let mut state = bare_round();
    state.segments = vec![fine(10, 10); 16];
    state.last_special_spawn = 16;
    spawn_consumables(&mut state, &SpawnConsumables { regular: false, new_segments: 1 });
    assert_eq!(state.last_special_spawn, 16);
    assert_eq!(count_kind(&state, ConsumableKind::SuperFood), 0);
    assert_eq!(count_kind(&state, ConsumableKind::AntiDote), 0);
}

#[test]
fn regular_request_places_one_food() {
    let mut state = bare_round();
    state.segments = vec![fine(10, 10)];
    spawn_consumables(&mut state, &SpawnConsumables { regular: true, new_segments: 1 });
    assert_eq!(count_kind(&state, ConsumableKind::Food), 1);
    let food = state.consumables[0];
    assert!(!state.free_positions.contains_pos(&food.pos));
    assert_ne!(food.pos, coarse(5, 5), "food never lands under the creature");
}

#[test]
fn immunity_counts_down_to_zero() {
    let mut state = bare_round();
    state.immunity_time = 2;
    limit_immunity(&mut state);
    assert_eq!(state.immunity_time, 1);
    limit_immunity(&mut state);
    assert_eq!(state.immunity_time, 0);
    limit_immunity(&mut state);
    assert_eq!(state.immunity_time, 0);
}

#[test]
fn antidote_wanders_at_most_one_free_cell() {
    let mut state = bare_round();
    state.segments = vec![fine(10, 10)];
    state.free_positions.remove(&coarse(15, 15));
    state.consumables.push(Consumable { kind: ConsumableKind::AntiDote, pos: coarse(15, 15) });
    move_antidote(&mut state);
    assert_eq!(state.consumables.len(), 1);
    let here = state.consumables[0].pos;
    let dx = (here.x - 15).abs();
    let dy = (here.y - 15).abs();
    assert!(dx + dy <= 1);
    assert!((1..22).contains(&here.x) && (1..22).contains(&here.y));
    assert!(!state.free_positions.contains_pos(&here));
}
