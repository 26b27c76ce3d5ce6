use snake::components::Position;
use snake::resources::FreePositions;

fn cell(x: i32, y: i32) -> Position {
    Position { x, y }
}

#[test]
fn new_pool_covers_grid() {
    let pool = FreePositions::new(22, 22);
    assert_eq!(pool.len(), 484);
    assert!(pool.contains_pos(&cell(0, 0)));
    assert!(pool.contains_pos(&cell(21, 21)));
    assert!(pool.contains_pos(&cell(0, 21)));
    assert!(!pool.contains_pos(&cell(22, 0)));
    assert!(!pool.contains_pos(&cell(-1, 3)));
}

#[test]
fn draw_removes_a_cell() {
    let mut pool = FreePositions::new(22, 22);
    let drawn = pool.draw().expect("a full pool has a cell to draw");
    assert_eq!(pool.len(), 483);
    assert!(!pool.contains_pos(&drawn));
    assert!(0 <= drawn.x && drawn.x < 22);
    assert!(0 <= drawn.y && drawn.y < 22);
}

#[test]
fn draw_from_singleton_pool_yields_that_cell() {
    let mut pool = FreePositions::new(1, 1);
    assert_eq!(pool.len(), 1);
    assert_eq!(pool.draw(), Some(cell(0, 0)));
    assert_eq!(pool.len(), 0);
    assert_eq!(pool.draw(), None);
}

#[test]
fn remove_is_idempotent() {
    let mut pool = FreePositions::new(22, 22);
    assert!(pool.remove(&cell(3, 4)));
    assert_eq!(pool.len(), 483);
    assert!(!pool.remove(&cell(3, 4)));
    assert_eq!(pool.len(), 483);
    assert!(!pool.contains_pos(&cell(3, 4)));
}

#[test]
fn release_restores_a_removed_cell() {
    let mut pool = FreePositions::new(22, 22);
    pool.remove(&cell(7, 8));
    assert!(pool.release(cell(7, 8)));
    assert!(pool.contains_pos(&cell(7, 8)));
    assert_eq!(pool.len(), 484);
    assert!(!pool.release(cell(7, 8)));
    assert_eq!(pool.len(), 484);
}

#[test]
fn remove_all_removes_each_given_cell() {
    let mut pool = FreePositions::new(22, 22);
    let doomed = vec![cell(0, 0), cell(1, 1), cell(2, 2)];
    let removed = pool.remove_all(&doomed);
    assert_eq!(removed, 3);
    assert_eq!(pool.len(), 481);
    for p in &doomed {
        assert!(!pool.contains_pos(p));
    }
}

#[test]
fn reset_restores_the_full_grid() {
    let mut pool = FreePositions::new(22, 22);
    pool.remove(&cell(5, 5));
    pool.draw();
    pool.reset();
    assert_eq!(pool.len(), 484);
    assert!(pool.contains_pos(&cell(5, 5)));
}

#[test]
fn candidates_exclude_the_given_cells() {
    let pool = FreePositions::new(22, 22);
    let excluded = vec![cell(5, 5), cell(6, 6)];
    let cand = pool.candidates(&excluded);
    assert_eq!(cand.len(), 482);
    assert!(!cand.contains_pos(&cell(5, 5)));
    assert!(!cand.contains_pos(&cell(6, 6)));
    assert!(cand.contains_pos(&cell(7, 7)));
}
