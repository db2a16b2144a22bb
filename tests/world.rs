use snake_game::{step_from, Direction, GameStatus, SnakeCell, World};

fn cells(w: &World) -> Vec<usize> {
    w.snake_cells().iter().map(|c| c.0).collect()
}

#[test]
fn new_world_has_two_cells_heading_right() {
    let mut w = World::new(8, 9);
    assert_eq!(w.width(), 8);
    assert_eq!(cells(&w), vec![9, 8]);
    assert_eq!(w.snake_head_idx(), 9);
    assert_eq!(w.snake_length(), 2);
    assert!(w.game_status().is_none());
    assert_eq!(w.reward_cell(), 64);
    assert!(w.needs_reward());
    assert!(w.place_reward(63));
    w.start_game();
    assert_eq!(w.game_status(), Some(GameStatus::Playing));
    w.step();
    assert_eq!(cells(&w), vec![10, 9]);
    assert_eq!(w.snake_cells(), vec![SnakeCell(10), SnakeCell(9)]);
}

#[test]
fn right_edge_wraps_to_row_start() {
    let mut w = World::new(4, 3);
    w.start_game();
    w.step();
    assert_eq!(w.snake_head_idx(), 0);
    assert_eq!(cells(&w), vec![0, 3]);
}

#[test]
fn top_edge_wraps_to_bottom_row() {
    let mut w = World::new(4, 3);
    w.start_game();
    w.step();
    assert_eq!(w.snake_head_idx(), 0);
    w.set_snake_direction(Direction::Up);
    w.step();
    assert_eq!(w.snake_head_idx(), 12);
}

#[test]
fn left_edge_wraps_to_row_end() {
    let mut w = World::new(4, 5);
    w.start_game();
    w.set_snake_direction(Direction::Up);
    w.step();
    assert_eq!(cells(&w), vec![1, 5]);
    w.set_snake_direction(Direction::Left);
    w.step();
    assert_eq!(cells(&w), vec![0, 1]);
    w.step();
    assert_eq!(cells(&w), vec![3, 0]);
}

#[test]
fn bottom_edge_wraps_to_top_row() {
    let mut w = World::new(4, 13);
    w.start_game();
    w.set_snake_direction(Direction::Down);
    w.step();
    assert_eq!(cells(&w), vec![1, 13]);
}

#[test]
fn reversal_into_second_segment_is_rejected() {
    let mut w = World::new(4, 5);
    assert_eq!(cells(&w), vec![5, 4]);
    w.set_snake_direction(Direction::Left);
    w.start_game();
    w.step();
    // Still heading right.
    assert_eq!(cells(&w), vec![6, 5]);
}

#[test]
fn ticks_without_turns_walk_along_the_row() {
    let mut w = World::new(4, 1);
    w.start_game();
    let mut heads = Vec::new();
    for _ in 0..6 {
        w.step();
        heads.push(w.snake_head_idx());
    }
    assert_eq!(heads, vec![2, 3, 0, 1, 2, 3]);
    assert_eq!(w.snake_length(), 2);
    assert_eq!(w.game_status(), Some(GameStatus::Playing));
}

#[test]
fn step_before_start_does_nothing() {
    let mut w = World::new(4, 1);
    w.step();
    assert_eq!(cells(&w), vec![1, 0]);
    assert!(w.game_status().is_none());
}

#[test]
fn eating_grows_by_one_and_asks_for_a_free_cell() {
    let mut w = World::new(4, 1);
    assert!(w.place_reward(2));
    assert_eq!(w.reward_cell(), 2);
    assert!(!w.needs_reward());
    assert!(!w.place_reward(7));
    w.start_game();
    w.step();
    assert_eq!(cells(&w), vec![2, 1, 0]);
    assert_eq!(w.snake_length(), 3);
    assert_eq!(w.reward_cell(), 16);
    assert_eq!(w.game_status(), Some(GameStatus::Playing));
    assert!(w.needs_reward());
    assert!(!w.place_reward(1));
    assert!(!w.place_reward(16));
    assert!(!w.place_reward(100));
    assert!(w.place_reward(5));
    assert_eq!(w.reward_cell(), 5);
}

#[test]
fn running_into_itself_loses() {
    let mut w = World::new(2, 1);
    w.set_snake_direction(Direction::Down);
    assert!(w.place_reward(3));
    w.start_game();
    w.step();
    assert_eq!(cells(&w), vec![3, 1, 0]);
    assert!(w.place_reward(2));
    // Down from 3 wraps to 1, which the snake still occupies.
    w.step();
    assert_eq!(w.game_status(), Some(GameStatus::Lost));
    assert_eq!(cells(&w), vec![3, 1, 0]);
    w.start_game();
    assert_eq!(w.game_status(), Some(GameStatus::Lost));
    w.step();
    assert_eq!(cells(&w), vec![3, 1, 0]);
}

#[test]
fn filling_the_board_wins() {
    let mut w = World::new(2, 1);
    w.set_snake_direction(Direction::Down);
    assert!(w.place_reward(3));
    w.start_game();
    w.step();
    assert!(w.place_reward(2));
    w.set_snake_direction(Direction::Left);
    w.step();
    assert_eq!(cells(&w), vec![2, 3, 1, 0]);
    assert_eq!(w.game_status(), Some(GameStatus::Won));
    assert_eq!(w.reward_cell(), 4);
    assert!(!w.needs_reward());
    assert!(!w.place_reward(0));
    w.step();
    assert_eq!(cells(&w), vec![2, 3, 1, 0]);
}

#[test]
fn moving_onto_the_tail_cell_is_allowed() {
    // On a 2 x 2 board the head can enter the cell its tail leaves.
    let mut w = World::new(2, 1);
    w.start_game();
    w.step();
    assert_eq!(cells(&w), vec![0, 1]);
    assert_eq!(w.game_status(), Some(GameStatus::Playing));
}

#[test]
fn step_from_follows_the_torus() {
    assert_eq!(step_from(3, 4, 16, Direction::Right), 0);
    assert_eq!(step_from(2, 4, 16, Direction::Right), 3);
    assert_eq!(step_from(4, 4, 16, Direction::Left), 7);
    assert_eq!(step_from(5, 4, 16, Direction::Left), 4);
    assert_eq!(step_from(0, 4, 16, Direction::Up), 12);
    assert_eq!(step_from(6, 4, 16, Direction::Up), 2);
    assert_eq!(step_from(14, 4, 16, Direction::Down), 2);
    assert_eq!(step_from(6, 4, 16, Direction::Down), 10);
}
