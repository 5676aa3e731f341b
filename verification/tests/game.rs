//! Behavior of the game-state rules.

use snake::game::{pause_touch_choice, welcome_char_pauses, Direction, Game, PauseChoice, Tile};
use snake::game::{GRID_BLOCK_SIZE, GRID_HEIGHT, GRID_WIDTH};
use snake::graphics::{Color, Graphics};
use snake::random::Random;

fn fresh_game() -> Game {
    Game::new(Graphics::new(480, 272), Random::new(vec![]))
}

fn grid_index(x: usize, y: usize) -> usize {
    x * GRID_HEIGHT + y
}

#[test]
fn new_game_initial_state() {
    let g = fresh_game();
    assert_eq!(g.snake_head_position, (24, 10));
    assert_eq!(g.snake_body_position, vec![(23, 10), (22, 10)]);
    assert_eq!(g.snake_tail_position, (21, 10));
    assert_eq!(g.former_snake_tail, (20, 10));
    assert_eq!(g.apple_position, (1, 10));
    assert_eq!(g.apple_counter, 0);
    assert_eq!(g.grid.len(), GRID_WIDTH * GRID_HEIGHT);
    // The one head tile sits at (25, 10), one cell ahead of the tracked
    // head position, as the game has always started.
    assert_eq!(g.get_tile(25, 10), Tile::SnakeHead(Direction::Right));
    assert_eq!(g.get_tile(24, 10), Tile::Empty);
}

#[test]
fn move_straight_on_fresh_game_does_nothing() {
    // The tracked head sits on an empty tile after `new`, so no branch of
    // the dispatch fires.
    let mut g = fresh_game();
    g.move_straight();
    assert_eq!(g.snake_head_position, (24, 10));
    assert_eq!(g.snake_body_position, vec![(23, 10), (22, 10)]);
}

#[test]
fn reset_then_move_straight_advances_right() {
    let mut g = fresh_game();
    g.reset();
    assert_eq!(g.snake_head_position, (25, 10));
    g.move_straight();
    assert_eq!(g.snake_head_position, (26, 10));
    assert_eq!(g.snake_body_position, vec![(25, 10), (24, 10), (23, 10)]);
    assert_eq!(g.snake_tail_position, (22, 10));
    assert_eq!(g.former_snake_tail, (21, 10));
    assert_eq!(g.get_tile(26, 10), Tile::SnakeHead(Direction::Right));
    assert_eq!(g.get_tile(25, 10), Tile::Empty);
}

#[test]
fn turn_right_from_rightward_goes_down() {
    let mut g = fresh_game();
    g.reset();
    g.turn_right();
    assert_eq!(g.snake_head_position, (25, 11));
    assert_eq!(g.get_tile(25, 11), Tile::SnakeHead(Direction::Down));
}

#[test]
fn turn_left_from_rightward_goes_up() {
    let mut g = fresh_game();
    g.reset();
    g.turn_left();
    assert_eq!(g.snake_head_position, (25, 9));
    assert_eq!(g.get_tile(25, 9), Tile::SnakeHead(Direction::Up));
}

#[test]
fn grid_edge_wraps_right_to_left() {
    let mut g = fresh_game();
    g.reset();
    g.grid[grid_index(25, 10)] = Tile::Empty;
    g.snake_head_position = (GRID_WIDTH - 1, 10);
    g.grid[grid_index(GRID_WIDTH - 1, 10)] = Tile::SnakeHead(Direction::Right);
    g.check_grid_edge();
    assert_eq!(g.snake_head_position, (1, 10));
    assert_eq!(g.get_tile(1, 10), Tile::SnakeHead(Direction::Right));
    assert_eq!(g.get_tile(GRID_WIDTH - 1, 10), Tile::Empty);
}

#[test]
fn grid_edge_wraps_top_to_bottom() {
    let mut g = fresh_game();
    g.reset();
    g.grid[grid_index(25, 10)] = Tile::Empty;
    g.snake_head_position = (12, 0);
    g.grid[grid_index(12, 0)] = Tile::SnakeHead(Direction::Up);
    g.check_grid_edge();
    assert_eq!(g.snake_head_position, (12, GRID_HEIGHT - 2));
    assert_eq!(g.get_tile(12, GRID_HEIGHT - 2), Tile::SnakeHead(Direction::Up));
}

#[test]
fn grid_edge_leaves_interior_alone() {
    let mut g = fresh_game();
    g.reset();
    g.check_grid_edge();
    assert_eq!(g.snake_head_position, (25, 10));
}

#[test]
fn snake_bite_grows_and_relocates_apple() {
    let mut g = fresh_game();
    g.reset();
    // The draws pop from the back: 30 folds into [1, 47) for the column,
    // then 20 folds into [1, 26) for the row.
    g.random_gen = Random::new(vec![20, 30]);
    g.apple_position = g.snake_head_position;
    let old_tail = g.snake_tail_position;
    let old_former = g.former_snake_tail;
    g.snake_bite();
    assert_eq!(
        g.snake_body_position,
        vec![(24, 10), (23, 10), (22, 10), old_tail]
    );
    assert_eq!(g.snake_tail_position, old_former);
    assert_eq!(g.former_snake_tail, (0, 0));
    assert_eq!(g.apple_position, (30, 20));
    assert_eq!(g.apple_counter, 1);
}

#[test]
fn snake_bite_away_from_apple_does_nothing() {
    let mut g = fresh_game();
    g.reset();
    g.snake_bite();
    assert_eq!(g.snake_body_position, vec![(24, 10), (23, 10), (22, 10)]);
    assert_eq!(g.apple_counter, 0);
    assert_eq!(g.apple_position, (1, 10));
}

#[test]
fn selfbite_detected_on_body_and_tail() {
    let mut g = fresh_game();
    assert!(!g.check_selfbite());
    g.snake_head_position = (23, 10);
    assert!(g.check_selfbite());
    g.snake_head_position = (21, 10);
    assert!(g.check_selfbite());
}

#[test]
fn wait_tick_shrinks_then_falls_back() {
    let mut g = fresh_game();
    assert_eq!(g.return_wait_tick(), 100);
    g.apple_counter = 3;
    assert_eq!(g.return_wait_tick(), 85);
    g.apple_counter = 20;
    assert_eq!(g.return_wait_tick(), 0);
    // Past twenty apples the subtraction would wrap, and the wait snaps
    // back to the full 100 ticks.
    g.apple_counter = 21;
    assert_eq!(g.return_wait_tick(), 100);
}

#[test]
fn move_snake_touch_regions() {
    let mut g = fresh_game();
    g.reset();
    // A lone middle touch asks for the pause screen and moves nothing.
    let pause = g.move_snake(&vec![(200, 50)]);
    assert!(pause);
    assert_eq!(g.snake_head_position, (25, 10));
    // A lone touch on the left third turns left (up, for a rightward
    // snake).
    let pause = g.move_snake(&vec![(50, 50)]);
    assert!(!pause);
    assert_eq!(g.snake_head_position, (25, 9));
}

#[test]
fn move_snake_without_touch_goes_straight() {
    let mut g = fresh_game();
    g.reset();
    let pause = g.move_snake(&vec![]);
    assert!(!pause);
    assert_eq!(g.snake_head_position, (26, 10));
}

#[test]
fn pause_touch_regions() {
    assert_eq!(pause_touch_choice(&vec![(220, 150)]), PauseChoice::Resume);
    assert_eq!(pause_touch_choice(&vec![(200, 210)]), PauseChoice::NewGame);
    assert_eq!(pause_touch_choice(&vec![(50, 50)]), PauseChoice::Stay);
    assert_eq!(
        pause_touch_choice(&vec![(220, 150), (220, 150)]),
        PauseChoice::Stay
    );
    assert_eq!(pause_touch_choice(&vec![]), PauseChoice::Stay);
}

#[test]
fn welcome_characters() {
    assert!(welcome_char_pauses(' '));
    assert!(welcome_char_pauses('-'));
    assert!(welcome_char_pauses('!'));
    assert!(!welcome_char_pauses('a'));
}

#[test]
fn draw_frame_paints_the_border() {
    let mut g = fresh_game();
    g.draw_frame();
    let black = Color::rgba(0, 0, 0, 255);
    assert_eq!(g.graphics.layer_1.get_pixel(8, 8), black);
    assert_eq!(g.graphics.layer_1.get_pixel(469, 8), black);
    assert_eq!(g.graphics.layer_1.get_pixel(8, 261), black);
    assert_eq!(g.graphics.layer_1.get_pixel(470, 8), black);
    assert_eq!(g.graphics.layer_1.get_pixel(470, 261), black);
    let clear = Color::rgba(0, 0, 0, 0);
    assert_eq!(g.graphics.layer_1.get_pixel(9, 9), clear);
    assert_eq!(g.graphics.layer_1.get_pixel(0, 0), clear);
}

#[test]
fn background_fill_covers_field() {
    let mut g = fresh_game();
    g.set_backround_color();
    let fill = Color::rgba(209, 115, 28, 255);
    let clear = Color::rgba(0, 0, 0, 0);
    assert_eq!(g.graphics.layer_1.get_pixel(5, 5), fill);
    assert_eq!(g.graphics.layer_1.get_pixel(474, 266), fill);
    assert_eq!(g.graphics.layer_1.get_pixel(4, 5), clear);
    assert_eq!(g.graphics.layer_1.get_pixel(475, 266), clear);
}

#[test]
fn block_size_splits_display() {
    assert_eq!(GRID_BLOCK_SIZE, 10);
    assert_eq!(GRID_WIDTH, 48);
    assert_eq!(GRID_HEIGHT, 27);
}
