//! The game-state rules of the snake.
//!
//! A [`Game`] holds the grid, the snake's head, body, tail, the apple, and
//! the drawing and entropy state.  The decisions of the render loop live
//! here as verified functions: moving and turning the snake, wrapping at the
//! grid edge, growing on a bite, detecting a self-bite, the touch-region
//! choices of the pause screens, and the frame and field painting.  The
//! touch panel and the clock stay with the shell, which hands in the touch
//! points and runs the waiting loops.

use crate::bmp::spec_pixel_data_offset;
use crate::geom::{lemma_row_major_in_range, lemma_row_major_injective};
use crate::graphics::{
    covers_pixels, drawable, rot0_drawn, rot180_drawn, rot270_drawn, rot90_drawn, square_painted,
    Color, Graphics, RotDirection, Surface,
};
use crate::random::{spec_random_range, Random};
use crate::{HEIGHT, WIDTH};
use vstd::prelude::*;

verus! {

/// Side of one grid block in pixels.
pub const GRID_BLOCK_SIZE: usize = 10;

/// Grid columns on the display.
pub const GRID_WIDTH: usize = WIDTH / GRID_BLOCK_SIZE;

/// Grid rows on the display.
pub const GRID_HEIGHT: usize = HEIGHT / GRID_BLOCK_SIZE;

/// The way the snake's head is facing.
#[derive(Clone, Copy, PartialEq, Eq, Structural, Debug)]
pub enum Direction {
    Up,
    Down,
    Left,
    Right,
}

/// Possible tiles inside of the game grid.
#[derive(Clone, Copy, PartialEq, Eq, Structural, Debug)]
pub enum Tile {
    Empty,
    SnakeHead(Direction),
    SnakeBody(Direction),
    SnakeTail(Direction),
    Apple,
}

/// A position lies on the grid.
pub open spec fn pos_in_grid(p: (usize, usize)) -> bool {
    p.0 < GRID_WIDTH && p.1 < GRID_HEIGHT
}

/// Contains all necessary state information of a game.
pub struct Game {
    pub graphics: Graphics,
    pub random_gen: Random,
    /// The grid tiles, one column after another: column `x` occupies the
    /// `GRID_HEIGHT` entries starting at `x * GRID_HEIGHT`.
    pub grid: Vec<Tile>,
    pub snake_head_position: (usize, usize),
    pub snake_body_position: Vec<(usize, usize)>,
    pub snake_tail_position: (usize, usize),
    pub former_snake_tail: (usize, usize),
    pub apple_position: (usize, usize),
    pub apple_counter: usize,
}

/// The concrete grid dimensions, spelled out once.
pub proof fn lemma_grid_dims()
    ensures
        GRID_WIDTH == 48,
        GRID_HEIGHT == 27,
        GRID_WIDTH * GRID_HEIGHT == 1296,
        GRID_HEIGHT * GRID_WIDTH == 1296,
{
}

impl Game {
    /// The tile stored at grid cell `(x, y)`.
    pub open spec fn grid_at(&self, x: int, y: int) -> Tile {
        self.grid@[x * GRID_HEIGHT + y]
    }

    /// The tile under the snake's head.
    pub open spec fn head_tile(&self) -> Tile {
        self.grid_at(self.snake_head_position.0 as int, self.snake_head_position.1 as int)
    }

    /// The grid holds one tile per cell and every tracked position lies on
    /// it; the body is never empty.
    pub open spec fn wf(&self) -> bool {
        &&& self.graphics.wf()
        &&& self.grid@.len() == GRID_WIDTH * GRID_HEIGHT
        &&& pos_in_grid(self.snake_head_position)
        &&& self.snake_body_position@.len() >= 1
        &&& forall|i: int|
            0 <= i < self.snake_body_position@.len() ==> pos_in_grid(
                #[trigger] self.snake_body_position@[i],
            )
        &&& pos_in_grid(self.snake_tail_position)
        &&& pos_in_grid(self.former_snake_tail)
        &&& pos_in_grid(self.apple_position)
    }

    /// Reads the tile at grid cell `(x, y)`.
    pub fn get_tile(&self, x: usize, y: usize) -> (t: Tile)
        requires
            self.grid@.len() == GRID_WIDTH * GRID_HEIGHT,
            x < GRID_WIDTH,
            y < GRID_HEIGHT,
        ensures
            t == self.grid_at(x as int, y as int),
    {
        proof {
            lemma_grid_dims();
            lemma_row_major_in_range(y as int, x as int, GRID_HEIGHT as int, GRID_WIDTH as int);
        }
        self.grid[x * GRID_HEIGHT + y]
    }

    /// Stores tile `t` at grid cell `(x, y)`; everything else is untouched.
    fn set_tile(&mut self, x: usize, y: usize, t: Tile)
        requires
            old(self).grid@.len() == GRID_WIDTH * GRID_HEIGHT,
            x < GRID_WIDTH,
            y < GRID_HEIGHT,
        ensures
            final(self).grid@.len() == old(self).grid@.len(),
            forall|gx: int, gy: int|
                0 <= gx < GRID_WIDTH && 0 <= gy < GRID_HEIGHT ==> #[trigger] final(self).grid_at(
                    gx,
                    gy,
                ) == (if gx == x && gy == y {
                    t
                } else {
                    old(self).grid_at(gx, gy)
                }),
            final(self).graphics == old(self).graphics,
            final(self).random_gen == old(self).random_gen,
            final(self).snake_head_position == old(self).snake_head_position,
            final(self).snake_body_position == old(self).snake_body_position,
            final(self).snake_tail_position == old(self).snake_tail_position,
            final(self).former_snake_tail == old(self).former_snake_tail,
            final(self).apple_position == old(self).apple_position,
            final(self).apple_counter == old(self).apple_counter,
    {
        proof {
            lemma_grid_dims();
            lemma_row_major_in_range(y as int, x as int, GRID_HEIGHT as int, GRID_WIDTH as int);
        }
        let idx = x * GRID_HEIGHT + y;
        self.grid.set(idx, t);
        proof {
            assert forall|gx: int, gy: int|
                0 <= gx < GRID_WIDTH && 0 <= gy < GRID_HEIGHT implies #[trigger] final(self).grid_at(gx, gy) == (if gx == x && gy == y {
                t
            } else {
                old(self).grid_at(gx, gy)
            }) by {
                lemma_row_major_in_range(gy, gx, GRID_HEIGHT as int, GRID_WIDTH as int);
                if gx * GRID_HEIGHT + gy == idx {
                    lemma_row_major_injective(gy, gx, y as int, x as int, GRID_HEIGHT as int);
                }
            }
        }
    }
}

/// A grid of `GRID_WIDTH * GRID_HEIGHT` empty tiles.
fn empty_grid() -> (g: Vec<Tile>)
    ensures
        g@.len() == GRID_WIDTH * GRID_HEIGHT,
        forall|k: int| 0 <= k < g@.len() ==> g@[k] is Empty,
{
    proof {
        lemma_grid_dims();
    }
    let total = GRID_WIDTH * GRID_HEIGHT;
    let mut g: Vec<Tile> = Vec::new();
    let mut i: usize = 0;
    while i < total
        invariant
            i <= total,
            g@.len() == i,
            forall|k: int| 0 <= k < i ==> g@[k] is Empty,
        decreases total - i,
    {
        g.push(Tile::Empty);
        i = i + 1;
    }
    g
}

impl Game {
    /// Create a new game: the snake lies horizontally in the middle of the
    /// field, the apple waits at the left edge, and the one head tile on
    /// the grid faces right.  (The head tile sits one cell ahead of the
    /// tracked head position, as it always has.)
    pub fn new(graphics: Graphics, random_gen: Random) -> (g: Game)
        requires
            graphics.wf(),
        ensures
            g.wf(),
            g.graphics == graphics,
            g.random_gen == random_gen,
            g.snake_head_position == ((24usize, 10usize)),
            g.snake_body_position@ == seq![(23usize, 10usize), (22usize, 10usize)],
            g.snake_tail_position == ((21usize, 10usize)),
            g.former_snake_tail == ((20usize, 10usize)),
            g.apple_position == ((1usize, 10usize)),
            g.apple_counter == 0,
            forall|gx: int, gy: int|
                0 <= gx < GRID_WIDTH && 0 <= gy < GRID_HEIGHT ==> #[trigger] g.grid_at(gx, gy)
                    == (if gx == 25 && gy == 10 {
                    Tile::SnakeHead(Direction::Right)
                } else {
                    Tile::Empty
                }),
    {
        let mut body: Vec<(usize, usize)> = Vec::new();
        body.push((23, 10));
        body.push((22, 10));
        proof {
            assert(body@ =~= seq![(23usize, 10usize), (22usize, 10usize)]);
        }
        let mut return_game = Game {
            graphics,
            random_gen,
            grid: empty_grid(),
            snake_head_position: (24, 10),
            snake_body_position: body,
            snake_tail_position: (21, 10),
            former_snake_tail: (20, 10),
            apple_position: (1, 10),
            apple_counter: 0,
        };
        proof {
            assert forall|gx: int, gy: int|
                0 <= gx < GRID_WIDTH && 0 <= gy < GRID_HEIGHT implies #[trigger] return_game
                .grid_at(gx, gy) is Empty by {
                lemma_row_major_in_range(gy, gx, GRID_HEIGHT as int, GRID_WIDTH as int);
            }
        }
        return_game.set_tile(25, 10, Tile::SnakeHead(Direction::Right));
        return_game
    }
}

/// How one step of the snake relates the new state to the old: the head
/// advances to `(nx, ny)` and its grid tile moves with it, the first body
/// segment takes the head's old place while the last one becomes the tail,
/// and the old tail is remembered for erasing.  Nothing else changes.
pub open spec fn moved_to(pre: Game, post: Game, nx: int, ny: int, d: Direction) -> bool {
    &&& post.grid@.len() == pre.grid@.len()
    &&& forall|gx: int, gy: int|
        0 <= gx < GRID_WIDTH && 0 <= gy < GRID_HEIGHT ==> #[trigger] post.grid_at(gx, gy) == (if gx
            == nx && gy == ny {
            Tile::SnakeHead(d)
        } else if gx == pre.snake_head_position.0 && gy == pre.snake_head_position.1 {
            Tile::Empty
        } else {
            pre.grid_at(gx, gy)
        })
    &&& post.snake_head_position.0 == nx
    &&& post.snake_head_position.1 == ny
    &&& post.snake_body_position@ == seq![pre.snake_head_position].add(
        pre.snake_body_position@.drop_last(),
    )
    &&& post.snake_tail_position == pre.snake_body_position@.last()
    &&& post.former_snake_tail == pre.snake_tail_position
    &&& post.graphics == pre.graphics
    &&& post.random_gen == pre.random_gen
    &&& post.apple_position == pre.apple_position
    &&& post.apple_counter == pre.apple_counter
}

/// One step upward.
pub open spec fn moved_up(pre: Game, post: Game) -> bool {
    moved_to(
        pre,
        post,
        pre.snake_head_position.0 as int,
        pre.snake_head_position.1 - 1,
        Direction::Up,
    )
}

/// One step downward.
pub open spec fn moved_down(pre: Game, post: Game) -> bool {
    moved_to(
        pre,
        post,
        pre.snake_head_position.0 as int,
        pre.snake_head_position.1 + 1,
        Direction::Down,
    )
}

/// One step to the left.
pub open spec fn moved_left(pre: Game, post: Game) -> bool {
    moved_to(
        pre,
        post,
        pre.snake_head_position.0 - 1,
        pre.snake_head_position.1 as int,
        Direction::Left,
    )
}

/// One step to the right.
pub open spec fn moved_right(pre: Game, post: Game) -> bool {
    moved_to(
        pre,
        post,
        pre.snake_head_position.0 + 1,
        pre.snake_head_position.1 as int,
        Direction::Right,
    )
}

impl Game {
    /// Pulls the body after the head: remembers the tail, makes the last
    /// body segment the new tail, shifts every segment back by one, and
    /// puts the head's position at the front of the body.
    #[verifier::loop_isolation(false)]
    fn advance_tail(&mut self)
        requires
            old(self).snake_body_position@.len() >= 1,
        ensures
            final(self).snake_body_position@ == seq![old(self).snake_head_position].add(
                old(self).snake_body_position@.drop_last(),
            ),
            final(self).snake_tail_position == old(self).snake_body_position@.last(),
            final(self).former_snake_tail == old(self).snake_tail_position,
            final(self).grid == old(self).grid,
            final(self).graphics == old(self).graphics,
            final(self).random_gen == old(self).random_gen,
            final(self).snake_head_position == old(self).snake_head_position,
            final(self).apple_position == old(self).apple_position,
            final(self).apple_counter == old(self).apple_counter,
    {
        self.former_snake_tail = self.snake_tail_position;
        let len = self.snake_body_position.len();
        self.snake_tail_position = self.snake_body_position[len - 1];
        let mut z = len - 1;
        while z >= 1
            invariant
                z <= len - 1,
                self.snake_body_position@.len() == len,
                forall|k: int|
                    z < k < len ==> #[trigger] self.snake_body_position@[k] == old(
                        self,
                    ).snake_body_position@[k - 1],
                forall|k: int|
                    0 <= k <= z ==> #[trigger] self.snake_body_position@[k] == old(
                        self,
                    ).snake_body_position@[k],
                self.snake_tail_position == old(self).snake_body_position@.last(),
                self.former_snake_tail == old(self).snake_tail_position,
                self.grid == old(self).grid,
                self.graphics == old(self).graphics,
                self.random_gen == old(self).random_gen,
                self.snake_head_position == old(self).snake_head_position,
                self.apple_position == old(self).apple_position,
                self.apple_counter == old(self).apple_counter,
            decreases z,
        {
            let v = self.snake_body_position[z - 1];
            self.snake_body_position.set(z, v);
            z = z - 1;
        }
        self.snake_body_position.set(0, self.snake_head_position);
        proof {
            assert(self.snake_body_position@ =~= seq![old(self).snake_head_position].add(
                old(self).snake_body_position@.drop_last(),
            ));
        }
    }

    /// Moves the head tile of the grid to `(nx, ny)` facing `d` and empties
    /// the cell the head sat on.
    fn move_head_tile(&mut self, nx: usize, ny: usize, d: Direction)
        requires
            old(self).grid@.len() == GRID_WIDTH * GRID_HEIGHT,
            nx < GRID_WIDTH,
            ny < GRID_HEIGHT,
            pos_in_grid(old(self).snake_head_position),
            !(nx == old(self).snake_head_position.0 && ny == old(self).snake_head_position.1),
        ensures
            final(self).grid@.len() == old(self).grid@.len(),
            forall|gx: int, gy: int|
                0 <= gx < GRID_WIDTH && 0 <= gy < GRID_HEIGHT ==> #[trigger] final(self).grid_at(
                    gx,
                    gy,
                ) == (if gx == nx && gy == ny {
                    Tile::SnakeHead(d)
                } else if gx == old(self).snake_head_position.0 && gy == old(
                    self,
                ).snake_head_position.1 {
                    Tile::Empty
                } else {
                    old(self).grid_at(gx, gy)
                }),
            final(self).graphics == old(self).graphics,
            final(self).random_gen == old(self).random_gen,
            final(self).snake_head_position == old(self).snake_head_position,
            final(self).snake_body_position == old(self).snake_body_position,
            final(self).snake_tail_position == old(self).snake_tail_position,
            final(self).former_snake_tail == old(self).former_snake_tail,
            final(self).apple_position == old(self).apple_position,
            final(self).apple_counter == old(self).apple_counter,
    {
        let x = self.snake_head_position.0;
        let y = self.snake_head_position.1;
        self.set_tile(nx, ny, Tile::SnakeHead(d));
        let ghost g1 = *self;
        self.set_tile(x, y, Tile::Empty);
        proof {
            assert forall|gx: int, gy: int|
                0 <= gx < GRID_WIDTH && 0 <= gy < GRID_HEIGHT implies #[trigger] self.grid_at(
                gx,
                gy,
            ) == (if gx == nx && gy == ny {
                Tile::SnakeHead(d)
            } else if gx == x && gy == y {
                Tile::Empty
            } else {
                old(self).grid_at(gx, gy)
            }) by {
                assert(g1.grid_at(gx, gy) == g1.grid_at(gx, gy));
            }
        }
    }

    /// Moves position of the snake upward.
    fn move_up(&mut self)
        requires
            old(self).wf(),
            old(self).snake_head_position.1 >= 1,
        ensures
            final(self).wf(),
            moved_up(*old(self), *final(self)),
    {
        let x = self.snake_head_position.0;
        let y = self.snake_head_position.1;
        self.move_head_tile(x, y - 1, Direction::Up);
        let ghost ga = *self;
        self.advance_tail();
        self.snake_head_position = (x, y - 1);
        proof {
            assert forall|gx: int, gy: int|
                0 <= gx < GRID_WIDTH && 0 <= gy < GRID_HEIGHT implies #[trigger] self.grid_at(
                gx,
                gy,
            ) == ga.grid_at(gx, gy) by {}
        }
    }

    /// Moves position of the snake downward.
    fn move_down(&mut self)
        requires
            old(self).wf(),
            old(self).snake_head_position.1 + 1 < GRID_HEIGHT,
        ensures
            final(self).wf(),
            moved_down(*old(self), *final(self)),
    {
        let x = self.snake_head_position.0;
        let y = self.snake_head_position.1;
        self.move_head_tile(x, y + 1, Direction::Down);
        let ghost ga = *self;
        self.advance_tail();
        self.snake_head_position = (x, y + 1);
        proof {
            assert forall|gx: int, gy: int|
                0 <= gx < GRID_WIDTH && 0 <= gy < GRID_HEIGHT implies #[trigger] self.grid_at(
                gx,
                gy,
            ) == ga.grid_at(gx, gy) by {}
        }
    }

    /// Moves position of the snake to the left.
    fn move_left(&mut self)
        requires
            old(self).wf(),
            old(self).snake_head_position.0 >= 1,
        ensures
            final(self).wf(),
            moved_left(*old(self), *final(self)),
    {
        let x = self.snake_head_position.0;
        let y = self.snake_head_position.1;
        self.move_head_tile(x - 1, y, Direction::Left);
        let ghost ga = *self;
        self.advance_tail();
        self.snake_head_position = (x - 1, y);
        proof {
            assert forall|gx: int, gy: int|
                0 <= gx < GRID_WIDTH && 0 <= gy < GRID_HEIGHT implies #[trigger] self.grid_at(
                gx,
                gy,
            ) == ga.grid_at(gx, gy) by {}
        }
    }

    /// Moves position of the snake to the right.
    fn move_right(&mut self)
        requires
            old(self).wf(),
            old(self).snake_head_position.0 + 1 < GRID_WIDTH,
        ensures
            final(self).wf(),
            moved_right(*old(self), *final(self)),
    {
        let x = self.snake_head_position.0;
        let y = self.snake_head_position.1;
        self.move_head_tile(x + 1, y, Direction::Right);
        let ghost ga = *self;
        self.advance_tail();
        self.snake_head_position = (x + 1, y);
        proof {
            assert forall|gx: int, gy: int|
                0 <= gx < GRID_WIDTH && 0 <= gy < GRID_HEIGHT implies #[trigger] self.grid_at(
                gx,
                gy,
            ) == ga.grid_at(gx, gy) by {}
        }
    }
}

/// What a straight step does: the step in the direction the head tile
/// faces, and nothing when the head tile is not a head at all.
pub open spec fn straight_post(pre: Game, post: Game) -> bool {
    if pre.head_tile() == Tile::SnakeHead(Direction::Up) {
        moved_up(pre, post)
    } else if pre.head_tile() == Tile::SnakeHead(Direction::Down) {
        moved_down(pre, post)
    } else if pre.head_tile() == Tile::SnakeHead(Direction::Left) {
        moved_left(pre, post)
    } else if pre.head_tile() == Tile::SnakeHead(Direction::Right) {
        moved_right(pre, post)
    } else {
        post == pre
    }
}

/// What a right turn does: the step a quarter turn clockwise from the
/// direction the head tile faces.
pub open spec fn turn_right_post(pre: Game, post: Game) -> bool {
    if pre.head_tile() == Tile::SnakeHead(Direction::Up) {
        moved_right(pre, post)
    } else if pre.head_tile() == Tile::SnakeHead(Direction::Down) {
        moved_left(pre, post)
    } else if pre.head_tile() == Tile::SnakeHead(Direction::Left) {
        moved_up(pre, post)
    } else if pre.head_tile() == Tile::SnakeHead(Direction::Right) {
        moved_down(pre, post)
    } else {
        post == pre
    }
}

/// What a left turn does: the step a quarter turn counter-clockwise from
/// the direction the head tile faces.
pub open spec fn turn_left_post(pre: Game, post: Game) -> bool {
    if pre.head_tile() == Tile::SnakeHead(Direction::Up) {
        moved_left(pre, post)
    } else if pre.head_tile() == Tile::SnakeHead(Direction::Down) {
        moved_right(pre, post)
    } else if pre.head_tile() == Tile::SnakeHead(Direction::Left) {
        moved_down(pre, post)
    } else if pre.head_tile() == Tile::SnakeHead(Direction::Right) {
        moved_up(pre, post)
    } else {
        post == pre
    }
}

impl Game {
    /// The straight step stays on the grid.
    pub open spec fn can_move_straight(&self) -> bool {
        if self.head_tile() == Tile::SnakeHead(Direction::Up) {
            self.snake_head_position.1 >= 1
        } else if self.head_tile() == Tile::SnakeHead(Direction::Down) {
            self.snake_head_position.1 + 1 < GRID_HEIGHT
        } else if self.head_tile() == Tile::SnakeHead(Direction::Left) {
            self.snake_head_position.0 >= 1
        } else if self.head_tile() == Tile::SnakeHead(Direction::Right) {
            self.snake_head_position.0 + 1 < GRID_WIDTH
        } else {
            true
        }
    }

    /// The right turn stays on the grid.
    pub open spec fn can_turn_right(&self) -> bool {
        if self.head_tile() == Tile::SnakeHead(Direction::Up) {
            self.snake_head_position.0 + 1 < GRID_WIDTH
        } else if self.head_tile() == Tile::SnakeHead(Direction::Down) {
            self.snake_head_position.0 >= 1
        } else if self.head_tile() == Tile::SnakeHead(Direction::Left) {
            self.snake_head_position.1 >= 1
        } else if self.head_tile() == Tile::SnakeHead(Direction::Right) {
            self.snake_head_position.1 + 1 < GRID_HEIGHT
        } else {
            true
        }
    }

    /// The left turn stays on the grid.
    pub open spec fn can_turn_left(&self) -> bool {
        if self.head_tile() == Tile::SnakeHead(Direction::Up) {
            self.snake_head_position.0 >= 1
        } else if self.head_tile() == Tile::SnakeHead(Direction::Down) {
            self.snake_head_position.0 + 1 < GRID_WIDTH
        } else if self.head_tile() == Tile::SnakeHead(Direction::Left) {
            self.snake_head_position.1 + 1 < GRID_HEIGHT
        } else if self.head_tile() == Tile::SnakeHead(Direction::Right) {
            self.snake_head_position.1 >= 1
        } else {
            true
        }
    }

    /// Calls the correct function to move the snake straight forward.
    pub fn move_straight(&mut self)
        requires
            old(self).wf(),
            old(self).can_move_straight(),
        ensures
            final(self).wf(),
            straight_post(*old(self), *final(self)),
    {
        let hx = self.snake_head_position.0;
        let hy = self.snake_head_position.1;
        let t = self.get_tile(hx, hy);
        if t == Tile::SnakeHead(Direction::Up) {
            self.move_up();
        } else if t == Tile::SnakeHead(Direction::Down) {
            self.move_down();
        } else if t == Tile::SnakeHead(Direction::Left) {
            self.move_left();
        } else if t == Tile::SnakeHead(Direction::Right) {
            self.move_right();
        }
    }

    /// Calls the correct function to turn the snake to the right.
    pub fn turn_right(&mut self)
        requires
            old(self).wf(),
            old(self).can_turn_right(),
        ensures
            final(self).wf(),
            turn_right_post(*old(self), *final(self)),
    {
        let hx = self.snake_head_position.0;
        let hy = self.snake_head_position.1;
        let t = self.get_tile(hx, hy);
        if t == Tile::SnakeHead(Direction::Up) {
            self.move_right();
        } else if t == Tile::SnakeHead(Direction::Down) {
            self.move_left();
        } else if t == Tile::SnakeHead(Direction::Left) {
            self.move_up();
        } else if t == Tile::SnakeHead(Direction::Right) {
            self.move_down();
        }
    }

    /// Calls the correct function to turn the snake to the left.
    pub fn turn_left(&mut self)
        requires
            old(self).wf(),
            old(self).can_turn_left(),
        ensures
            final(self).wf(),
            turn_left_post(*old(self), *final(self)),
    {
        let hx = self.snake_head_position.0;
        let hy = self.snake_head_position.1;
        let t = self.get_tile(hx, hy);
        if t == Tile::SnakeHead(Direction::Up) {
            self.move_left();
        } else if t == Tile::SnakeHead(Direction::Down) {
            self.move_right();
        } else if t == Tile::SnakeHead(Direction::Left) {
            self.move_down();
        } else if t == Tile::SnakeHead(Direction::Right) {
            self.move_up();
        }
    }
}

/// What an edge wrap does: the head jumps to `(nx, ny)` facing `d`, its
/// grid tile jumps with it, and nothing else moves.
pub open spec fn wrapped_to(pre: Game, post: Game, nx: int, ny: int, d: Direction) -> bool {
    &&& post.grid@.len() == pre.grid@.len()
    &&& forall|gx: int, gy: int|
        0 <= gx < GRID_WIDTH && 0 <= gy < GRID_HEIGHT ==> #[trigger] post.grid_at(gx, gy) == (if gx
            == nx && gy == ny {
            Tile::SnakeHead(d)
        } else if gx == pre.snake_head_position.0 && gy == pre.snake_head_position.1 {
            Tile::Empty
        } else {
            pre.grid_at(gx, gy)
        })
    &&& post.snake_head_position.0 == nx
    &&& post.snake_head_position.1 == ny
    &&& post.snake_body_position == pre.snake_body_position
    &&& post.snake_tail_position == pre.snake_tail_position
    &&& post.former_snake_tail == pre.former_snake_tail
    &&& post.graphics == pre.graphics
    &&& post.random_gen == pre.random_gen
    &&& post.apple_position == pre.apple_position
    &&& post.apple_counter == pre.apple_counter
}

/// What crossing the grid edge does: a head on the last column that is not
/// moving left reappears on column 1 facing right; one on column 0 not
/// moving right reappears on the second-to-last column facing left; one on
/// row 0 not moving down reappears on the second-to-last row facing up; one
/// on the last row not moving up reappears on row 1 facing down.  Away from
/// the edges nothing happens.
pub open spec fn edge_wrap_post(pre: Game, post: Game) -> bool {
    let t = pre.head_tile();
    let hx = pre.snake_head_position.0;
    let hy = pre.snake_head_position.1;
    if t != Tile::SnakeHead(Direction::Left) && hx == GRID_WIDTH - 1 {
        wrapped_to(pre, post, 1, hy as int, Direction::Right)
    } else if t != Tile::SnakeHead(Direction::Right) && hx == 0 {
        wrapped_to(pre, post, GRID_WIDTH - 2, hy as int, Direction::Left)
    } else if t != Tile::SnakeHead(Direction::Down) && hy == 0 {
        wrapped_to(pre, post, hx as int, GRID_HEIGHT - 2, Direction::Up)
    } else if t != Tile::SnakeHead(Direction::Up) && hy == GRID_HEIGHT - 1 {
        wrapped_to(pre, post, hx as int, 1, Direction::Down)
    } else {
        post == pre
    }
}

impl Game {
    /// Wraps the snake's head around the edge of the grid.
    pub fn check_grid_edge(&mut self)
        requires
            old(self).wf(),
        ensures
            final(self).wf(),
            edge_wrap_post(*old(self), *final(self)),
    {
        let hx = self.snake_head_position.0;
        let hy = self.snake_head_position.1;
        let t = self.get_tile(hx, hy);
        if t != Tile::SnakeHead(Direction::Left) && hx == GRID_WIDTH - 1 {
            self.set_tile(hx, hy, Tile::Empty);
            let ghost ga = *self;
            self.snake_head_position = (1, hy);
            let ghost gb = *self;
            self.set_tile(1, hy, Tile::SnakeHead(Direction::Right));
            proof {
                assert forall|gx: int, gy: int|
                    0 <= gx < GRID_WIDTH && 0 <= gy < GRID_HEIGHT implies #[trigger] self.grid_at(
                    gx,
                    gy,
                ) == (if gx == 1 && gy == hy {
                    Tile::SnakeHead(Direction::Right)
                } else if gx == hx && gy == hy {
                    Tile::Empty
                } else {
                    old(self).grid_at(gx, gy)
                }) by {
                    assert(gb.grid_at(gx, gy) == ga.grid_at(gx, gy));
                }
            }
        } else if t != Tile::SnakeHead(Direction::Right) && hx == 0 {
            self.set_tile(hx, hy, Tile::Empty);
            let ghost ga = *self;
            self.snake_head_position = (GRID_WIDTH - 2, hy);
            let ghost gb = *self;
            self.set_tile(GRID_WIDTH - 2, hy, Tile::SnakeHead(Direction::Left));
            proof {
                assert forall|gx: int, gy: int|
                    0 <= gx < GRID_WIDTH && 0 <= gy < GRID_HEIGHT implies #[trigger] self.grid_at(
                    gx,
                    gy,
                ) == (if gx == GRID_WIDTH - 2 && gy == hy {
                    Tile::SnakeHead(Direction::Left)
                } else if gx == hx && gy == hy {
                    Tile::Empty
                } else {
                    old(self).grid_at(gx, gy)
                }) by {
                    assert(gb.grid_at(gx, gy) == ga.grid_at(gx, gy));
                }
            }
        } else if t != Tile::SnakeHead(Direction::Down) && hy == 0 {
            self.set_tile(hx, hy, Tile::Empty);
            let ghost ga = *self;
            self.snake_head_position = (hx, GRID_HEIGHT - 2);
            let ghost gb = *self;
            self.set_tile(hx, GRID_HEIGHT - 2, Tile::SnakeHead(Direction::Up));
            proof {
                assert forall|gx: int, gy: int|
                    0 <= gx < GRID_WIDTH && 0 <= gy < GRID_HEIGHT implies #[trigger] self.grid_at(
                    gx,
                    gy,
                ) == (if gx == hx && gy == GRID_HEIGHT - 2 {
                    Tile::SnakeHead(Direction::Up)
                } else if gx == hx && gy == hy {
                    Tile::Empty
                } else {
                    old(self).grid_at(gx, gy)
                }) by {
                    assert(gb.grid_at(gx, gy) == ga.grid_at(gx, gy));
                }
            }
        } else if t != Tile::SnakeHead(Direction::Up) && hy == GRID_HEIGHT - 1 {
            self.set_tile(hx, hy, Tile::Empty);
            let ghost ga = *self;
            self.snake_head_position = (hx, 1);
            let ghost gb = *self;
            self.set_tile(hx, 1, Tile::SnakeHead(Direction::Down));
            proof {
                assert forall|gx: int, gy: int|
                    0 <= gx < GRID_WIDTH && 0 <= gy < GRID_HEIGHT implies #[trigger] self.grid_at(
                    gx,
                    gy,
                ) == (if gx == hx && gy == 1 {
                    Tile::SnakeHead(Direction::Down)
                } else if gx == hx && gy == hy {
                    Tile::Empty
                } else {
                    old(self).grid_at(gx, gy)
                }) by {
                    assert(gb.grid_at(gx, gy) == ga.grid_at(gx, gy));
                }
            }
        }
    }

    /// Grows the snake and relocates the apple when the head reaches it:
    /// the old tail joins the body, the remembered tail becomes the tail,
    /// the erase marker is cleared, a new apple position is drawn from the
    /// entropy store (the apple stays put if the store cannot serve both
    /// coordinates), and the score rises by one.
    pub fn snake_bite(&mut self)
        requires
            old(self).wf(),
            old(self).snake_head_position == old(self).apple_position ==> old(self).apple_counter
                < usize::MAX,
        ensures
            final(self).wf(),
            old(self).snake_head_position != old(self).apple_position ==> *final(self) == *old(
                self,
            ),
            old(self).snake_head_position == old(self).apple_position ==> {
                let r1 = spec_random_range(old(self).random_gen.entropy(), 1, 47);
                let r2 = spec_random_range(r1.1, 1, 26);
                &&& final(self).snake_body_position@ == old(self).snake_body_position@.push(
                    old(self).snake_tail_position,
                )
                &&& final(self).snake_tail_position == old(self).former_snake_tail
                &&& final(self).former_snake_tail == ((0usize, 0usize))
                &&& final(self).apple_counter == old(self).apple_counter + 1
                &&& final(self).random_gen.entropy() == r2.1
                &&& (r1.0 is Ok && r2.0 is Ok ==> final(self).apple_position == ((
                r1.0->Ok_0 as usize,
                r2.0->Ok_0 as usize,
                )))
                &&& ((r1.0 is Err || r2.0 is Err) ==> final(self).apple_position == old(
                    self,
                ).apple_position)
                &&& final(self).grid == old(self).grid
                &&& final(self).graphics == old(self).graphics
                &&& final(self).snake_head_position == old(self).snake_head_position
            },
    {
        if self.snake_head_position.0 == self.apple_position.0 && self.snake_head_position.1
            == self.apple_position.1 {
            let tail = self.snake_tail_position;
            self.snake_body_position.push(tail);
            self.snake_tail_position = self.former_snake_tail;
            self.former_snake_tail = (0, 0);
            let rx = self.random_gen.random_range(1, (WIDTH / GRID_BLOCK_SIZE) as u32 - 1);
            let ry = self.random_gen.random_range(1, (HEIGHT / GRID_BLOCK_SIZE) as u32 - 1);
            match (rx, ry) {
                (Ok(x), Ok(y)) => {
                    self.apple_position = (x as usize, y as usize);
                },
                _ => {},
            }
            self.apple_counter = self.apple_counter + 1;
            proof {
                assert((WIDTH / GRID_BLOCK_SIZE) as u32 - 1 == 47u32);
                assert((HEIGHT / GRID_BLOCK_SIZE) as u32 - 1 == 26u32);
            }
        }
    }

    /// Whether the snake's head sits on its body or its tail.
    pub fn check_selfbite(&self) -> (bitten: bool)
        ensures
            bitten == ((exists|i: int|
                0 <= i < self.snake_body_position@.len() && #[trigger] self.snake_body_position@[i]
                    == self.snake_head_position) || self.snake_head_position
                == self.snake_tail_position),
    {
        let mut i: usize = 0;
        let len = self.snake_body_position.len();
        while i < len
            invariant
                i <= len,
                len == self.snake_body_position@.len(),
                forall|k: int|
                    0 <= k < i ==> #[trigger] self.snake_body_position@[k]
                        != self.snake_head_position,
            decreases len - i,
        {
            let p = self.snake_body_position[i];
            if p.0 == self.snake_head_position.0 && p.1 == self.snake_head_position.1 {
                return true;
            }
            i = i + 1;
        }
        self.snake_head_position.0 == self.snake_tail_position.0 && self.snake_head_position.1
            == self.snake_tail_position.1
    }

    /// The pause between two render steps, in ticks: it starts at 100 and
    /// shrinks by 5 per apple eaten; once the subtraction would wrap it
    /// falls back to the full 100.
    pub fn return_wait_tick(&mut self) -> (tick: usize)
        requires
            old(self).apple_counter <= usize::MAX / 5,
        ensures
            *final(self) == *old(self),
            tick == (if old(self).apple_counter * 5 <= 100 {
                100 - old(self).apple_counter * 5
            } else {
                100
            }),
    {
        let tick: usize = 100;
        let used = self.apple_counter * 5;
        if used <= tick {
            return tick - used;
        }
        tick
    }
}

impl Game {
    /// Sets the direction chosen by the user: a lone touch on the left
    /// third turns left, one on the right third turns right, one in the
    /// middle asks for the pause screen, and anything else (including no
    /// touch) moves the snake straight ahead.  Returns whether the pause
    /// screen was asked for.
    pub fn move_snake(&mut self, touches: &Vec<(u16, u16)>) -> (pause: bool)
        requires
            old(self).wf(),
            touches@.len() == 1 && touches@[0].0 < 100 ==> old(self).can_turn_left(),
            touches@.len() == 1 && touches@[0].0 > 380 ==> old(self).can_turn_right(),
            touches@.len() != 1 ==> old(self).can_move_straight(),
        ensures
            final(self).wf(),
            touches@.len() == 1 ==> {
                let x = touches@[0].0;
                &&& (x < 100 ==> turn_left_post(*old(self), *final(self)) && !pause)
                &&& (x > 380 ==> turn_right_post(*old(self), *final(self)) && !pause)
                &&& (100 < x < 380 ==> *final(self) == *old(self) && pause)
                &&& ((x == 100 || x == 380) ==> *final(self) == *old(self) && !pause)
            },
            touches@.len() != 1 ==> straight_post(*old(self), *final(self)) && !pause,
    {
        if touches.len() == 1 {
            let x = touches[0].0;
            if x < 100 {
                self.turn_left();
            } else if x > 380 {
                self.turn_right();
            } else if x > 100 && x < 380 {
                return true;
            }
            false
        } else {
            self.move_straight();
            false
        }
    }
}

/// The positions the field frame covers: a top row band at `y = 8`, a
/// bottom row band at `y = 261`, and two column bands at `x = 8` and
/// `x = 470`, each one pixel wide.
pub open spec fn frame_pos(px: int, py: int) -> bool {
    (8 <= px < 470 && (py == 8 || py == 261)) || ((px == 8 || px == 470) && 8 <= py < 262)
}

/// Opaque black, the frame color.
pub open spec fn frame_black() -> Color {
    Color { red: 0, green: 0, blue: 0, alpha: 255 }
}

/// The field fill color.
pub open spec fn field_color() -> Color {
    Color { red: 209, green: 115, blue: 28, alpha: 255 }
}

impl Game {
    /// Draws a black frame around the game field on the first layer: every
    /// frame position turns black and every other pixel keeps its color.
    #[verifier::loop_isolation(false)]
    pub fn draw_frame(&mut self)
        requires
            old(self).graphics.wf(),
        ensures
            final(self).graphics.wf(),
            final(self).graphics.layer_1.same_bounds(&old(self).graphics.layer_1),
            final(self).graphics.layer_2 == old(self).graphics.layer_2,
            final(self).graphics.background() == old(self).graphics.background(),
            forall|px: int, py: int|
                final(self).graphics.layer_1.in_bounds(px, py) ==> #[trigger] final(self).graphics.layer_1.pixel(px, py) == (if frame_pos(px, py) {
                    frame_black()
                } else {
                    old(self).graphics.layer_1.pixel(px, py)
                }),
            final(self).random_gen == old(self).random_gen,
            final(self).grid == old(self).grid,
            final(self).snake_head_position == old(self).snake_head_position,
            final(self).snake_body_position == old(self).snake_body_position,
            final(self).snake_tail_position == old(self).snake_tail_position,
            final(self).former_snake_tail == old(self).former_snake_tail,
            final(self).apple_position == old(self).apple_position,
            final(self).apple_counter == old(self).apple_counter,
    {
        let black = Color::rgba(0, 0, 0, 255);
        let mut i: usize = GRID_BLOCK_SIZE - 2;
        while i < WIDTH - GRID_BLOCK_SIZE
            invariant
                8 <= i <= 470,
                self.graphics.wf(),
                self.graphics.layer_1.same_bounds(&old(self).graphics.layer_1),
                self.graphics.layer_2 == old(self).graphics.layer_2,
                self.graphics.background() == old(self).graphics.background(),
                forall|px: int, py: int|
                    self.graphics.layer_1.in_bounds(px, py) ==> #[trigger] self.graphics.layer_1.pixel(px, py) == (if 8 <= px < i && py == 8 {
                        frame_black()
                    } else {
                        old(self).graphics.layer_1.pixel(px, py)
                    }),
                self.random_gen == old(self).random_gen,
                self.grid == old(self).grid,
                self.snake_head_position == old(self).snake_head_position,
                self.snake_body_position == old(self).snake_body_position,
                self.snake_tail_position == old(self).snake_tail_position,
                self.former_snake_tail == old(self).former_snake_tail,
                self.apple_position == old(self).apple_position,
                self.apple_counter == old(self).apple_counter,
            decreases WIDTH - GRID_BLOCK_SIZE - i,
        {
            self.graphics.print_square_size_color_at(i, GRID_BLOCK_SIZE - 2, 1, black);
            i = i + 1;
        }
        let ghost s1 = self.graphics.layer_1;
        let mut i: usize = GRID_BLOCK_SIZE - 2;
        while i < WIDTH - GRID_BLOCK_SIZE
            invariant
                8 <= i <= 470,
                self.graphics.wf(),
                self.graphics.layer_1.same_bounds(&old(self).graphics.layer_1),
                self.graphics.layer_2 == old(self).graphics.layer_2,
                self.graphics.background() == old(self).graphics.background(),
                forall|px: int, py: int|
                    self.graphics.layer_1.in_bounds(px, py) ==> #[trigger] self.graphics.layer_1.pixel(px, py) == (if 8 <= px < i && py == 261 {
                        frame_black()
                    } else {
                        s1.pixel(px, py)
                    }),
                self.random_gen == old(self).random_gen,
                self.grid == old(self).grid,
                self.snake_head_position == old(self).snake_head_position,
                self.snake_body_position == old(self).snake_body_position,
                self.snake_tail_position == old(self).snake_tail_position,
                self.former_snake_tail == old(self).former_snake_tail,
                self.apple_position == old(self).apple_position,
                self.apple_counter == old(self).apple_counter,
            decreases WIDTH - GRID_BLOCK_SIZE - i,
        {
            self.graphics.print_square_size_color_at(i, HEIGHT - GRID_BLOCK_SIZE - 1, 1, black);
            i = i + 1;
        }
        let ghost s2 = self.graphics.layer_1;
        let mut i: usize = GRID_BLOCK_SIZE - 2;
        while i < HEIGHT - GRID_BLOCK_SIZE
            invariant
                8 <= i <= 262,
                self.graphics.wf(),
                self.graphics.layer_1.same_bounds(&old(self).graphics.layer_1),
                self.graphics.layer_2 == old(self).graphics.layer_2,
                self.graphics.background() == old(self).graphics.background(),
                forall|px: int, py: int|
                    self.graphics.layer_1.in_bounds(px, py) ==> #[trigger] self.graphics.layer_1.pixel(px, py) == (if px == 470 && 8 <= py < i {
                        frame_black()
                    } else {
                        s2.pixel(px, py)
                    }),
                self.random_gen == old(self).random_gen,
                self.grid == old(self).grid,
                self.snake_head_position == old(self).snake_head_position,
                self.snake_body_position == old(self).snake_body_position,
                self.snake_tail_position == old(self).snake_tail_position,
                self.former_snake_tail == old(self).former_snake_tail,
                self.apple_position == old(self).apple_position,
                self.apple_counter == old(self).apple_counter,
            decreases HEIGHT - GRID_BLOCK_SIZE - i,
        {
            self.graphics.print_square_size_color_at(WIDTH - GRID_BLOCK_SIZE, i, 1, black);
            i = i + 1;
        }
        let ghost s3 = self.graphics.layer_1;
        let mut i: usize = GRID_BLOCK_SIZE - 2;
        while i < HEIGHT - GRID_BLOCK_SIZE
            invariant
                8 <= i <= 262,
                self.graphics.wf(),
                self.graphics.layer_1.same_bounds(&old(self).graphics.layer_1),
                self.graphics.layer_2 == old(self).graphics.layer_2,
                self.graphics.background() == old(self).graphics.background(),
                forall|px: int, py: int|
                    self.graphics.layer_1.in_bounds(px, py) ==> #[trigger] self.graphics.layer_1.pixel(px, py) == (if px == 8 && 8 <= py < i {
                        frame_black()
                    } else {
                        s3.pixel(px, py)
                    }),
                self.random_gen == old(self).random_gen,
                self.grid == old(self).grid,
                self.snake_head_position == old(self).snake_head_position,
                self.snake_body_position == old(self).snake_body_position,
                self.snake_tail_position == old(self).snake_tail_position,
                self.former_snake_tail == old(self).former_snake_tail,
                self.apple_position == old(self).apple_position,
                self.apple_counter == old(self).apple_counter,
            decreases HEIGHT - GRID_BLOCK_SIZE - i,
        {
            self.graphics.print_square_size_color_at(GRID_BLOCK_SIZE - 2, i, 1, black);
            i = i + 1;
        }
        proof {
            assert forall|px: int, py: int|
                self.graphics.layer_1.in_bounds(px, py) implies #[trigger] self.graphics.layer_1.pixel(px, py) == (if frame_pos(px, py) {
                frame_black()
            } else {
                old(self).graphics.layer_1.pixel(px, py)
            }) by {
                assert(s3.pixel(px, py) == s3.pixel(px, py));
                assert(s2.pixel(px, py) == s2.pixel(px, py));
                assert(s1.pixel(px, py) == s1.pixel(px, py));
            }
        }
    }
}

impl Game {
    /// Fills the field area, five pixels in from every edge, with the
    /// field color on the first layer.
    #[verifier::loop_isolation(false)]
    pub fn set_backround_color(&mut self)
        requires
            old(self).graphics.wf(),
        ensures
            final(self).graphics.wf(),
            final(self).graphics.layer_1.same_bounds(&old(self).graphics.layer_1),
            final(self).graphics.layer_2 == old(self).graphics.layer_2,
            final(self).graphics.background() == old(self).graphics.background(),
            forall|px: int, py: int|
                final(self).graphics.layer_1.in_bounds(px, py) ==> #[trigger] final(self).graphics.layer_1.pixel(px, py) == (if 5 <= px < 475 && 5 <= py < 267 {
                    field_color()
                } else {
                    old(self).graphics.layer_1.pixel(px, py)
                }),
            final(self).random_gen == old(self).random_gen,
            final(self).grid == old(self).grid,
            final(self).snake_head_position == old(self).snake_head_position,
            final(self).snake_body_position == old(self).snake_body_position,
            final(self).snake_tail_position == old(self).snake_tail_position,
            final(self).former_snake_tail == old(self).former_snake_tail,
            final(self).apple_position == old(self).apple_position,
            final(self).apple_counter == old(self).apple_counter,
    {
        let fill = Color::rgba(209, 115, 28, 255);
        let mut x: usize = 5;
        while x < WIDTH - 5
            invariant
                5 <= x <= 475,
                self.graphics.wf(),
                self.graphics.layer_1.same_bounds(&old(self).graphics.layer_1),
                self.graphics.layer_2 == old(self).graphics.layer_2,
                self.graphics.background() == old(self).graphics.background(),
                forall|px: int, py: int|
                    self.graphics.layer_1.in_bounds(px, py) ==> #[trigger] self.graphics.layer_1.pixel(px, py) == (if 5 <= px < x && 5 <= py < 267 {
                        field_color()
                    } else {
                        old(self).graphics.layer_1.pixel(px, py)
                    }),
                self.random_gen == old(self).random_gen,
                self.grid == old(self).grid,
                self.snake_head_position == old(self).snake_head_position,
                self.snake_body_position == old(self).snake_body_position,
                self.snake_tail_position == old(self).snake_tail_position,
                self.former_snake_tail == old(self).former_snake_tail,
                self.apple_position == old(self).apple_position,
                self.apple_counter == old(self).apple_counter,
            decreases WIDTH - 5 - x,
        {
            let mut y: usize = 5;
            while y < HEIGHT - 5
                invariant
                    5 <= x < 475,
                    5 <= y <= 267,
                    self.graphics.wf(),
                    self.graphics.layer_1.same_bounds(&old(self).graphics.layer_1),
                    self.graphics.layer_2 == old(self).graphics.layer_2,
                    self.graphics.background() == old(self).graphics.background(),
                    forall|px: int, py: int|
                        self.graphics.layer_1.in_bounds(px, py) ==> #[trigger] self.graphics.layer_1.pixel(px, py) == (if (5 <= px < x && 5 <= py < 267) || (px == x && 5 <= py
                            < y) {
                            field_color()
                        } else {
                            old(self).graphics.layer_1.pixel(px, py)
                        }),
                    self.random_gen == old(self).random_gen,
                    self.grid == old(self).grid,
                    self.snake_head_position == old(self).snake_head_position,
                    self.snake_body_position == old(self).snake_body_position,
                    self.snake_tail_position == old(self).snake_tail_position,
                    self.former_snake_tail == old(self).former_snake_tail,
                    self.apple_position == old(self).apple_position,
                    self.apple_counter == old(self).apple_counter,
                decreases HEIGHT - 5 - y,
            {
                self.graphics.print_square_size_color_at(x, y, 1, fill);
                y = y + 1;
            }
            x = x + 1;
        }
    }
}

/// The grey of the body blocks.
pub open spec fn body_grey() -> Color {
    Color { red: 100, green: 100, blue: 100, alpha: 255 }
}

/// The red of the tail block.
pub open spec fn tail_red() -> Color {
    Color { red: 255, green: 0, blue: 0, alpha: 255 }
}

/// The transparent white that erases the former tail.
pub open spec fn erase_white() -> Color {
    Color { red: 255, green: 255, blue: 255, alpha: 0 }
}

/// Whether the apple lies one cell straight ahead of the head, so that the
/// head is drawn with its mouth open.
pub open spec fn head_mouth_open(pre: Game) -> bool {
    let hx = pre.snake_head_position.0 as int;
    let hy = pre.snake_head_position.1 as int;
    let ax = pre.apple_position.0 as int;
    let ay = pre.apple_position.1 as int;
    if pre.head_tile() == Tile::SnakeHead(Direction::Left) {
        hx == ax + 1 && hy == ay
    } else if pre.head_tile() == Tile::SnakeHead(Direction::Up) {
        hx == ax && hy == ay + 1
    } else if pre.head_tile() == Tile::SnakeHead(Direction::Right) {
        hx == ax - 1 && hy == ay
    } else if pre.head_tile() == Tile::SnakeHead(Direction::Down) {
        hx == ax && hy == ay - 1
    } else {
        hx == ax && hy == ay
    }
}

/// Surface `s` is the first layer of `pre` with the head bitmap drawn on
/// the head's block, rotated for the direction the head tile faces, with
/// the mouth-open asset when the apple lies straight ahead.
pub open spec fn head_drawn(pre: Game, s: Surface, open: Seq<u8>, closed: Seq<u8>) -> bool {
    let hx = pre.snake_head_position.0 * GRID_BLOCK_SIZE;
    let hy = pre.snake_head_position.1 * GRID_BLOCK_SIZE;
    let pic = if head_mouth_open(pre) {
        open
    } else {
        closed
    };
    if pre.head_tile() == Tile::SnakeHead(Direction::Left) {
        rot0_drawn(pre.graphics.layer_1, s, pic, hx as int, hy as int, true)
    } else if pre.head_tile() == Tile::SnakeHead(Direction::Up) {
        rot90_drawn(pre.graphics.layer_1, s, pic, hx as int, hy as int, true)
    } else if pre.head_tile() == Tile::SnakeHead(Direction::Right) {
        rot180_drawn(pre.graphics.layer_1, s, pic, hx as int, hy as int, true)
    } else if pre.head_tile() == Tile::SnakeHead(Direction::Down) {
        rot270_drawn(pre.graphics.layer_1, s, pic, hx as int, hy as int, true)
    } else {
        rot0_drawn(pre.graphics.layer_1, s, pic, hx as int, hy as int, true)
    }
}

/// Surface `s` is surface `s0` with a grey block painted on each position
/// of `body`, in order.
pub open spec fn body_blocks_painted(s0: Surface, s: Surface, body: Seq<(usize, usize)>) -> bool
    decreases body.len(),
{
    if body.len() == 0 {
        s == s0
    } else {
        exists|mid: Surface|
            #[trigger] square_painted(
                s0,
                mid,
                body[0].0 * GRID_BLOCK_SIZE,
                body[0].1 * GRID_BLOCK_SIZE,
                GRID_BLOCK_SIZE - 1,
                body_grey(),
            ) && body_blocks_painted(mid, s, body.drop_first())
    }
}

/// Painting one more block extends the chain at its end.
proof fn lemma_body_blocks_snoc(
    s0: Surface,
    mid: Surface,
    s: Surface,
    body: Seq<(usize, usize)>,
    p: (usize, usize),
)
    requires
        body_blocks_painted(s0, mid, body),
        square_painted(
            mid,
            s,
            p.0 * GRID_BLOCK_SIZE,
            p.1 * GRID_BLOCK_SIZE,
            GRID_BLOCK_SIZE - 1,
            body_grey(),
        ),
    ensures
        body_blocks_painted(s0, s, body.push(p)),
    decreases body.len(),
{
    if body.len() == 0 {
        assert(mid == s0);
        assert(body.push(p)[0] == p);
        assert(body.push(p).drop_first() =~= Seq::<(usize, usize)>::empty());
        assert(square_painted(
            s0,
            s,
            p.0 * GRID_BLOCK_SIZE,
            p.1 * GRID_BLOCK_SIZE,
            GRID_BLOCK_SIZE - 1,
            body_grey(),
        ));
        assert(body_blocks_painted(s, s, body.push(p).drop_first()));
    } else {
        let m = choose|m: Surface|
            #[trigger] square_painted(
                s0,
                m,
                body[0].0 * GRID_BLOCK_SIZE,
                body[0].1 * GRID_BLOCK_SIZE,
                GRID_BLOCK_SIZE - 1,
                body_grey(),
            ) && body_blocks_painted(m, mid, body.drop_first());
        lemma_body_blocks_snoc(m, mid, s, body.drop_first(), p);
        assert(body.push(p)[0] == body[0]);
        assert(body.push(p).drop_first() =~= body.drop_first().push(p));
        assert(square_painted(
            s0,
            m,
            body.push(p)[0].0 * GRID_BLOCK_SIZE,
            body.push(p)[0].1 * GRID_BLOCK_SIZE,
            GRID_BLOCK_SIZE - 1,
            body_grey(),
        ));
    }
}

/// Surface `s` is surface `s0` with the red tail block painted and, unless
/// the erase marker is cleared, the former tail block erased white.
pub open spec fn tail_and_former_painted(s0: Surface, s: Surface, pre: Game) -> bool {
    exists|mid: Surface|
        #[trigger] square_painted(
            s0,
            mid,
            pre.snake_tail_position.0 * GRID_BLOCK_SIZE,
            pre.snake_tail_position.1 * GRID_BLOCK_SIZE,
            GRID_BLOCK_SIZE - 1,
            tail_red(),
        ) && (if pre.former_snake_tail == ((0usize, 0usize)) {
            s == mid
        } else {
            square_painted(
                mid,
                s,
                pre.former_snake_tail.0 * GRID_BLOCK_SIZE,
                pre.former_snake_tail.1 * GRID_BLOCK_SIZE,
                GRID_BLOCK_SIZE as int,
                erase_white(),
            )
        })
}

impl Game {
    /// How the snake's head is rendered: the rotation of the head bitmap
    /// for the direction the head tile faces, and the cell one step ahead
    /// of the apple in that direction, which decides whether the mouth
    /// opens.
    pub fn head_render_params(&self) -> (rp: (RotDirection, (usize, usize)))
        requires
            self.wf(),
            self.head_tile() == Tile::SnakeHead(Direction::Right) ==> self.apple_position.0 >= 1,
            self.head_tile() == Tile::SnakeHead(Direction::Down) ==> self.apple_position.1 >= 1,
        ensures
            self.head_tile() == Tile::SnakeHead(Direction::Left) ==> rp.0 is R0 && rp.1.0
                == self.apple_position.0 + 1 && rp.1.1 == self.apple_position.1,
            self.head_tile() == Tile::SnakeHead(Direction::Up) ==> rp.0 is R90 && rp.1.0
                == self.apple_position.0 && rp.1.1 == self.apple_position.1 + 1,
            self.head_tile() == Tile::SnakeHead(Direction::Right) ==> rp.0 is R180 && rp.1.0
                == self.apple_position.0 - 1 && rp.1.1 == self.apple_position.1,
            self.head_tile() == Tile::SnakeHead(Direction::Down) ==> rp.0 is R270 && rp.1.0
                == self.apple_position.0 && rp.1.1 == self.apple_position.1 - 1,
            !(self.head_tile() is SnakeHead) ==> rp.0 is R0 && rp.1 == self.apple_position,
    {
        proof {
            lemma_grid_dims();
        }
        let hx = self.snake_head_position.0;
        let hy = self.snake_head_position.1;
        let t = self.get_tile(hx, hy);
        let ax = self.apple_position.0;
        let ay = self.apple_position.1;
        if t == Tile::SnakeHead(Direction::Left) {
            (RotDirection::R0, (ax + 1, ay))
        } else if t == Tile::SnakeHead(Direction::Up) {
            (RotDirection::R90, (ax, ay + 1))
        } else if t == Tile::SnakeHead(Direction::Right) {
            (RotDirection::R180, (ax - 1, ay))
        } else if t == Tile::SnakeHead(Direction::Down) {
            (RotDirection::R270, (ax, ay - 1))
        } else {
            (RotDirection::R0, (ax, ay))
        }
    }

    /// Draws current game state to the first layer: the head bitmap with
    /// its mouth open when the apple lies straight ahead, the body as grey
    /// blocks, the tail as a red block, the former tail erased white, and
    /// the apple bitmap.  The caller hands in the three bitmap assets; the
    /// game state itself is left untouched.
    #[verifier::loop_isolation(false)]
    pub fn draw_game(&mut self, mouth_open: &[u8], mouth_closed: &[u8], apple_pic: &[u8])
        requires
            old(self).wf(),
            old(self).head_tile() == Tile::SnakeHead(Direction::Right) ==> old(
                self,
            ).apple_position.0 >= 1,
            old(self).head_tile() == Tile::SnakeHead(Direction::Down) ==> old(
                self,
            ).apple_position.1 >= 1,
            drawable(mouth_open@) && covers_pixels(mouth_open@) && 1 <= spec_pixel_data_offset(
                mouth_open@,
            ),
            drawable(mouth_closed@) && covers_pixels(mouth_closed@) && 1 <= spec_pixel_data_offset(
                mouth_closed@,
            ),
            drawable(apple_pic@) && covers_pixels(apple_pic@),
        ensures
            final(self).wf(),
            final(self).graphics.layer_1.same_bounds(&old(self).graphics.layer_1),
            final(self).graphics.layer_2 == old(self).graphics.layer_2,
            final(self).graphics.background() == old(self).graphics.background(),
            final(self).random_gen == old(self).random_gen,
            final(self).grid == old(self).grid,
            final(self).snake_head_position == old(self).snake_head_position,
            final(self).snake_body_position == old(self).snake_body_position,
            final(self).snake_tail_position == old(self).snake_tail_position,
            final(self).former_snake_tail == old(self).former_snake_tail,
            final(self).apple_position == old(self).apple_position,
            final(self).apple_counter == old(self).apple_counter,
            (exists|s1: Surface, s2: Surface, s3: Surface|
                {
                    &&& #[trigger] head_drawn(*old(self), s1, mouth_open@, mouth_closed@)
                    &&& #[trigger] body_blocks_painted(s1, s2, old(self).snake_body_position@)
                    &&& #[trigger] tail_and_former_painted(s2, s3, *old(self))
                    &&& rot0_drawn(
                        s3,
                        final(self).graphics.layer_1,
                        apple_pic@,
                        old(self).apple_position.0 * GRID_BLOCK_SIZE,
                        old(self).apple_position.1 * GRID_BLOCK_SIZE,
                        true,
                    )
                }),
    {
        proof {
            lemma_grid_dims();
        }
        let rp = self.head_render_params();
        let rot = rp.0;
        let apple_offset = rp.1;
        let hx = self.snake_head_position.0 * GRID_BLOCK_SIZE;
        let hy = self.snake_head_position.1 * GRID_BLOCK_SIZE;
        if self.snake_head_position.0 == apple_offset.0 && self.snake_head_position.1
            == apple_offset.1 {
            self.graphics.print_bmp_at_with_rotaion(mouth_open, hx as u32, hy as u32, rot);
        } else {
            self.graphics.print_bmp_at_with_rotaion(mouth_closed, hx as u32, hy as u32, rot);
        }
        let ghost s1v = self.graphics.layer_1;
        proof {
            assert(head_drawn(*old(self), s1v, mouth_open@, mouth_closed@));
            assert(old(self).snake_body_position@.take(0) =~= Seq::<(usize, usize)>::empty());
        }
        let grey = Color::rgba(100, 100, 100, 255);
        let mut i: usize = 0;
        let len = self.snake_body_position.len();
        while i < len
            invariant
                i <= len,
                len == self.snake_body_position@.len(),
                body_blocks_painted(
                    s1v,
                    self.graphics.layer_1,
                    old(self).snake_body_position@.take(i as int),
                ),
                self.wf(),
                self.graphics.layer_1.same_bounds(&old(self).graphics.layer_1),
                self.graphics.layer_2 == old(self).graphics.layer_2,
                self.graphics.background() == old(self).graphics.background(),
                self.random_gen == old(self).random_gen,
                self.grid == old(self).grid,
                self.snake_head_position == old(self).snake_head_position,
                self.snake_body_position == old(self).snake_body_position,
                self.snake_tail_position == old(self).snake_tail_position,
                self.former_snake_tail == old(self).former_snake_tail,
                self.apple_position == old(self).apple_position,
                self.apple_counter == old(self).apple_counter,
            decreases len - i,
        {
            let p = self.snake_body_position[i];
            let ghost prev = self.graphics.layer_1;
            self.graphics.print_square_size_color_at(
                p.0 * GRID_BLOCK_SIZE,
                p.1 * GRID_BLOCK_SIZE,
                GRID_BLOCK_SIZE - 1,
                grey,
            );
            proof {
                lemma_body_blocks_snoc(
                    s1v,
                    prev,
                    self.graphics.layer_1,
                    old(self).snake_body_position@.take(i as int),
                    old(self).snake_body_position@[i as int],
                );
                assert(old(self).snake_body_position@.take(i as int).push(
                    old(self).snake_body_position@[i as int],
                ) =~= old(self).snake_body_position@.take(i + 1));
            }
            i = i + 1;
        }
        let ghost s2v = self.graphics.layer_1;
        proof {
            assert(old(self).snake_body_position@.take(len as int) =~= old(
                self,
            ).snake_body_position@);
        }
        let red = Color::rgba(255, 0, 0, 255);
        self.graphics.print_square_size_color_at(
            self.snake_tail_position.0 * GRID_BLOCK_SIZE,
            self.snake_tail_position.1 * GRID_BLOCK_SIZE,
            GRID_BLOCK_SIZE - 1,
            red,
        );
        let ghost mid_t = self.graphics.layer_1;
        if !(self.former_snake_tail.0 == 0 && self.former_snake_tail.1 == 0) {
            let white = Color::rgba(255, 255, 255, 0);
            self.graphics.print_square_size_color_at(
                self.former_snake_tail.0 * GRID_BLOCK_SIZE,
                self.former_snake_tail.1 * GRID_BLOCK_SIZE,
                GRID_BLOCK_SIZE,
                white,
            );
        }
        let ghost s3v = self.graphics.layer_1;
        proof {
            assert(square_painted(
                s2v,
                mid_t,
                old(self).snake_tail_position.0 * GRID_BLOCK_SIZE,
                old(self).snake_tail_position.1 * GRID_BLOCK_SIZE,
                GRID_BLOCK_SIZE - 1,
                tail_red(),
            ));
            if old(self).former_snake_tail == ((0usize, 0usize)) {
                assert(s3v == mid_t);
            } else {
                assert(square_painted(
                    mid_t,
                    s3v,
                    old(self).former_snake_tail.0 * GRID_BLOCK_SIZE,
                    old(self).former_snake_tail.1 * GRID_BLOCK_SIZE,
                    GRID_BLOCK_SIZE as int,
                    erase_white(),
                ));
            }
            assert(tail_and_former_painted(s2v, s3v, *old(self)));
        }
        self.graphics.print_bmp_at_with_rotaion(
            apple_pic,
            (self.apple_position.0 * GRID_BLOCK_SIZE) as u32,
            (self.apple_position.1 * GRID_BLOCK_SIZE) as u32,
            RotDirection::R0,
        );
        proof {
            assert(head_drawn(*old(self), s1v, mouth_open@, mouth_closed@));
            assert(body_blocks_painted(s1v, s2v, old(self).snake_body_position@));
            assert(tail_and_former_painted(s2v, s3v, *old(self)));
            assert(rot0_drawn(
                s3v,
                final(self).graphics.layer_1,
                apple_pic@,
                old(self).apple_position.0 * GRID_BLOCK_SIZE,
                old(self).apple_position.1 * GRID_BLOCK_SIZE,
                true,
            ));
        }
    }

    /// Puts the snake, the apple and the grid back to their starting
    /// places (the score stays) and redraws the field frame.
    pub fn reset(&mut self)
        requires
            old(self).wf(),
        ensures
            final(self).wf(),
            final(self).snake_head_position == ((25usize, 10usize)),
            final(self).snake_body_position@ == seq![
                (24usize, 10usize),
                (23usize, 10usize),
                (22usize, 10usize),
            ],
            final(self).snake_tail_position == ((21usize, 10usize)),
            final(self).former_snake_tail == ((20usize, 10usize)),
            final(self).apple_position == ((1usize, 10usize)),
            final(self).apple_counter == old(self).apple_counter,
            final(self).random_gen == old(self).random_gen,
            forall|gx: int, gy: int|
                0 <= gx < GRID_WIDTH && 0 <= gy < GRID_HEIGHT ==> #[trigger] final(self).grid_at(
                    gx,
                    gy,
                ) == (if gx == 25 && gy == 10 {
                    Tile::SnakeHead(Direction::Right)
                } else {
                    Tile::Empty
                }),
            final(self).graphics.layer_1.same_bounds(&old(self).graphics.layer_1),
            final(self).graphics.layer_2 == old(self).graphics.layer_2,
            final(self).graphics.background() == old(self).graphics.background(),
            forall|px: int, py: int|
                final(self).graphics.layer_1.in_bounds(px, py) ==> #[trigger] final(self).graphics.layer_1.pixel(px, py) == (if frame_pos(px, py) {
                    frame_black()
                } else {
                    old(self).graphics.layer_1.pixel(px, py)
                }),
    {
        self.grid = empty_grid();
        proof {
            lemma_grid_dims();
            assert forall|gx: int, gy: int|
                0 <= gx < GRID_WIDTH && 0 <= gy < GRID_HEIGHT implies #[trigger] self.grid_at(
                gx,
                gy,
            ) is Empty by {
                lemma_row_major_in_range(gy, gx, GRID_HEIGHT as int, GRID_WIDTH as int);
            }
        }
        self.set_tile(25, 10, Tile::SnakeHead(Direction::Right));
        let ghost ga = *self;
        self.snake_head_position = (25, 10);
        let mut body: Vec<(usize, usize)> = Vec::new();
        body.push((24, 10));
        body.push((23, 10));
        body.push((22, 10));
        proof {
            assert(body@ =~= seq![(24usize, 10usize), (23usize, 10usize), (22usize, 10usize)]);
        }
        self.snake_body_position = body;
        self.snake_tail_position = (21, 10);
        self.former_snake_tail = (20, 10);
        self.apple_position = (1, 10);
        let ghost gb = *self;
        self.draw_frame();
        proof {
            assert forall|gx: int, gy: int|
                0 <= gx < GRID_WIDTH && 0 <= gy < GRID_HEIGHT implies #[trigger] self.grid_at(
                gx,
                gy,
            ) == ga.grid_at(gx, gy) by {
                assert(gb.grid_at(gx, gy) == ga.grid_at(gx, gy));
            }
        }
    }
}

/// Which button a touch on the pause or game-over screen hits: the resume
/// button spans x 199..297 and y 146..174, the new-game button spans
/// x 187..317 and y 199..227, and only a lone touch counts.  The resume
/// region wins when both match.
#[derive(Clone, Copy, PartialEq, Eq, Structural, Debug)]
pub enum PauseChoice {
    Stay,
    Resume,
    NewGame,
}

/// Decides which button a set of touch points presses.
pub fn pause_touch_choice(touches: &Vec<(u16, u16)>) -> (c: PauseChoice)
    ensures
        touches@.len() != 1 ==> c is Stay,
        touches@.len() == 1 ==> {
            let x = touches@[0].0;
            let y = touches@[0].1;
            if 198 < x < 298 && 145 < y < 175 {
                c is Resume
            } else if 186 < x < 318 && 198 < y < 228 {
                c is NewGame
            } else {
                c is Stay
            }
        },
{
    if touches.len() == 1 {
        let x = touches[0].0;
        let y = touches[0].1;
        if x > 100 + 8 + 90 && x < 100 + 8 + 90 + 100 && y > 6 + 139 && y < 6 + 139 + 30 {
            return PauseChoice::Resume;
        }
        if x > 100 + 8 + 78 && x < 100 + 8 + 90 + 120 && y > 6 + 192 && y < 6 + 192 + 30 {
            return PauseChoice::NewGame;
        }
    }
    PauseChoice::Stay
}

/// Whether the welcome animation pauses on this character instead of
/// chewing: spaces, dashes and exclamation marks are printed without the
/// mouth opening.
pub fn welcome_char_pauses(c: char) -> (b: bool)
    ensures
        b == (c == ' ' || c == '-' || c == '!'),
{
    c == ' ' || c == '-' || c == '!'
}

} // verus!
