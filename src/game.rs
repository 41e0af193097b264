use crate::board::{
    fresh_board, idx, in_grid, is_border, is_fresh, is_interior, lemma_fresh_has_walls, walls_on_border, wrap, Cell,
    CELLS, HEIGHT, WIDTH,
};
use crate::random::random_in;
use crate::scores::{sort_descending, sorted_descending};
use std::collections::VecDeque;
use crate::snake::{opposite, Command, Direction, Snake};
use vstd::prelude::*;

verus! {

/// Whether the coordinate (row, column) lies in the playable interior.
pub open spec fn interior_at(p: (u8, u8)) -> bool {
    is_interior(p.0 as int, p.1 as int)
}

/// Position in the flat board of the coordinate (row, column).
pub open spec fn at(p: (u8, u8)) -> int {
    idx(p.0 as int, p.1 as int)
}

/// The snake's cells are interior, distinct, and there is at least one.
pub open spec fn cells_valid(cells: Seq<(u8, u8)>) -> bool {
    &&& cells.len() >= 1
    &&& cells.no_duplicates()
    &&& forall|k: int| 0 <= k < cells.len() ==> #[trigger] interior_at(cells[k])
}

/// The interior cells marked `Snake` are exactly the snake's cells.
pub open spec fn snake_matches_board(b: Seq<Cell>, cells: Seq<(u8, u8)>) -> bool {
    forall|p: (u8, u8)| #[trigger] interior_at(p) ==> (b[at(p)] == Cell::Snake <==> cells.contains(p))
}

/// Food lies on exactly one interior cell; there is none only when no
/// interior cell is left empty to hold it.
pub open spec fn food_ok(b: Seq<Cell>, food: Option<(u8, u8)>) -> bool {
    match food {
        Some(f) => {
            &&& interior_at(f)
            &&& b[at(f)] == Cell::Food
            &&& forall|p: (u8, u8)| #[trigger] interior_at(p) && p != f ==> b[at(p)] != Cell::Food
        },
        None => forall|p: (u8, u8)| #[trigger]
            interior_at(p) ==> b[at(p)] != Cell::Food && b[at(p)] != Cell::Empty,
    }
}

/// The interior shows the snake on `cells`, food on `food`, and is empty elsewhere.
pub open spec fn board_shows(b: Seq<Cell>, cells: Seq<(u8, u8)>, food: (u8, u8)) -> bool {
    forall|p: (u8, u8)| #[trigger]
        interior_at(p) ==> b[at(p)] == (if p == food {
            Cell::Food
        } else if cells.contains(p) {
            Cell::Snake
        } else {
            Cell::Empty
        })
}

/// Two interior coordinates share a board position only when they are equal.
pub proof fn lemma_at_injective(p: (u8, u8), q: (u8, u8))
    requires
        interior_at(p),
        interior_at(q),
        at(p) == at(q),
    ensures
        p == q,
{
}

/// The direction that a command asks for, if it asks for one.
pub open spec fn command_direction(c: Command) -> Option<Direction> {
    match c {
        Command::Left => Some(Direction::Left),
        Command::Right => Some(Direction::Right),
        Command::Up => Some(Direction::Up),
        Command::Down => Some(Direction::Down),
        _ => None,
    }
}

/// The direction after `c` is applied to a snake facing `d`: a command that
/// would reverse the snake is ignored.
pub open spec fn turned(d: Direction, c: Command) -> Direction {
    match command_direction(c) {
        Some(n) => if d == opposite(n) {
            d
        } else {
            n
        },
        None => d,
    }
}

/// A tick onto an empty cell: the head moves there and the tail cell is freed.
pub open spec fn moved(pre: SnakeGame, post: SnakeGame) -> bool {
    let h = pre.next_head();
    let t = pre.snake.cells@.last();
    &&& post.snake.cells@ == seq![h] + pre.snake.cells@.drop_last()
    &&& post.board@ == pre.board@.update(at(t), Cell::Empty).update(at(h), Cell::Snake)
    &&& post.food == pre.food
    &&& post.highscores == pre.highscores
}

/// A tick onto the food: the snake grows by its new head, and new food lies
/// on a cell that was empty.
pub open spec fn grew(pre: SnakeGame, post: SnakeGame) -> bool {
    let h = pre.next_head();
    &&& post.snake.cells@ == seq![h] + pre.snake.cells@
    &&& post.highscores == pre.highscores
    &&& match post.food@ {
        Some(f) => {
            &&& pre.board@[at(f)] == Cell::Empty
            &&& post.board@ == pre.board@.update(at(h), Cell::Snake).update(at(f), Cell::Food)
        },
        None => post.board@ == pre.board@.update(at(h), Cell::Snake),
    }
}

/// A tick onto the snake itself: the length before the tick, less one, is
/// recorded, and play goes on with a one-cell snake and new food on an
/// otherwise empty board.
pub open spec fn restarted(pre: SnakeGame, post: SnakeGame) -> bool {
    &&& post.highscores@ == pre.highscores@.push((pre.snake.cells@.len() - 1) as usize)
    &&& post.snake.cells@.len() == 1
    &&& match post.food@ {
        Some(f) => board_shows(post.board@, post.snake.cells@, f),
        None => false,
    }
}

/// A snake on `cells` (head first) and food on `food` make a valid layout.
pub open spec fn layout_ok(cells: Seq<(u8, u8)>, food: (u8, u8)) -> bool {
    &&& cells_valid(cells)
    &&& interior_at(food)
    &&& !cells.contains(food)
}

/// The simulation: board, snake, the place of the food, and the score record.
pub struct SnakeGame {
    /// The cells row after row, `WIDTH` to a row.
    pub board: Vec<Cell>,
    pub snake: Snake,
    /// Where the food lies; `None` only once no interior cell is empty.
    pub food: Ghost<Option<(u8, u8)>>,
    /// Set by the driver once a quit was asked for.
    pub quit: bool,
    /// One entry per game over, in the order they happened.
    pub highscores: Vec<usize>,
}

impl SnakeGame {
    pub open spec fn wf(&self) -> bool {
        &&& walls_on_border(self.board@)
        &&& cells_valid(self.snake.cells@)
        &&& snake_matches_board(self.board@, self.snake.cells@)
        &&& food_ok(self.board@, self.food@)
        &&& self.snake.heading_ok()
    }

    /// A game with a snake of one cell and one food cell, each on an interior
    /// cell drawn at random, and no score recorded yet.
    pub fn new() -> (g: Self)
        ensures
            g.wf(),
            g.snake.cells@.len() == 1,
            g.snake.direction == Direction::Right,
            g.highscores@.len() == 0,
            !g.quit,
            match g.food@ {
                Some(f) => board_shows(g.board@, g.snake.cells@, f),
                None => false,
            },
    {
        let board = fresh_board();
        let r = random_in(1, HEIGHT - 1);
        let c = random_in(1, WIDTH - 1);
        let mut snake = Snake::new();
        snake.cells.push_front((r as u8, c as u8));
        let mut g = SnakeGame { board, snake, food: Ghost(None), quit: false, highscores: Vec::new() };
        g.start_at(r as u8, c as u8);
        g
    }

    /// A game in a given layout: the snake on `cells`, head first, facing
    /// `direction`, food on `food`, and `highscores` as the score record.
    /// `None` when the layout is not valid.
    pub fn from_state(cells: Vec<(u8, u8)>, direction: Direction, food: (u8, u8), highscores: Vec<usize>) -> (r: Option<Self>)
        ensures
            r is Some <==> layout_ok(cells@, food),
            match r {
                Some(g) => {
                    &&& g.wf()
                    &&& g.snake.cells@ == cells@
                    &&& g.snake.direction == direction
                    &&& g.food@ == Some(food)
                    &&& g.highscores == highscores
                    &&& !g.quit
                    &&& board_shows(g.board@, cells@, food)
                },
                None => true,
            },
    {
        if cells.len() == 0 {
            return None;
        }
        if !(1 <= food.0 && food.0 as usize <= HEIGHT - 2 && 1 <= food.1 && food.1 as usize <= WIDTH - 2) {
            return None;
        }
        let mut board = fresh_board();
        let ghost b0 = board@;
        let mut deque: VecDeque<(u8, u8)> = VecDeque::new();
        let mut i: usize = 0;
        proof {
            lemma_fresh_has_walls(b0);
            assert forall|q: (u8, u8)| #[trigger] interior_at(q) implies board@[at(q)] != Cell::Snake by {
                assert(in_grid(q.0 as int, q.1 as int));
            }
        }
        while i < cells.len()
            invariant
                i <= cells@.len(),
                is_fresh(b0),
                board@.len() == CELLS,
                deque@ == cells@.subrange(0, i as int),
                forall|k: int| 0 <= k < i ==> interior_at(#[trigger] cells@[k]) && cells@[k] != food,
                forall|a: int, b: int| 0 <= a < b < i ==> cells@[a] != cells@[b],
                walls_on_border(board@),
                forall|q: (u8, u8)| #[trigger] interior_at(q) ==> (board@[at(q)] == Cell::Snake <==> deque@.contains(q)),
                forall|q: (u8, u8)| #[trigger] interior_at(q) && !deque@.contains(q) ==> board@[at(q)] == b0[at(q)],
            decreases cells@.len() - i,
        {
            let p = cells[i];
            if !(1 <= p.0 && p.0 as usize <= HEIGHT - 2 && 1 <= p.1 && p.1 as usize <= WIDTH - 2) {
                assert(!interior_at(cells@[i as int]));
                return None;
            }
            if p.0 == food.0 && p.1 == food.1 {
                assert(cells@.contains(food));
                return None;
            }
            let j = p.0 as usize * WIDTH + p.1 as usize;
            assert(j == at(p));
            assert(interior_at(p));
            if board[j] == Cell::Snake {
                proof {
                    assert(deque@.contains(p));
                    let k = choose|k: int| 0 <= k < deque@.len() && deque@[k] == p;
                    assert(cells@[k] == cells@[i as int]);
                    assert(!cells@.no_duplicates());
                }
                return None;
            }
            proof {
                assert(in_grid(p.0 as int, p.1 as int));
                assert forall|a: int| 0 <= a < i implies cells@[a] != p by {
                    if cells@[a] == p {
                        assert(deque@[a] == p);
                    }
                }
            }
            let ghost bp = board@;
            board[j] = Cell::Snake;
            assert forall|r2: int, c2: int| #[trigger] in_grid(r2, c2) && is_border(r2, c2) implies board@[idx(r2, c2)] == Cell::Wall by {
                assert(idx(r2, c2) != at(p));
                assert(bp[idx(r2, c2)] == Cell::Wall);
            }
            assert forall|r2: int, c2: int| #[trigger] is_interior(r2, c2) implies board@[idx(r2, c2)] != Cell::Wall by {
                assert(bp[idx(r2, c2)] != Cell::Wall);
                assert(in_grid(r2, c2));
            }
            let ghost d0 = deque@;
            deque.push_back(p);
            assert(deque@ == d0.push(p));
            assert forall|q: (u8, u8)| #[trigger] interior_at(q) implies (board@[at(q)] == Cell::Snake <==> deque@.contains(q)) by {
                if q == p {
                    assert(deque@[i as int] == p);
                } else {
                    if at(q) == at(p) {
                        lemma_at_injective(q, p);
                    }
                    if deque@.contains(q) {
                        let k = choose|k: int| 0 <= k < deque@.len() && deque@[k] == q;
                        assert(d0[k] == q);
                    }
                    if d0.contains(q) {
                        let k = choose|k: int| 0 <= k < d0.len() && d0[k] == q;
                        assert(deque@[k] == q);
                    }
                }
            }
            assert forall|q: (u8, u8)| #[trigger] interior_at(q) && !deque@.contains(q) implies board@[at(q)] == b0[at(q)] by {
                assert(q != p) by {
                    assert(deque@[i as int] == p);
                }
                if at(q) == at(p) {
                    lemma_at_injective(q, p);
                }
                if d0.contains(q) {
                    let k = choose|k: int| 0 <= k < d0.len() && d0[k] == q;
                    assert(deque@[k] == q);
                }
            }
            i = i + 1;
        }
        assert(deque@ == cells@);
        assert(cells_valid(cells@));
        let fj = food.0 as usize * WIDTH + food.1 as usize;
        assert(fj == at(food));
        assert(!deque@.contains(food));
        proof {
            assert(in_grid(food.0 as int, food.1 as int));
            assert(interior_at(food));
        }
        let ghost bs = board@;
        board[fj] = Cell::Food;
        let (dx, dy): (i8, i8) = match direction {
            Direction::Left => (-1, 0),
            Direction::Right => (1, 0),
            Direction::Up => (0, -1),
            Direction::Down => (0, 1),
        };
        let snake = Snake { cells: deque, dx, dy, direction };
        let g = SnakeGame { board, snake, food: Ghost(Some(food)), quit: false, highscores };
        proof {
            lemma_fresh_has_walls(b0);
            assert forall|q: (u8, u8)| #[trigger] interior_at(q) implies g.board@[at(q)] == (if q == food {
                Cell::Food
            } else if cells@.contains(q) {
                Cell::Snake
            } else {
                Cell::Empty
            }) by {
                assert(in_grid(q.0 as int, q.1 as int));
                if at(q) == at(food) {
                    lemma_at_injective(q, food);
                }
            }
            assert forall|r2: int, c2: int| #[trigger] in_grid(r2, c2) && is_border(r2, c2) implies g.board@[idx(r2, c2)] == Cell::Wall by {
                assert(idx(r2, c2) != at(food));
                assert(bs[idx(r2, c2)] == Cell::Wall);
            }
            assert forall|r2: int, c2: int| #[trigger] is_interior(r2, c2) implies g.board@[idx(r2, c2)] != Cell::Wall by {
                let q = (r2 as u8, c2 as u8);
                assert(interior_at(q));
                assert(at(q) == idx(r2, c2));
            }
        }
        Some(g)
    }

    /// The board as digits, one line per row: 0 empty, 1 wall, 2 food, 3 snake.
    pub fn _display_nums(&self) -> (d: String)
        requires
            self.board@.len() == CELLS,
        ensures
            d@.len() == HEIGHT * (WIDTH + 1),
            forall|r: int, c: int| #[trigger] in_grid(r, c) ==> d@[r * (WIDTH + 1) + c] == self.board@[idx(r, c)].digit(),
            forall|r: int| 0 <= r < HEIGHT ==> #[trigger] d@[r * (WIDTH + 1) + WIDTH] == '\n',
    {
        let mut d = String::new();
        let mut r: usize = 0;
        while r < HEIGHT
            invariant
                r <= HEIGHT,
                self.board@.len() == CELLS,
                d@.len() == r * (WIDTH + 1),
                forall|r2: int, c2: int| #[trigger] in_grid(r2, c2) && r2 < r ==> d@[r2 * (WIDTH + 1) + c2] == self.board@[idx(r2, c2)].digit(),
                forall|r2: int| 0 <= r2 < r ==> #[trigger] d@[r2 * (WIDTH + 1) + WIDTH] == '\n',
            decreases HEIGHT - r,
        {
            let mut c: usize = 0;
            while c < WIDTH
                invariant
                    r < HEIGHT,
                    c <= WIDTH,
                    self.board@.len() == CELLS,
                    d@.len() == r * (WIDTH + 1) + c,
                    forall|r2: int, c2: int| #[trigger] in_grid(r2, c2) && (r2 < r || (r2 == r && c2 < c)) ==> d@[r2 * (WIDTH + 1) + c2] == self.board@[idx(r2, c2)].digit(),
                    forall|r2: int| 0 <= r2 < r ==> #[trigger] d@[r2 * (WIDTH + 1) + WIDTH] == '\n',
                decreases WIDTH - c,
            {
                let digit = match self.board[r * WIDTH + c] {
                    Cell::Empty => "0",
                    Cell::Wall => "1",
                    Cell::Food => "2",
                    Cell::Snake => "3",
                };
                proof {
                    reveal_strlit("0");
                    reveal_strlit("1");
                    reveal_strlit("2");
                    reveal_strlit("3");
                }
                assert(digit@ == seq![self.board@[idx(r as int, c as int)].digit()]);
                let ghost d0 = d@;
                d.append(digit);
                assert(forall|k: int| 0 <= k < d0.len() ==> d@[k] == d0[k]);
                assert(d@[r * (WIDTH + 1) + c] == self.board@[idx(r as int, c as int)].digit());
                assert forall|r2: int, c2: int| #[trigger] in_grid(r2, c2) && (r2 < r || (r2 == r && c2 <= c)) implies d@[r2 * (WIDTH + 1) + c2] == self.board@[idx(r2, c2)].digit() by {
                    if r2 < r {
                        assert(r2 * (WIDTH + 1) + c2 < r * (WIDTH + 1)) by (nonlinear_arith)
                            requires r2 < r, c2 < WIDTH;
                    }
                }
                assert forall|r2: int| 0 <= r2 < r implies #[trigger] d@[r2 * (WIDTH + 1) + WIDTH] == '\n' by {
                    assert(r2 * (WIDTH + 1) + WIDTH < r * (WIDTH + 1)) by (nonlinear_arith)
                        requires r2 < r;
                }
                c = c + 1;
            }
            proof {
                reveal_strlit("\n");
            }
            let ghost d0 = d@;
            d.append("\n");
            assert(forall|k: int| 0 <= k < d0.len() ==> d@[k] == d0[k]);
            assert(d@[r * (WIDTH + 1) + WIDTH] == '\n');
            assert(d@.len() == (r + 1) * (WIDTH + 1)) by (nonlinear_arith)
                requires d@.len() == r * (WIDTH + 1) + WIDTH + 1;
            assert forall|r2: int, c2: int| #[trigger] in_grid(r2, c2) && r2 <= r implies d@[r2 * (WIDTH + 1) + c2] == self.board@[idx(r2, c2)].digit() by {
                assert(r2 * (WIDTH + 1) + c2 < r * (WIDTH + 1) + WIDTH) by (nonlinear_arith)
                    requires r2 <= r, c2 < WIDTH;
            }
            assert forall|r2: int| 0 <= r2 <= r implies #[trigger] d@[r2 * (WIDTH + 1) + WIDTH] == '\n' by {
                if r2 < r {
                    assert(r2 * (WIDTH + 1) + WIDTH < r * (WIDTH + 1)) by (nonlinear_arith)
                        requires r2 < r;
                }
            }
            r = r + 1;
        }
        d
    }

    /// The snake's length, which is the current score.
    pub fn score(&self) -> (r: usize)
        ensures
            r == self.snake.cells@.len(),
    {
        self.snake.cells.len()
    }

    /// The snake's cells, head first.
    pub fn snake_cells(&self) -> (r: Vec<(u8, u8)>)
        ensures
            r@ == self.snake.cells@,
    {
        let mut r: Vec<(u8, u8)> = Vec::new();
        let mut i: usize = 0;
        while i < self.snake.cells.len()
            invariant
                i <= self.snake.cells@.len(),
                r@ == self.snake.cells@.subrange(0, i as int),
            decreases self.snake.cells@.len() - i,
        {
            r.push(self.snake.cells[i]);
            i = i + 1;
        }
        r
    }

    /// What the board holds at `row`, `col`.
    pub fn cell(&self, row: usize, col: usize) -> (r: Cell)
        requires
            self.board@.len() == CELLS,
            in_grid(row as int, col as int),
        ensures
            r == self.board@[idx(row as int, col as int)],
    {
        self.board[row * WIDTH + col]
    }

    /// The score record from best to worst, for display.
    pub fn score_table(&self) -> (r: Vec<usize>)
        ensures
            sorted_descending(r@),
            r@.to_multiset() == self.highscores@.to_multiset(),
    {
        sort_descending(&self.highscores)
    }

    /// Marks the fresh board with a one-cell snake at `(r, c)` and places food.
    fn start_at(&mut self, r: u8, c: u8)
        requires
            is_fresh(old(self).board@),
            is_interior(r as int, c as int),
            old(self).snake.cells@ == seq![(r, c)],
            old(self).snake.heading_ok(),
        ensures
            final(self).wf(),
            final(self).snake == old(self).snake,
            final(self).quit == old(self).quit,
            final(self).highscores == old(self).highscores,
            match final(self).food@ {
                Some(f) => board_shows(final(self).board@, final(self).snake.cells@, f),
                None => false,
            },
    {
        let ghost b0 = self.board@;
        proof {
            lemma_fresh_has_walls(b0);
        }
        self.board[r as usize * WIDTH + c as usize] = Cell::Snake;
        let ghost b1 = self.board@;
        let ghost head = (r, c);
        let ghost spare: (u8, u8) = if r == 1 && c == 1 { (1u8, 2u8) } else { (1u8, 1u8) };
        assert(interior_at(spare) && b1[at(spare)] == Cell::Empty) by {
            assert(is_interior(spare.0 as int, spare.1 as int));
            assert(in_grid(spare.0 as int, spare.1 as int));
        }
        self.place_food();
        let ghost f = self.food@.unwrap();
        assert(self.food@ is Some);
        assert(f != head);
        assert forall|p: (u8, u8)| #[trigger] interior_at(p) implies self.board@[at(p)] == (if p == f {
            Cell::Food
        } else if self.snake.cells@.contains(p) {
            Cell::Snake
        } else {
            Cell::Empty
        }) by {
            assert(in_grid(p.0 as int, p.1 as int));
            if p != f && p != head {
                assert(at(p) != at(f)) by {
                    if at(p) == at(f) {
                        lemma_at_injective(p, f);
                    }
                }
                assert(at(p) != at(head)) by {
                    if at(p) == at(head) {
                        lemma_at_injective(p, head);
                    }
                }
                assert(!self.snake.cells@.contains(p)) by {
                    assert(self.snake.cells@[0] == head);
                }
            }
            if p == head {
                assert(self.snake.cells@[0] == head);
            }
        }
        assert(walls_on_border(self.board@)) by {
            assert forall|r2: int, c2: int| #[trigger] in_grid(r2, c2) && is_border(r2, c2) implies self.board@[idx(r2, c2)] == Cell::Wall by {
                assert(idx(r2, c2) != at(f));
                assert(idx(r2, c2) != at(head));
            }
            assert forall|r2: int, c2: int| #[trigger] is_interior(r2, c2) implies self.board@[idx(r2, c2)] != Cell::Wall by {
                assert(in_grid(r2, c2));
            }
        }
    }

    /// Applies a player command: a turn unless it reverses the snake, `Err`
    /// for a quit request, nothing for any other key.
    pub fn key_stroke_move(&mut self, command: Command) -> (r: Result<(), ()>)
        requires
            old(self).wf(),
        ensures
            final(self).wf(),
            r is Err <==> command == Command::Quit,
            final(self).snake.direction == turned(old(self).snake.direction, command),
            final(self).snake.cells == old(self).snake.cells,
            final(self).board == old(self).board,
            final(self).food == old(self).food,
            final(self).quit == old(self).quit,
            final(self).highscores == old(self).highscores,
    {
        match command {
            Command::Quit => Err(()),
            Command::Left => {
                if self.snake.direction != Direction::Right {
                    self.snake.dy = 0;
                    self.snake.dx = -1;
                    self.snake.direction = Direction::Left;
                }
                Ok(())
            },
            Command::Right => {
                if self.snake.direction != Direction::Left {
                    self.snake.dy = 0;
                    self.snake.dx = 1;
                    self.snake.direction = Direction::Right;
                }
                Ok(())
            },
            Command::Up => {
                if self.snake.direction != Direction::Down {
                    self.snake.dx = 0;
                    self.snake.dy = -1;
                    self.snake.direction = Direction::Up;
                }
                Ok(())
            },
            Command::Down => {
                if self.snake.direction != Direction::Up {
                    self.snake.dy = 1;
                    self.snake.dx = 0;
                    self.snake.direction = Direction::Down;
                }
                Ok(())
            },
            Command::Ignore => Ok(()),
        }
    }

    /// Wrap addressing on an axis of `max` cells, walls included.
    pub fn wrap_position(&self, pos: i8, max: usize) -> (r: u8)
        requires
            3 <= max <= 127,
        ensures
            r as int == wrap(pos as int, max as int),
            1 <= r <= max - 2,
    {
        if pos < 1 {
            (max as i8 - 2) as u8
        } else if pos > (max - 2) as i8 {
            1
        } else {
            pos as u8
        }
    }

    /// The coordinate of the snake's head.
    pub open spec fn head(&self) -> (u8, u8) {
        self.snake.cells@[0]
    }

    /// Where the head goes on the next tick, after wrap addressing.
    pub open spec fn next_head(&self) -> (u8, u8) {
        (
            wrap(self.snake.dy + self.head().0, HEIGHT as int) as u8,
            wrap(self.snake.dx + self.head().1, WIDTH as int) as u8,
        )
    }

    /// What the board holds where the head goes on the next tick.
    pub open spec fn next_cell(&self) -> Cell {
        self.board@[at(self.next_head())]
    }

    /// Advances the simulation by one tick.
    pub fn take_step(&mut self)
        requires
            old(self).wf(),
        ensures
            final(self).wf(),
            final(self).snake.direction == old(self).snake.direction,
            final(self).snake.dx == old(self).snake.dx,
            final(self).snake.dy == old(self).snake.dy,
            final(self).quit == old(self).quit,
            interior_at(old(self).next_head()),
            old(self).next_cell() != Cell::Wall,
            old(self).next_cell() == Cell::Empty ==> moved(*old(self), *final(self)),
            old(self).next_cell() == Cell::Food ==> grew(*old(self), *final(self)),
            old(self).next_cell() == Cell::Snake ==> restarted(*old(self), *final(self)),
    {
        let head = self.snake.cells[0];
        assert(interior_at(self.snake.cells@[0]));
        let new_c = self.wrap_position(self.snake.dx + head.1 as i8, WIDTH);
        let new_r = self.wrap_position(self.snake.dy + head.0 as i8, HEIGHT);
        let ghost h = (new_r, new_c);
        let ghost b0 = self.board@;
        let ghost c0 = self.snake.cells@;
        let ghost f0 = self.food@;
        assert(h == self.next_head());
        assert(is_interior(new_r as int, new_c as int));
        let t = new_r as usize * WIDTH + new_c as usize;
        let prior = self.board[t];
        assert(interior_at(h));
        assert(t == at(h));
        assert(prior == Cell::Snake <==> c0.contains(h));
        self.snake.cells.push_front((new_r, new_c));
        match prior {
            Cell::Food => {
                assert(!c0.contains(h));
                self.board[t] = Cell::Snake;
                self.place_food();
                proof {
                    self.lemma_after_growth(b0, c0, f0, h);
                }
            },
            Cell::Snake => {
                let n = self.snake.cells.len();
                self.highscores.push(n - 2);
                self.reset_board();
                let r = random_in(1, HEIGHT - 1);
                let c = random_in(1, WIDTH - 1);
                self.snake.cells.clear();
                self.snake.cells.push_front((r as u8, c as u8));
                self.start_at(r as u8, c as u8);
            },
            _ => {
                assert(!c0.contains(h));
                let tail = self.snake.cells.pop_back().unwrap();
                assert(tail == c0.last());
                assert(self.snake.cells@ =~= seq![h] + c0.subrange(0, c0.len() - 1));
                assert(interior_at(c0[c0.len() - 1]));
                self.board[tail.0 as usize * WIDTH + tail.1 as usize] = Cell::Empty;
                self.board[t] = Cell::Snake;
                proof {
                    self.lemma_after_move(b0, c0, f0, h);
                }
            },
        }
    }

    /// The invariant survives a tick onto an empty cell.
    proof fn lemma_after_move(&self, b0: Seq<Cell>, c0: Seq<(u8, u8)>, f0: Option<(u8, u8)>, h: (u8, u8))
        requires
            walls_on_border(b0),
            cells_valid(c0),
            snake_matches_board(b0, c0),
            food_ok(b0, f0),
            interior_at(h),
            b0[at(h)] == Cell::Empty,
            self.snake.cells@ == seq![h] + c0.subrange(0, c0.len() - 1),
            self.board@ == b0.update(at(c0.last()), Cell::Empty).update(at(h), Cell::Snake),
            self.food@ == f0,
            self.snake.heading_ok(),
        ensures
            self.wf(),
    {
        let t = c0.last();
        let c1 = self.snake.cells@;
        let b1 = self.board@;
        assert(interior_at(c0[c0.len() - 1]));
        assert(in_grid(h.0 as int, h.1 as int));
        assert(in_grid(t.0 as int, t.1 as int));
        assert(!c0.contains(h));
        assert(c0.contains(t));
        assert forall|r: int, c: int| #[trigger] in_grid(r, c) && is_border(r, c) implies b1[idx(r, c)] == Cell::Wall by {
            assert(idx(r, c) != at(h));
            assert(idx(r, c) != at(t));
        }
        assert forall|r: int, c: int| #[trigger] is_interior(r, c) implies b1[idx(r, c)] != Cell::Wall by {
            assert(in_grid(r, c));
        }
        assert forall|k: int| 0 <= k < c1.len() implies #[trigger] interior_at(c1[k]) by {
            if k > 0 {
                assert(c1[k] == c0[k - 1]);
                assert(interior_at(c0[k - 1]));
            }
        }
        assert(c1.no_duplicates()) by {
            assert forall|i: int, j: int| 0 <= i < c1.len() && 0 <= j < c1.len() && i != j implies c1[i] != c1[j] by {
                if i > 0 && j > 0 {
                    assert(c1[i] == c0[i - 1]);
                    assert(c1[j] == c0[j - 1]);
                } else if i == 0 {
                    assert(c1[j] == c0[j - 1]);
                } else {
                    assert(c1[i] == c0[i - 1]);
                }
            }
        }
        assert forall|p: (u8, u8)| #[trigger] interior_at(p) implies (b1[at(p)] == Cell::Snake <==> c1.contains(p)) by {
            if p == h {
                assert(c1[0] == h);
            } else {
                assert(at(p) != at(h)) by {
                    if at(p) == at(h) {
                        lemma_at_injective(p, h);
                    }
                }
                if p == t {
                    assert(!c1.contains(p)) by {
                        if c1.contains(p) {
                            let k = choose|k: int| 0 <= k < c1.len() && c1[k] == p;
                            assert(c1[k] == c0[k - 1]);
                            assert(c0[c0.len() - 1] == p);
                        }
                    }
                } else {
                    assert(at(p) != at(t)) by {
                        if at(p) == at(t) {
                            lemma_at_injective(p, t);
                        }
                    }
                    if c0.contains(p) {
                        let k = choose|k: int| 0 <= k < c0.len() && c0[k] == p;
                        assert(k != c0.len() - 1);
                        assert(c1[k + 1] == p);
                    }
                    if c1.contains(p) {
                        let k = choose|k: int| 0 <= k < c1.len() && c1[k] == p;
                        assert(c0[k - 1] == p);
                    }
                }
            }
        }
        match f0 {
            Some(f) => {
                assert(f != h);
                assert(f != t) by {
                    assert(b0[at(t)] == Cell::Snake);
                }
                assert(at(f) != at(h)) by {
                    if at(f) == at(h) {
                        lemma_at_injective(f, h);
                    }
                }
                assert(at(f) != at(t)) by {
                    if at(f) == at(t) {
                        lemma_at_injective(f, t);
                    }
                }
            },
            None => {
                assert(b0[at(h)] != Cell::Empty);
            },
        }
    }

    /// The invariant survives a tick onto the food.
    proof fn lemma_after_growth(&self, b0: Seq<Cell>, c0: Seq<(u8, u8)>, f0: Option<(u8, u8)>, h: (u8, u8))
        requires
            walls_on_border(b0),
            cells_valid(c0),
            snake_matches_board(b0, c0),
            food_ok(b0, f0),
            interior_at(h),
            b0[at(h)] == Cell::Food,
            self.snake.cells@ == seq![h] + c0,
            self.snake.heading_ok(),
            match self.food@ {
                Some(f) => {
                    &&& interior_at(f)
                    &&& b0.update(at(h), Cell::Snake)[at(f)] == Cell::Empty
                    &&& self.board@ == b0.update(at(h), Cell::Snake).update(at(f), Cell::Food)
                },
                None => {
                    &&& self.board@ == b0.update(at(h), Cell::Snake)
                    &&& forall|p: (u8, u8)| #[trigger] interior_at(p) ==> b0.update(at(h), Cell::Snake)[at(p)] != Cell::Empty
                },
            },
        ensures
            self.wf(),
    {
        let c1 = self.snake.cells@;
        let b1 = self.board@;
        let bh = b0.update(at(h), Cell::Snake);
        assert(in_grid(h.0 as int, h.1 as int));
        assert(!c0.contains(h));
        assert(f0 == Some(h));
        assert forall|r: int, c: int| #[trigger] in_grid(r, c) && is_border(r, c) implies b1[idx(r, c)] == Cell::Wall by {
            assert(idx(r, c) != at(h));
            match self.food@ {
                Some(f) => {
                    assert(idx(r, c) != at(f));
                },
                None => {},
            }
        }
        assert forall|r: int, c: int| #[trigger] is_interior(r, c) implies b1[idx(r, c)] != Cell::Wall by {
            assert(in_grid(r, c));
        }
        assert forall|k: int| 0 <= k < c1.len() implies #[trigger] interior_at(c1[k]) by {
            if k > 0 {
                assert(c1[k] == c0[k - 1]);
                assert(interior_at(c0[k - 1]));
            }
        }
        assert(c1.no_duplicates()) by {
            assert forall|i: int, j: int| 0 <= i < c1.len() && 0 <= j < c1.len() && i != j implies c1[i] != c1[j] by {
                if i > 0 && j > 0 {
                    assert(c1[i] == c0[i - 1]);
                    assert(c1[j] == c0[j - 1]);
                } else if i == 0 {
                    assert(c1[j] == c0[j - 1]);
                } else {
                    assert(c1[i] == c0[i - 1]);
                }
            }
        }
        assert forall|p: (u8, u8)| #[trigger] interior_at(p) implies (bh[at(p)] == Cell::Snake <==> c1.contains(p)) by {
            if p == h {
                assert(c1[0] == h);
            } else {
                assert(at(p) != at(h)) by {
                    if at(p) == at(h) {
                        lemma_at_injective(p, h);
                    }
                }
                if c0.contains(p) {
                    let k = choose|k: int| 0 <= k < c0.len() && c0[k] == p;
                    assert(c1[k + 1] == p);
                }
                if c1.contains(p) {
                    let k = choose|k: int| 0 <= k < c1.len() && c1[k] == p;
                    assert(c0[k - 1] == p);
                }
            }
        }
        assert forall|p: (u8, u8)| #[trigger] interior_at(p) && p != h implies bh[at(p)] != Cell::Food by {
            assert(at(p) != at(h)) by {
                if at(p) == at(h) {
                    lemma_at_injective(p, h);
                }
            }
        }
        match self.food@ {
            Some(f) => {
                assert forall|p: (u8, u8)| #[trigger] interior_at(p) implies (b1[at(p)] == Cell::Snake <==> c1.contains(p)) by {
                    if at(p) == at(f) {
                        lemma_at_injective(p, f);
                    }
                }
                assert forall|p: (u8, u8)| #[trigger] interior_at(p) && p != f implies b1[at(p)] != Cell::Food by {
                    assert(at(p) != at(f)) by {
                        if at(p) == at(f) {
                            lemma_at_injective(p, f);
                        }
                    }
                    assert(bh[at(h)] == Cell::Snake);
                }
            },
            None => {
                assert(forall|p: (u8, u8)| #[trigger] interior_at(p) ==> b1[at(p)] != Cell::Food);
            },
        }
    }

    /// Interior cells that are empty, in row order.
    fn empty_cells(&self) -> (r: Vec<(u8, u8)>)
        requires
            self.board@.len() == CELLS,
        ensures
            forall|k: int| 0 <= k < r@.len() ==> interior_at(#[trigger] r@[k]) && self.board@[at(r@[k])] == Cell::Empty,
            r@.len() == 0 ==> forall|p: (u8, u8)| #[trigger] interior_at(p) ==> self.board@[at(p)] != Cell::Empty,
    {
        let mut out: Vec<(u8, u8)> = Vec::new();
        let mut r: usize = 1;
        while r < HEIGHT - 1
            invariant
                1 <= r <= HEIGHT - 1,
                self.board@.len() == CELLS,
                forall|k: int| 0 <= k < out@.len() ==> interior_at(#[trigger] out@[k]) && self.board@[at(out@[k])] == Cell::Empty,
                out@.len() == 0 ==> forall|p: (u8, u8)| #[trigger] interior_at(p) && p.0 < r ==> self.board@[at(p)] != Cell::Empty,
            decreases HEIGHT - r,
        {
            let mut c: usize = 1;
            while c < WIDTH - 1
                invariant
                    1 <= r < HEIGHT - 1,
                    1 <= c <= WIDTH - 1,
                    self.board@.len() == CELLS,
                    forall|k: int| 0 <= k < out@.len() ==> interior_at(#[trigger] out@[k]) && self.board@[at(out@[k])] == Cell::Empty,
                    out@.len() == 0 ==> forall|p: (u8, u8)| #[trigger] interior_at(p) && (p.0 < r || (p.0 == r && p.1 < c)) ==> self.board@[at(p)] != Cell::Empty,
                decreases WIDTH - c,
            {
                if self.board[r * WIDTH + c] == Cell::Empty {
                    out.push((r as u8, c as u8));
                }
                c = c + 1;
            }
            r = r + 1;
        }
        out
    }

    /// Puts food on an empty interior cell drawn at random, if there is one.
    pub fn place_food(&mut self)
        requires
            old(self).board@.len() == CELLS,
        ensures
            final(self).snake == old(self).snake,
            final(self).quit == old(self).quit,
            final(self).highscores == old(self).highscores,
            match final(self).food@ {
                Some(f) => {
                    &&& interior_at(f)
                    &&& old(self).board@[at(f)] == Cell::Empty
                    &&& final(self).board@ == old(self).board@.update(at(f), Cell::Food)
                },
                None => {
                    &&& final(self).board@ == old(self).board@
                    &&& forall|p: (u8, u8)| #[trigger] interior_at(p) ==> old(self).board@[at(p)] != Cell::Empty
                },
            },
    {
        let free = self.empty_cells();
        if free.len() == 0 {
            self.food = Ghost(None);
        } else {
            let k = random_in(0, free.len());
            let f = free[k];
            assert(interior_at(free@[k as int]));
            self.board[f.0 as usize * WIDTH + f.1 as usize] = Cell::Food;
            self.food = Ghost(Some(f));
        }
    }

    /// Restores the board to walls on the border and empty cells inside.
    pub fn reset_board(&mut self)
        ensures
            is_fresh(final(self).board@),
            walls_on_border(final(self).board@),
            final(self).snake == old(self).snake,
            final(self).food == old(self).food,
            final(self).quit == old(self).quit,
            final(self).highscores == old(self).highscores,
    {
        self.board = fresh_board();
    }
}

} // verus!
