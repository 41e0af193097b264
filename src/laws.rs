use crate::board::{idx, in_grid, is_border, is_interior, wrap, Cell};
use crate::game::{at, command_direction, grew, restarted, interior_at, lemma_at_injective, turned, SnakeGame};
use crate::snake::{opposite, Command, Direction};
use vstd::prelude::*;

verus! {

/// In every well-formed state the whole border is wall.
pub proof fn lemma_border_is_wall(g: SnakeGame, r: int, c: int)
    requires
        g.wf(),
        in_grid(r, c),
        is_border(r, c),
    ensures
        g.board@[idx(r, c)] == Cell::Wall,
{
}

/// In a well-formed state with an empty interior cell, exactly one cell of
/// the whole board holds food.
pub proof fn lemma_single_food(g: SnakeGame, e: (u8, u8))
    requires
        g.wf(),
        interior_at(e),
        g.board@[idx(e.0 as int, e.1 as int)] == Cell::Empty,
    ensures
        match g.food@ {
            Some(f) => forall|r: int, c: int| #[trigger]
                in_grid(r, c) ==> (g.board@[idx(r, c)] == Cell::Food <==> r == f.0 && c == f.1),
            None => false,
        },
{
    match g.food@ {
        Some(f) => {
            assert forall|r: int, c: int| #[trigger] in_grid(r, c) implies (g.board@[idx(r, c)] == Cell::Food <==> r == f.0 && c == f.1) by {
                if is_interior(r, c) {
                    let p = (r as u8, c as u8);
                    assert(interior_at(p));
                }
            }
        },
        None => {},
    }
}

/// In every well-formed state the cells marked snake, over the whole board,
/// are exactly the snake's cells.
pub proof fn lemma_snake_is_marked(g: SnakeGame, r: int, c: int)
    requires
        g.wf(),
        in_grid(r, c),
    ensures
        g.board@[idx(r, c)] == Cell::Snake <==> g.snake.cells@.contains((r as u8, c as u8)),
{
    if is_interior(r, c) {
        assert(interior_at((r as u8, c as u8)));
    } else {
        if g.snake.cells@.contains((r as u8, c as u8)) {
            let k = choose|k: int| 0 <= k < g.snake.cells@.len() && g.snake.cells@[k] == (r as u8, c as u8);
            assert(interior_at(g.snake.cells@[k]));
        }
    }
}

/// A step from the interior, past an edge or not, lands in the interior: on
/// the opposite interior edge when it went onto the wall.
pub proof fn lemma_wrap_stays_inside(pos: int, max: int)
    requires
        3 <= max,
        0 <= pos <= max - 1,
    ensures
        1 <= wrap(pos, max) <= max - 2,
        pos == 0 ==> wrap(pos, max) == max - 2,
        pos == max - 1 ==> wrap(pos, max) == 1,
        1 <= pos <= max - 2 ==> wrap(pos, max) == pos,
{
}

/// Eating lengthens the snake by exactly one cell, and, where the board had
/// an empty cell, new food lies on a cell that was empty before the tick.
pub proof fn lemma_growth(pre: SnakeGame, post: SnakeGame, e: (u8, u8))
    requires
        pre.wf(),
        post.wf(),
        interior_at(pre.next_head()),
        pre.next_cell() == Cell::Food,
        grew(pre, post),
        interior_at(e),
        pre.board@[at(e)] == Cell::Empty,
    ensures
        post.snake.cells@.len() == pre.snake.cells@.len() + 1,
        match post.food@ {
            Some(f) => pre.board@[at(f)] == Cell::Empty && post.board@[at(f)] == Cell::Food,
            None => false,
        },
{
    let h = pre.next_head();
    assert(e != h);
    assert(at(e) != at(h)) by {
        if at(e) == at(h) {
            lemma_at_injective(e, h);
        }
    }
    match post.food@ {
        Some(f) => {},
        None => {
            assert(post.board@[at(e)] == Cell::Empty);
        },
    }
}

/// After a self-collision the score record gains the old length less one,
/// and the board is wall on the border and empty inside but for the new
/// one-cell snake and the new food.
pub proof fn lemma_game_over(pre: SnakeGame, post: SnakeGame)
    requires
        post.wf(),
        restarted(pre, post),
    ensures
        post.highscores@.last() == (pre.snake.cells@.len() - 1) as usize,
        post.highscores@.len() == pre.highscores@.len() + 1,
        post.snake.cells@.len() == 1,
        match post.food@ {
            Some(f) => forall|r: int, c: int| #[trigger]
                in_grid(r, c) ==> post.board@[idx(r, c)] == (if is_border(r, c) {
                    Cell::Wall
                } else if r == f.0 && c == f.1 {
                    Cell::Food
                } else if r == post.head().0 && c == post.head().1 {
                    Cell::Snake
                } else {
                    Cell::Empty
                }),
            None => false,
        },
{
    match post.food@ {
        Some(f) => {
            assert forall|r: int, c: int| #[trigger] in_grid(r, c) implies post.board@[idx(r, c)] == (if is_border(r, c) {
                Cell::Wall
            } else if r == f.0 && c == f.1 {
                Cell::Food
            } else if r == post.head().0 && c == post.head().1 {
                Cell::Snake
            } else {
                Cell::Empty
            }) by {
                if !is_border(r, c) {
                    let p = (r as u8, c as u8);
                    assert(interior_at(p));
                    if post.snake.cells@.contains(p) {
                        let k = choose|k: int| 0 <= k < post.snake.cells@.len() && post.snake.cells@[k] == p;
                        assert(k == 0);
                    }
                    if r == post.head().0 && c == post.head().1 {
                        assert(post.snake.cells@[0] == p);
                    }
                }
            }
        },
        None => {},
    }
}

/// A command that asks for the reverse of the current direction leaves the
/// direction as it was.
pub proof fn lemma_no_reversal(d: Direction, c: Command)
    requires
        command_direction(c) == Some(opposite(d)),
    ensures
        turned(d, c) == d,
{
}

} // verus!
