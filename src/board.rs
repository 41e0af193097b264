use vstd::prelude::*;

verus! {

/// Number of columns of the board, walls included.
pub const WIDTH: usize = 62;

/// Number of rows of the board, walls included.
pub const HEIGHT: usize = 26;

/// Number of cells of the board, stored row after row.
pub const CELLS: usize = 1612;

/// What a board cell holds.
#[derive(Clone, Copy, Debug, PartialEq, Eq, Structural)]
pub enum Cell {
    Empty,
    Wall,
    Food,
    Snake,
}

impl Cell {
    /// The digit that stands for this cell in a plain dump of the board.
    pub open spec fn digit(self) -> char {
        match self {
            Cell::Empty => '0',
            Cell::Wall => '1',
            Cell::Food => '2',
            Cell::Snake => '3',
        }
    }
}

/// Position in the flat board of the cell at `row`, `col`.
pub open spec fn idx(row: int, col: int) -> int {
    row * WIDTH + col
}

pub open spec fn in_grid(row: int, col: int) -> bool {
    0 <= row < HEIGHT && 0 <= col < WIDTH
}

pub open spec fn is_border(row: int, col: int) -> bool {
    row == 0 || row == HEIGHT - 1 || col == 0 || col == WIDTH - 1
}

/// The playable cells: every cell that is not on the outer border.
pub open spec fn is_interior(row: int, col: int) -> bool {
    1 <= row <= HEIGHT - 2 && 1 <= col <= WIDTH - 2
}

/// The board holds `Wall` on every border cell and nowhere else.
pub open spec fn walls_on_border(b: Seq<Cell>) -> bool {
    &&& b.len() == CELLS
    &&& forall|r: int, c: int| #[trigger] in_grid(r, c) && is_border(r, c) ==> b[idx(r, c)] == Cell::Wall
    &&& forall|r: int, c: int| #[trigger] is_interior(r, c) ==> b[idx(r, c)] != Cell::Wall
}

/// The board of a fresh game: walls on the border, every other cell empty.
pub open spec fn is_fresh(b: Seq<Cell>) -> bool {
    &&& b.len() == CELLS
    &&& forall|r: int, c: int| #[trigger] in_grid(r, c) ==> b[idx(r, c)] == (if is_border(r, c) {
        Cell::Wall
    } else {
        Cell::Empty
    })
}

/// Wrap addressing on one axis of `max` cells: a step onto or past the wall
/// lands on the opposite interior edge.
pub open spec fn wrap(pos: int, max: int) -> int {
    if pos < 1 {
        max - 2
    } else if pos > max - 2 {
        1
    } else {
        pos
    }
}

pub proof fn lemma_fresh_has_walls(b: Seq<Cell>)
    requires
        is_fresh(b),
    ensures
        walls_on_border(b),
{
    assert forall|r: int, c: int| #[trigger] is_interior(r, c) implies b[idx(r, c)] != Cell::Wall by {
        assert(in_grid(r, c));
    }
}

/// Builds the board of a fresh game.
pub fn fresh_board() -> (b: Vec<Cell>)
    ensures
        is_fresh(b@),
        walls_on_border(b@),
{
    let mut b: Vec<Cell> = Vec::new();
    let mut r: usize = 0;
    while r < HEIGHT
        invariant
            r <= HEIGHT,
            b@.len() == r * WIDTH,
            forall|r2: int, c2: int| #[trigger] in_grid(r2, c2) && r2 < r ==> b@[idx(r2, c2)] == (if is_border(r2, c2) {
                Cell::Wall
            } else {
                Cell::Empty
            }),
        decreases HEIGHT - r,
    {
        let mut c: usize = 0;
        while c < WIDTH
            invariant
                r < HEIGHT,
                c <= WIDTH,
                b@.len() == r * WIDTH + c,
                forall|r2: int, c2: int| #[trigger] in_grid(r2, c2) && (r2 < r || (r2 == r && c2 < c)) ==> b@[idx(r2, c2)] == (if is_border(r2, c2) {
                    Cell::Wall
                } else {
                    Cell::Empty
                }),
            decreases WIDTH - c,
        {
            if r == 0 || r == HEIGHT - 1 || c == 0 || c == WIDTH - 1 {
                b.push(Cell::Wall);
            } else {
                b.push(Cell::Empty);
            }
            c = c + 1;
        }
        r = r + 1;
    }
    proof {
        lemma_fresh_has_walls(b@);
    }
    b
}

} // verus!
