use snake_game::board::{Cell, HEIGHT, WIDTH};
use snake_game::game::SnakeGame;
use snake_game::scores::sort_descending;
use snake_game::signal::WalkieTalkie;
use snake_game::snake::{Command, Direction, Snake};

fn count(g: &SnakeGame, what: Cell) -> usize {
    let mut n = 0;
    for r in 0..HEIGHT {
        for c in 0..WIDTH {
            if g.cell(r, c) == what {
                n += 1;
            }
        }
    }
    n
}

fn border_is_wall(g: &SnakeGame) -> bool {
    for r in 0..HEIGHT {
        for c in 0..WIDTH {
            let border = r == 0 || r == HEIGHT - 1 || c == 0 || c == WIDTH - 1;
            if border && g.cell(r, c) != Cell::Wall {
                return false;
            }
            if !border && g.cell(r, c) == Cell::Wall {
                return false;
            }
        }
    }
    true
}

fn food_at(g: &SnakeGame) -> (usize, usize) {
    for r in 0..HEIGHT {
        for c in 0..WIDTH {
            if g.cell(r, c) == Cell::Food {
                return (r, c);
            }
        }
    }
    panic!("no food on the board");
}

fn game(cells: Vec<(u8, u8)>, direction: Direction, food: (u8, u8), scores: Vec<usize>) -> SnakeGame {
    SnakeGame::from_state(cells, direction, food, scores).expect("valid layout")
}

#[test]
fn fresh_simulation() {
    let g = SnakeGame::new();
    assert!(border_is_wall(&g));
    assert_eq!(count(&g, Cell::Food), 1);
    assert_eq!(count(&g, Cell::Snake), 1);
    assert_eq!(count(&g, Cell::Wall), 2 * WIDTH + 2 * (HEIGHT - 2));
    assert_eq!(count(&g, Cell::Empty), 60 * 24 - 2);
    assert_eq!(g.score(), 1);
    assert!(g.highscores.is_empty());
    assert!(!g.quit);
}

#[test]
fn fresh_games_start_at_random_places() {
    let first = SnakeGame::new().snake_cells()[0];
    let mut differs = false;
    for _ in 0..64 {
        let g = SnakeGame::new();
        let head = g.snake_cells()[0];
        assert!(head.0 >= 1 && (head.0 as usize) <= HEIGHT - 2);
        assert!(head.1 >= 1 && (head.1 as usize) <= WIDTH - 2);
        if head != first {
            differs = true;
        }
    }
    assert!(differs);
}

#[test]
fn tick_onto_empty_cell() {
    let mut g = game(vec![(10, 10)], Direction::Right, (5, 5), vec![]);
    assert_eq!(g.cell(10, 11), Cell::Empty);
    g.take_step();
    assert_eq!(g.snake_cells(), vec![(10, 11)]);
    assert_eq!(g.score(), 1);
    assert_eq!(g.cell(10, 10), Cell::Empty);
    assert_eq!(g.cell(10, 11), Cell::Snake);
    assert_eq!(g.cell(5, 5), Cell::Food);
    assert_eq!(count(&g, Cell::Snake), 1);
}

#[test]
fn longer_snake_follows_its_head() {
    let mut g = game(vec![(10, 10), (10, 9), (10, 8)], Direction::Right, (5, 5), vec![]);
    g.take_step();
    assert_eq!(g.snake_cells(), vec![(10, 11), (10, 10), (10, 9)]);
    assert_eq!(g.cell(10, 8), Cell::Empty);
    assert_eq!(count(&g, Cell::Snake), 3);
}

#[test]
fn tick_onto_food_grows() {
    let mut g = game(vec![(10, 10)], Direction::Right, (10, 11), vec![]);
    g.take_step();
    assert_eq!(g.score(), 2);
    assert_eq!(g.snake_cells(), vec![(10, 11), (10, 10)]);
    assert_eq!(count(&g, Cell::Food), 1);
    assert_eq!(count(&g, Cell::Snake), 2);
    let f = food_at(&g);
    assert!(f != (10, 11) && f != (10, 10));
    assert!(border_is_wall(&g));
}

#[test]
fn self_collision_restarts() {
    let cells = vec![(10, 10), (11, 10), (11, 11), (10, 11), (9, 11)];
    let mut g = game(cells, Direction::Right, (5, 5), vec![]);
    g.take_step();
    assert_eq!(g.highscores, vec![4]);
    assert_eq!(g.score(), 1);
    assert!(border_is_wall(&g));
    assert_eq!(count(&g, Cell::Snake), 1);
    assert_eq!(count(&g, Cell::Food), 1);
    assert_eq!(count(&g, Cell::Empty), 60 * 24 - 2);
    let head = g.snake_cells()[0];
    assert_eq!(g.cell(head.0 as usize, head.1 as usize), Cell::Snake);
}

#[test]
fn moving_onto_the_tail_ends_the_run() {
    let cells = vec![(10, 10), (11, 10), (11, 11), (10, 11)];
    let mut g = game(cells, Direction::Right, (5, 5), vec![]);
    g.take_step();
    assert_eq!(g.highscores, vec![3]);
    assert_eq!(g.score(), 1);
}

#[test]
fn reverse_command_is_ignored() {
    let mut g = game(vec![(10, 10), (10, 9)], Direction::Right, (5, 5), vec![]);
    assert_eq!(g.key_stroke_move(Command::Left), Ok(()));
    assert_eq!(g.snake.direction, Direction::Right);
    assert_eq!((g.snake.dx, g.snake.dy), (1, 0));
    g.take_step();
    assert_eq!(g.snake_cells()[0], (10, 11));
}

#[test]
fn turn_command_changes_heading() {
    let mut g = game(vec![(10, 10)], Direction::Right, (5, 5), vec![]);
    assert_eq!(g.key_stroke_move(Command::Up), Ok(()));
    assert_eq!(g.snake.direction, Direction::Up);
    assert_eq!((g.snake.dx, g.snake.dy), (0, -1));
    g.take_step();
    assert_eq!(g.snake_cells(), vec![(9, 10)]);
    assert_eq!(g.key_stroke_move(Command::Down), Ok(()));
    assert_eq!(g.snake.direction, Direction::Up);
    assert_eq!(g.key_stroke_move(Command::Left), Ok(()));
    assert_eq!(g.snake.direction, Direction::Left);
    assert_eq!((g.snake.dx, g.snake.dy), (-1, 0));
}

#[test]
fn quit_and_other_keys() {
    let mut g = game(vec![(10, 10)], Direction::Down, (5, 5), vec![]);
    assert_eq!(g.key_stroke_move(Command::Quit), Err(()));
    assert_eq!(g.key_stroke_move(Command::Ignore), Ok(()));
    assert_eq!(g.snake.direction, Direction::Down);
    assert_eq!(g.snake_cells(), vec![(10, 10)]);
}

#[test]
fn score_table_after_three_game_overs() {
    let mut g = game(vec![(10, 10), (10, 11), (10, 12)], Direction::Right, (5, 5), vec![4, 9]);
    g.take_step();
    assert_eq!(g.highscores, vec![4, 9, 2]);
    assert_eq!(g.score_table(), vec![9, 4, 2]);
}

#[test]
fn score_table_from_collisions() {
    let cells = vec![(10, 10), (11, 10), (11, 11), (10, 11), (9, 11)];
    let mut g = game(cells, Direction::Right, (5, 5), vec![]);
    g.take_step();
    assert_eq!(g.score_table(), vec![4]);
    assert_eq!(SnakeGame::new().score_table(), Vec::<usize>::new());
}

#[test]
fn sorting_scores() {
    assert_eq!(sort_descending(&vec![4, 9, 2]), vec![9, 4, 2]);
    assert_eq!(sort_descending(&vec![]), Vec::<usize>::new());
    assert_eq!(sort_descending(&vec![3, 3, 7, 1, 7]), vec![7, 7, 3, 3, 1]);
}

#[test]
fn wrap_position_values() {
    let g = SnakeGame::new();
    assert_eq!(g.wrap_position(0, WIDTH), 60);
    assert_eq!(g.wrap_position(61, WIDTH), 1);
    assert_eq!(g.wrap_position(30, WIDTH), 30);
    assert_eq!(g.wrap_position(0, HEIGHT), 24);
    assert_eq!(g.wrap_position(25, HEIGHT), 1);
    assert_eq!(g.wrap_position(1, HEIGHT), 1);
    assert_eq!(g.wrap_position(24, HEIGHT), 24);
}

#[test]
fn wrap_past_right_edge() {
    let mut g = game(vec![(10, 60)], Direction::Right, (5, 5), vec![]);
    g.take_step();
    assert_eq!(g.snake_cells(), vec![(10, 1)]);
    assert_eq!(g.cell(10, 61), Cell::Wall);
}

#[test]
fn wrap_past_top_edge() {
    let mut g = game(vec![(1, 7)], Direction::Up, (5, 5), vec![]);
    g.take_step();
    assert_eq!(g.snake_cells(), vec![(24, 7)]);
    assert_eq!(g.cell(0, 7), Cell::Wall);
}

#[test]
fn invalid_layouts_are_refused() {
    assert!(SnakeGame::from_state(vec![], Direction::Right, (5, 5), vec![]).is_none());
    assert!(SnakeGame::from_state(vec![(0, 5)], Direction::Right, (5, 5), vec![]).is_none());
    assert!(SnakeGame::from_state(vec![(3, 61)], Direction::Right, (5, 5), vec![]).is_none());
    assert!(SnakeGame::from_state(vec![(3, 3), (3, 3)], Direction::Right, (5, 5), vec![]).is_none());
    assert!(SnakeGame::from_state(vec![(3, 3), (5, 5)], Direction::Right, (5, 5), vec![]).is_none());
    assert!(SnakeGame::from_state(vec![(3, 3)], Direction::Right, (25, 5), vec![]).is_none());
    assert!(SnakeGame::from_state(vec![(3, 3)], Direction::Right, (5, 5), vec![]).is_some());
}

#[test]
fn reset_board_clears_interior() {
    let mut g = game(vec![(10, 10), (10, 9)], Direction::Right, (5, 5), vec![]);
    g.reset_board();
    assert!(border_is_wall(&g));
    assert_eq!(count(&g, Cell::Empty), 60 * 24);
}

#[test]
fn place_food_adds_one_food() {
    let mut g = game(vec![(10, 10)], Direction::Right, (5, 5), vec![]);
    g.reset_board();
    g.place_food();
    assert_eq!(count(&g, Cell::Food), 1);
    assert_eq!(count(&g, Cell::Empty), 60 * 24 - 1);
}

#[test]
fn display_nums_dump() {
    let g = game(vec![(1, 1)], Direction::Right, (1, 2), vec![]);
    let d = g._display_nums();
    let lines: Vec<&str> = d.lines().collect();
    assert_eq!(d.len(), HEIGHT * (WIDTH + 1));
    assert_eq!(lines.len(), HEIGHT);
    assert_eq!(lines[0], "1".repeat(WIDTH));
    assert_eq!(&lines[1][0..4], "1320");
    assert_eq!(lines[2], format!("1{}1", "0".repeat(WIDTH - 2)));
}

#[test]
fn new_snake_faces_right() {
    let s = Snake::new();
    assert!(s.cells.is_empty());
    assert_eq!((s.dx, s.dy), (1, 0));
    assert_eq!(s.direction, Direction::Right);
}

#[test]
fn walkie_talkie_pairs_cross() {
    let w = WalkieTalkie::new();
    w.pair1.0.send(7).unwrap();
    assert_eq!(w.pair2.1.recv().unwrap(), 7);
    w.pair2.0.send(3).unwrap();
    assert_eq!(w.pair1.1.recv().unwrap(), 3);
}
