use hjkl_snake::{Direction, GameConfig, GameState, GameStatus, Point};
use rand::SeedableRng;
use rand_chacha::ChaCha8Rng;

fn base_game() -> GameState {
    let cfg = GameConfig {
        width: 10,
        height: 8,
        wrap_edges: false,
        initial_len: 3,
        braille_friendly: true,
    };
    GameState::with_rng(cfg, ChaCha8Rng::seed_from_u64(42))
}

fn small_game(wrap_edges: bool) -> GameState {
    GameState::with_rng(
        GameConfig {
            width: 3,
            height: 3,
            wrap_edges,
            initial_len: 1,
            braille_friendly: true,
        },
        ChaCha8Rng::seed_from_u64(1),
    )
}

fn board(width: i32, height: i32, wrap_edges: bool) -> GameState {
    GameState::with_seed(
        GameConfig {
            width,
            height,
            wrap_edges,
            initial_len: 1,
            braille_friendly: false,
        },
        7,
    )
}

#[test]
fn initial_state_is_running() {
    let g = base_game();
    assert_eq!(g.status(), GameStatus::Running);
    assert!(g.snake_segments().len() >= 1);
    assert!(g.food_positions().len() >= 1);
}

#[test]
fn queue_direction_blocks_180() {
    let mut g = base_game();
    // Start going Right
    g.queue_direction(Direction::Left); // 180° turn; should ignore
    let before = g.direction();
    g.tick();
    assert_eq!(g.status(), GameStatus::Running);
    assert_eq!(g.direction(), before);
}

#[test]
fn head_moves() {
    let mut g = base_game();
    let head_1 = g.head().clone();
    g.tick();
    let head_2 = g.head().clone();
    assert_ne!(head_1, head_2);
}

#[test]
fn eating_increases_score_and_length() {
    let mut g = base_game();
    // Place food directly in front of the head.
    let (dx, dy) = g.direction().dx_dy();
    let head = g.head();
    let food_pos = Point::new(head.x + dx, head.y + dy);
    // Clear and insert deterministic food.
    g.clear_food();
    assert!(g.place_food(food_pos));
    let len_before = g.snake_segments().len();
    let res = g.tick();
    assert_eq!(g.head(), food_pos, "Head advanced onto food position");
    assert!(res.ate_food, "Ate food");
    assert_eq!(g.score(), 1, "Score incremented");
    assert_eq!(g.snake_segments().len(), len_before + 1, "Snake length grew");
}

#[test]
fn wall_collision_kills() {
    let mut g = small_game(false);
    // Put head at right edge, moving right
    g.clear_food();
    assert!(g.place_snake(&vec![Point::new(2, 1)], Direction::Right));
    let res = g.tick();
    assert_eq!(res.status, GameStatus::Dead);
}

#[test]
fn initial_layout_is_centred() {
    let g = base_game();
    assert_eq!(
        g.snake_segments(),
        vec![Point::new(5, 4), Point::new(4, 4), Point::new(3, 4)]
    );
    assert_eq!(g.direction(), Direction::Right);
    assert_eq!(g.score(), 0);
    let food = g.food_positions();
    assert_eq!(food.len(), 1);
    let f = food[0];
    assert!(f.x >= 0 && f.x < 10 && f.y >= 0 && f.y < 8);
    assert!(!g.snake_segments().contains(&f));
}

#[test]
fn zero_initial_length_counts_as_one() {
    let g = GameState::with_seed(
        GameConfig {
            width: 4,
            height: 4,
            wrap_edges: false,
            initial_len: 0,
            braille_friendly: false,
        },
        3,
    );
    assert_eq!(g.snake_segments(), vec![Point::new(2, 2)]);
}

#[test]
fn head_moves_by_unit_vector() {
    let mut g = base_game();
    g.clear_food();
    let res = g.tick();
    assert!(!res.ate_food);
    assert_eq!(res.status, GameStatus::Running);
    assert_eq!(
        g.snake_segments(),
        vec![Point::new(6, 4), Point::new(5, 4), Point::new(4, 4)]
    );
}

#[test]
fn turn_is_applied_on_next_step() {
    let mut g = base_game();
    g.clear_food();
    g.queue_direction(Direction::Down);
    g.queue_direction(Direction::Up);
    g.tick();
    assert_eq!(g.direction(), Direction::Up);
    assert_eq!(g.head(), Point::new(5, 3));
    // The queue is consumed: the next step keeps going up.
    g.tick();
    assert_eq!(g.head(), Point::new(5, 2));
}

#[test]
fn edge_kills_and_keeps_snake() {
    let mut g = board(5, 5, false);
    g.clear_food();
    let body = vec![Point::new(2, 0), Point::new(2, 1), Point::new(2, 2)];
    assert!(g.place_snake(&body, Direction::Up));
    let res = g.tick();
    assert_eq!(res.status, GameStatus::Dead);
    assert!(!res.ate_food);
    assert_eq!(g.status(), GameStatus::Dead);
    assert_eq!(g.snake_segments(), body);
}

#[test]
fn dead_game_does_not_move() {
    let mut g = small_game(false);
    g.clear_food();
    assert!(g.place_snake(&vec![Point::new(2, 1)], Direction::Right));
    g.tick();
    g.queue_direction(Direction::Down);
    let res = g.tick();
    assert_eq!(res.status, GameStatus::Dead);
    assert!(!res.ate_food);
    assert_eq!(g.snake_segments(), vec![Point::new(2, 1)]);
    assert_eq!(g.direction(), Direction::Right);
}

#[test]
fn edges_wrap_right_to_left() {
    let mut g = small_game(true);
    g.clear_food();
    assert!(g.place_snake(&vec![Point::new(2, 1)], Direction::Right));
    let res = g.tick();
    assert_eq!(res.status, GameStatus::Running);
    assert_eq!(g.head(), Point::new(0, 1));
}

#[test]
fn edges_wrap_top_to_bottom() {
    let mut g = board(4, 6, true);
    g.clear_food();
    assert!(g.place_snake(&vec![Point::new(1, 0)], Direction::Up));
    g.tick();
    assert_eq!(g.status(), GameStatus::Running);
    assert_eq!(g.head(), Point::new(1, 5));
    g.queue_direction(Direction::Left);
    g.tick();
    g.tick();
    g.tick();
    assert_eq!(g.head(), Point::new(2, 5));
}

#[test]
fn not_eating_keeps_length() {
    let mut g = base_game();
    g.clear_food();
    for _ in 0..3 {
        let len = g.snake_segments().len();
        let res = g.tick();
        assert!(!res.ate_food);
        assert_eq!(g.snake_segments().len(), len);
        assert_eq!(g.score(), 0);
    }
}

#[test]
fn eaten_food_is_replaced_off_the_snake() {
    let mut g = base_game();
    g.clear_food();
    assert!(g.place_food(Point::new(6, 4)));
    let res = g.tick();
    assert!(res.ate_food);
    assert_eq!(res.score, 1);
    let snake = g.snake_segments();
    let food = g.food_positions();
    assert!(!food.contains(&Point::new(6, 4)));
    assert_eq!(food.len(), 1);
    for f in &food {
        assert!(!snake.contains(f));
        assert!(f.x >= 0 && f.x < 10 && f.y >= 0 && f.y < 8);
    }
}

#[test]
fn body_collision_is_a_no_op() {
    let mut g = board(5, 5, false);
    g.clear_food();
    let body = vec![
        Point::new(2, 2),
        Point::new(2, 1),
        Point::new(1, 1),
        Point::new(1, 2),
        Point::new(1, 3),
    ];
    assert!(g.place_snake(&body, Direction::Down));
    g.queue_direction(Direction::Left);
    let res = g.tick();
    assert!(!res.ate_food);
    assert_eq!(res.status, GameStatus::Running);
    assert_eq!(g.status(), GameStatus::Running);
    assert_eq!(g.snake_segments(), body);
    assert_eq!(g.direction(), Direction::Left);
}

#[test]
fn snake_may_follow_its_tail() {
    let mut g = board(5, 5, false);
    g.clear_food();
    let body = vec![
        Point::new(1, 1),
        Point::new(1, 2),
        Point::new(2, 2),
        Point::new(2, 1),
    ];
    assert!(g.place_snake(&body, Direction::Up));
    g.queue_direction(Direction::Right);
    let res = g.tick();
    assert_eq!(res.status, GameStatus::Running);
    assert_eq!(
        g.snake_segments(),
        vec![Point::new(2, 1), Point::new(1, 1), Point::new(1, 2), Point::new(2, 2)]
    );
}

#[test]
fn tail_blocks_when_eating() {
    let mut g = board(5, 5, false);
    g.clear_food();
    let body = vec![
        Point::new(1, 1),
        Point::new(1, 2),
        Point::new(2, 2),
        Point::new(2, 1),
    ];
    assert!(g.place_snake(&body, Direction::Up));
    assert!(!g.place_food(Point::new(2, 1)));
    assert!(g.place_food(Point::new(0, 1)));
    g.queue_direction(Direction::Right);
    g.tick();
    assert_eq!(g.head(), Point::new(2, 1));
    assert_eq!(g.score(), 0);
}

#[test]
fn setup_rejects_bad_layouts() {
    let mut g = board(4, 4, false);
    g.clear_food();
    assert!(!g.place_snake(&vec![], Direction::Up));
    assert!(!g.place_snake(&vec![Point::new(4, 0)], Direction::Up));
    assert!(!g.place_snake(&vec![Point::new(1, 1), Point::new(1, 1)], Direction::Up));
    assert!(g.place_food(Point::new(3, 3)));
    assert!(!g.place_food(Point::new(3, 3)));
    assert!(!g.place_food(Point::new(-1, 0)));
    assert!(!g.place_snake(&vec![Point::new(3, 3)], Direction::Up));
    assert!(g.place_snake(&vec![Point::new(0, 0), Point::new(0, 1)], Direction::Right));
}

#[test]
fn reset_after_death_restores_layout() {
    let mut g = small_game(false);
    g.clear_food();
    assert!(g.place_snake(&vec![Point::new(2, 1)], Direction::Right));
    g.tick();
    assert_eq!(g.status(), GameStatus::Dead);
    g.queue_direction(Direction::Up);
    g.reset();
    assert_eq!(g.status(), GameStatus::Running);
    assert_eq!(g.score(), 0);
    assert_eq!(g.direction(), Direction::Right);
    assert_eq!(g.snake_segments(), vec![Point::new(1, 1)]);
    assert_eq!(g.food_positions().len(), 1);
    g.clear_food();
    g.tick();
    assert_eq!(g.head(), Point::new(2, 1));
}

#[test]
fn same_seed_same_game() {
    let a = base_game();
    let b = GameState::with_seed(*a.config(), 42);
    assert_eq!(a.food_positions(), b.food_positions());
    assert_eq!(a.snake_segments(), b.snake_segments());
}

#[test]
fn full_board_spawns_nothing() {
    let mut g = GameState::with_seed(
        GameConfig {
            width: 2,
            height: 1,
            wrap_edges: true,
            initial_len: 1,
            braille_friendly: false,
        },
        5,
    );
    // The only free cell holds the food; eating it fills the board.
    let food = g.food_positions();
    assert_eq!(food, vec![Point::new(0, 0)]);
    let res = g.tick();
    assert!(res.ate_food);
    assert_eq!(g.snake_segments().len(), 2);
    assert!(g.food_positions().is_empty());
}

#[test]
fn direction_vectors() {
    assert_eq!(Direction::Up.dx_dy(), (0, -1));
    assert_eq!(Direction::Down.dx_dy(), (0, 1));
    assert_eq!(Direction::Left.dx_dy(), (-1, 0));
    assert_eq!(Direction::Right.dx_dy(), (1, 0));
    assert!(Direction::Up.is_opposite(Direction::Down));
    assert!(Direction::Left.is_opposite(Direction::Right));
    assert!(!Direction::Up.is_opposite(Direction::Left));
    assert!(!Direction::Right.is_opposite(Direction::Right));
}

#[test]
fn default_config() {
    let c = GameConfig::default();
    assert_eq!(c.width, 40);
    assert_eq!(c.height, 24);
    assert!(!c.wrap_edges);
    assert_eq!(c.initial_len, 4);
    assert!(c.braille_friendly);
}
