//! Plain value types shared by the engine and the renderer.
use vstd::prelude::*;

verus! {

/// Integer coordinate of a grid cell.
pub type Coord = i32;

#[derive(Debug, Clone, Copy, PartialEq, Eq, Structural, Hash)]
pub struct Point {
    pub x: Coord,
    pub y: Coord,
}

impl Point {
    pub fn new(x: Coord, y: Coord) -> (r: Self)
        ensures
            r.x == x,
            r.y == y,
    {
        Point { x, y }
    }
}

#[derive(Debug, Clone, Copy, PartialEq, Eq, Structural)]
pub enum Direction {
    Up,
    Down,
    Left,
    Right,
}

/// The unit vector of a heading; `y` grows downwards.
pub open spec fn delta(d: Direction) -> (int, int) {
    match d {
        Direction::Up => (0, -1),
        Direction::Down => (0, 1),
        Direction::Left => (-1, 0),
        Direction::Right => (1, 0),
    }
}

/// Two headings that point in exactly opposite ways.
pub open spec fn opposite(a: Direction, b: Direction) -> bool {
    delta(a).0 == -delta(b).0 && delta(a).1 == -delta(b).1
}

impl Direction {
    pub fn dx_dy(self) -> (r: (Coord, Coord))
        ensures
            r.0 == delta(self).0,
            r.1 == delta(self).1,
    {
        match self {
            Direction::Up => (0, -1),
            Direction::Down => (0, 1),
            Direction::Left => (-1, 0),
            Direction::Right => (1, 0),
        }
    }

    pub fn is_opposite(self, other: Self) -> (r: bool)
        ensures
            r == opposite(self, other),
    {
        match (self, other) {
            (Direction::Up, Direction::Down) => true,
            (Direction::Down, Direction::Up) => true,
            (Direction::Right, Direction::Left) => true,
            (Direction::Left, Direction::Right) => true,
            _ => false,
        }
    }
}

#[derive(Debug, Clone, Copy, PartialEq, Eq, Structural)]
pub enum GameStatus {
    Running,
    Dead,
}

#[derive(Debug, Clone, Copy, PartialEq, Eq, Structural)]
pub struct GameConfig {
    pub width: Coord,
    pub height: Coord,
    pub wrap_edges: bool,
    /// Initial snake length; a length of zero is treated as one.
    pub initial_len: usize,
    /// Rendering hint: the board is meant to be packed into 2x4 braille cells.
    pub braille_friendly: bool,
}

impl GameConfig {
    /// A configuration the engine can run: a non-empty board, and an initial
    /// snake that fits on it left of the centre column.
    pub open spec fn valid(&self) -> bool {
        &&& self.width > 0
        &&& self.height > 0
        &&& self.initial_len <= self.width / 2 + 1
    }

    /// Whether `p` lies on the board.
    pub open spec fn contains(&self, p: Point) -> bool {
        0 <= p.x < self.width && 0 <= p.y < self.height
    }
}

impl Default for GameConfig {
    fn default() -> (r: Self)
        ensures
            r.width == 40,
            r.height == 24,
            !r.wrap_edges,
            r.initial_len == 4,
            r.braille_friendly,
    {
        GameConfig { width: 40, height: 24, wrap_edges: false, initial_len: 4, braille_friendly: true }
    }
}

/// What one step reports.
#[derive(Debug, Clone, Copy, PartialEq, Eq, Structural)]
pub struct TickResult {
    pub ate_food: bool,
    pub status: GameStatus,
    pub score: u32,
}

} // verus!
