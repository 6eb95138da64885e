//! A deterministic snake-game engine and a renderer that packs a boolean
//! occupancy grid into 2x4-dot braille glyphs.

pub mod game;
pub mod raster;
pub mod render;
pub mod types;

pub use game::GameState;
pub use raster::{rasterize_game, Raster2D};
pub use types::{Coord, Direction, GameConfig, GameStatus, Point, TickResult};
