//! Procedural layout of a vertically descending level: a random walk from the
//! top row to the bottom row of a grid, and the classification of every cell
//! of that grid as entrance, exit, path or empty.

pub mod components;
pub mod error;
pub mod grid;
pub mod health;
pub mod map;
pub mod tile;
pub mod walk;

pub use components::{
    Animation, CameraTest, Climbable, Grounded, LadderBundle, Player, PlayerInput, Wall,
};
pub use error::MapError;
pub use grid::classify;
pub use health::Health;
pub use map::{generate_main_path, LevelMap};
pub use tile::{Direction, MapTile};
pub use walk::{direction_from_draw, PathWalker};
