//! A tile-based dungeon level: room-and-corridor generation, a tile grid with
//! coordinate and opacity queries, movement with wall collision, and per-entity
//! field-of-view bookkeeping with the player's memory of revealed tiles.
pub mod components;
pub mod connectivity;
pub mod dungeon;
pub mod fov;
pub mod map;
mod random;
pub mod rect;
pub mod visibility_system;
pub mod world;

pub use components::{Player, Position, Viewshed};
pub use dungeon::{MAP_HEIGHT, MAP_WIDTH, MAX_ROOMS, MAX_SIZE, MIN_SIZE};
pub use map::{GameMap, TileType};
pub use rect::Rect;
pub use visibility_system::VisibilitySystem;
pub use world::{try_move_player, World};
