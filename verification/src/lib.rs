//! The core of a turn-based dungeon crawler: the tile grid, the level
//! builder, the spawner and the turn-phase state machine.

pub mod components;
pub mod glyph;
pub mod map;
pub mod map_builder;
pub mod random;
pub mod spawner;
pub mod state;
pub mod systems;
pub mod turn_state;
pub mod world;
