//! Game logic of a mining game: the tile map with its support and collapse rules,
//! the economy of building and drilling, demon handling decisions, draw batching
//! and a few screen-flow decisions.

pub mod components;
pub mod draw_batch;
pub mod game;
pub mod game_state;
pub mod map;
pub mod tiles;


