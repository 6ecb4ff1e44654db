//! Tiles and the grid that stores them.

pub mod animation;
pub mod buffers;
pub mod grid;
pub mod map;
pub mod model;
pub mod tile;
pub mod world;
