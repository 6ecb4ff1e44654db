//! Chunked tile storage and the render pipeline stages that turn it into draw submissions.
//!
//! `tilemap` holds the tile grid: tiles, the bounded grid that stores them chunk by chunk,
//! and the model that the contracts of the grid are stated over. `render` holds the
//! render side: the mirror of a grid and the stages of a frame, extraction, culling, prepare
//! and queue. `ldtk` and `tiled` turn levels of the LDtk and Tiled editors, once read, into
//! tiles, and keep track of the levels that are loaded; `levels` is the table that they
//! keep them in. `math` holds the integer vectors and the chunk arithmetic.

pub mod ldtk;
pub mod levels;
pub mod math;
pub mod render;
pub mod tiled;
pub mod tilemap;
