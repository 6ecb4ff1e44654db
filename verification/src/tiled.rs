//! Maps of the Tiled editor: which of them are loaded, and which tileset a tile of a map
//! comes from.

pub mod resources;
pub mod xml;
