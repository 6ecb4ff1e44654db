//! What the library reads of a Tiled map and of a Tiled tileset.

use vstd::prelude::*;

verus! {

/// An image that a tileset or an image layer refers to.
#[derive(Debug)]
pub struct TiledImage {
    pub source: String,
    pub width: u32,
    pub height: u32,
}

/// The use of a tileset by a map: the tiles of the tileset are numbered from `first_gid` in
/// the map.
#[derive(Debug)]
pub struct TilesetDef {
    pub first_gid: u32,
    pub source: String,
}

/// A layer that shows one image.
#[derive(Debug)]
pub struct ImageLayer {
    pub id: u32,
    pub name: String,
    pub image: TiledImage,
    pub repeat_x: bool,
    pub repeat_y: bool,
}

/// A layer of a map.
#[derive(Debug)]
pub enum TiledLayer {
    Tiles { id: u32, name: String },
    Objects { id: u32, name: String },
    Image(ImageLayer),
}

/// A map.
#[derive(Debug)]
pub struct TiledTilemap {
    pub width: u32,
    pub height: u32,
    pub tile_width: u32,
    pub tile_height: u32,
    pub tilesets: Vec<TilesetDef>,
    pub layers: Vec<TiledLayer>,
}

/// A tileset.
#[derive(Debug)]
pub struct TiledTileset {
    pub name: String,
    pub tile_width: u32,
    pub tile_height: u32,
    pub image: TiledImage,
}

} // verus!
