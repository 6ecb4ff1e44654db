//! What the library reads of an LDtk project.

use vstd::prelude::*;

verus! {

/// How the levels of a world are laid out.
#[derive(Clone, Copy, Debug, PartialEq, Eq, Structural)]
pub enum WorldLayout {
    Free,
    GridVania,
    LinearHorizontal,
    LinearVertical,
}

/// The kind of a layer.
#[derive(Clone, Copy, Debug, PartialEq, Eq, Structural)]
pub enum LayerType {
    IntGrid,
    Entities,
    Tiles,
    AutoLayer,
}

/// One tile of a layer.
#[derive(Clone, Copy, Debug, PartialEq, Eq)]
pub struct TileInstance {
    /// Where the tile lies in the layer, in pixels from the top left corner.
    pub px: [i32; 2],
    /// The number of the tile in its tileset.
    pub tile_id: i32,
    /// The flip bits: bit 0 mirrors horizontally, bit 1 vertically.
    pub flip: i32,
    /// The opacity, from 0 to 255.
    pub alpha: u8,
}

/// One entity of a layer.
#[derive(Debug)]
pub struct EntityInstance {
    pub identifier: String,
    pub iid: String,
    pub tags: Vec<String>,
}

/// One layer of a level.
#[derive(Debug)]
pub struct LayerInstance {
    /// The width of the layer in cells.
    pub c_wid: i32,
    /// The height of the layer in cells.
    pub c_hei: i32,
    pub identifier: String,
    pub iid: String,
    pub ty: LayerType,
    /// The opacity, from 0 to 255.
    pub opacity: u8,
    pub tileset_def_uid: Option<i32>,
    pub auto_layer_tiles: Vec<TileInstance>,
    pub grid_tiles: Vec<TileInstance>,
    pub entity_instances: Vec<EntityInstance>,
}

/// One level of a project.
#[derive(Debug)]
pub struct Level {
    pub identifier: String,
    pub iid: String,
    pub world_x: i32,
    pub world_y: i32,
    pub px_wid: i32,
    pub px_hei: i32,
    pub layer_instances: Vec<LayerInstance>,
}

/// A tileset of a project.
#[derive(Debug)]
pub struct TilesetDef {
    pub uid: i32,
    pub rel_path: Option<String>,
    pub px_wid: i32,
    pub px_hei: i32,
    pub tile_grid_size: i32,
}

/// A project.
#[derive(Debug)]
pub struct LdtkJson {
    pub world_layout: Option<WorldLayout>,
    pub levels: Vec<Level>,
    pub tilesets: Vec<TilesetDef>,
}

} // verus!
