//! Tiles in the fixed-width form that the renderer draws from.

use crate::math::UVec2;
use crate::tilemap::tile::{Tile, TileColor, TileLayer, TileTexture, TileTextureView, TileView};
use vstd::prelude::*;

verus! {

/// The number of layers of a tile that are drawn; layers above them are passed over.
pub const MAX_LAYER_COUNT: usize = 4;

/// One tile as the renderer draws it: its cell, its lowest layers, its animation if it has
/// one, and its tint.
#[derive(Clone, Copy, Debug, PartialEq, Eq)]
pub struct PackedTile {
    pub index: UVec2,
    pub layers: [TileLayer; 4],
    pub animation: Option<u32>,
    pub color: TileColor,
}

/// Layer `i` of a stack, or the empty layer where the stack is shorter.
pub open spec fn layer_or_empty(layers: Seq<TileLayer>, i: int) -> TileLayer {
    if 0 <= i < layers.len() {
        layers[i]
    } else {
        TileLayer::spec_new()
    }
}

/// The drawn layers of a texture: the lowest layers of a stack, and none of an animation.
pub open spec fn packed_layers(texture: TileTextureView) -> [TileLayer; 4] {
    match texture {
        TileTextureView::Static(layers) => [
            layer_or_empty(layers, 0),
            layer_or_empty(layers, 1),
            layer_or_empty(layers, 2),
            layer_or_empty(layers, 3),
        ],
        TileTextureView::Animated(_) => [
            TileLayer::spec_new(),
            TileLayer::spec_new(),
            TileLayer::spec_new(),
            TileLayer::spec_new(),
        ],
    }
}

/// The drawn form of `tile`.
pub open spec fn packed(tile: TileView) -> PackedTile {
    PackedTile {
        index: tile.index,
        layers: packed_layers(tile.texture),
        animation: match tile.texture {
            TileTextureView::Static(_) => None,
            TileTextureView::Animated(animation) => Some(animation),
        },
        color: tile.color,
    }
}

/// What the renderer keeps of a cell: the drawn form of a visible tile, and nothing of an
/// empty cell or of a hidden tile.
pub open spec fn mirrored(tile: Option<TileView>) -> Option<PackedTile> {
    match tile {
        Some(t) => if t.visible {
            Some(packed(t))
        } else {
            None
        },
        None => None,
    }
}

fn pick_layer(layers: &Vec<TileLayer>, i: usize) -> (layer: TileLayer)
    ensures
        layer == layer_or_empty(layers@, i as int),
{
    if i < layers.len() {
        layers[i]
    } else {
        TileLayer::new()
    }
}

/// Packs a tile for drawing.
pub fn pack(tile: &Tile) -> (drawn: PackedTile)
    ensures
        drawn == packed(tile@),
{
    match &tile.texture {
        TileTexture::Static(layers) => PackedTile {
            index: tile.index,
            layers: [
                pick_layer(layers, 0),
                pick_layer(layers, 1),
                pick_layer(layers, 2),
                pick_layer(layers, 3),
            ],
            animation: None,
            color: tile.color,
        },
        TileTexture::Animated(animation) => PackedTile {
            index: tile.index,
            layers: [TileLayer::new(), TileLayer::new(), TileLayer::new(), TileLayer::new()],
            animation: Some(*animation),
            color: tile.color,
        },
    }
}

/// Packs what a cell holds, if it holds a visible tile.
pub fn mirror(tile: Option<&Tile>) -> (kept: Option<PackedTile>)
    ensures
        kept == mirrored(
            match tile {
                Some(t) => Some(t@),
                None => None,
            },
        ),
{
    match tile {
        Some(t) => if t.visible {
            Some(pack(t))
        } else {
            None
        },
        None => None,
    }
}

} // verus!
