//! What one cell of a tilemap holds: a stack of texture layers or an animation, a tint and a
//! visibility flag.

use crate::math::UVec2;
use vstd::prelude::*;

verus! {

/// The shape of a tilemap's cells, which fixes how a cell maps to world space.
#[derive(Clone, Copy, Debug, PartialEq, Eq, Structural)]
pub enum TileType {
    Square,
    IsometricDiamond,
}

/// How a layer's texture is mirrored.
#[derive(Clone, Copy, Debug, PartialEq, Eq, Structural)]
pub enum TileFlip {
    Unflipped,
    Horizontal,
    Vertical,
    Both,
}

impl TileFlip {
    /// The flip as two bits: bit 0 mirrors horizontally, bit 1 vertically.
    pub open spec fn spec_bits(self) -> u32 {
        match self {
            TileFlip::Unflipped => 0,
            TileFlip::Horizontal => 1,
            TileFlip::Vertical => 2,
            TileFlip::Both => 3,
        }
    }

    pub fn bits(self) -> (bits: u32)
        ensures
            bits == self.spec_bits(),
    {
        match self {
            TileFlip::Unflipped => 0,
            TileFlip::Horizontal => 1,
            TileFlip::Vertical => 2,
            TileFlip::Both => 3,
        }
    }
}

/// One texture of a tile's stack. A texture index of -1 stands for an empty layer.
#[derive(Clone, Copy, Debug, PartialEq, Eq, Structural)]
pub struct TileLayer {
    pub texture_index: i32,
    pub flip: u32,
}

impl TileLayer {
    /// The empty layer.
    pub open spec fn spec_new() -> TileLayer {
        TileLayer { texture_index: -1i32, flip: 0 }
    }

    pub fn new() -> (layer: TileLayer)
        ensures
            layer == Self::spec_new(),
    {
        TileLayer { texture_index: -1, flip: 0 }
    }

    /// Sets the texture; the index is kept as a signed 32-bit field.
    pub fn with_texture_index(self, texture_index: u32) -> (layer: TileLayer)
        ensures
            layer == (TileLayer { texture_index: texture_index as i32, flip: self.flip }),
    {
        TileLayer { texture_index: #[verifier::truncate] (texture_index as i32), flip: self.flip }
    }

    /// Adds `flip` to the flips that the layer already has.
    pub fn with_flip(self, flip: TileFlip) -> (layer: TileLayer)
        ensures
            layer == (TileLayer {
                texture_index: self.texture_index,
                flip: self.flip | flip.spec_bits(),
            }),
    {
        TileLayer { texture_index: self.texture_index, flip: self.flip | flip.bits() }
    }

    /// Replaces the flip bits.
    pub fn with_flip_raw(self, flip: u32) -> (layer: TileLayer)
        ensures
            layer == (TileLayer { texture_index: self.texture_index, flip }),
    {
        TileLayer { texture_index: self.texture_index, flip }
    }
}

/// A tint, one byte per channel.
#[derive(Clone, Copy, Debug, PartialEq, Eq, Structural)]
pub struct TileColor {
    pub r: u8,
    pub g: u8,
    pub b: u8,
    pub a: u8,
}

impl TileColor {
    pub open spec fn spec_white() -> TileColor {
        TileColor { r: 255, g: 255, b: 255, a: 255 }
    }

    /// Opaque white, the tint that leaves a texture as it is.
    pub fn white() -> (color: TileColor)
        ensures
            color == Self::spec_white(),
    {
        TileColor { r: 255, g: 255, b: 255, a: 255 }
    }
}

/// What a tile shows: a stack of layers, bottom first, or one registered animation.
#[derive(Debug)]
pub enum TileTexture {
    Static(Vec<TileLayer>),
    Animated(u32),
}

/// The mathematical value of a [`TileTexture`].
pub enum TileTextureView {
    Static(Seq<TileLayer>),
    Animated(u32),
}

impl View for TileTexture {
    type V = TileTextureView;

    open spec fn view(&self) -> TileTextureView {
        match self {
            TileTexture::Static(layers) => TileTextureView::Static(layers@),
            TileTexture::Animated(animation) => TileTextureView::Animated(*animation),
        }
    }
}

/// The layers `layers`, lengthened with empty layers where needed, with `layer` at `index`.
pub open spec fn layers_with(layers: Seq<TileLayer>, index: int, layer: TileLayer) -> Seq<
    TileLayer,
>
    recommends
        0 <= index,
{
    Seq::new(
        if index < layers.len() {
            layers.len()
        } else {
            (index + 1) as nat
        },
        |i: int|
            if i == index {
                layer
            } else if i < layers.len() {
                layers[i]
            } else {
                TileLayer::spec_new()
            },
    )
}

impl TileTextureView {
    /// A static texture gets `layer` at `index`; an animation is left as it is.
    pub open spec fn with_layer(self, index: int, layer: TileLayer) -> TileTextureView {
        match self {
            TileTextureView::Static(layers) => TileTextureView::Static(
                layers_with(layers, index, layer),
            ),
            TileTextureView::Animated(animation) => self,
        }
    }
}

fn copy_layers(layers: &Vec<TileLayer>) -> (copy: Vec<TileLayer>)
    ensures
        copy@ == layers@,
{
    let mut copy: Vec<TileLayer> = Vec::new();
    let mut i: usize = 0;
    while i < layers.len()
        invariant
            i <= layers.len(),
            copy@ == layers@.subrange(0, i as int),
        decreases layers.len() - i,
    {
        copy.push(layers[i]);
        i += 1;
    }
    copy
}

impl TileTexture {
    /// A texture with the same value.
    pub fn duplicate(&self) -> (copy: TileTexture)
        ensures
            copy@ == self@,
    {
        match self {
            TileTexture::Static(layers) => TileTexture::Static(copy_layers(layers)),
            TileTexture::Animated(animation) => TileTexture::Animated(*animation),
        }
    }
}

/// The mathematical value of a tile, stored or still to be built.
pub struct TileView {
    pub index: UVec2,
    pub texture: TileTextureView,
    pub color: TileColor,
    pub visible: bool,
}

impl TileView {
    /// The same tile at another cell.
    pub open spec fn at(self, index: UVec2) -> TileView {
        TileView { index, ..self }
    }
}

/// A tile of a tilemap.
#[derive(Debug)]
pub struct Tile {
    pub index: UVec2,
    pub texture: TileTexture,
    pub color: TileColor,
    pub visible: bool,
}

impl View for Tile {
    type V = TileView;

    open spec fn view(&self) -> TileView {
        TileView {
            index: self.index,
            texture: self.texture@,
            color: self.color,
            visible: self.visible,
        }
    }
}

/// The description of a tile, from which any number of tiles can be built.
#[derive(Debug)]
pub struct TileBuilder {
    pub index: UVec2,
    pub texture: TileTexture,
    pub color: TileColor,
    pub visible: bool,
}

impl View for TileBuilder {
    type V = TileView;

    open spec fn view(&self) -> TileView {
        TileView {
            index: self.index,
            texture: self.texture@,
            color: self.color,
            visible: self.visible,
        }
    }
}

impl TileBuilder {
    /// A visible, untinted tile at cell (0, 0) with no layer yet.
    pub open spec fn spec_new() -> TileView {
        TileView {
            index: UVec2 { x: 0, y: 0 },
            texture: TileTextureView::Static(Seq::empty()),
            color: TileColor::spec_white(),
            visible: true,
        }
    }

    pub fn new() -> (builder: TileBuilder)
        ensures
            builder@ == Self::spec_new(),
    {
        TileBuilder {
            index: UVec2 { x: 0, y: 0 },
            texture: TileTexture::Static(Vec::new()),
            color: TileColor::white(),
            visible: true,
        }
    }

    pub fn with_index(self, index: UVec2) -> (builder: TileBuilder)
        ensures
            builder@ == self@.at(index),
    {
        TileBuilder { index, texture: self.texture, color: self.color, visible: self.visible }
    }

    pub fn with_color(self, color: TileColor) -> (builder: TileBuilder)
        ensures
            builder@ == (TileView { color, ..self@ }),
    {
        TileBuilder { index: self.index, texture: self.texture, color, visible: self.visible }
    }

    pub fn with_visibility(self, visible: bool) -> (builder: TileBuilder)
        ensures
            builder@ == (TileView { visible, ..self@ }),
    {
        TileBuilder { index: self.index, texture: self.texture, color: self.color, visible }
    }

    /// Puts `layer` at position `index` of the stack, lengthening the stack with empty layers
    /// where it is shorter. A builder that holds an animation is left as it is.
    pub fn with_layer(self, index: usize, layer: TileLayer) -> (builder: TileBuilder)
        requires
            index < usize::MAX,
        ensures
            builder@ == (TileView {
                texture: self@.texture.with_layer(index as int, layer),
                ..self@
            }),
    {
        let TileBuilder { index: cell, texture, color, visible } = self;
        let texture = match texture {
            TileTexture::Static(mut layers) => {
                let ghost before = layers@;
                while layers.len() <= index
                    invariant
                        before.len() <= layers.len(),
                        layers.len() <= index + 1 || layers@ == before,
                        index < usize::MAX,
                        forall|i: int| 0 <= i < before.len() ==> layers@[i] == before[i],
                        forall|i: int|
                            before.len() <= i < layers.len() ==> layers@[i]
                                == TileLayer::spec_new(),
                    decreases index + 1 - layers.len(),
                {
                    layers.push(TileLayer::new());
                }
                layers.set(index, layer);
                assert(layers@ =~= layers_with(before, index as int, layer));
                TileTexture::Static(layers)
            },
            TileTexture::Animated(animation) => TileTexture::Animated(animation),
        };
        TileBuilder { index: cell, texture, color, visible }
    }

    /// Makes the tile show the animation registered under `animation`, in place of any layers.
    pub fn with_animation(self, animation: u32) -> (builder: TileBuilder)
        ensures
            builder@ == (TileView { texture: TileTextureView::Animated(animation), ..self@ }),
    {
        TileBuilder {
            index: self.index,
            texture: TileTexture::Animated(animation),
            color: self.color,
            visible: self.visible,
        }
    }

    /// A builder with the same value.
    pub fn duplicate(&self) -> (copy: TileBuilder)
        ensures
            copy@ == self@,
    {
        TileBuilder {
            index: self.index,
            texture: self.texture.duplicate(),
            color: self.color,
            visible: self.visible,
        }
    }

    /// The tile that the builder describes, at the builder's cell.
    pub fn build(&self) -> (tile: Tile)
        ensures
            tile@ == self@,
    {
        Tile {
            index: self.index,
            texture: self.texture.duplicate(),
            color: self.color,
            visible: self.visible,
        }
    }

    /// The tile that the builder describes, at `index`.
    pub fn build_at(&self, index: UVec2) -> (tile: Tile)
        ensures
            tile@ == self@.at(index),
    {
        Tile {
            index,
            texture: self.texture.duplicate(),
            color: self.color,
            visible: self.visible,
        }
    }
}

/// Where in the stack of a tile a layer is put.
#[derive(Clone, Copy, Debug, PartialEq, Eq, Structural)]
pub enum TileLayerPosition {
    /// Above every layer that the tile has.
    Top,
    /// Below every layer that the tile has.
    Bottom,
    /// In place of the layer at this position, the stack being lengthened with empty layers
    /// where it is shorter.
    Index(usize),
}

/// A layer and where to put it.
#[derive(Clone, Copy, Debug, PartialEq, Eq, Structural)]
pub struct LayerUpdater {
    pub position: TileLayerPosition,
    pub layer: TileLayer,
}

/// A change to a tile that is there: a layer to put, a tint to take, or both.
#[derive(Clone, Copy, Debug, PartialEq, Eq, Structural)]
pub struct TileUpdater {
    pub layer: Option<LayerUpdater>,
    pub color: Option<TileColor>,
}

impl TileUpdater {
    /// Whether the position that the layer is put at can be reached: a stack cannot be
    /// lengthened beyond the largest length that the machine counts.
    pub open spec fn fits(self) -> bool {
        match self.layer {
            Some(LayerUpdater { position: TileLayerPosition::Index(index), .. }) => index
                < usize::MAX,
            _ => true,
        }
    }

    pub fn is_fitting(&self) -> (fits: bool)
        ensures
            fits == self.fits(),
    {
        match self.layer {
            Some(LayerUpdater { position: TileLayerPosition::Index(index), .. }) => index
                < usize::MAX,
            _ => true,
        }
    }
}

impl TileTextureView {
    /// A static texture with `layer` put at `position`; an animation is left as it is.
    pub open spec fn with_layer_at(self, position: TileLayerPosition, layer: TileLayer)
        -> TileTextureView {
        match self {
            TileTextureView::Static(layers) => TileTextureView::Static(
                match position {
                    TileLayerPosition::Top => layers.push(layer),
                    TileLayerPosition::Bottom => layers.insert(0, layer),
                    TileLayerPosition::Index(index) => layers_with(layers, index as int, layer),
                },
            ),
            TileTextureView::Animated(_) => self,
        }
    }
}

impl TileView {
    /// Whether `updater` cannot be applied to the tile: it puts a layer, and the tile shows
    /// an animation.
    pub open spec fn conflicts(self, updater: TileUpdater) -> bool {
        updater.layer is Some && self.texture is Animated
    }

    /// The tile after `updater` was applied to it.
    pub open spec fn updated(self, updater: TileUpdater) -> TileView {
        TileView {
            texture: match updater.layer {
                Some(layer) => self.texture.with_layer_at(layer.position, layer.layer),
                None => self.texture,
            },
            color: match updater.color {
                Some(color) => color,
                None => self.color,
            },
            ..self
        }
    }
}

impl Tile {
    /// Whether the tile shows an animation.
    pub fn is_animated(&self) -> (animated: bool)
        ensures
            animated == (self@.texture is Animated),
    {
        match &self.texture {
            TileTexture::Static(_) => false,
            TileTexture::Animated(_) => true,
        }
    }

    /// Applies `updater` to the tile.
    pub fn update(&mut self, updater: &TileUpdater)
        requires
            !old(self)@.conflicts(*updater),
            updater.fits(),
        ensures
            final(self)@ == old(self)@.updated(*updater),
    {
        match updater.layer {
            Some(put) => {
                match &mut self.texture {
                    TileTexture::Static(layers) => {
                        let ghost before = layers@;
                        match put.position {
                            TileLayerPosition::Top => {
                                layers.push(put.layer);
                            },
                            TileLayerPosition::Bottom => {
                                layers.insert(0, put.layer);
                            },
                            TileLayerPosition::Index(index) => {
                                while layers.len() <= index
                                    invariant
                                        before.len() <= layers.len(),
                                        layers.len() <= index + 1 || layers@ == before,
                                        index < usize::MAX,
                                        forall|i: int|
                                            0 <= i < before.len() ==> layers@[i] == before[i],
                                        forall|i: int|
                                            before.len() <= i < layers.len() ==> layers@[i]
                                                == TileLayer::spec_new(),
                                    decreases index + 1 - layers.len(),
                                {
                                    layers.push(TileLayer::new());
                                }
                                layers.set(index, put.layer);
                                assert(layers@ =~= layers_with(before, index as int, put.layer));
                            },
                        }
                    },
                    TileTexture::Animated(_) => {},
                }
            },
            None => {},
        }
        match updater.color {
            Some(color) => {
                self.color = color;
            },
            None => {},
        }
    }
}

} // verus!
