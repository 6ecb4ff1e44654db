//! The layers of a level on their way to becoming tilemaps or patterns.

use crate::ldtk::json::{EntityInstance, LayerInstance, TileInstance};
use crate::ldtk::resources::{
    mapped_animation, tileset_texture, LdtkAssets, LdtkLoadConfig, LdtkPatterns, LdtkTileset,
};
use crate::ldtk::{div_toward_zero, trunc_div, LdtkError, LdtkLoaderMode};
use crate::math::{IAabb2d, IVec2, UVec2};
use crate::tilemap::animation::{AnimationError, AnimationView, TilemapAnimations};
use crate::tilemap::buffers::{Stacked, TileBuffer, TileBufferView};
use crate::tilemap::model::{Entity, TilemapTexture};
use crate::tilemap::tile::{
    layers_with, TileBuilder, TileColor, TileLayer, TileTextureView, TileView,
};
use vstd::prelude::*;

verus! {

/// The tiles of one layer, with the animations that they refer to.
#[derive(Debug)]
pub struct TilemapPattern {
    pub label: Option<String>,
    pub tiles: TileBuffer,
    pub animations: TilemapAnimations,
}

/// One layer of a level: its tiles, the texture they are drawn with, and how opaque it is.
#[derive(Debug)]
pub struct LdtkLayer {
    pub pattern: TilemapPattern,
    pub texture: TilemapTexture,
    pub iid: String,
    /// The opacity, from 0 to 255.
    pub opacity: u8,
}

/// The mathematical value of an [`LdtkLayer`].
pub struct LdtkLayerView {
    pub label: Option<Seq<char>>,
    pub tiles: TileBufferView,
    pub animations: Seq<AnimationView>,
    pub texture: TilemapTexture,
    pub iid: Seq<char>,
    pub opacity: u8,
}

impl View for LdtkLayer {
    type V = LdtkLayerView;

    open spec fn view(&self) -> LdtkLayerView {
        LdtkLayerView {
            label: match self.pattern.label {
                Some(label) => Some(label@),
                None => None,
            },
            tiles: self.pattern.tiles@,
            animations: self.pattern.animations@,
            texture: self.texture,
            iid: self.iid@,
            opacity: self.opacity,
        }
    }
}

impl LdtkLayer {
    pub open spec fn wf(&self) -> bool {
        self.pattern.tiles.wf() && self.pattern.animations.wf()
    }
}

/// An entity of a level that is to be spawned: the entity as the project has it, where its
/// level lies, and its place among the entities of its layer, from which its depth follows.
#[derive(Clone, Copy, Debug)]
pub struct PackedLdtkEntity<'a> {
    pub instance: &'a EntityInstance,
    pub level_translation: IVec2,
    /// The position of the entity's layer among the layers of the level.
    pub layer_index: usize,
    /// The position of the entity among the entities of its layer.
    pub order: usize,
    /// The number of entities of the layer.
    pub count: usize,
}

/// The tags among the first `n` of `tags` that are registered, by their positions.
pub open spec fn registered_tags(tags: Seq<String>, registered: Seq<String>, n: int) -> Seq<usize>
    decreases n,
{
    if n <= 0 {
        Seq::empty()
    } else if is_registered(registered, tags[n - 1]@) {
        registered_tags(tags, registered, n - 1).push((n - 1) as usize)
    } else {
        registered_tags(tags, registered, n - 1)
    }
}

/// Whether `name` is among `registered`.
pub open spec fn is_registered(registered: Seq<String>, name: Seq<char>) -> bool {
    exists|i: int| 0 <= i < registered.len() && (#[trigger] registered[i])@ == name
}

/// Whether `name` is among `registered`.
pub fn find_registered(registered: &Vec<String>, name: &String) -> (found: bool)
    ensures
        found == is_registered(registered@, name@),
{
    let mut i: usize = 0;
    while i < registered.len()
        invariant
            i <= registered.len(),
            forall|j: int| 0 <= j < i ==> (#[trigger] registered@[j])@ != name@,
        decreases registered.len() - i,
    {
        if registered[i] == *name {
            return true;
        }
        i += 1;
    }
    false
}

impl<'a> PackedLdtkEntity<'a> {
    /// Whether the tag at position `i` is the first of the entity's tags that is not
    /// registered.
    pub open spec fn first_unregistered_tag(self, tags: Seq<String>, i: int) -> bool {
        &&& 0 <= i < self.instance.tags@.len()
        &&& !is_registered(tags, self.instance.tags@[i]@)
        &&& forall|j: int| 0 <= j < i ==> is_registered(tags, (#[trigger] self.instance.tags@[j])@)
    }

    /// Decides what comes of spawning the entity. `registered` says whether the kind of the
    /// entity is registered, `tags` which tags are. `Ok(None)` says that the entity is passed
    /// over; otherwise the positions of the tags that the entity is to be given come back.
    pub fn instantiate(&self, registered: bool, tags: &Vec<String>, config: &LdtkLoadConfig)
        -> (spawned: Result<Option<Vec<usize>>, LdtkError>)
        ensures
            match spawned {
                Ok(Some(given)) => {
                    &&& registered
                    &&& config.ignore_unregistered_entity_tags || forall|i: int|
                        0 <= i < self.instance.tags@.len() ==> is_registered(
                            tags@,
                            (#[trigger] self.instance.tags@[i])@,
                        )
                    &&& given@ == registered_tags(
                        self.instance.tags@,
                        tags@,
                        self.instance.tags@.len() as int,
                    )
                },
                Ok(None) => !registered && config.ignore_unregistered_entities,
                Err(LdtkError::UnregisteredEntity) => !registered
                    && !config.ignore_unregistered_entities,
                Err(LdtkError::UnregisteredEntityTag { tag }) => {
                    &&& registered
                    &&& !config.ignore_unregistered_entity_tags
                    &&& self.first_unregistered_tag(tags@, tag as int)
                },
                Err(_) => false,
            },
    {
        if !registered {
            if config.ignore_unregistered_entities {
                return Ok(None);
            } else {
                return Err(LdtkError::UnregisteredEntity);
            }
        }
        let own = &self.instance.tags;
        let mut given: Vec<usize> = Vec::new();
        let mut i: usize = 0;
        while i < own.len()
            invariant
                i <= own.len(),
                registered,
                own == &self.instance.tags,
                given@ == registered_tags(own@, tags@, i as int),
                config.ignore_unregistered_entity_tags || forall|j: int|
                    0 <= j < i ==> is_registered(tags@, (#[trigger] own@[j])@),
            decreases own.len() - i,
        {
            if find_registered(tags, &own[i]) {
                given.push(i);
            } else if !config.ignore_unregistered_entity_tags {
                return Err(LdtkError::UnregisteredEntityTag { tag: i });
            }
            i += 1;
        }
        Ok(Some(given))
    }
}

/// The box of a layer of `c_wid` by `c_hei` cells whose top row is row 0 and whose rows are
/// counted downwards from it, where the numbers are sizes.
pub open spec fn layer_aabb(layer: LayerInstance) -> Option<IAabb2d> {
    if layer.c_wid == i32::MIN || layer.c_hei < i32::MIN + 2 {
        None
    } else {
        Some(
            IAabb2d {
                min: IVec2 { x: 0, y: (1 - layer.c_hei) as i32 },
                max: IVec2 { x: (layer.c_wid - 1) as i32, y: 0 },
            },
        )
    }
}

/// The cell of `tile` in a layer whose tiles are `tile_size` pixels large. Pixels are counted
/// from the top left corner and rows of cells upwards: loaded as a tilemap, the top row of
/// the layer is row -1; loaded as a pattern, the bottom row of the pattern is row 0.
pub open spec fn tile_cell(
    tile: TileInstance,
    tile_size: UVec2,
    mode: LdtkLoaderMode,
    pattern_size: UVec2,
) -> Result<IVec2, LdtkError> {
    if tile_size.x == 0 || tile_size.y == 0 || tile_size.x > i32::MAX || tile_size.y > i32::MAX {
        Err(LdtkError::BadTileSize)
    } else {
        let x = trunc_div(tile.px[0] as int, tile_size.x as int);
        let y = match mode {
            LdtkLoaderMode::Tilemap => trunc_div(-(tile.px[1] as int), tile_size.y as int) - 1,
            LdtkLoaderMode::MapPattern => pattern_size.y - trunc_div(
                tile.px[1] as int,
                tile_size.y as int,
            ) - 1,
        };
        if y < i32::MIN || y > i32::MAX || x < i32::MIN || x > i32::MAX {
            Err(LdtkError::TileOutOfRange)
        } else {
            Ok(IVec2 { x: x as i32, y: y as i32 })
        }
    }
}

/// The cell of `tile`.
pub fn cell_of_tile(
    tile: &TileInstance,
    tile_size: UVec2,
    mode: LdtkLoaderMode,
    pattern_size: UVec2,
) -> (cell: Result<IVec2, LdtkError>)
    ensures
        cell == tile_cell(*tile, tile_size, mode, pattern_size),
{
    if tile_size.x == 0 || tile_size.y == 0 || tile_size.x > i32::MAX as u32 || tile_size.y
        > i32::MAX as u32 {
        return Err(LdtkError::BadTileSize);
    }
    let x: i64 = div_toward_zero(tile.px[0] as i64, tile_size.x as i64);
    let y: i64 = match mode {
        LdtkLoaderMode::Tilemap => div_toward_zero(-(tile.px[1] as i64), tile_size.y as i64) - 1,
        LdtkLoaderMode::MapPattern => pattern_size.y as i64 - div_toward_zero(
            tile.px[1] as i64,
            tile_size.y as i64,
        ) - 1,
    };
    if y < i32::MIN as i64 || y > i32::MAX as i64 || x < i32::MIN as i64 || x > i32::MAX as i64 {
        Err(LdtkError::TileOutOfRange)
    } else {
        Ok(IVec2 { x: x as i32, y: y as i32 })
    }
}

/// The layer that a tile becomes when it is put on top of a tile that is there.
pub open spec fn stacked_layer(tile: TileInstance) -> TileLayer {
    TileLayer { texture_index: ((tile.tile_id as u32) as i32), flip: 0 }
}

/// The tile that `tile` becomes in a cell that is empty: tinted white with the opacity of
/// the tile, it shows the animation numbered `animation`, or else the texture of the tile,
/// flipped as the tile is.
pub open spec fn new_tile(tile: TileInstance, animation: Option<u32>) -> TileView {
    TileView {
        index: UVec2 { x: 0, y: 0 },
        texture: match animation {
            Some(number) => TileTextureView::Animated(number),
            None => TileTextureView::Static(
                layers_with(
                    Seq::empty(),
                    0,
                    TileLayer {
                        texture_index: ((tile.tile_id as u32) as i32),
                        flip: tile.flip as u32,
                    },
                ),
            ),
        },
        color: TileColor { r: 255, g: 255, b: 255, a: tile.alpha },
        visible: true,
    }
}

/// The mathematical value of an [`LdtkLayers`].
pub struct LdtkLayersView<'a> {
    pub ty: LdtkLoaderMode,
    pub level_entity: Entity,
    pub layers: Seq<Option<LdtkLayerView>>,
    pub entities: Seq<PackedLdtkEntity<'a>>,
    /// The textures of the tilesets that the layers draw from.
    pub tilesets: Seq<LdtkTileset>,
    pub translation: IVec2,
    pub base_z_index: i32,
}

/// The layers and entities of one level while the level is loaded.
pub struct LdtkLayers<'a> {
    pub ty: LdtkLoaderMode,
    pub level_entity: Entity,
    pub layers: Vec<Option<LdtkLayer>>,
    pub entities: Vec<PackedLdtkEntity<'a>>,
    pub assets: &'a LdtkAssets,
    pub translation: IVec2,
    pub base_z_index: i32,
}

impl<'a> View for LdtkLayers<'a> {
    type V = LdtkLayersView<'a>;

    open spec fn view(&self) -> LdtkLayersView<'a> {
        LdtkLayersView {
            ty: self.ty,
            level_entity: self.level_entity,
            layers: Seq::new(
                self.layers@.len(),
                |i: int|
                    match self.layers@[i] {
                        Some(layer) => Some(layer@),
                        None => None,
                    },
            ),
            entities: self.entities@,
            tilesets: self.assets@.tilesets,
            translation: self.translation,
            base_z_index: self.base_z_index,
        }
    }
}

impl<'a> LdtkLayersView<'a> {
    /// The layers with the layer at `layer_index` made, if it was not there: it has the
    /// label and the opacity of `layer`, the texture of the tileset of `layer`, and no tile.
    pub open spec fn with_layer_created(self, layer_index: usize, layer: LayerInstance) -> Result<
        LdtkLayersView<'a>,
        LdtkError,
    > {
        if layer.tileset_def_uid is None || tileset_texture(
            self.tilesets,
            layer.tileset_def_uid.unwrap(),
        ) is None {
            Err(LdtkError::MissingTileset)
        } else if layer_index >= self.layers.len() {
            Err(LdtkError::NoSuchLayer { index: layer_index })
        } else if self.layers[layer_index as int] is Some {
            Ok(self)
        } else if layer_aabb(layer) is None {
            Err(LdtkError::BadLayerSize)
        } else {
            Ok(
                LdtkLayersView {
                    layers: self.layers.update(
                        layer_index as int,
                        Some(
                            LdtkLayerView {
                                label: Some(layer.identifier@),
                                tiles: TileBufferView {
                                    aabb: layer_aabb(layer).unwrap(),
                                    tiles: Map::empty(),
                                },
                                animations: Seq::empty(),
                                texture: tileset_texture(
                                    self.tilesets,
                                    layer.tileset_def_uid.unwrap(),
                                ).unwrap(),
                                iid: layer.iid@,
                                opacity: layer.opacity,
                            },
                        ),
                    ),
                    ..self
                },
            )
        }
    }

    /// The layer `held` with `tile` put to `cell`, or why it cannot be put there. On top of
    /// a tile that shows layers goes one more layer; to an empty cell goes a new tile, which
    /// shows the animation that stands for the texture of `tile` where there is one.
    pub open spec fn with_tile(
        held: LdtkLayerView,
        cell: IVec2,
        tile: TileInstance,
        config: LdtkLoadConfig,
    ) -> Result<LdtkLayerView, LdtkError> {
        match held.tiles.stack_outcome(cell) {
            Stacked::OnTop => Ok(
                LdtkLayerView { tiles: held.tiles.stack(cell, stacked_layer(tile)), ..held },
            ),
            Stacked::Animated => Err(LdtkError::AnimatedTileConflict { cell }),
            Stacked::NoTile => match mapped_animation(
                config.animation_mapper@,
                tile.tile_id as u32,
            ) {
                Some(animation) => if animation@.sequence.len() == 0 || animation@.frame_duration
                    == 0 {
                    Err(LdtkError::DegenerateAnimation)
                } else if held.animations.len() >= u32::MAX {
                    Err(LdtkError::AnimationTableFull)
                } else {
                    Ok(
                        LdtkLayerView {
                            animations: held.animations.push(animation@),
                            tiles: TileBufferView {
                                tiles: held.tiles.tiles.insert(
                                    cell,
                                    new_tile(tile, Some(held.animations.len() as u32)),
                                ),
                                ..held.tiles
                            },
                            ..held
                        },
                    )
                },
                None => Ok(
                    LdtkLayerView {
                        tiles: TileBufferView {
                            tiles: held.tiles.tiles.insert(cell, new_tile(tile, None)),
                            ..held.tiles
                        },
                        ..held
                    },
                ),
            },
        }
    }

    /// The layers after `tile` of `layer` was set, with what came of it. Where the tile
    /// cannot be set, the layer at `layer_index` may have been made all the same.
    pub open spec fn set_tile(
        self,
        layer_index: usize,
        layer: LayerInstance,
        tile: TileInstance,
        config: LdtkLoadConfig,
        patterns: LdtkPatterns,
        mode: LdtkLoaderMode,
    ) -> (LdtkLayersView<'a>, Result<(), LdtkError>) {
        match self.with_layer_created(layer_index, layer) {
            Err(error) => (self, Err(error)),
            Ok(created) => {
                let held = created.layers[layer_index as int].unwrap();
                match tile_cell(tile, held.texture.desc.tile_size, mode, patterns.pattern_size) {
                    Err(error) => (created, Err(error)),
                    Ok(cell) => match Self::with_tile(held, cell, tile, config) {
                        Err(error) => (created, Err(error)),
                        Ok(changed) => (
                            LdtkLayersView {
                                layers: created.layers.update(layer_index as int, Some(changed)),
                                ..created
                            },
                            Ok(()),
                        ),
                    },
                }
            },
        }
    }
}

impl<'a> LdtkLayers<'a> {
    /// Every layer holds a well-formed buffer and a well-formed table of animations.
    pub open spec fn wf(&self) -> bool {
        forall|i: int|
            0 <= i < self.layers@.len() && (#[trigger] self.layers@[i]) is Some
                ==> self.layers@[i].unwrap().wf()
    }

    /// The layers of a level of `total_layers` layers, none of which is made yet.
    pub fn new(
        level_entity: Entity,
        total_layers: usize,
        ldtk_assets: &'a LdtkAssets,
        translation: IVec2,
        base_z_index: i32,
        ty: LdtkLoaderMode,
    ) -> (layers: LdtkLayers<'a>)
        ensures
            layers.wf(),
            layers@ == (LdtkLayersView {
                ty,
                level_entity,
                layers: Seq::new(total_layers as nat, |i: int| None::<LdtkLayerView>),
                entities: Seq::empty(),
                tilesets: ldtk_assets@.tilesets,
                translation,
                base_z_index,
            }),
    {
        let mut slots: Vec<Option<LdtkLayer>> = Vec::new();
        let mut i: usize = 0;
        while i < total_layers
            invariant
                i <= total_layers,
                slots@.len() == i,
                forall|j: int| 0 <= j < i ==> slots@[j] is None,
            decreases total_layers - i,
        {
            slots.push(None);
            i += 1;
        }
        let layers = LdtkLayers {
            ty,
            level_entity,
            layers: slots,
            entities: Vec::new(),
            assets: ldtk_assets,
            translation,
            base_z_index,
        };
        proof {
            assert(layers@.layers =~= Seq::new(
                total_layers as nat,
                |i: int| None::<LdtkLayerView>,
            ));
        }
        layers
    }

    /// Adds an entity to the entities of the level.
    pub fn set_entity(&mut self, entity: PackedLdtkEntity<'a>)
        requires
            old(self).wf(),
        ensures
            final(self).wf(),
            final(self)@ == (LdtkLayersView {
                entities: old(self)@.entities.push(entity),
                ..old(self)@
            }),
    {
        self.entities.push(entity);
    }

    /// Makes the layer at `layer_index`, if it is not there yet.
    pub fn try_create_new_layer(&mut self, layer_index: usize, layer: &LayerInstance) -> (made:
        Result<(), LdtkError>)
        requires
            old(self).wf(),
        ensures
            final(self).wf(),
            match made {
                Ok(()) => old(self)@.with_layer_created(layer_index, *layer) == Ok::<
                    LdtkLayersView<'a>,
                    LdtkError,
                >(final(self)@),
                Err(error) => old(self)@.with_layer_created(layer_index, *layer) == Err::<
                    LdtkLayersView<'a>,
                    LdtkError,
                >(error) && final(self)@ == old(self)@,
            },
    {
        let texture: TilemapTexture = match layer.tileset_def_uid {
            Some(uid) => match self.assets.get_tileset(uid) {
                Some(texture) => texture,
                None => {
                    return Err(LdtkError::MissingTileset);
                },
            },
            None => {
                return Err(LdtkError::MissingTileset);
            },
        };
        if layer_index >= self.layers.len() {
            return Err(LdtkError::NoSuchLayer { index: layer_index });
        }
        if self.layers[layer_index].is_some() {
            return Ok(());
        }
        if layer.c_wid == i32::MIN || layer.c_hei < i32::MIN + 2 {
            return Err(LdtkError::BadLayerSize);
        }
        let aabb = IAabb2d {
            min: IVec2 { x: 0, y: 1 - layer.c_hei },
            max: IVec2 { x: layer.c_wid - 1, y: 0 },
        };
        let made = LdtkLayer {
            pattern: TilemapPattern {
                label: Some(layer.identifier.clone()),
                tiles: TileBuffer::new(aabb),
                animations: TilemapAnimations::new(),
            },
            texture,
            iid: layer.iid.clone(),
            opacity: layer.opacity,
        };
        self.layers[layer_index] = Some(made);
        proof {
            let target = old(self)@.with_layer_created(layer_index, *layer);
            assert(self@.layers =~= target.unwrap().layers);
        }
        Ok(())
    }

    /// Sets `tile` of `layer`, which is the layer at `layer_index` of the level. The layer
    /// is made first if it is not there yet.
    pub fn set_tile(
        &mut self,
        layer_index: usize,
        layer: &LayerInstance,
        tile: &TileInstance,
        config: &LdtkLoadConfig,
        patterns: &LdtkPatterns,
        mode: &LdtkLoaderMode,
    ) -> (set: Result<(), LdtkError>)
        requires
            old(self).wf(),
        ensures
            final(self).wf(),
            (final(self)@, set) == old(self)@.set_tile(
                layer_index,
                *layer,
                *tile,
                *config,
                *patterns,
                *mode,
            ),
    {
        match self.try_create_new_layer(layer_index, layer) {
            Ok(()) => {},
            Err(error) => {
                return Err(error);
            },
        }
        let ghost created = self@;
        proof {
            assert(created.layers.len() == old(self)@.layers.len());
            assert(created.layers[layer_index as int] is Some);
        }
        let mut held: LdtkLayer = self.layers[layer_index].take().unwrap();
        let outcome = place_tile(&mut held, tile, config, patterns.pattern_size, *mode);
        self.layers[layer_index] = Some(held);
        proof {
            let target = old(self)@.set_tile(
                layer_index,
                *layer,
                *tile,
                *config,
                *patterns,
                *mode,
            );
            assert(self@.layers =~= target.0.layers);
            assert forall|i: int|
                0 <= i < self.layers@.len() && (#[trigger] self.layers@[i]) is Some
                    implies self.layers@[i].unwrap().wf() by {}
        }
        outcome
    }
}

/// Puts `tile` into the layer `held`, and leaves the layer as it is where the tile cannot be
/// put.
fn place_tile(
    held: &mut LdtkLayer,
    tile: &TileInstance,
    config: &LdtkLoadConfig,
    pattern_size: UVec2,
    mode: LdtkLoaderMode,
) -> (placed: Result<(), LdtkError>)
    requires
        old(held).wf(),
    ensures
        final(held).wf(),
        match tile_cell(*tile, old(held)@.texture.desc.tile_size, mode, pattern_size) {
            Err(error) => placed == Err::<(), LdtkError>(error) && final(held)@ == old(held)@,
            Ok(cell) => match LdtkLayersView::with_tile(old(held)@, cell, *tile, *config) {
                Err(error) => placed == Err::<(), LdtkError>(error) && final(held)@ == old(
                    held,
                )@,
                Ok(changed) => placed == Ok::<(), LdtkError>(()) && final(held)@ == changed,
            },
        },
{
    let cell: IVec2 = match cell_of_tile(tile, held.texture.desc.tile_size, mode, pattern_size) {
        Ok(cell) => cell,
        Err(error) => {
            return Err(error);
        },
    };
    let texture_index: u32 = #[verifier::truncate] (tile.tile_id as u32);
    let stacked = TileLayer::new().with_texture_index(texture_index);
    match held.pattern.tiles.stack(cell, stacked) {
        Stacked::OnTop => {
            return Ok(());
        },
        Stacked::Animated => {
            return Err(LdtkError::AnimatedTileConflict { cell });
        },
        Stacked::NoTile => {},
    }
    let builder = TileBuilder::new().with_color(
        TileColor { r: 255, g: 255, b: 255, a: tile.alpha },
    );
    let builder = match config.animation_for(texture_index) {
        Some(animation) => {
            match held.pattern.animations.register(animation.duplicate()) {
                Ok(number) => builder.with_animation(number),
                Err(AnimationError::Degenerate) => {
                    return Err(LdtkError::DegenerateAnimation);
                },
                Err(_) => {
                    return Err(LdtkError::AnimationTableFull);
                },
            }
        },
        None => builder.with_layer(
            0,
            TileLayer::new().with_texture_index(texture_index).with_flip_raw(
                #[verifier::truncate] (tile.flip as u32),
            ),
        ),
    };
    held.pattern.tiles.set(cell, builder);
    Ok(())
}

/// A layer of a level that is to become a tilemap or a pattern, with its place in depth.
#[derive(Debug)]
pub struct AppliedLayer {
    /// The position of the layer among the layers of the level.
    pub index: usize,
    /// The z index of the layer: layers are counted down from the base z index, so that an
    /// earlier layer of the level lies above a later one.
    pub z_index: i128,
    pub layer: LdtkLayer,
}

/// The mathematical value of an [`AppliedLayer`].
pub struct AppliedLayerView {
    pub index: usize,
    pub z_index: i128,
    pub layer: LdtkLayerView,
}

impl View for AppliedLayer {
    type V = AppliedLayerView;

    open spec fn view(&self) -> AppliedLayerView {
        AppliedLayerView { index: self.index, z_index: self.z_index, layer: self.layer@ }
    }
}

/// What a loaded level comes to: the layers to turn into tilemaps or patterns, and the
/// entities to spawn.
pub struct LevelApplication<'a> {
    pub mode: LdtkLoaderMode,
    pub level_entity: Entity,
    pub translation: IVec2,
    pub layers: Vec<AppliedLayer>,
    pub entities: Vec<PackedLdtkEntity<'a>>,
}

/// The mathematical value of a [`LevelApplication`].
pub struct LevelApplicationView<'a> {
    pub mode: LdtkLoaderMode,
    pub level_entity: Entity,
    pub translation: IVec2,
    pub layers: Seq<AppliedLayerView>,
    pub entities: Seq<PackedLdtkEntity<'a>>,
}

impl<'a> View for LevelApplication<'a> {
    type V = LevelApplicationView<'a>;

    open spec fn view(&self) -> LevelApplicationView<'a> {
        LevelApplicationView {
            mode: self.mode,
            level_entity: self.level_entity,
            translation: self.translation,
            layers: Seq::new(self.layers@.len(), |i: int| self.layers@[i]@),
            entities: self.entities@,
        }
    }
}

/// The layers that were made among the first `n` of `layers`, in their order, each with its
/// position and its z index.
pub open spec fn applied(layers: Seq<Option<LdtkLayerView>>, base_z_index: i32, n: int) -> Seq<
    AppliedLayerView,
>
    decreases n,
{
    if n <= 0 {
        Seq::empty()
    } else {
        match layers[n - 1] {
            Some(layer) => applied(layers, base_z_index, n - 1).push(
                AppliedLayerView {
                    index: (n - 1) as usize,
                    z_index: (base_z_index - (n - 1) - 1) as i128,
                    layer,
                },
            ),
            None => applied(layers, base_z_index, n - 1),
        }
    }
}

impl<'a> LdtkLayersView<'a> {
    /// What the level comes to. Entities are spawned only where the level is loaded as
    /// tilemaps.
    pub open spec fn application(self) -> LevelApplicationView<'a> {
        LevelApplicationView {
            mode: self.ty,
            level_entity: self.level_entity,
            translation: self.translation,
            layers: applied(self.layers, self.base_z_index, self.layers.len() as int),
            entities: match self.ty {
                LdtkLoaderMode::Tilemap => self.entities,
                LdtkLoaderMode::MapPattern => Seq::empty(),
            },
        }
    }

    /// What is left once the level was applied: no layer, and the entities that were not
    /// spawned.
    pub open spec fn drained(self) -> LdtkLayersView<'a> {
        LdtkLayersView {
            layers: Seq::empty(),
            entities: match self.ty {
                LdtkLoaderMode::Tilemap => Seq::empty(),
                LdtkLoaderMode::MapPattern => self.entities,
            },
            ..self
        }
    }
}

impl<'a> LdtkLayers<'a> {
    /// Hands over what the level comes to: each layer that was made, with its z index, and,
    /// where the level is loaded as tilemaps, the entities to spawn. The host turns the
    /// layers into tilemaps or patterns and spawns the entities.
    pub fn apply_all(&mut self) -> (application: LevelApplication<'a>)
        requires
            old(self).wf(),
        ensures
            final(self).wf(),
            application@ == old(self)@.application(),
            final(self)@ == old(self)@.drained(),
            forall|i: int|
                0 <= i < application.layers@.len() ==> (
                #[trigger] application.layers@[i]).layer.wf(),
    {
        let ghost start = self@;
        let mut layers: Vec<AppliedLayer> = Vec::new();
        let mut i: usize = 0;
        while i < self.layers.len()
            invariant
                i <= self.layers.len(),
                self.layers@.len() == old(self).layers@.len(),
                self.base_z_index == old(self).base_z_index,
                self.ty == old(self).ty,
                self.level_entity == old(self).level_entity,
                self.translation == old(self).translation,
                self.entities == old(self).entities,
                self.assets == old(self).assets,
                old(self).wf(),
                start == old(self)@,
                forall|j: int|
                    i <= j < self.layers@.len() ==> (#[trigger] self.layers@[j]) == old(
                        self,
                    ).layers@[j],
                Seq::new(layers@.len(), |k: int| layers@[k]@) == applied(
                    start.layers,
                    start.base_z_index,
                    i as int,
                ),
                forall|k: int| 0 <= k < layers@.len() ==> (#[trigger] layers@[k]).layer.wf(),
            decreases self.layers.len() - i,
        {
            let ghost before = Seq::new(layers@.len(), |k: int| layers@[k]@);
            match self.layers[i].take() {
                Some(layer) => {
                    let z_index: i128 = self.base_z_index as i128 - i as i128 - 1;
                    layers.push(AppliedLayer { index: i, z_index, layer });
                    proof {
                        assert(Seq::new(layers@.len(), |k: int| layers@[k]@) =~= before.push(
                            layers@[layers@.len() - 1]@,
                        ));
                    }
                },
                None => {
                },
            }
            i += 1;
        }
        self.layers = Vec::new();
        let mut entities: Vec<PackedLdtkEntity<'a>> = Vec::new();
        match self.ty {
            LdtkLoaderMode::Tilemap => {
                core::mem::swap(&mut self.entities, &mut entities);
            },
            LdtkLoaderMode::MapPattern => {},
        }
        let application = LevelApplication {
            mode: self.ty,
            level_entity: self.level_entity,
            translation: self.translation,
            layers,
            entities,
        };
        proof {
            assert(self@.layers =~= Seq::<Option<LdtkLayerView>>::empty());
        }
        application
    }
}

} // verus!
