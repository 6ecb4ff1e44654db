//! Levels of the LDtk editor: which of them are loaded, and how their layers become tiles.

use crate::ldtk::json::{LayerInstance, LayerType, LdtkJson, Level, TileInstance, WorldLayout};
use crate::ldtk::layer::{
    find_registered, is_registered, LdtkLayers, LdtkLayersView, LevelApplication,
    PackedLdtkEntity,
};
use crate::ldtk::resources::{LdtkAssets, LdtkLoadConfig, LdtkPatterns};
use crate::math::IVec2;
use crate::tilemap::model::Entity;
use vstd::prelude::*;

pub mod json;
pub mod layer;
pub mod resources;

verus! {

/// What a level is loaded as.
#[derive(Clone, Copy, Debug, PartialEq, Eq, Structural)]
pub enum LdtkLoaderMode {
    /// As tilemaps in the world.
    Tilemap,
    /// As patterns to build maps from.
    MapPattern,
}

/// Why a level cannot be loaded.
#[derive(Clone, Copy, Debug, PartialEq, Eq, Structural)]
pub enum LdtkError {
    /// The manager was never handed a project.
    NotInitialized,
    /// A level is loaded already, and levels are loaded one at a time.
    LevelsAlreadyLoaded,
    /// The project has no level at this position.
    NoSuchLevel { index: usize },
    /// The project does not say how its levels are laid out.
    MissingWorldLayout,
    /// The level lies where no translation can reach it.
    TranslationOutOfRange,
    /// A layer names no tileset, or one that no texture was loaded for.
    MissingTileset,
    /// The level has no layer at this position.
    NoSuchLayer { index: usize },
    /// The size of a layer is not a size.
    BadLayerSize,
    /// The size of the tiles of a tileset is zero, or more than a tile can be.
    BadTileSize,
    /// A tile lies where no cell can be.
    TileOutOfRange,
    /// A layer was to be put to the tile of this cell, which shows an animation.
    AnimatedTileConflict { cell: IVec2 },
    /// An animation that stands for a texture shows no texture, or shows each for no time.
    DegenerateAnimation,
    /// A layer holds as many animations as can be numbered.
    AnimationTableFull,
    /// An entity is of a kind that was never registered.
    UnregisteredEntity,
    /// The tag at this position of an entity's tags was never registered.
    UnregisteredEntityTag { tag: usize },
}

/// `a / b` rounded towards zero.
pub open spec fn trunc_div(a: int, b: int) -> int
    recommends
        b > 0,
{
    if a >= 0 {
        a / b
    } else {
        -((-a) / b)
    }
}

/// `a / b` rounded towards zero.
pub fn div_toward_zero(a: i64, b: i64) -> (q: i64)
    requires
        b > 0,
        a > i64::MIN,
    ensures
        q == trunc_div(a as int, b as int),
        0 <= q <= a || a <= q <= 0,
{
    proof {
        if a >= 0 {
            crate::math::lemma_chunk_split(a as int, b as int);
        } else {
            crate::math::lemma_chunk_split(-(a as int), b as int);
        }
    }
    if a >= 0 {
        a / b
    } else {
        -((-a) / b)
    }
}

/// Where the level at `index` lies in the world: at its place in a free or grid layout,
/// the vertical axis pointing up, and at the origin in a linear layout.
pub open spec fn level_translation(ldtk_data: LdtkJson, index: usize) -> Result<IVec2, LdtkError> {
    if index >= ldtk_data.levels.len() {
        Err(LdtkError::NoSuchLevel { index })
    } else {
        match ldtk_data.world_layout {
            None => Err(LdtkError::MissingWorldLayout),
            Some(WorldLayout::GridVania) | Some(WorldLayout::Free) => if ldtk_data.levels[index as int].world_y
                == i32::MIN {
                Err(LdtkError::TranslationOutOfRange)
            } else {
                Ok(
                    IVec2 {
                        x: ldtk_data.levels[index as int].world_x,
                        y: (-ldtk_data.levels[index as int].world_y) as i32,
                    },
                )
            },
            Some(_) => Ok(IVec2 { x: 0, y: 0 }),
        }
    }
}

/// Where the level at `index` lies in the world.
pub fn get_level_translation(ldtk_data: &LdtkJson, index: usize) -> (translation: Result<
    IVec2,
    LdtkError,
>)
    ensures
        translation == level_translation(*ldtk_data, index),
{
    if index >= ldtk_data.levels.len() {
        return Err(LdtkError::NoSuchLevel { index });
    }
    let level = &ldtk_data.levels[index];
    match ldtk_data.world_layout {
        None => Err(LdtkError::MissingWorldLayout),
        Some(WorldLayout::GridVania) | Some(WorldLayout::Free) => {
            if level.world_y == i32::MIN {
                Err(LdtkError::TranslationOutOfRange)
            } else {
                Ok(IVec2 { x: level.world_x, y: -level.world_y })
            }
        },
        Some(_) => Ok(IVec2 { x: 0, y: 0 }),
    }
}

/// The layers after the first `n` of `tiles` were set in turn, with what came of it: the
/// first tile that cannot be set ends the setting.
pub open spec fn tiles_set<'a>(
    layers: LdtkLayersView<'a>,
    layer_index: usize,
    layer: LayerInstance,
    tiles: Seq<TileInstance>,
    config: LdtkLoadConfig,
    patterns: LdtkPatterns,
    mode: LdtkLoaderMode,
    n: int,
) -> (LdtkLayersView<'a>, Result<(), LdtkError>)
    decreases n,
{
    if n <= 0 {
        (layers, Ok(()))
    } else {
        let earlier = tiles_set(layers, layer_index, layer, tiles, config, patterns, mode, n - 1);
        match earlier.1 {
            Err(_) => earlier,
            Ok(()) => earlier.0.set_tile(layer_index, layer, tiles[n - 1], config, patterns, mode),
        }
    }
}

/// The entities after those among the first `n` entities of `layer` that are not global
/// entities were added in turn.
pub open spec fn entities_set<'a>(
    entities: Seq<PackedLdtkEntity<'a>>,
    layer_index: usize,
    layer: &'a LayerInstance,
    translation: IVec2,
    global_entities: Seq<String>,
    n: int,
) -> Seq<PackedLdtkEntity<'a>>
    decreases n,
{
    if n <= 0 {
        entities
    } else if is_registered(global_entities, layer.entity_instances@[n - 1].iid@) {
        entities_set(entities, layer_index, layer, translation, global_entities, n - 1)
    } else {
        entities_set(entities, layer_index, layer, translation, global_entities, n - 1).push(
            PackedLdtkEntity {
                instance: &layer.entity_instances@[n - 1],
                level_translation: translation,
                layer_index,
                order: (n - 1) as usize,
                count: layer.entity_instances@.len() as usize,
            },
        )
    }
}

/// The layers after `layer` was loaded, with what came of it. A layer of tiles has its tiles
/// set, a layer of entities its entities added.
pub open spec fn layer_loaded<'a>(
    layers: LdtkLayersView<'a>,
    layer_index: usize,
    layer: &'a LayerInstance,
    translation: IVec2,
    config: LdtkLoadConfig,
    global_entities: Seq<String>,
    patterns: LdtkPatterns,
    mode: LdtkLoaderMode,
) -> (LdtkLayersView<'a>, Result<(), LdtkError>) {
    match layer.ty {
        LayerType::IntGrid | LayerType::AutoLayer => tiles_set(
            layers,
            layer_index,
            *layer,
            layer.auto_layer_tiles@,
            config,
            patterns,
            mode,
            layer.auto_layer_tiles@.len() as int,
        ),
        LayerType::Tiles => tiles_set(
            layers,
            layer_index,
            *layer,
            layer.grid_tiles@,
            config,
            patterns,
            mode,
            layer.grid_tiles@.len() as int,
        ),
        LayerType::Entities => (
            LdtkLayersView {
                entities: entities_set(
                    layers.entities,
                    layer_index,
                    layer,
                    translation,
                    global_entities,
                    layer.entity_instances@.len() as int,
                ),
                ..layers
            },
            Ok(()),
        ),
    }
}

fn set_tiles<'a>(
    layer_index: usize,
    layer: &'a LayerInstance,
    tiles: &Vec<TileInstance>,
    ldtk_layers: &mut LdtkLayers<'a>,
    config: &LdtkLoadConfig,
    patterns: &LdtkPatterns,
    mode: &LdtkLoaderMode,
) -> (set: Result<(), LdtkError>)
    requires
        old(ldtk_layers).wf(),
    ensures
        final(ldtk_layers).wf(),
        (final(ldtk_layers)@, set) == tiles_set(
            old(ldtk_layers)@,
            layer_index,
            *layer,
            tiles@,
            *config,
            *patterns,
            *mode,
            tiles@.len() as int,
        ),
{
    let ghost start = ldtk_layers@;
    let mut i: usize = 0;
    while i < tiles.len()
        invariant
            i <= tiles.len(),
            ldtk_layers.wf(),
            start == old(ldtk_layers)@,
            (ldtk_layers@, Ok::<(), LdtkError>(())) == tiles_set(
                start,
                layer_index,
                *layer,
                tiles@,
                *config,
                *patterns,
                *mode,
                i as int,
            ),
        decreases tiles.len() - i,
    {
        match ldtk_layers.set_tile(layer_index, layer, &tiles[i], config, patterns, mode) {
            Ok(()) => {},
            Err(error) => {
                proof {
                    lemma_tiles_set_failed(
                        start,
                        layer_index,
                        *layer,
                        tiles@,
                        *config,
                        *patterns,
                        *mode,
                        i + 1,
                        tiles@.len() as int,
                    );
                }
                return Err(error);
            },
        }
        i += 1;
    }
    Ok(())
}

/// Once a tile could not be set, the tiles behind it change nothing.
proof fn lemma_tiles_set_failed<'a>(
    layers: LdtkLayersView<'a>,
    layer_index: usize,
    layer: LayerInstance,
    tiles: Seq<TileInstance>,
    config: LdtkLoadConfig,
    patterns: LdtkPatterns,
    mode: LdtkLoaderMode,
    failed: int,
    n: int,
)
    requires
        0 < failed <= n,
        tiles_set(layers, layer_index, layer, tiles, config, patterns, mode, failed).1 is Err,
    ensures
        tiles_set(layers, layer_index, layer, tiles, config, patterns, mode, n) == tiles_set(
            layers,
            layer_index,
            layer,
            tiles,
            config,
            patterns,
            mode,
            failed,
        ),
    decreases n - failed,
{
    if failed < n {
        lemma_tiles_set_failed(
            layers,
            layer_index,
            layer,
            tiles,
            config,
            patterns,
            mode,
            failed,
            n - 1,
        );
    }
}

/// Loads one layer of a level: the tiles of a layer of tiles are set, and the entities of a
/// layer of entities are added, but for those that are global entities already.
pub fn load_layer<'a>(
    layer_index: usize,
    layer: &'a LayerInstance,
    ldtk_layers: &mut LdtkLayers<'a>,
    translation: IVec2,
    config: &LdtkLoadConfig,
    global_entities: &Vec<String>,
    patterns: &LdtkPatterns,
    mode: &LdtkLoaderMode,
) -> (loaded: Result<(), LdtkError>)
    requires
        old(ldtk_layers).wf(),
    ensures
        final(ldtk_layers).wf(),
        (final(ldtk_layers)@, loaded) == layer_loaded(
            old(ldtk_layers)@,
            layer_index,
            layer,
            translation,
            *config,
            global_entities@,
            *patterns,
            *mode,
        ),
{
    match layer.ty {
        LayerType::IntGrid | LayerType::AutoLayer => set_tiles(
            layer_index,
            layer,
            &layer.auto_layer_tiles,
            ldtk_layers,
            config,
            patterns,
            mode,
        ),
        LayerType::Tiles => set_tiles(
            layer_index,
            layer,
            &layer.grid_tiles,
            ldtk_layers,
            config,
            patterns,
            mode,
        ),
        LayerType::Entities => {
            let ghost start = ldtk_layers@;
            let mut order: usize = 0;
            while order < layer.entity_instances.len()
                invariant
                    order <= layer.entity_instances.len(),
                    ldtk_layers.wf(),
                    start == old(ldtk_layers)@,
                    ldtk_layers@ == (LdtkLayersView {
                        entities: entities_set(
                            start.entities,
                            layer_index,
                            layer,
                            translation,
                            global_entities@,
                            order as int,
                        ),
                        ..start
                    }),
                decreases layer.entity_instances.len() - order,
            {
                let instance = &layer.entity_instances[order];
                if !find_registered(global_entities, &instance.iid) {
                    ldtk_layers.set_entity(
                        PackedLdtkEntity {
                            instance,
                            level_translation: translation,
                            layer_index,
                            order,
                            count: layer.entity_instances.len(),
                        },
                    );
                }
                order += 1;
            }
            Ok(())
        },
    }
}

/// What asks for a level to be loaded.
#[derive(Debug)]
pub struct LdtkLoader {
    /// The name of the level.
    pub level: String,
    pub mode: LdtkLoaderMode,
    /// Where the level is put, in place of where the project has it.
    pub trans_ovrd: Option<IVec2>,
}

/// The position of the first of the first `n` levels that is named `name`.
pub open spec fn level_named(levels: Seq<Level>, name: Seq<char>, n: int) -> Option<int>
    decreases n,
{
    if n <= 0 {
        None
    } else {
        match level_named(levels, name, n - 1) {
            Some(i) => Some(i),
            None => if levels[n - 1].identifier@ == name {
                Some(n - 1)
            } else {
                None
            },
        }
    }
}

/// The layers after the first `n` layers of `level` were loaded in turn, with what came of
/// it: the first layer that cannot be loaded ends the loading.
pub open spec fn layers_loaded<'a>(
    layers: LdtkLayersView<'a>,
    level: &'a Level,
    translation: IVec2,
    config: LdtkLoadConfig,
    global_entities: Seq<String>,
    patterns: LdtkPatterns,
    mode: LdtkLoaderMode,
    n: int,
) -> (LdtkLayersView<'a>, Result<(), LdtkError>)
    decreases n,
{
    if n <= 0 {
        (layers, Ok(()))
    } else {
        let earlier = layers_loaded(
            layers,
            level,
            translation,
            config,
            global_entities,
            patterns,
            mode,
            n - 1,
        );
        match earlier.1 {
            Err(_) => earlier,
            Ok(()) => layer_loaded(
                earlier.0,
                (n - 1) as usize,
                &level.layer_instances@[n - 1],
                translation,
                config,
                global_entities,
                patterns,
                mode,
            ),
        }
    }
}

/// Where the level at `index` is put: where `loader` says, or else where the project has it.
pub open spec fn placement(ldtk_data: LdtkJson, loader: LdtkLoader, index: usize) -> Result<
    IVec2,
    LdtkError,
> {
    match loader.trans_ovrd {
        Some(translation) => Ok(translation),
        None => level_translation(ldtk_data, index),
    }
}

/// The layers of the level at `index` before any of them is loaded.
pub open spec fn fresh_layers<'a>(
    ldtk_data: &'a LdtkJson,
    index: usize,
    assets: &'a LdtkAssets,
    translation: IVec2,
    config: LdtkLoadConfig,
    loader: LdtkLoader,
    level_entity: Entity,
) -> LdtkLayersView<'a> {
    LdtkLayersView {
        ty: loader.mode,
        level_entity,
        layers: Seq::new(
            ldtk_data.levels@[index as int].layer_instances@.len(),
            |i: int| None::<crate::ldtk::layer::LdtkLayerView>,
        ),
        entities: Seq::empty(),
        tilesets: assets@.tilesets,
        translation,
        base_z_index: config.z_index,
    }
}

/// Loads the level that `loader` names: its layers are loaded in turn, and what the level
/// comes to is handed over for the host to act on. `Ok(None)` says that the project has no
/// level of that name.
pub fn load_levels<'a>(
    config: &LdtkLoadConfig,
    ldtk_data: &'a LdtkJson,
    loader: &LdtkLoader,
    level_entity: Entity,
    ldtk_assets: &'a LdtkAssets,
    patterns: &LdtkPatterns,
    global_entities: &Vec<String>,
) -> (loaded: Result<Option<LevelApplication<'a>>, LdtkError>)
    ensures
        match level_named(ldtk_data.levels@, loader.level@, ldtk_data.levels@.len() as int) {
            None => loaded matches Ok(None),
            Some(index) => match placement(*ldtk_data, *loader, index as usize) {
                Err(error) => loaded matches Err(e) && e == error,
                Ok(translation) => {
                    let outcome = layers_loaded(
                        fresh_layers(
                            ldtk_data,
                            index as usize,
                            ldtk_assets,
                            translation,
                            *config,
                            *loader,
                            level_entity,
                        ),
                        &ldtk_data.levels@[index],
                        translation,
                        *config,
                        global_entities@,
                        *patterns,
                        loader.mode,
                        ldtk_data.levels@[index].layer_instances@.len() as int,
                    );
                    match outcome.1 {
                        Err(error) => loaded matches Err(e) && e == error,
                        Ok(()) => loaded matches Ok(Some(application)) && application@
                            == outcome.0.application(),
                    }
                },
            },
        },
{
    let mut found: Option<usize> = None;
    let mut i: usize = 0;
    while i < ldtk_data.levels.len() && found.is_none()
        invariant
            i <= ldtk_data.levels.len(),
            match found {
                Some(at) => at < ldtk_data.levels.len() && level_named(
                    ldtk_data.levels@,
                    loader.level@,
                    ldtk_data.levels@.len() as int,
                ) == Some(at as int),
                None => level_named(ldtk_data.levels@, loader.level@, i as int) is None,
            },
        decreases ldtk_data.levels.len() - i + (if found is None { 1nat } else { 0nat }),
    {
        if ldtk_data.levels[i].identifier == loader.level {
            proof {
                lemma_level_named_found(
                    ldtk_data.levels@,
                    loader.level@,
                    i + 1,
                    ldtk_data.levels@.len() as int,
                );
            }
            found = Some(i);
        } else {
            i += 1;
        }
    }
    let index: usize = match found {
        Some(at) => at,
        None => {
            return Ok(None);
        },
    };
    let level = &ldtk_data.levels[index];
    let translation: IVec2 = match loader.trans_ovrd {
        Some(translation) => translation,
        None => match get_level_translation(ldtk_data, index) {
            Ok(translation) => translation,
            Err(error) => {
                return Err(error);
            },
        },
    };
    let mut ldtk_layers = LdtkLayers::new(
        level_entity,
        level.layer_instances.len(),
        ldtk_assets,
        translation,
        config.z_index,
        loader.mode,
    );
    let ghost start = ldtk_layers@;
    let mut layer_index: usize = 0;
    while layer_index < level.layer_instances.len()
        invariant
            layer_index <= level.layer_instances.len(),
            ldtk_layers.wf(),
            index < ldtk_data.levels@.len(),
            level == &ldtk_data.levels@[index as int],
            level_named(ldtk_data.levels@, loader.level@, ldtk_data.levels@.len() as int)
                == Some(index as int),
            placement(*ldtk_data, *loader, index) == Ok::<IVec2, LdtkError>(translation),
            start == fresh_layers(
                ldtk_data,
                index,
                ldtk_assets,
                translation,
                *config,
                *loader,
                level_entity,
            ),
            (ldtk_layers@, Ok::<(), LdtkError>(())) == layers_loaded(
                start,
                level,
                translation,
                *config,
                global_entities@,
                *patterns,
                loader.mode,
                layer_index as int,
            ),
        decreases level.layer_instances.len() - layer_index,
    {
        match load_layer(
            layer_index,
            &level.layer_instances[layer_index],
            &mut ldtk_layers,
            translation,
            config,
            global_entities,
            patterns,
            &loader.mode,
        ) {
            Ok(()) => {},
            Err(error) => {
                proof {
                    lemma_layers_loaded_failed(
                        start,
                        level,
                        translation,
                        *config,
                        global_entities@,
                        *patterns,
                        loader.mode,
                        layer_index + 1,
                        level.layer_instances@.len() as int,
                    );
                }
                return Err(error);
            },
        }
        layer_index += 1;
    }
    Ok(Some(ldtk_layers.apply_all()))
}

/// A level that is found among the first levels is the level that is found among all.
proof fn lemma_level_named_found(levels: Seq<Level>, name: Seq<char>, found: int, n: int)
    requires
        0 < found <= n,
        level_named(levels, name, found) is Some,
    ensures
        level_named(levels, name, n) == level_named(levels, name, found),
    decreases n - found,
{
    if found < n {
        lemma_level_named_found(levels, name, found, n - 1);
    }
}

/// Once a layer could not be loaded, the layers behind it change nothing.
proof fn lemma_layers_loaded_failed<'a>(
    layers: LdtkLayersView<'a>,
    level: &'a Level,
    translation: IVec2,
    config: LdtkLoadConfig,
    global_entities: Seq<String>,
    patterns: LdtkPatterns,
    mode: LdtkLoaderMode,
    failed: int,
    n: int,
)
    requires
        0 < failed <= n,
        layers_loaded(
            layers,
            level,
            translation,
            config,
            global_entities,
            patterns,
            mode,
            failed,
        ).1 is Err,
    ensures
        layers_loaded(layers, level, translation, config, global_entities, patterns, mode, n)
            == layers_loaded(
            layers,
            level,
            translation,
            config,
            global_entities,
            patterns,
            mode,
            failed,
        ),
    decreases n - failed,
{
    if failed < n {
        lemma_layers_loaded_failed(
            layers,
            level,
            translation,
            config,
            global_entities,
            patterns,
            mode,
            failed,
            n - 1,
        );
    }
}

} // verus!
