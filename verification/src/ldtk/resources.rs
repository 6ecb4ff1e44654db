//! The manager of LDtk levels, the textures of their tilesets, and what governs loading.

use crate::ldtk::json::{LdtkJson, TilesetDef};
use crate::ldtk::LdtkError;
use crate::levels::{holds_values_of, loaded_levels, LoadedLevels};
use crate::math::UVec2;
use crate::tilemap::animation::RawTileAnimation;
use crate::tilemap::model::{Entity, FilterMode, TilemapTexture, TilemapTextureDescriptor};
use vstd::prelude::*;

verus! {

/// An animation that stands for a texture: a tile with this texture shows the animation.
#[derive(Debug)]
pub struct AnimationMapping {
    pub texture_index: u32,
    pub animation: RawTileAnimation,
}

/// What governs the loading of levels.
#[derive(Debug)]
pub struct LdtkLoadConfig {
    pub asset_path_prefix: String,
    /// The z index that the layers of a level are counted down from.
    pub z_index: i32,
    pub ignore_unregistered_entities: bool,
    pub ignore_unregistered_entity_tags: bool,
    /// Where a texture is named more than once, the last mapping counts.
    pub animation_mapper: Vec<AnimationMapping>,
}

/// The animation that stands for `texture_index` among `mappings`: that of the last mapping
/// that names the texture.
pub open spec fn mapped_animation(mappings: Seq<AnimationMapping>, texture_index: u32) -> Option<
    RawTileAnimation,
>
    decreases mappings.len(),
{
    if mappings.len() == 0 {
        None
    } else if mappings.last().texture_index == texture_index {
        Some(mappings.last().animation)
    } else {
        mapped_animation(mappings.drop_last(), texture_index)
    }
}

impl LdtkLoadConfig {
    /// The animation that stands for `texture_index`, if there is one.
    pub fn animation_for(&self, texture_index: u32) -> (animation: Option<&RawTileAnimation>)
        ensures
            match animation {
                Some(a) => mapped_animation(self.animation_mapper@, texture_index) == Some(*a),
                None => mapped_animation(self.animation_mapper@, texture_index) is None,
            },
    {
        let mut i: usize = self.animation_mapper.len();
        proof {
            assert(self.animation_mapper@.subrange(0, self.animation_mapper.len() as int)
                =~= self.animation_mapper@);
        }
        while i > 0
            invariant
                i <= self.animation_mapper.len(),
                mapped_animation(self.animation_mapper@, texture_index) == mapped_animation(
                    self.animation_mapper@.subrange(0, i as int),
                    texture_index,
                ),
            decreases i,
        {
            let ghost prefix = self.animation_mapper@.subrange(0, i as int);
            proof {
                assert(prefix.drop_last() =~= self.animation_mapper@.subrange(0, i - 1));
            }
            i -= 1;
            if self.animation_mapper[i].texture_index == texture_index {
                return Some(&self.animation_mapper[i].animation);
            }
        }
        None
    }
}

/// The patterns that levels are loaded as, where they are not loaded as tilemaps.
#[derive(Clone, Copy, Debug, PartialEq, Eq, Structural)]
pub struct LdtkPatterns {
    /// The size of a pattern in cells.
    pub pattern_size: UVec2,
}

/// A layer of integers that colliders are worked out from.
#[derive(Debug)]
pub struct LdtkPhysicsLayer {
    pub identifier: String,
    /// The layer that the colliders belong to.
    pub parent: String,
    /// The value that stands for air.
    pub air: i32,
}

/// The texture of a tileset.
#[derive(Clone, Copy, Debug, PartialEq, Eq, Structural)]
pub struct LdtkTileset {
    pub uid: i32,
    pub texture: TilemapTexture,
}

/// The texture that `tilesets` has for the tileset `uid`: that of the last entry for it.
pub open spec fn tileset_texture(tilesets: Seq<LdtkTileset>, uid: i32) -> Option<TilemapTexture>
    decreases tilesets.len(),
{
    if tilesets.len() == 0 {
        None
    } else if tilesets.last().uid == uid {
        Some(tilesets.last().texture)
    } else {
        tileset_texture(tilesets.drop_last(), uid)
    }
}

/// The texture that stands for the tileset `tileset`, given the host's handle of its image.
pub open spec fn texture_of(tileset: TilesetDef, texture: u64, filter_mode: FilterMode)
    -> TilemapTexture {
    TilemapTexture {
        texture,
        desc: TilemapTextureDescriptor {
            size: UVec2 { x: tileset.px_wid as u32, y: tileset.px_hei as u32 },
            tile_size: UVec2 {
                x: tileset.tile_grid_size as u32,
                y: tileset.tile_grid_size as u32,
            },
            filter_mode,
        },
    }
}

/// The mathematical value of an [`LdtkAssets`].
pub struct LdtkAssetsView {
    /// The project file that the assets belong to.
    pub associated_file: Seq<char>,
    /// The textures of the tilesets, in the order in which they were loaded.
    pub tilesets: Seq<LdtkTileset>,
}

/// The textures of the tilesets of a project.
#[derive(Debug)]
pub struct LdtkAssets {
    pub(crate) associated_file: String,
    pub(crate) tilesets: Vec<LdtkTileset>,
}

impl View for LdtkAssets {
    type V = LdtkAssetsView;

    closed spec fn view(&self) -> LdtkAssetsView {
        LdtkAssetsView { associated_file: self.associated_file@, tilesets: self.tilesets@ }
    }
}

impl LdtkAssets {
    /// Assets that belong to no file and hold no texture.
    pub fn new() -> (assets: LdtkAssets)
        ensures
            assets@ == (LdtkAssetsView {
                associated_file: Seq::<char>::empty(),
                tilesets: Seq::<LdtkTileset>::empty(),
            }),
    {
        LdtkAssets { associated_file: String::new(), tilesets: Vec::new() }
    }

    /// The texture of the tileset `tileset_uid`, if one was loaded for it.
    pub fn get_tileset(&self, tileset_uid: i32) -> (texture: Option<TilemapTexture>)
        ensures
            texture == tileset_texture(self@.tilesets, tileset_uid),
    {
        let mut i: usize = self.tilesets.len();
        proof {
            assert(self.tilesets@.subrange(0, self.tilesets.len() as int) =~= self.tilesets@);
        }
        while i > 0
            invariant
                i <= self.tilesets.len(),
                tileset_texture(self.tilesets@, tileset_uid) == tileset_texture(
                    self.tilesets@.subrange(0, i as int),
                    tileset_uid,
                ),
            decreases i,
        {
            let ghost prefix = self.tilesets@.subrange(0, i as int);
            proof {
                assert(prefix.drop_last() =~= self.tilesets@.subrange(0, i - 1));
            }
            i -= 1;
            if self.tilesets[i].uid == tileset_uid {
                return Some(self.tilesets[i].texture);
            }
        }
        None
    }

    /// Makes the assets those of the project file `file_path`.
    pub fn initialize(&mut self, file_path: String)
        ensures
            final(self)@ == (LdtkAssetsView { associated_file: file_path@, ..old(self)@ }),
    {
        self.associated_file = file_path;
    }

    /// Takes the texture of `tileset`, whose image the host has under the handle `texture`.
    /// A tileset without an image has no texture: nothing is taken then, and `false` comes
    /// back.
    pub fn load_texture(&mut self, tileset: &TilesetDef, texture: u64, filter_mode: FilterMode)
        -> (taken: bool)
        ensures
            taken == tileset.rel_path is Some,
            final(self)@ == (LdtkAssetsView {
                tilesets: if taken {
                    old(self)@.tilesets.push(
                        LdtkTileset {
                            uid: tileset.uid,
                            texture: texture_of(*tileset, texture, filter_mode),
                        },
                    )
                } else {
                    old(self)@.tilesets
                },
                ..old(self)@
            }),
    {
        if tileset.rel_path.is_none() {
            return false;
        }
        let size: u32 = #[verifier::truncate] (tileset.tile_grid_size as u32);
        self.tilesets.push(
            LdtkTileset {
                uid: tileset.uid,
                texture: TilemapTexture {
                    texture,
                    desc: TilemapTextureDescriptor {
                        size: UVec2 {
                            x: #[verifier::truncate] (tileset.px_wid as u32),
                            y: #[verifier::truncate] (tileset.px_hei as u32),
                        },
                        tile_size: UVec2 { x: size, y: size },
                        filter_mode,
                    },
                },
            },
        );
        true
    }
}

/// A level to load, and the entity that the host has made to carry out the loading.
#[derive(Debug)]
pub struct LevelLoader {
    pub level: String,
    pub loader: Entity,
}

/// The levels that are loaded once the first `n` of `loaders` were gone through, each being
/// loaded unless a level of its name is loaded already.
pub open spec fn loaded_after(loaded: Map<Seq<char>, u64>, loaders: Seq<LevelLoader>, n: int)
    -> Map<Seq<char>, u64>
    decreases n,
{
    if n <= 0 {
        loaded
    } else if loaded_after(loaded, loaders, n - 1).contains_key(loaders[n - 1].level@) {
        loaded_after(loaded, loaders, n - 1)
    } else {
        loaded_after(loaded, loaders, n - 1).insert(
            loaders[n - 1].level@,
            loaders[n - 1].loader.bits,
        )
    }
}

/// The mathematical value of an [`LdtkLevelManager`].
pub struct LdtkManagerView {
    pub file_path: Seq<char>,
    pub asset_path_prefix: Seq<char>,
    /// The project, once one was handed over.
    pub ldtk_json: Option<LdtkJson>,
    pub level_spacing: Option<i32>,
    pub filter_mode: FilterMode,
    pub ignore_unregistered_entities: bool,
    /// The z index that the layers of a level are counted down from.
    pub z_index: i32,
    /// The bits of the entity of each loaded level, by the level's name.
    pub loaded: Map<Seq<char>, u64>,
    pub physics_layer: Option<LdtkPhysicsLayer>,
    pub ldtk_assets: LdtkAssetsView,
}

/// Keeps the project that was read, and the entity of each level that is loaded.
pub struct LdtkLevelManager {
    pub(crate) file_path: String,
    pub(crate) asset_path_prefix: String,
    pub(crate) ldtk_json: Option<LdtkJson>,
    pub(crate) level_spacing: Option<i32>,
    pub(crate) filter_mode: FilterMode,
    pub(crate) ignore_unregistered_entities: bool,
    pub(crate) z_index: i32,
    pub(crate) loaded_levels: LoadedLevels,
    pub(crate) physics_layer: Option<LdtkPhysicsLayer>,
    pub(crate) ldtk_assets: LdtkAssets,
}

impl View for LdtkLevelManager {
    type V = LdtkManagerView;

    closed spec fn view(&self) -> LdtkManagerView {
        LdtkManagerView {
            file_path: self.file_path@,
            asset_path_prefix: self.asset_path_prefix@,
            ldtk_json: self.ldtk_json,
            level_spacing: self.level_spacing,
            filter_mode: self.filter_mode,
            ignore_unregistered_entities: self.ignore_unregistered_entities,
            z_index: self.z_index,
            loaded: loaded_levels(self.loaded_levels),
            physics_layer: self.physics_layer,
            ldtk_assets: self.ldtk_assets@,
        }
    }
}

impl Default for LdtkLevelManager {
    /// A manager that was not handed a project yet.
    fn default() -> (manager: LdtkLevelManager)
        ensures
            manager@.file_path == Seq::<char>::empty(),
            manager@.asset_path_prefix == Seq::<char>::empty(),
            manager@.ldtk_json is None,
            manager@.level_spacing is None,
            manager@.filter_mode == FilterMode::Nearest,
            !manager@.ignore_unregistered_entities,
            manager@.z_index == 0,
            manager@.loaded.dom() == Set::<Seq<char>>::empty(),
            manager@.physics_layer is None,
            manager@.ldtk_assets == (LdtkAssetsView {
                associated_file: Seq::<char>::empty(),
                tilesets: Seq::<LdtkTileset>::empty(),
            }),
    {
        LdtkLevelManager {
            file_path: String::new(),
            asset_path_prefix: String::new(),
            ldtk_json: None,
            level_spacing: None,
            filter_mode: FilterMode::Nearest,
            ignore_unregistered_entities: false,
            z_index: 0,
            loaded_levels: LoadedLevels::new(),
            physics_layer: None,
            ldtk_assets: LdtkAssets::new(),
        }
    }
}

impl LdtkLevelManager {
    /// A manager of the project `json`, which was read from `file_path`.
    pub fn new(file_path: String, asset_path_prefix: String, json: LdtkJson) -> (manager:
        LdtkLevelManager)
        ensures
            manager@.file_path == file_path@,
            manager@.asset_path_prefix == asset_path_prefix@,
            manager@.ldtk_json == Some(json),
            manager@.level_spacing is None,
            manager@.filter_mode == FilterMode::Nearest,
            !manager@.ignore_unregistered_entities,
            manager@.z_index == 0,
            manager@.loaded.dom() == Set::<Seq<char>>::empty(),
            manager@.physics_layer is None,
            manager@.ldtk_assets == (LdtkAssetsView {
                associated_file: Seq::<char>::empty(),
                tilesets: Seq::<LdtkTileset>::empty(),
            }),
    {
        LdtkLevelManager {
            file_path,
            asset_path_prefix,
            ldtk_json: Some(json),
            level_spacing: None,
            filter_mode: FilterMode::Nearest,
            ignore_unregistered_entities: false,
            z_index: 0,
            loaded_levels: LoadedLevels::new(),
            physics_layer: None,
            ldtk_assets: LdtkAssets::new(),
        }
    }

    /// Makes the manager that of the project `json`, which was read from `file_path`; assets
    /// are found under `asset_path_prefix`.
    pub fn initialize(&mut self, file_path: String, asset_path_prefix: String, json: LdtkJson)
        -> (manager: &mut Self)
        ensures
            manager@ == (LdtkManagerView {
                file_path: file_path@,
                asset_path_prefix: asset_path_prefix@,
                ldtk_json: Some(json),
                ..old(self)@
            }),
            *final(self) == *final(manager),
    {
        self.file_path = file_path;
        self.asset_path_prefix = asset_path_prefix;
        self.ldtk_json = Some(json);
        self
    }

    /// Takes the project as it was read anew.
    pub fn reload_json(&mut self, json: LdtkJson)
        ensures
            final(self)@ == (LdtkManagerView { ldtk_json: Some(json), ..old(self)@ }),
    {
        self.ldtk_json = Some(json);
    }

    /// Whether the assets that the manager holds belong to another file than its project, so
    /// that they are to be loaded anew.
    pub fn needs_assets(&self) -> (outdated: bool)
        ensures
            outdated == (self@.ldtk_assets.associated_file != self@.file_path),
    {
        !(self.ldtk_assets.associated_file == self.file_path)
    }

    /// Takes `assets` as the assets of the manager's project.
    pub fn reload_assets(&mut self, assets: LdtkAssets)
        ensures
            final(self)@ == (LdtkManagerView {
                ldtk_assets: LdtkAssetsView {
                    associated_file: old(self)@.file_path,
                    ..assets@
                },
                ..old(self)@
            }),
    {
        let mut assets = assets;
        assets.initialize(self.file_path.clone());
        self.ldtk_assets = assets;
    }

    /// Sets the spacing between the levels of a linear world.
    pub fn set_level_spacing(&mut self, level_spacing: i32) -> (manager: &mut Self)
        ensures
            manager@ == (LdtkManagerView { level_spacing: Some(level_spacing), ..old(self)@ }),
            *final(self) == *final(manager),
    {
        self.level_spacing = Some(level_spacing);
        self
    }

    /// Sets the layer that colliders are worked out from.
    pub fn set_physics_layer(&mut self, physics: LdtkPhysicsLayer) -> (manager: &mut Self)
        ensures
            manager@ == (LdtkManagerView { physics_layer: Some(physics), ..old(self)@ }),
            *final(self) == *final(manager),
    {
        self.physics_layer = Some(physics);
        self
    }

    /// Sets the filter mode of the textures of the tilesets.
    pub fn set_filter_mode(&mut self, filter_mode: FilterMode) -> (manager: &mut Self)
        ensures
            manager@ == (LdtkManagerView { filter_mode, ..old(self)@ }),
            *final(self) == *final(manager),
    {
        self.filter_mode = filter_mode;
        self
    }

    /// Sets whether entities that were never registered are passed over.
    pub fn set_if_ignore_unregistered_entities(&mut self, is_ignore: bool) -> (manager: &mut Self)
        ensures
            manager@ == (LdtkManagerView {
                ignore_unregistered_entities: is_ignore,
                ..old(self)@
            }),
            *final(self) == *final(manager),
    {
        self.ignore_unregistered_entities = is_ignore;
        self
    }

    /// Sets the z index that the layers of a level are counted down from.
    pub fn set_base_z_index(&mut self, z_index: i32) -> (manager: &mut Self)
        ensures
            manager@ == (LdtkManagerView { z_index, ..old(self)@ }),
            *final(self) == *final(manager),
    {
        self.z_index = z_index;
        self
    }

    /// Whether a project was handed to the manager.
    pub fn is_initialized(&self) -> (initialized: bool)
        ensures
            initialized == self@.ldtk_json is Some,
    {
        self.ldtk_json.is_some()
    }

    /// The project.
    pub fn get_cached_data(&self) -> (data: Result<&LdtkJson, LdtkError>)
        ensures
            match data {
                Ok(json) => self@.ldtk_json == Some(*json),
                Err(error) => error == LdtkError::NotInitialized && self@.ldtk_json is None,
            },
    {
        match &self.ldtk_json {
            Some(json) => Ok(json),
            None => Err(LdtkError::NotInitialized),
        }
    }

    /// The assets of the project.
    pub fn get_ldtk_assets(&self) -> (assets: Result<&LdtkAssets, LdtkError>)
        ensures
            match assets {
                Ok(held) => self@.ldtk_json is Some && held@ == self@.ldtk_assets,
                Err(error) => error == LdtkError::NotInitialized && self@.ldtk_json is None,
            },
    {
        if self.ldtk_json.is_none() {
            return Err(LdtkError::NotInitialized);
        }
        Ok(&self.ldtk_assets)
    }

    /// Whether the level `level` is loaded.
    pub fn is_loaded(&self, level: String) -> (loaded: bool)
        ensures
            loaded == self@.loaded.contains_key(level@),
    {
        self.loaded_levels.contains_key(level.as_str())
    }

    /// Why `load` refuses, if it does.
    pub open spec fn load_error(self) -> Option<LdtkError> {
        if self@.ldtk_json is None {
            Some(LdtkError::NotInitialized)
        } else if self@.loaded.dom() != Set::<Seq<char>>::empty() {
            Some(LdtkError::LevelsAlreadyLoaded)
        } else {
            None
        }
    }

    /// Loads the level `level`, for which the host has made the entity `loader` to carry out
    /// the loading. Levels are loaded one at a time: while a level is loaded, no other is.
    pub fn load(&mut self, level: String, loader: Entity) -> (loaded: Result<(), LdtkError>)
        ensures
            match loaded {
                Ok(()) => {
                    &&& old(self).load_error() is None
                    &&& final(self)@ == (LdtkManagerView {
                        loaded: old(self)@.loaded.insert(level@, loader.bits),
                        ..old(self)@
                    })
                },
                Err(error) => {
                    &&& old(self).load_error() == Some(error)
                    &&& final(self)@ == old(self)@
                },
            },
    {
        if self.ldtk_json.is_none() {
            return Err(LdtkError::NotInitialized);
        }
        if !self.loaded_levels.is_empty() {
            return Err(LdtkError::LevelsAlreadyLoaded);
        }
        self.loaded_levels.insert(level, loader);
        Ok(())
    }

    /// Loads the level `level` if no level is loaded, and says whether it did.
    pub fn try_load(&mut self, level: String, loader: Entity) -> (loaded: Result<bool, LdtkError>)
        ensures
            match loaded {
                Ok(accepted) => {
                    &&& old(self)@.ldtk_json is Some
                    &&& accepted == (old(self)@.loaded.dom() == Set::<Seq<char>>::empty())
                    &&& final(self)@ == (LdtkManagerView {
                        loaded: if accepted {
                            old(self)@.loaded.insert(level@, loader.bits)
                        } else {
                            old(self)@.loaded
                        },
                        ..old(self)@
                    })
                },
                Err(error) => {
                    &&& error == LdtkError::NotInitialized
                    &&& old(self)@.ldtk_json is None
                    &&& final(self)@ == old(self)@
                },
            },
    {
        if self.ldtk_json.is_none() {
            return Err(LdtkError::NotInitialized);
        }
        if self.loaded_levels.is_empty() {
            self.loaded_levels.insert(level, loader);
            Ok(true)
        } else {
            Ok(false)
        }
    }

    /// Unloads every level and loads `level` in their place, unless `level` is loaded
    /// already, in which case nothing changes and `Ok(None)` comes back. Otherwise the
    /// entities of the levels that were loaded come back: the host marks each for unloading.
    pub fn switch_to(&mut self, level: String, loader: Entity) -> (switched: Result<
        Option<Vec<Entity>>,
        LdtkError,
    >)
        ensures
            match switched {
                Err(error) => {
                    &&& error == LdtkError::NotInitialized
                    &&& old(self)@.ldtk_json is None
                    &&& final(self)@ == old(self)@
                },
                Ok(None) => {
                    &&& old(self)@.ldtk_json is Some
                    &&& old(self)@.loaded.contains_key(level@)
                    &&& final(self)@ == old(self)@
                },
                Ok(Some(unloaded)) => {
                    &&& old(self)@.ldtk_json is Some
                    &&& !old(self)@.loaded.contains_key(level@)
                    &&& holds_values_of(unloaded@, old(self)@.loaded)
                    &&& unloaded@.len() == old(self)@.loaded.dom().len()
                    &&& final(self)@ == (LdtkManagerView {
                        loaded: Map::<Seq<char>, u64>::empty().insert(level@, loader.bits),
                        ..old(self)@
                    })
                },
            },
    {
        if self.ldtk_json.is_none() {
            return Err(LdtkError::NotInitialized);
        }
        if self.loaded_levels.contains_key(level.as_str()) {
            return Ok(None);
        }
        let unloaded = self.unload_all();
        self.loaded_levels.insert(level, loader);
        Ok(Some(unloaded))
    }

    /// Loads each level of `levels` in turn, unless a level of its name is loaded already,
    /// and says of each whether it was loaded.
    pub fn load_many(&mut self, levels: Vec<LevelLoader>) -> (loaded: Result<Vec<bool>, LdtkError>)
        ensures
            match loaded {
                Ok(accepted) => {
                    &&& old(self)@.ldtk_json is Some
                    &&& accepted@.len() == levels@.len()
                    &&& forall|i: int|
                        0 <= i < levels@.len() ==> #[trigger] accepted@[i] == !loaded_after(
                            old(self)@.loaded,
                            levels@,
                            i,
                        ).contains_key(levels@[i].level@)
                    &&& final(self)@ == (LdtkManagerView {
                        loaded: loaded_after(old(self)@.loaded, levels@, levels@.len() as int),
                        ..old(self)@
                    })
                },
                Err(error) => {
                    &&& error == LdtkError::NotInitialized
                    &&& old(self)@.ldtk_json is None
                    &&& final(self)@ == old(self)@
                },
            },
    {
        if self.ldtk_json.is_none() {
            return Err(LdtkError::NotInitialized);
        }
        let mut accepted: Vec<bool> = Vec::new();
        let mut i: usize = 0;
        while i < levels.len()
            invariant
                i <= levels.len(),
                accepted@.len() == i,
                forall|j: int|
                    0 <= j < i ==> #[trigger] accepted@[j] == !loaded_after(
                        old(self)@.loaded,
                        levels@,
                        j,
                    ).contains_key(levels@[j].level@),
                self@ == (LdtkManagerView {
                    loaded: loaded_after(old(self)@.loaded, levels@, i as int),
                    ..old(self)@
                }),
            decreases levels.len() - i,
        {
            let entry = &levels[i];
            if self.loaded_levels.contains_key(entry.level.as_str()) {
                accepted.push(false);
            } else {
                self.loaded_levels.insert(entry.level.clone(), entry.loader);
                accepted.push(true);
            }
            i += 1;
        }
        Ok(accepted)
    }

    /// Loads the levels of `levels` if no level is loaded: `Ok(None)` says that one was, and
    /// nothing has changed.
    pub fn try_load_many(&mut self, levels: Vec<LevelLoader>) -> (loaded: Result<
        Option<Vec<bool>>,
        LdtkError,
    >)
        ensures
            match loaded {
                Ok(Some(accepted)) => {
                    &&& old(self)@.ldtk_json is Some
                    &&& old(self)@.loaded.dom() == Set::<Seq<char>>::empty()
                    &&& accepted@.len() == levels@.len()
                    &&& forall|i: int|
                        0 <= i < levels@.len() ==> #[trigger] accepted@[i] == !loaded_after(
                            old(self)@.loaded,
                            levels@,
                            i,
                        ).contains_key(levels@[i].level@)
                    &&& final(self)@ == (LdtkManagerView {
                        loaded: loaded_after(old(self)@.loaded, levels@, levels@.len() as int),
                        ..old(self)@
                    })
                },
                Ok(None) => {
                    &&& old(self)@.ldtk_json is Some
                    &&& old(self)@.loaded.dom() != Set::<Seq<char>>::empty()
                    &&& final(self)@ == old(self)@
                },
                Err(error) => {
                    &&& error == LdtkError::NotInitialized
                    &&& old(self)@.ldtk_json is None
                    &&& final(self)@ == old(self)@
                },
            },
    {
        if self.ldtk_json.is_none() {
            return Err(LdtkError::NotInitialized);
        }
        if !self.loaded_levels.is_empty() {
            return Ok(None);
        }
        match self.load_many(levels) {
            Ok(accepted) => Ok(Some(accepted)),
            Err(error) => Err(error),
        }
    }

    /// Unloads the level `level` and hands back its entity, which the host marks for
    /// unloading. Where the level is not loaded nothing changes.
    pub fn unload(&mut self, level: String) -> (unloaded: Option<Entity>)
        ensures
            unloaded == (if old(self)@.loaded.contains_key(level@) {
                Some(Entity { bits: old(self)@.loaded[level@] })
            } else {
                None
            }),
            final(self)@ == (LdtkManagerView {
                loaded: old(self)@.loaded.remove(level@),
                ..old(self)@
            }),
    {
        self.loaded_levels.remove(level.as_str())
    }

    /// Unloads every level and hands back their entities, each of which the host marks for
    /// unloading.
    pub fn unload_all(&mut self) -> (unloaded: Vec<Entity>)
        ensures
            holds_values_of(unloaded@, old(self)@.loaded),
            unloaded@.len() == old(self)@.loaded.dom().len(),
            final(self)@ == (LdtkManagerView {
                loaded: Map::<Seq<char>, u64>::empty(),
                ..old(self)@
            }),
    {
        let unloaded = self.loaded_levels.entities();
        self.loaded_levels.clear();
        proof {
            assert(self@.loaded =~= Map::<Seq<char>, u64>::empty());
        }
        unloaded
    }
}

} // verus!
