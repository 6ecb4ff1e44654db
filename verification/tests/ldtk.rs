use bevy_entitiles::ldtk::json::{
    EntityInstance, LayerInstance, LayerType, LdtkJson, Level, TileInstance, TilesetDef,
    WorldLayout,
};
use bevy_entitiles::ldtk::layer::{cell_of_tile, LdtkLayers, PackedLdtkEntity};
use bevy_entitiles::ldtk::resources::{
    AnimationMapping, LdtkAssets, LdtkLevelManager, LdtkLoadConfig, LdtkPatterns,
    LdtkPhysicsLayer, LevelLoader,
};
use bevy_entitiles::ldtk::{
    div_toward_zero, get_level_translation, load_layer, load_levels, LdtkError, LdtkLoader,
    LdtkLoaderMode,
};
use bevy_entitiles::math::{IAabb2d, IVec2, UVec2};
use bevy_entitiles::tilemap::animation::RawTileAnimation;
use bevy_entitiles::tilemap::buffers::{Stacked, TileBuffer};
use bevy_entitiles::tilemap::model::{Entity, FilterMode};
use bevy_entitiles::tilemap::tile::{TileBuilder, TileColor, TileLayer, TileTexture};

fn tile(px: [i32; 2], tile_id: i32) -> TileInstance {
    TileInstance { px, tile_id, flip: 0, alpha: 255 }
}

fn tile_layer(identifier: &str, ty: LayerType, tiles: Vec<TileInstance>) -> LayerInstance {
    let (auto_layer_tiles, grid_tiles) = match ty {
        LayerType::Tiles => (vec![], tiles),
        _ => (tiles, vec![]),
    };
    LayerInstance {
        c_wid: 20,
        c_hei: 10,
        identifier: identifier.to_string(),
        iid: format!("iid-{}", identifier),
        ty,
        opacity: 200,
        tileset_def_uid: Some(7),
        auto_layer_tiles,
        grid_tiles,
        entity_instances: vec![],
    }
}

fn entity(identifier: &str, iid: &str, tags: &[&str]) -> EntityInstance {
    EntityInstance {
        identifier: identifier.to_string(),
        iid: iid.to_string(),
        tags: tags.iter().map(|tag| tag.to_string()).collect(),
    }
}

fn level(identifier: &str, world: (i32, i32), layers: Vec<LayerInstance>) -> Level {
    Level {
        identifier: identifier.to_string(),
        iid: format!("iid-{}", identifier),
        world_x: world.0,
        world_y: world.1,
        px_wid: 320,
        px_hei: 160,
        layer_instances: layers,
    }
}

fn project(layout: Option<WorldLayout>, levels: Vec<Level>) -> LdtkJson {
    LdtkJson { world_layout: layout, levels, tilesets: vec![] }
}

fn config() -> LdtkLoadConfig {
    LdtkLoadConfig {
        asset_path_prefix: "ldtk/".to_string(),
        z_index: 5,
        ignore_unregistered_entities: false,
        ignore_unregistered_entity_tags: false,
        animation_mapper: vec![],
    }
}

fn assets() -> LdtkAssets {
    let mut assets = LdtkAssets::new();
    let def = TilesetDef {
        uid: 7,
        rel_path: Some("tiles.png".to_string()),
        px_wid: 64,
        px_hei: 32,
        tile_grid_size: 16,
    };
    assert!(assets.load_texture(&def, 99, FilterMode::Nearest));
    assets
}

fn patterns() -> LdtkPatterns {
    LdtkPatterns { pattern_size: UVec2::new(20, 10) }
}

fn layers_at(buffer: &TileBuffer, cell: IVec2) -> Vec<TileLayer> {
    match &buffer.get(cell).unwrap().texture {
        TileTexture::Static(layers) => layers.clone(),
        TileTexture::Animated(_) => panic!("the tile is animated"),
    }
}

fn sorted(mut entities: Vec<Entity>) -> Vec<u64> {
    entities.sort_by_key(|entity| entity.bits);
    entities.into_iter().map(|entity| entity.bits).collect()
}

#[test]
fn division_rounds_towards_zero() {
    assert_eq!(div_toward_zero(7, 2), 3);
    assert_eq!(div_toward_zero(-7, 2), -3);
    assert_eq!(div_toward_zero(-8, 2), -4);
    assert_eq!(div_toward_zero(0, 5), 0);
    assert_eq!(div_toward_zero(-1, 16), 0);
}

#[test]
fn levels_lie_where_the_layout_puts_them() {
    let free = project(Some(WorldLayout::Free), vec![level("a", (32, 48), vec![])]);
    assert_eq!(get_level_translation(&free, 0), Ok(IVec2::new(32, -48)));
    assert_eq!(get_level_translation(&free, 1), Err(LdtkError::NoSuchLevel { index: 1 }));
    let grid = project(Some(WorldLayout::GridVania), vec![level("a", (-5, -6), vec![])]);
    assert_eq!(get_level_translation(&grid, 0), Ok(IVec2::new(-5, 6)));
    let linear = project(Some(WorldLayout::LinearHorizontal), vec![level("a", (32, 48), vec![])]);
    assert_eq!(get_level_translation(&linear, 0), Ok(IVec2::new(0, 0)));
    let vertical = project(Some(WorldLayout::LinearVertical), vec![level("a", (32, 48), vec![])]);
    assert_eq!(get_level_translation(&vertical, 0), Ok(IVec2::new(0, 0)));
    let unknown = project(None, vec![level("a", (32, 48), vec![])]);
    assert_eq!(get_level_translation(&unknown, 0), Err(LdtkError::MissingWorldLayout));
    let far = project(Some(WorldLayout::Free), vec![level("a", (0, i32::MIN), vec![])]);
    assert_eq!(get_level_translation(&far, 0), Err(LdtkError::TranslationOutOfRange));
}

#[test]
fn tiles_lie_in_the_cells_that_their_pixels_fall_into() {
    let size = UVec2::new(16, 16);
    let pattern = UVec2::new(20, 10);
    assert_eq!(
        cell_of_tile(&tile([0, 0], 0), size, LdtkLoaderMode::Tilemap, pattern),
        Ok(IVec2::new(0, -1))
    );
    assert_eq!(
        cell_of_tile(&tile([48, 32], 0), size, LdtkLoaderMode::Tilemap, pattern),
        Ok(IVec2::new(3, -3))
    );
    assert_eq!(
        cell_of_tile(&tile([50, 40], 0), size, LdtkLoaderMode::Tilemap, pattern),
        Ok(IVec2::new(3, -3))
    );
    assert_eq!(
        cell_of_tile(&tile([48, 32], 0), size, LdtkLoaderMode::MapPattern, pattern),
        Ok(IVec2::new(3, 7))
    );
    assert_eq!(
        cell_of_tile(&tile([0, 0], 0), size, LdtkLoaderMode::MapPattern, pattern),
        Ok(IVec2::new(0, 9))
    );
    assert_eq!(
        cell_of_tile(&tile([0, 0], 0), UVec2::new(0, 16), LdtkLoaderMode::Tilemap, pattern),
        Err(LdtkError::BadTileSize)
    );
    assert_eq!(
        cell_of_tile(&tile([0, 0], 0), UVec2::new(16, u32::MAX), LdtkLoaderMode::Tilemap, pattern),
        Err(LdtkError::BadTileSize)
    );
    assert_eq!(
        cell_of_tile(
            &tile([0, i32::MIN], 0),
            UVec2::new(1, 1),
            LdtkLoaderMode::Tilemap,
            pattern
        ),
        Ok(IVec2::new(0, i32::MAX))
    );
    assert_eq!(
        cell_of_tile(
            &tile([i32::MIN, i32::MAX], 0),
            UVec2::new(1, 1),
            LdtkLoaderMode::Tilemap,
            pattern
        ),
        Ok(IVec2::new(i32::MIN, i32::MIN))
    );
    assert_eq!(
        cell_of_tile(
            &tile([0, -1], 0),
            UVec2::new(1, 1),
            LdtkLoaderMode::MapPattern,
            UVec2::new(0, u32::MAX)
        ),
        Err(LdtkError::TileOutOfRange)
    );
}

#[test]
fn tile_buffers_keep_one_tile_for_each_cell() {
    let aabb = IAabb2d { min: IVec2::new(0, -9), max: IVec2::new(19, 0) };
    let mut buffer = TileBuffer::new(aabb);
    assert_eq!(buffer.aabb(), aabb);
    assert_eq!(buffer.len(), 0);
    let cell = IVec2::new(3, -2);
    assert!(buffer.get(cell).is_none());
    assert_eq!(buffer.stack(cell, TileLayer::new()), Stacked::NoTile);
    buffer.set(cell, TileBuilder::new().with_layer(0, TileLayer::new().with_texture_index(1)));
    buffer.set(IVec2::new(-3, 2), TileBuilder::new().with_animation(4));
    assert_eq!(buffer.len(), 2);
    assert_eq!(buffer.stack(cell, TileLayer::new().with_texture_index(2)), Stacked::OnTop);
    assert_eq!(
        layers_at(&buffer, cell),
        vec![TileLayer { texture_index: 1, flip: 0 }, TileLayer { texture_index: 2, flip: 0 }]
    );
    assert_eq!(buffer.stack(IVec2::new(-3, 2), TileLayer::new()), Stacked::Animated);
    buffer.set(cell, TileBuilder::new().with_layer(0, TileLayer::new().with_texture_index(9)));
    assert_eq!(buffer.len(), 2);
    assert_eq!(layers_at(&buffer, cell), vec![TileLayer { texture_index: 9, flip: 0 }]);
    assert_eq!(buffer.entry(0).0, cell);
    assert_eq!(buffer.entry(1).0, IVec2::new(-3, 2));
}

#[test]
fn setting_tiles_makes_the_layer_and_stacks_tiles_of_one_cell() {
    let assets = assets();
    let layer = tile_layer("ground", LayerType::Tiles, vec![]);
    let mut layers = LdtkLayers::new(
        Entity { bits: 1 },
        2,
        &assets,
        IVec2::new(0, 0),
        5,
        LdtkLoaderMode::Tilemap,
    );
    let mode = LdtkLoaderMode::Tilemap;
    let first = TileInstance { px: [16, 32], tile_id: 4, flip: 3, alpha: 128 };
    assert_eq!(layers.set_tile(1, &layer, &first, &config(), &patterns(), &mode), Ok(()));
    assert!(layers.layers[0].is_none());
    let held = layers.layers[1].as_ref().unwrap();
    assert_eq!(held.pattern.label, Some("ground".to_string()));
    assert_eq!(held.iid, "iid-ground");
    assert_eq!(held.opacity, 200);
    assert_eq!(held.texture.texture, 99);
    assert_eq!(held.texture.desc.size, UVec2::new(64, 32));
    assert_eq!(held.texture.desc.tile_size, UVec2::new(16, 16));
    assert_eq!(
        held.pattern.tiles.aabb(),
        IAabb2d { min: IVec2::new(0, -9), max: IVec2::new(19, 0) }
    );
    let cell = IVec2::new(1, -3);
    assert_eq!(layers_at(&held.pattern.tiles, cell), vec![TileLayer { texture_index: 4, flip: 3 }]);
    assert_eq!(
        held.pattern.tiles.get(cell).unwrap().color,
        TileColor { r: 255, g: 255, b: 255, a: 128 }
    );
    let second = TileInstance { px: [20, 40], tile_id: 6, flip: 1, alpha: 255 };
    assert_eq!(layers.set_tile(1, &layer, &second, &config(), &patterns(), &mode), Ok(()));
    let held = layers.layers[1].as_ref().unwrap();
    assert_eq!(held.pattern.tiles.len(), 1);
    assert_eq!(
        layers_at(&held.pattern.tiles, cell),
        vec![TileLayer { texture_index: 4, flip: 3 }, TileLayer { texture_index: 6, flip: 0 }]
    );
}

#[test]
fn setting_tiles_fails_where_the_project_is_at_odds_with_itself() {
    let assets = assets();
    let mode = LdtkLoaderMode::Tilemap;
    let mut layers = LdtkLayers::new(
        Entity { bits: 1 },
        1,
        &assets,
        IVec2::new(0, 0),
        5,
        LdtkLoaderMode::Tilemap,
    );
    let mut layer = tile_layer("ground", LayerType::Tiles, vec![]);
    assert_eq!(
        layers.set_tile(1, &layer, &tile([0, 0], 1), &config(), &patterns(), &mode),
        Err(LdtkError::NoSuchLayer { index: 1 })
    );
    layer.tileset_def_uid = Some(8);
    assert_eq!(
        layers.set_tile(0, &layer, &tile([0, 0], 1), &config(), &patterns(), &mode),
        Err(LdtkError::MissingTileset)
    );
    layer.tileset_def_uid = None;
    assert_eq!(
        layers.try_create_new_layer(0, &layer),
        Err(LdtkError::MissingTileset)
    );
    layer.tileset_def_uid = Some(7);
    layer.c_hei = i32::MIN;
    assert_eq!(layers.try_create_new_layer(0, &layer), Err(LdtkError::BadLayerSize));
    layer.c_hei = 10;
    let mut animated = config();
    animated.animation_mapper = vec![
        AnimationMapping {
            texture_index: 3,
            animation: RawTileAnimation { sequence: vec![1], frame_duration: 1 },
        },
        AnimationMapping {
            texture_index: 2,
            animation: RawTileAnimation { sequence: vec![], frame_duration: 1 },
        },
        AnimationMapping {
            texture_index: 3,
            animation: RawTileAnimation { sequence: vec![3, 4], frame_duration: 8 },
        },
    ];
    assert_eq!(
        layers.set_tile(0, &layer, &tile([0, 0], 2), &animated, &patterns(), &mode),
        Err(LdtkError::DegenerateAnimation)
    );
    assert_eq!(
        layers.set_tile(0, &layer, &tile([0, 0], 3), &animated, &patterns(), &mode),
        Ok(())
    );
    let held = layers.layers[0].as_ref().unwrap();
    let cell = IVec2::new(0, -1);
    match &held.pattern.tiles.get(cell).unwrap().texture {
        TileTexture::Animated(number) => assert_eq!(*number, 0),
        TileTexture::Static(_) => panic!("the tile shows layers"),
    }
    assert_eq!(held.pattern.animations.frame_at(0, 8), Ok(4));
    assert_eq!(
        layers.set_tile(0, &layer, &tile([0, 0], 5), &animated, &patterns(), &mode),
        Err(LdtkError::AnimatedTileConflict { cell })
    );
}

#[test]
fn layers_of_entities_add_the_entities_that_are_not_global() {
    let assets = assets();
    let mut layer = tile_layer("things", LayerType::Entities, vec![]);
    layer.entity_instances = vec![
        entity("Chest", "e1", &[]),
        entity("Player", "e2", &["hero"]),
        entity("Chest", "e3", &[]),
    ];
    let mut layers = LdtkLayers::new(
        Entity { bits: 1 },
        3,
        &assets,
        IVec2::new(0, 0),
        5,
        LdtkLoaderMode::Tilemap,
    );
    let global = vec!["e2".to_string()];
    assert_eq!(
        load_layer(
            2,
            &layer,
            &mut layers,
            IVec2::new(4, 5),
            &config(),
            &global,
            &patterns(),
            &LdtkLoaderMode::Tilemap
        ),
        Ok(())
    );
    assert_eq!(layers.entities.len(), 2);
    assert_eq!(layers.entities[0].instance.iid, "e1");
    assert_eq!(layers.entities[1].instance.iid, "e3");
    assert_eq!(layers.entities[1].order, 2);
    assert_eq!(layers.entities[1].count, 3);
    assert_eq!(layers.entities[1].layer_index, 2);
    assert_eq!(layers.entities[1].level_translation, IVec2::new(4, 5));
    assert!(layers.layers.iter().all(|layer| layer.is_none()));
}

#[test]
fn entities_are_spawned_with_the_tags_that_are_registered() {
    let instance = entity("Player", "e1", &["hero", "ghost", "boss"]);
    let packed = PackedLdtkEntity {
        instance: &instance,
        level_translation: IVec2::new(0, 0),
        layer_index: 0,
        order: 0,
        count: 1,
    };
    let tags = vec!["boss".to_string(), "hero".to_string()];
    let mut config = config();
    assert_eq!(packed.instantiate(false, &tags, &config), Err(LdtkError::UnregisteredEntity));
    assert_eq!(
        packed.instantiate(true, &tags, &config),
        Err(LdtkError::UnregisteredEntityTag { tag: 1 })
    );
    config.ignore_unregistered_entity_tags = true;
    assert_eq!(packed.instantiate(true, &tags, &config), Ok(Some(vec![0, 2])));
    config.ignore_unregistered_entities = true;
    assert_eq!(packed.instantiate(false, &tags, &config), Ok(None));
    config.ignore_unregistered_entity_tags = false;
    let all = vec!["boss".to_string(), "hero".to_string(), "ghost".to_string()];
    assert_eq!(packed.instantiate(true, &all, &config), Ok(Some(vec![0, 1, 2])));
}

#[test]
fn loading_a_level_hands_over_its_layers_and_entities() {
    let assets = assets();
    let mut things = tile_layer("things", LayerType::Entities, vec![]);
    things.entity_instances = vec![entity("Chest", "e1", &[])];
    let data = project(
        Some(WorldLayout::Free),
        vec![
            level("other", (0, 0), vec![]),
            level(
                "cave",
                (32, 48),
                vec![
                    things,
                    tile_layer("walls", LayerType::AutoLayer, vec![tile([0, 0], 1)]),
                    tile_layer("empty", LayerType::Tiles, vec![]),
                    tile_layer(
                        "floor",
                        LayerType::Tiles,
                        vec![tile([16, 16], 2), tile([16, 16], 3), tile([32, 16], 4)],
                    ),
                ],
            ),
        ],
    );
    let mut loader =
        LdtkLoader { level: "cave".to_string(), mode: LdtkLoaderMode::Tilemap, trans_ovrd: None };
    let application =
        load_levels(&config(), &data, &loader, Entity { bits: 3 }, &assets, &patterns(), &vec![])
            .unwrap()
            .unwrap();
    assert_eq!(application.mode, LdtkLoaderMode::Tilemap);
    assert_eq!(application.level_entity, Entity { bits: 3 });
    assert_eq!(application.translation, IVec2::new(32, -48));
    assert_eq!(application.entities.len(), 1);
    assert_eq!(application.entities[0].instance.iid, "e1");
    assert_eq!(application.layers.len(), 2);
    assert_eq!(application.layers[0].index, 1);
    assert_eq!(application.layers[0].z_index, 5 - 1 - 1);
    assert_eq!(application.layers[0].layer.pattern.label, Some("walls".to_string()));
    assert_eq!(application.layers[1].index, 3);
    assert_eq!(application.layers[1].z_index, 5 - 3 - 1);
    let floor = &application.layers[1].layer.pattern.tiles;
    assert_eq!(floor.len(), 2);
    assert_eq!(
        layers_at(floor, IVec2::new(1, -2)),
        vec![TileLayer { texture_index: 2, flip: 0 }, TileLayer { texture_index: 3, flip: 0 }]
    );
    loader.trans_ovrd = Some(IVec2::new(-1, -2));
    loader.mode = LdtkLoaderMode::MapPattern;
    let application =
        load_levels(&config(), &data, &loader, Entity { bits: 3 }, &assets, &patterns(), &vec![])
            .unwrap()
            .unwrap();
    assert_eq!(application.translation, IVec2::new(-1, -2));
    assert!(application.entities.is_empty());
    assert!(application.layers[1].layer.pattern.tiles.get(IVec2::new(1, 8)).is_some());
    loader.level = "nowhere".to_string();
    assert!(load_levels(
        &config(),
        &data,
        &loader,
        Entity { bits: 3 },
        &assets,
        &patterns(),
        &vec![]
    )
    .unwrap()
    .is_none());
    let broken = project(
        None,
        vec![level("cave", (0, 0), vec![tile_layer("a", LayerType::Tiles, vec![tile([0, 0], 1)])])],
    );
    loader.level = "cave".to_string();
    loader.trans_ovrd = None;
    assert_eq!(
        load_levels(&config(), &broken, &loader, Entity { bits: 3 }, &assets, &patterns(), &vec![])
            .err(),
        Some(LdtkError::MissingWorldLayout)
    );
    let unknown = LdtkAssets::new();
    loader.trans_ovrd = Some(IVec2::new(0, 0));
    assert_eq!(
        load_levels(&config(), &broken, &loader, Entity { bits: 3 }, &unknown, &patterns(), &vec![])
            .err(),
        Some(LdtkError::MissingTileset)
    );
}

#[test]
fn applying_a_level_drains_its_layers() {
    let assets = assets();
    let layer = tile_layer("ground", LayerType::Tiles, vec![]);
    let instance = entity("Chest", "e1", &[]);
    let mut layers = LdtkLayers::new(
        Entity { bits: 1 },
        3,
        &assets,
        IVec2::new(0, 0),
        i32::MIN,
        LdtkLoaderMode::MapPattern,
    );
    let mode = LdtkLoaderMode::MapPattern;
    layers.set_tile(2, &layer, &tile([0, 0], 1), &config(), &patterns(), &mode).unwrap();
    layers.set_entity(PackedLdtkEntity {
        instance: &instance,
        level_translation: IVec2::new(0, 0),
        layer_index: 0,
        order: 0,
        count: 1,
    });
    let application = layers.apply_all();
    assert_eq!(application.layers.len(), 1);
    assert_eq!(application.layers[0].index, 2);
    assert_eq!(application.layers[0].z_index, i32::MIN as i128 - 3);
    assert!(application.entities.is_empty());
    assert!(layers.layers.is_empty());
    assert_eq!(layers.entities.len(), 1);
}

#[test]
fn the_assets_keep_the_last_texture_of_a_tileset() {
    let mut assets = LdtkAssets::new();
    assert_eq!(assets.get_tileset(7), None);
    let mut def = TilesetDef {
        uid: 7,
        rel_path: None,
        px_wid: 64,
        px_hei: 32,
        tile_grid_size: 16,
    };
    assert!(!assets.load_texture(&def, 1, FilterMode::Nearest));
    assert_eq!(assets.get_tileset(7), None);
    def.rel_path = Some("a.png".to_string());
    assert!(assets.load_texture(&def, 2, FilterMode::Nearest));
    def.uid = 8;
    assert!(assets.load_texture(&def, 3, FilterMode::Linear));
    def.uid = 7;
    def.tile_grid_size = 8;
    assert!(assets.load_texture(&def, 4, FilterMode::Linear));
    let texture = assets.get_tileset(7).unwrap();
    assert_eq!(texture.texture, 4);
    assert_eq!(texture.desc.tile_size, UVec2::new(8, 8));
    assert_eq!(texture.desc.size, UVec2::new(64, 32));
    assert_eq!(texture.desc.filter_mode, FilterMode::Linear);
    assert_eq!(assets.get_tileset(8).unwrap().texture, 3);
    assert_eq!(assets.get_tileset(9), None);
}

#[test]
fn the_config_maps_textures_to_animations() {
    let mut config = config();
    assert!(config.animation_for(3).is_none());
    config.animation_mapper = vec![
        AnimationMapping {
            texture_index: 3,
            animation: RawTileAnimation { sequence: vec![1], frame_duration: 1 },
        },
        AnimationMapping {
            texture_index: 3,
            animation: RawTileAnimation { sequence: vec![3, 4], frame_duration: 8 },
        },
    ];
    assert_eq!(config.animation_for(3).unwrap().sequence, vec![3, 4]);
    assert!(config.animation_for(4).is_none());
    let copy = config.animation_for(3).unwrap().duplicate();
    assert_eq!(copy.sequence, vec![3, 4]);
    assert_eq!(copy.frame_duration, 8);
}

#[test]
fn levels_are_loaded_one_at_a_time() {
    let data = project(Some(WorldLayout::Free), vec![level("a", (0, 0), vec![])]);
    let mut manager = LdtkLevelManager::new("map.ldtk".to_string(), "ldtk/".to_string(), data);
    assert!(manager.is_initialized());
    assert_eq!(manager.get_cached_data().unwrap().levels.len(), 1);
    assert!(manager.needs_assets());
    manager.reload_assets(assets());
    assert!(!manager.needs_assets());
    assert_eq!(manager.get_ldtk_assets().unwrap().get_tileset(7).unwrap().texture, 99);
    assert_eq!(manager.load("a".to_string(), Entity { bits: 1 }), Ok(()));
    assert!(manager.is_loaded("a".to_string()));
    assert_eq!(
        manager.load("b".to_string(), Entity { bits: 2 }),
        Err(LdtkError::LevelsAlreadyLoaded)
    );
    assert!(!manager.is_loaded("b".to_string()));
    assert_eq!(manager.try_load("b".to_string(), Entity { bits: 2 }), Ok(false));
    assert_eq!(manager.unload("a".to_string()), Some(Entity { bits: 1 }));
    assert_eq!(manager.unload("a".to_string()), None);
    assert_eq!(manager.try_load("b".to_string(), Entity { bits: 2 }), Ok(true));
    assert!(manager.is_loaded("b".to_string()));
    assert!(manager.switch_to("b".to_string(), Entity { bits: 3 }).unwrap().is_none());
    let unloaded = manager.switch_to("c".to_string(), Entity { bits: 4 }).unwrap().unwrap();
    assert_eq!(sorted(unloaded), vec![2]);
    assert!(manager.is_loaded("c".to_string()));
    assert!(!manager.is_loaded("b".to_string()));
    assert_eq!(sorted(manager.unload_all()), vec![4]);
    assert!(!manager.is_loaded("c".to_string()));
}

#[test]
fn many_levels_are_loaded_unless_they_are_loaded_already() {
    let data = project(Some(WorldLayout::Free), vec![]);
    let mut manager = LdtkLevelManager::new("map.ldtk".to_string(), "ldtk/".to_string(), data);
    let wanted = |names: &[(&str, u64)]| -> Vec<LevelLoader> {
        names
            .iter()
            .map(|(name, bits)| LevelLoader {
                level: name.to_string(),
                loader: Entity { bits: *bits },
            })
            .collect()
    };
    assert_eq!(
        manager.try_load_many(wanted(&[("a", 1), ("b", 2), ("a", 3)])),
        Ok(Some(vec![true, true, false]))
    );
    assert_eq!(manager.try_load_many(wanted(&[("c", 4)])), Ok(None));
    assert!(!manager.is_loaded("c".to_string()));
    assert_eq!(manager.load_many(wanted(&[("b", 5), ("c", 6)])), Ok(vec![false, true]));
    assert_eq!(sorted(manager.unload_all()), vec![1, 2, 6]);
}

#[test]
fn the_manager_keeps_what_it_is_set_to() {
    let data = project(Some(WorldLayout::Free), vec![]);
    let mut manager = LdtkLevelManager::new("map.ldtk".to_string(), "ldtk/".to_string(), data);
    manager
        .set_level_spacing(30)
        .set_filter_mode(FilterMode::Linear)
        .set_if_ignore_unregistered_entities(true)
        .set_base_z_index(9)
        .set_physics_layer(LdtkPhysicsLayer {
            identifier: "Physics".to_string(),
            parent: "Ground".to_string(),
            air: 0,
        });
    let other = project(Some(WorldLayout::GridVania), vec![level("z", (0, 0), vec![])]);
    manager.initialize("other.ldtk".to_string(), "else/".to_string(), other);
    assert_eq!(manager.get_cached_data().unwrap().levels[0].identifier, "z");
    assert!(manager.needs_assets());
    manager.reload_json(project(None, vec![]));
    assert!(manager.get_cached_data().unwrap().levels.is_empty());
    assert!(manager.get_cached_data().unwrap().world_layout.is_none());
}

#[test]
fn a_manager_without_a_project_refuses_to_load() {
    let mut manager = LdtkLevelManager::default();
    assert!(!manager.is_initialized());
    assert_eq!(manager.get_cached_data().err(), Some(LdtkError::NotInitialized));
    assert_eq!(manager.get_ldtk_assets().err(), Some(LdtkError::NotInitialized));
    assert_eq!(manager.load("a".to_string(), Entity { bits: 1 }), Err(LdtkError::NotInitialized));
    assert_eq!(
        manager.try_load("a".to_string(), Entity { bits: 1 }),
        Err(LdtkError::NotInitialized)
    );
    assert_eq!(
        manager.switch_to("a".to_string(), Entity { bits: 1 }).err(),
        Some(LdtkError::NotInitialized)
    );
    assert_eq!(manager.load_many(vec![]), Err(LdtkError::NotInitialized));
    assert_eq!(manager.try_load_many(vec![]), Err(LdtkError::NotInitialized));
    assert!(!manager.is_loaded("a".to_string()));
    assert_eq!(manager.unload("a".to_string()), None);
    assert!(manager.unload_all().is_empty());
    assert!(!manager.needs_assets());
    manager.initialize(
        "map.ldtk".to_string(),
        "ldtk/".to_string(),
        project(Some(WorldLayout::Free), vec![]),
    );
    assert!(manager.is_initialized());
    assert!(manager.needs_assets());
    assert_eq!(manager.load("a".to_string(), Entity { bits: 1 }), Ok(()));
}
