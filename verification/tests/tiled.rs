use bevy_entitiles::math::UVec2;
use bevy_entitiles::tiled::resources::{
    PackedTiledTilemap, PackedTiledTileset, TiledAssets, TiledError, TiledLoadConfig,
    TiledTilemapManger,
};
use bevy_entitiles::tiled::xml::{TiledImage, TiledTilemap, TiledTileset};
use bevy_entitiles::tilemap::model::{
    Entity, FilterMode, TilemapTexture, TilemapTextureDescriptor,
};

fn map_named(name: &str) -> PackedTiledTilemap {
    PackedTiledTilemap {
        name: name.to_string(),
        path: format!("maps/{}.tmx", name),
        xml: TiledTilemap {
            width: 4,
            height: 4,
            tile_width: 16,
            tile_height: 16,
            tilesets: vec![],
            layers: vec![],
        },
    }
}

fn tileset_named(name: &str) -> PackedTiledTileset {
    PackedTiledTileset {
        name: name.to_string(),
        xml: TiledTileset {
            name: name.to_string(),
            tile_width: 16,
            tile_height: 16,
            image: TiledImage { source: format!("{}.png", name), width: 64, height: 64 },
        },
        texture: TilemapTexture {
            texture: 1,
            desc: TilemapTextureDescriptor {
                size: UVec2::new(64, 64),
                tile_size: UVec2::new(16, 16),
                filter_mode: FilterMode::Nearest,
            },
        },
    }
}

fn sorted(mut entities: Vec<Entity>) -> Vec<u64> {
    entities.sort_by_key(|entity| entity.bits);
    entities.into_iter().map(|entity| entity.bits).collect()
}

#[test]
fn a_manager_without_maps_loads_nothing() {
    let config = TiledLoadConfig { map_path: vec![] };
    assert!(config.map_path.is_empty());
    let mut manager = TiledTilemapManger::new();
    assert!(!manager.is_initialized());
    assert_eq!(
        manager.load("a".to_string(), Entity { bits: 1 }),
        Err(TiledError::NotInitialized)
    );
    assert_eq!(
        manager.switch_to("a".to_string(), Entity { bits: 1 }).err(),
        Some(TiledError::NotInitialized)
    );
    assert!(!manager.is_loaded("a".to_string()));
    assert!(manager.unload_all().is_empty());
    assert_eq!(manager.unload("a".to_string()), None);
}

#[test]
fn maps_are_loaded_once_and_unloaded_by_name() {
    let mut manager = TiledTilemapManger::new();
    manager.reload_xml(vec![map_named("a"), map_named("b")]);
    assert!(manager.is_initialized());
    assert_eq!(manager.get_cached_data().len(), 2);
    assert_eq!(manager.get_cached_data()[1].name, "b");
    assert_eq!(manager.load("a".to_string(), Entity { bits: 10 }), Ok(true));
    assert!(manager.is_loaded("a".to_string()));
    assert!(!manager.is_loaded("b".to_string()));
    assert_eq!(manager.load("a".to_string(), Entity { bits: 11 }), Ok(false));
    assert_eq!(manager.load("b".to_string(), Entity { bits: 12 }), Ok(true));
    assert_eq!(manager.unload("a".to_string()), Some(Entity { bits: 10 }));
    assert!(!manager.is_loaded("a".to_string()));
    assert_eq!(manager.unload("a".to_string()), None);
    assert!(manager.is_loaded("b".to_string()));
    assert_eq!(manager.load("a".to_string(), Entity { bits: 13 }), Ok(true));
    assert_eq!(sorted(manager.unload_all()), vec![12, 13]);
    assert!(!manager.is_loaded("a".to_string()));
    assert!(!manager.is_loaded("b".to_string()));
    assert!(manager.unload_all().is_empty());
}

#[test]
fn switching_unloads_every_other_map() {
    let mut manager = TiledTilemapManger::new();
    manager.reload_xml(vec![map_named("a")]);
    manager.load("a".to_string(), Entity { bits: 1 }).unwrap();
    manager.load("b".to_string(), Entity { bits: 2 }).unwrap();
    assert!(manager.switch_to("a".to_string(), Entity { bits: 3 }).unwrap().is_none());
    assert!(manager.is_loaded("b".to_string()));
    let unloaded = manager.switch_to("c".to_string(), Entity { bits: 4 }).unwrap().unwrap();
    assert_eq!(sorted(unloaded), vec![1, 2]);
    assert!(!manager.is_loaded("a".to_string()));
    assert!(!manager.is_loaded("b".to_string()));
    assert!(manager.is_loaded("c".to_string()));
    assert_eq!(manager.unload("c".to_string()), Some(Entity { bits: 4 }));
}

#[test]
fn assets_follow_the_version_of_the_manager() {
    let mut manager = TiledTilemapManger::new();
    let mut assets = TiledAssets::new();
    assert!(!assets.initialize(&manager));
    manager.reload_xml(vec![map_named("a")]);
    assert!(assets.initialize(&manager));
    assert!(!assets.initialize(&manager));
    manager.reload_xml(vec![map_named("a")]);
    assert!(assets.initialize(&manager));
}

#[test]
fn the_tilesets_of_a_map_are_kept_in_the_order_of_their_first_numbers() {
    let mut assets = TiledAssets::new();
    let a = "a".to_string();
    let b = "b".to_string();
    assert!(assets.get_tileset(1, &a).is_none());
    assets.add_tileset(&a, 50, tileset_named("late"));
    assets.add_tileset(&b, 1, tileset_named("other"));
    assets.add_tileset(&a, 10, tileset_named("early"));
    assets.add_tileset(&a, 50, tileset_named("twin"));
    assert_eq!(assets.tileset_count(), 4);
    // The first use whose first number is at most the number of the tile counts.
    let (tileset, first_gid) = assets.get_tileset(10, &a).unwrap();
    assert_eq!(tileset.name, "early");
    assert_eq!(first_gid, 10);
    let (tileset, first_gid) = assets.get_tileset(70, &a).unwrap();
    assert_eq!(tileset.name, "early");
    assert_eq!(first_gid, 10);
    assert!(assets.get_tileset(9, &a).is_none());
    let (tileset, first_gid) = assets.get_tileset(9, &b).unwrap();
    assert_eq!(tileset.name, "other");
    assert_eq!(first_gid, 1);
    assert!(assets.get_tileset(0, &b).is_none());
    assert!(assets.get_tileset(9, &"c".to_string()).is_none());
}
