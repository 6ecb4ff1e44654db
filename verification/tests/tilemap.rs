use bevy_entitiles::math::{FillArea, IAabb2d, IVec2, UVec2, WorldPoint};
use bevy_entitiles::tilemap::buffers::TileBuffer;
use bevy_entitiles::tilemap::map::{
    TextureUsage, Tilemap, TilemapBuilder, TilemapError, WaitForTextureUsageChange,
};
use bevy_entitiles::tilemap::model::{
    Entity, FilterMode, TileError, TilemapTexture, TilemapTextureDescriptor,
};
use bevy_entitiles::tilemap::tile::{
    LayerUpdater, Tile, TileBuilder, TileColor, TileFlip, TileLayer, TileLayerPosition,
    TileTexture, TileType, TileUpdater,
};

fn map_of(ty: TileType, size: UVec2, render_size: UVec2, chunk_size: u32) -> Tilemap {
    let mut builder = TilemapBuilder::new(ty, size, render_size);
    builder.with_render_chunk_size(chunk_size);
    builder.build(Entity { bits: 1 }).unwrap()
}

fn square_map(size: UVec2, chunk_size: u32) -> Tilemap {
    map_of(TileType::Square, size, UVec2::new(16, 16), chunk_size)
}

fn textured(index: u32) -> TileBuilder {
    TileBuilder::new().with_layer(0, TileLayer::new().with_texture_index(index))
}

fn layers_of(tile: &Tile) -> Vec<i32> {
    match &tile.texture {
        TileTexture::Static(layers) => layers.iter().map(|layer| layer.texture_index).collect(),
        TileTexture::Animated(_) => panic!("the tile is animated"),
    }
}

fn texture_of(tile: &Tile) -> i32 {
    layers_of(tile)[0]
}

#[test]
fn set_then_get_returns_the_last_written_tile() {
    let mut map = square_map(UVec2::new(32, 32), 16);
    let cell = UVec2::new(3, 4);
    assert!(map.get(cell).is_none());
    assert!(map.set(textured(5).with_index(cell)).is_none());
    assert_eq!(texture_of(map.get(cell).unwrap()), 5);
    let replaced = map.set(textured(7).with_index(cell)).unwrap();
    assert_eq!(texture_of(&replaced), 5);
    assert_eq!(texture_of(map.get(cell).unwrap()), 7);
    assert_eq!(map.get(cell).unwrap().index, cell);
    assert!(map.get(UVec2::new(4, 3)).is_none());
}

#[test]
fn set_outside_the_extent_changes_nothing() {
    let mut map = square_map(UVec2::new(8, 4), 4);
    assert!(map.set(textured(1).with_index(UVec2::new(8, 0))).is_none());
    assert!(map.set(textured(1).with_index(UVec2::new(0, 4))).is_none());
    assert!(map.get(UVec2::new(8, 0)).is_none());
    assert!(map.get(UVec2::new(u32::MAX, u32::MAX)).is_none());
    assert!(map.dirty_chunks().is_empty());
    assert_eq!(map.aabb(), None);
}

#[test]
fn out_of_tilemap_checks_follow_the_extent() {
    let map = square_map(UVec2::new(8, 4), 4);
    assert!(!map.is_out_of_tilemap_uvec(UVec2::new(7, 3)));
    assert!(map.is_out_of_tilemap_uvec(UVec2::new(8, 3)));
    assert!(map.is_out_of_tilemap_uvec(UVec2::new(7, 4)));
    assert!(!map.is_out_of_tilemap_ivec(IVec2::new(0, 0)));
    assert!(!map.is_out_of_tilemap_ivec(IVec2::new(7, 3)));
    assert!(map.is_out_of_tilemap_ivec(IVec2::new(-1, 0)));
    assert!(map.is_out_of_tilemap_ivec(IVec2::new(0, -1)));
    assert!(map.is_out_of_tilemap_ivec(IVec2::new(8, 0)));
    assert!(map.is_out_of_tilemap_ivec(IVec2::new(0, 4)));
}

#[test]
fn fill_rect_reads_like_set_for_every_cell() {
    let mut filled = square_map(UVec2::new(32, 32), 16);
    let area = FillArea::new(UVec2::new(2, 3), UVec2::new(5, 4)).unwrap();
    assert_eq!(area.dest, UVec2::new(6, 6));
    let tile = textured(9).with_color(TileColor { r: 1, g: 2, b: 3, a: 4 });
    filled.fill_rect(area, &tile);
    for y in 0..32 {
        for x in 0..32 {
            let cell = UVec2::new(x, y);
            if area.is_inside(cell) {
                let mut single = square_map(UVec2::new(32, 32), 16);
                single.set(tile.duplicate().with_index(cell));
                let a = filled.get(cell).unwrap();
                let b = single.get(cell).unwrap();
                assert_eq!(a.index, b.index);
                assert_eq!(layers_of(a), layers_of(b));
                assert_eq!(a.color, b.color);
                assert_eq!(a.visible, b.visible);
            } else {
                assert!(filled.get(cell).is_none());
            }
        }
    }
    assert_eq!(filled.aabb(), Some(area));
}

#[test]
fn fill_rect_passes_over_cells_outside_the_extent() {
    let mut map = square_map(UVec2::new(10, 10), 4);
    let area = FillArea { origin: UVec2::new(8, 8), dest: UVec2::new(20, 20) };
    map.fill_rect(area, &textured(2));
    assert_eq!(texture_of(map.get(UVec2::new(9, 9)).unwrap()), 2);
    assert_eq!(texture_of(map.get(UVec2::new(8, 8)).unwrap()), 2);
    assert!(map.get(UVec2::new(7, 8)).is_none());
    assert!(map.get(UVec2::new(10, 10)).is_none());
    assert_eq!(map.dirty_chunks(), &vec![UVec2::new(2, 2)]);
    assert_eq!(
        map.aabb(),
        Some(FillArea { origin: UVec2::new(8, 8), dest: UVec2::new(9, 9) })
    );
    let empty = FillArea { origin: UVec2::new(3, 3), dest: UVec2::new(2, 5) };
    let mut untouched = square_map(UVec2::new(10, 10), 4);
    untouched.fill_rect(empty, &textured(2));
    assert!(untouched.dirty_chunks().is_empty());
    assert!(untouched.get(UVec2::new(3, 3)).is_none());
}

#[test]
fn removing_a_tile_makes_it_absent() {
    let mut map = square_map(UVec2::new(32, 32), 16);
    let cell = UVec2::new(17, 2);
    map.set(textured(3).with_index(cell));
    map.set(textured(4).with_index(UVec2::new(18, 2)));
    let _ = map.take_changes();
    let removed = map.remove(cell).unwrap();
    assert_eq!(texture_of(&removed), 3);
    assert!(map.get(cell).is_none());
    assert_eq!(texture_of(map.get(UVec2::new(18, 2)).unwrap()), 4);
    assert_eq!(map.dirty_chunks(), &vec![UVec2::new(1, 0)]);
    assert!(map.released_chunks().is_empty());
    assert!(map.is_chunk_populated(UVec2::new(1, 0)));
}

#[test]
fn removing_an_absent_tile_is_a_no_op() {
    let mut map = square_map(UVec2::new(32, 32), 16);
    map.set(textured(3).with_index(UVec2::new(1, 1)));
    let _ = map.take_changes();
    assert!(map.remove(UVec2::new(2, 2)).is_none());
    assert!(map.remove(UVec2::new(20, 20)).is_none());
    assert!(map.remove(UVec2::new(100, 100)).is_none());
    assert!(map.dirty_chunks().is_empty());
    assert!(map.released_chunks().is_empty());
    assert_eq!(texture_of(map.get(UVec2::new(1, 1)).unwrap()), 3);
}

#[test]
fn removing_the_last_tile_of_a_chunk_queues_the_chunk_for_release() {
    let mut map = square_map(UVec2::new(32, 32), 16);
    map.set(textured(3).with_index(UVec2::new(17, 17)));
    let _ = map.take_changes();
    assert!(map.is_chunk_populated(UVec2::new(1, 1)));
    map.remove(UVec2::new(17, 17));
    assert!(!map.is_chunk_populated(UVec2::new(1, 1)));
    assert_eq!(map.released_chunks(), &vec![UVec2::new(1, 1)]);
    assert!(map.is_chunk_released(UVec2::new(1, 1)));
    assert!(map.is_chunk_dirty(UVec2::new(1, 1)));
}

#[test]
fn every_tile_belongs_to_the_chunk_of_its_cell() {
    let mut map = square_map(UVec2::new(40, 40), 16);
    let cells = [
        UVec2::new(0, 0),
        UVec2::new(15, 15),
        UVec2::new(16, 15),
        UVec2::new(15, 16),
        UVec2::new(31, 31),
        UVec2::new(32, 0),
        UVec2::new(39, 39),
    ];
    let chunks = [
        UVec2::new(0, 0),
        UVec2::new(0, 0),
        UVec2::new(1, 0),
        UVec2::new(0, 1),
        UVec2::new(1, 1),
        UVec2::new(2, 0),
        UVec2::new(2, 2),
    ];
    for (cell, chunk) in cells.iter().zip(chunks.iter()) {
        let mut single = square_map(UVec2::new(40, 40), 16);
        single.set(textured(1).with_index(*cell));
        assert_eq!(single.chunk_grid().owner(*cell), *chunk);
        for y in 0..3 {
            for x in 0..3 {
                let other = UVec2::new(x, y);
                assert_eq!(single.is_chunk_populated(other), other == *chunk);
                assert_eq!(single.is_chunk_dirty(other), other == *chunk);
            }
        }
        map.set(textured(1).with_index(*cell));
    }
    assert_eq!(map.chunk_grid().count, UVec2::new(3, 3));
    assert!(!map.is_chunk_populated(UVec2::new(2, 1)));
    assert!(!map.is_chunk_populated(UVec2::new(3, 3)));
}

#[test]
fn fill_then_set_marks_the_covering_chunks_dirty() {
    let mut map = square_map(UVec2::new(32, 32), 16);
    let area = FillArea::new(UVec2::new(0, 0), UVec2::new(20, 10)).unwrap();
    map.fill_rect(area, &textured(0));
    assert!(map.is_chunk_dirty(UVec2::new(0, 0)));
    assert!(map.is_chunk_dirty(UVec2::new(1, 0)));
    assert!(!map.is_chunk_dirty(UVec2::new(0, 1)));
    assert!(!map.is_chunk_dirty(UVec2::new(1, 1)));
    assert_eq!(map.dirty_chunks().len(), 2);
    let changes = map.take_changes();
    assert_eq!(changes.dirty, vec![UVec2::new(0, 0), UVec2::new(1, 0)]);
    assert!(changes.released.is_empty());
    assert!(map.dirty_chunks().is_empty());
    map.set(textured(1).with_index(UVec2::new(18, 8)));
    assert_eq!(map.dirty_chunks(), &vec![UVec2::new(1, 0)]);
    assert!(!map.is_chunk_dirty(UVec2::new(0, 0)));
    assert_eq!(texture_of(map.get(UVec2::new(18, 8)).unwrap()), 1);
    assert_eq!(texture_of(map.get(UVec2::new(17, 8)).unwrap()), 0);
}

#[test]
fn despawn_empties_the_tilemap_and_releases_each_chunk_once() {
    let mut map = square_map(UVec2::new(32, 32), 16);
    let area = FillArea::new(UVec2::new(0, 0), UVec2::new(20, 10)).unwrap();
    map.fill_rect(area, &textured(0));
    map.set(textured(1).with_index(UVec2::new(30, 30)));
    let _ = map.take_changes();
    map.despawn();
    for y in 0..32 {
        for x in 0..32 {
            assert!(map.get(UVec2::new(x, y)).is_none());
        }
    }
    assert_eq!(
        map.released_chunks(),
        &vec![UVec2::new(0, 0), UVec2::new(1, 0), UVec2::new(1, 1)]
    );
    assert_eq!(map.aabb(), None);
    map.despawn();
    assert_eq!(map.released_chunks().len(), 3);
    map.set(textured(1).with_index(UVec2::new(1, 1)));
    map.despawn();
    assert_eq!(map.released_chunks().len(), 3);
    let changes = map.take_changes();
    assert_eq!(changes.released.len(), 3);
    assert!(map.released_chunks().is_empty());
}

#[test]
fn the_aabb_grows_with_the_cells_that_are_written() {
    let mut map = square_map(UVec2::new(32, 32), 16);
    assert_eq!(map.aabb(), None);
    map.set(textured(0).with_index(UVec2::new(5, 6)));
    assert_eq!(
        map.aabb(),
        Some(FillArea { origin: UVec2::new(5, 6), dest: UVec2::new(5, 6) })
    );
    map.set(textured(0).with_index(UVec2::new(2, 9)));
    assert_eq!(
        map.aabb(),
        Some(FillArea { origin: UVec2::new(2, 6), dest: UVec2::new(5, 9) })
    );
    map.remove(UVec2::new(2, 9));
    assert_eq!(
        map.aabb(),
        Some(FillArea { origin: UVec2::new(2, 6), dest: UVec2::new(5, 9) })
    );
}

#[test]
fn update_rect_changes_only_the_tiles_that_are_there() {
    let mut map = square_map(UVec2::new(32, 32), 16);
    map.set(textured(1).with_index(UVec2::new(1, 3)));
    map.set(textured(2).with_index(UVec2::new(3, 5)));
    map.set(textured(4).with_index(UVec2::new(20, 20)));
    let _ = map.take_changes();
    let area = FillArea::new(UVec2::new(1, 3), UVec2::new(3, 3)).unwrap();
    let updater = TileUpdater {
        layer: Some(LayerUpdater {
            position: TileLayerPosition::Top,
            layer: TileLayer::new().with_texture_index(3),
        }),
        color: Some(TileColor { r: 9, g: 8, b: 7, a: 6 }),
    };
    assert_eq!(map.update_rect(area, &updater), Ok(()));
    assert_eq!(layers_of(map.get(UVec2::new(1, 3)).unwrap()), vec![1, 3]);
    assert_eq!(layers_of(map.get(UVec2::new(3, 5)).unwrap()), vec![2, 3]);
    assert_eq!(map.get(UVec2::new(1, 3)).unwrap().color, TileColor { r: 9, g: 8, b: 7, a: 6 });
    assert_eq!(layers_of(map.get(UVec2::new(20, 20)).unwrap()), vec![4]);
    assert_eq!(map.get(UVec2::new(20, 20)).unwrap().color, TileColor::white());
    assert!(map.get(UVec2::new(2, 4)).is_none());
    assert_eq!(map.dirty_chunks(), &vec![UVec2::new(0, 0)]);
}

#[test]
fn update_rect_puts_layers_at_the_bottom_and_at_a_position() {
    let mut map = square_map(UVec2::new(8, 8), 4);
    map.set(textured(1).with_index(UVec2::new(0, 0)));
    let all = FillArea { origin: UVec2::new(0, 0), dest: UVec2::new(7, 7) };
    let bottom = TileUpdater {
        layer: Some(LayerUpdater {
            position: TileLayerPosition::Bottom,
            layer: TileLayer::new().with_texture_index(5),
        }),
        color: None,
    };
    assert_eq!(map.update_rect(all, &bottom), Ok(()));
    assert_eq!(layers_of(map.get(UVec2::new(0, 0)).unwrap()), vec![5, 1]);
    let at = TileUpdater {
        layer: Some(LayerUpdater {
            position: TileLayerPosition::Index(3),
            layer: TileLayer::new().with_texture_index(8),
        }),
        color: None,
    };
    assert_eq!(map.update_rect(all, &at), Ok(()));
    assert_eq!(layers_of(map.get(UVec2::new(0, 0)).unwrap()), vec![5, 1, -1, 8]);
    assert_eq!(map.get(UVec2::new(0, 0)).unwrap().color, TileColor::white());
}

#[test]
fn update_rect_refuses_a_layer_for_an_animated_tile() {
    let mut map = square_map(UVec2::new(8, 8), 4);
    map.set(textured(1).with_index(UVec2::new(0, 0)));
    map.set(TileBuilder::new().with_animation(0).with_index(UVec2::new(5, 1)));
    map.set(TileBuilder::new().with_animation(0).with_index(UVec2::new(2, 1)));
    map.set(TileBuilder::new().with_animation(0).with_index(UVec2::new(0, 2)));
    let _ = map.take_changes();
    let all = FillArea { origin: UVec2::new(0, 0), dest: UVec2::new(7, 7) };
    let top = TileUpdater {
        layer: Some(LayerUpdater {
            position: TileLayerPosition::Top,
            layer: TileLayer::new().with_texture_index(5),
        }),
        color: None,
    };
    assert_eq!(
        map.update_rect(all, &top),
        Err(TileError::LayerConflict { index: UVec2::new(2, 1) })
    );
    assert_eq!(layers_of(map.get(UVec2::new(0, 0)).unwrap()), vec![1]);
    assert!(map.dirty_chunks().is_empty());
    let tint = TileUpdater { layer: None, color: Some(TileColor { r: 0, g: 0, b: 0, a: 255 }) };
    assert_eq!(map.update_rect(all, &tint), Ok(()));
    assert_eq!(map.get(UVec2::new(5, 1)).unwrap().color, TileColor { r: 0, g: 0, b: 0, a: 255 });
    assert!(map.get(UVec2::new(5, 1)).unwrap().is_animated());
    let far = TileUpdater {
        layer: Some(LayerUpdater {
            position: TileLayerPosition::Index(usize::MAX),
            layer: TileLayer::new(),
        }),
        color: None,
    };
    assert_eq!(map.update_rect(all, &far), Err(TileError::LayerOutOfReach));
}

#[test]
fn too_many_chunks_are_refused_while_the_safety_check_is_on() {
    let mut builder =
        TilemapBuilder::new(TileType::Square, UVec2::new(1000, 1000), UVec2::new(16, 16));
    assert_eq!(
        builder.build(Entity { bits: 1 }).err(),
        Some(TilemapError::TooManyChunks { chunk_count: UVec2::new(32, 32) })
    );
    builder.with_render_chunk_size(100);
    assert!(builder.build(Entity { bits: 1 }).is_ok());
    builder.with_render_chunk_size(99);
    assert_eq!(
        builder.build(Entity { bits: 1 }).err(),
        Some(TilemapError::TooManyChunks { chunk_count: UVec2::new(11, 11) })
    );
    builder.with_disabled_safety_check();
    assert!(builder.build(Entity { bits: 1 }).is_ok());
    builder.with_render_chunk_size(0);
    assert_eq!(builder.build(Entity { bits: 1 }).err(), Some(TilemapError::ZeroChunkSize));
}

#[test]
fn the_builder_keeps_what_it_is_given() {
    let mut builder =
        TilemapBuilder::new(TileType::IsometricDiamond, UVec2::new(4, 6), UVec2::new(32, 16));
    assert_eq!(builder.settings.render_chunk_size, 32);
    assert_eq!(builder.settings.z_order, 10);
    assert_eq!(builder.settings.filter_mode, FilterMode::Nearest);
    assert_eq!(builder.settings.translation, IVec2::new(0, 0));
    assert_eq!(builder.settings.texture, None);
    assert_eq!(builder.settings.flip, 0);
    assert!(builder.safety_check);
    let desc = TilemapTextureDescriptor {
        size: UVec2::new(64, 32),
        tile_size: UVec2::new(32, 16),
        filter_mode: FilterMode::Linear,
    };
    builder
        .with_z_order(3)
        .with_render_chunk_size(8)
        .with_filter_mode(FilterMode::Linear)
        .with_translation(IVec2::new(-400, 7))
        .with_texture(77, desc)
        .with_flip(TileFlip::Horizontal)
        .with_flip(TileFlip::Vertical);
    let map = builder.build(Entity { bits: 42 }).unwrap();
    let settings = map.settings();
    assert_eq!(settings.tile_type, TileType::IsometricDiamond);
    assert_eq!(settings.size, UVec2::new(4, 6));
    assert_eq!(settings.tile_render_size, UVec2::new(32, 16));
    assert_eq!(settings.z_order, 3);
    assert_eq!(settings.render_chunk_size, 8);
    assert_eq!(settings.filter_mode, FilterMode::Linear);
    assert_eq!(settings.translation, IVec2::new(-400, 7));
    assert_eq!(settings.texture, Some(TilemapTexture { texture: 77, desc }));
    assert_eq!(settings.tile_size, UVec2::new(32, 16));
    assert_eq!(settings.flip, 3);
    assert_eq!(map.get_id(), Entity { bits: 42 });
}

#[test]
fn isometric_cells_map_to_the_centres_of_their_diamonds() {
    let map = map_of(TileType::IsometricDiamond, UVec2::new(4, 4), UVec2::new(32, 16), 4);
    // The points hold twice the world coordinates: (0, 8) and (16, 16).
    assert_eq!(map.index_to_world(UVec2::new(0, 0)), WorldPoint { x: 0, y: 16 });
    assert_eq!(map.index_to_world(UVec2::new(1, 0)), WorldPoint { x: 32, y: 32 });
    assert_eq!(map.index_to_world(UVec2::new(0, 1)), WorldPoint { x: -32, y: 32 });
    assert_eq!(map.index_to_world(UVec2::new(3, 2)), WorldPoint { x: 32, y: 96 });
}

#[test]
fn square_cells_map_to_their_centres() {
    let mut builder = TilemapBuilder::new(TileType::Square, UVec2::new(4, 4), UVec2::new(16, 10));
    builder.with_translation(IVec2::new(-5, 3));
    let map = builder.build(Entity { bits: 1 }).unwrap();
    // Twice (0.5 * 16 - 5, 0.5 * 10 + 3) and twice (2.5 * 16 - 5, 1.5 * 10 + 3).
    assert_eq!(map.index_to_world(UVec2::new(0, 0)), WorldPoint { x: 6, y: 16 });
    assert_eq!(map.index_to_world(UVec2::new(2, 1)), WorldPoint { x: 70, y: 36 });
    assert_eq!(
        map.index_to_world(UVec2::new(u32::MAX, u32::MAX)),
        WorldPoint {
            x: (2 * (u32::MAX as i128) + 1) * 16 - 10,
            y: (2 * (u32::MAX as i128) + 1) * 10 + 6
        }
    );
}

#[test]
fn a_tilemap_waits_for_its_texture_until_the_image_is_loaded() {
    let plain = square_map(UVec2::new(4, 4), 4);
    assert_eq!(
        plain.set_usage(WaitForTextureUsageChange, None),
        TextureUsage::Ready { add_copy_source: false }
    );
    let desc = TilemapTextureDescriptor {
        size: UVec2::new(64, 32),
        tile_size: UVec2::new(32, 16),
        filter_mode: FilterMode::Nearest,
    };
    let mut builder = TilemapBuilder::new(TileType::Square, UVec2::new(4, 4), UVec2::new(16, 16));
    builder.with_texture(5, desc);
    let textured = builder.build(Entity { bits: 1 }).unwrap();
    assert_eq!(
        textured.set_usage(WaitForTextureUsageChange, None),
        TextureUsage::Waiting(WaitForTextureUsageChange)
    );
    assert_eq!(
        textured.set_usage(WaitForTextureUsageChange, Some(false)),
        TextureUsage::Ready { add_copy_source: true }
    );
    assert_eq!(
        textured.set_usage(WaitForTextureUsageChange, Some(true)),
        TextureUsage::Ready { add_copy_source: false }
    );
}

#[test]
fn tile_builders_stack_layers_and_take_animations() {
    let builder = TileBuilder::new()
        .with_layer(1, TileLayer::new().with_texture_index(1).with_flip(TileFlip::Horizontal))
        .with_color(TileColor { r: 1, g: 2, b: 3, a: 4 })
        .with_visibility(false)
        .with_index(UVec2::new(3, 4));
    let tile = builder.build();
    assert_eq!(tile.index, UVec2::new(3, 4));
    assert!(!tile.visible);
    assert_eq!(tile.color, TileColor { r: 1, g: 2, b: 3, a: 4 });
    match &tile.texture {
        TileTexture::Static(layers) => {
            assert_eq!(layers.len(), 2);
            assert_eq!(layers[0], TileLayer { texture_index: -1, flip: 0 });
            assert_eq!(layers[1], TileLayer { texture_index: 1, flip: 1 });
        }
        TileTexture::Animated(_) => panic!("the tile is animated"),
    }
    let moved = builder.build_at(UVec2::new(9, 9));
    assert_eq!(moved.index, UVec2::new(9, 9));
    let animated = builder.with_animation(6).with_layer(0, TileLayer::new()).build();
    assert!(animated.is_animated());
    assert_eq!(TileFlip::Unflipped.bits(), 0);
    assert_eq!(TileFlip::Vertical.bits(), 2);
    assert_eq!(TileFlip::Both.bits(), 3);
    assert_eq!(
        TileLayer::new().with_flip(TileFlip::Horizontal).with_flip(TileFlip::Vertical).flip,
        3
    );
    assert_eq!(TileLayer::new().with_flip(TileFlip::Both).with_flip_raw(0).flip, 0);
    assert_eq!(TileLayer::new().with_texture_index(u32::MAX).texture_index, -1);
}

#[test]
fn a_buffer_is_put_down_at_an_origin() {
    let aabb = IAabb2d { min: IVec2::new(0, -3), max: IVec2::new(3, 0) };
    let mut buffer = TileBuffer::new(aabb);
    buffer.set(IVec2::new(0, 0), textured(1));
    buffer.set(IVec2::new(3, -3), textured(2));
    buffer.set(IVec2::new(4, 0), textured(3));
    buffer.set(IVec2::new(0, -4), textured(4));
    buffer.set(IVec2::new(1, -1), textured(5).with_index(UVec2::new(9, 9)));
    let mut map = square_map(UVec2::new(4, 4), 2);
    map.set(textured(0).with_index(UVec2::new(2, 2)));
    let _ = map.take_changes();
    map.fill_with_buffer(IVec2::new(0, 3), &buffer);
    assert_eq!(texture_of(map.get(UVec2::new(0, 3)).unwrap()), 1);
    assert_eq!(texture_of(map.get(UVec2::new(3, 0)).unwrap()), 2);
    assert_eq!(texture_of(map.get(UVec2::new(1, 2)).unwrap()), 5);
    assert_eq!(map.get(UVec2::new(1, 2)).unwrap().index, UVec2::new(1, 2));
    assert_eq!(texture_of(map.get(UVec2::new(2, 2)).unwrap()), 0);
    assert!(map.get(UVec2::new(0, 0)).is_none());
    assert_eq!(
        map.dirty_chunks(),
        &vec![UVec2::new(0, 1), UVec2::new(1, 0)]
    );
    let mut far = square_map(UVec2::new(4, 4), 2);
    far.fill_with_buffer(IVec2::new(i32::MIN, i32::MAX), &buffer);
    assert!(far.dirty_chunks().is_empty());
}
