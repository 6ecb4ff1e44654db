use bevy_entitiles::math::{FillArea, IVec2, UVec2, WorldAabb, WorldPoint};
use bevy_entitiles::render::chunk::RenderTilemap;
use bevy_entitiles::render::culling::{chunk_world_aabb, cull_tilemap, expand_view};
use bevy_entitiles::render::extract::extract_tilemap;
use bevy_entitiles::render::model::{
    CameraView, DrawSubmission, FrustumCulling, TilemapUniform,
};
use bevy_entitiles::render::packed::{mirror, pack, PackedTile};
use bevy_entitiles::render::prepare::{animate_buffer, prepare_tilemap};
use bevy_entitiles::render::queue::queue_tilemap;
use bevy_entitiles::render::EntiTilesRendererPlugin;
use bevy_entitiles::tilemap::animation::{AnimationError, RawTileAnimation, TilemapAnimations};
use bevy_entitiles::tilemap::map::{Tilemap, TilemapBuilder};
use bevy_entitiles::tilemap::model::{
    Entity, FilterMode, LayerOpacities, TilemapSettings, TilemapTextureDescriptor,
};
use bevy_entitiles::tilemap::tile::{TileBuilder, TileColor, TileLayer, TileType};

fn square_map(size: UVec2, chunk_size: u32) -> Tilemap {
    let mut builder = TilemapBuilder::new(TileType::Square, size, UVec2::new(16, 16));
    builder.with_render_chunk_size(chunk_size).with_z_order(7);
    builder.build(Entity { bits: 9 }).unwrap()
}

fn textured(index: u32) -> TileBuilder {
    TileBuilder::new().with_layer(0, TileLayer::new().with_texture_index(index))
}

fn everything() -> CameraView {
    CameraView { min_x: -1_000_000, min_y: -1_000_000, max_x: 1_000_000, max_y: 1_000_000 }
}

fn culling() -> FrustumCulling {
    FrustumCulling { enabled: true, margin: 0 }
}

#[test]
fn packing_keeps_the_lowest_four_layers() {
    let tile = TileBuilder::new()
        .with_layer(0, TileLayer::new().with_texture_index(10))
        .with_layer(1, TileLayer::new().with_texture_index(11).with_flip_raw(2))
        .with_layer(4, TileLayer::new().with_texture_index(14))
        .with_color(TileColor { r: 1, g: 2, b: 3, a: 4 })
        .build_at(UVec2::new(5, 6));
    let packed = pack(&tile);
    assert_eq!(packed.index, UVec2::new(5, 6));
    assert_eq!(packed.animation, None);
    assert_eq!(packed.color, TileColor { r: 1, g: 2, b: 3, a: 4 });
    assert_eq!(
        packed.layers,
        [
            TileLayer { texture_index: 10, flip: 0 },
            TileLayer { texture_index: 11, flip: 2 },
            TileLayer { texture_index: -1, flip: 0 },
            TileLayer { texture_index: -1, flip: 0 },
        ]
    );
    let animated = TileBuilder::new().with_animation(3).build();
    let packed = pack(&animated);
    assert_eq!(packed.animation, Some(3));
    assert_eq!(packed.layers, [TileLayer { texture_index: -1, flip: 0 }; 4]);
    let hidden = TileBuilder::new().with_visibility(false).build();
    assert_eq!(mirror(Some(&hidden)), None);
    assert_eq!(mirror(None), None);
    assert_eq!(mirror(Some(&animated)), Some(packed));
}

#[test]
fn extraction_mirrors_the_tilemap_and_takes_its_changes() {
    let mut map = square_map(UVec2::new(32, 32), 16);
    let mut mirror = RenderTilemap::new(&map);
    map.fill_rect(FillArea::new(UVec2::new(0, 0), UVec2::new(20, 10)).unwrap(), &textured(0));
    map.set(textured(1).with_visibility(false).with_index(UVec2::new(3, 3)));
    extract_tilemap(&mut map, &mut mirror);
    assert!(map.dirty_chunks().is_empty());
    for y in 0..32 {
        for x in 0..32 {
            let cell = UVec2::new(x, y);
            let expected = match map.get(cell) {
                Some(tile) if tile.visible => Some(pack(tile)),
                _ => None,
            };
            assert_eq!(mirror.get(cell), expected);
        }
    }
    assert!(mirror.get(UVec2::new(3, 3)).is_none());
    assert_eq!(mirror.get(UVec2::new(4, 3)).unwrap().layers[0].texture_index, 0);
    assert!(mirror.is_populated(UVec2::new(0, 0)));
    assert!(mirror.is_populated(UVec2::new(1, 0)));
    assert!(!mirror.is_populated(UVec2::new(0, 1)));
    assert!(mirror.is_dirty(UVec2::new(0, 0)));
    assert!(mirror.buffer(UVec2::new(0, 0)).is_none());
    assert_eq!(mirror.get_id(), Entity { bits: 9 });
    assert_eq!(mirror.settings(), map.settings());
}

#[test]
fn a_single_write_rebuilds_only_the_chunk_that_owns_the_tile() {
    let mut map = square_map(UVec2::new(48, 48), 16);
    let mut mirror = RenderTilemap::new(&map);
    let plugin = EntiTilesRendererPlugin::default();
    map.fill_rect(FillArea::new(UVec2::new(0, 0), UVec2::new(48, 48)).unwrap(), &textured(0));
    let first = plugin.run_frame(&mut map, &mut mirror, &everything());
    assert_eq!(first.rebuilt.len(), 9);
    assert_eq!(first.draws.len(), 9);
    let before: Vec<Vec<PackedTile>> = first
        .visible
        .iter()
        .map(|chunk| mirror.buffer(*chunk).unwrap().clone())
        .collect();
    map.set(textured(1).with_index(UVec2::new(20, 20)));
    let second = plugin.run_frame(&mut map, &mut mirror, &everything());
    assert_eq!(second.rebuilt, vec![UVec2::new(1, 1)]);
    assert_eq!(second.draws.len(), 9);
    for (chunk, old) in first.visible.iter().zip(before.iter()) {
        let now = mirror.buffer(*chunk).unwrap();
        if *chunk == UVec2::new(1, 1) {
            assert_ne!(now, old);
            assert_eq!(now[4 * 16 + 4].layers[0].texture_index, 1);
        } else {
            assert_eq!(now, old);
        }
    }
    let third = plugin.run_frame(&mut map, &mut mirror, &everything());
    assert!(third.rebuilt.is_empty());
    assert_eq!(third.draws, second.draws);
}

#[test]
fn buffers_hold_the_tiles_of_a_chunk_row_by_row() {
    let mut map = square_map(UVec2::new(8, 8), 4);
    let mut mirror = RenderTilemap::new(&map);
    map.set(textured(3).with_index(UVec2::new(5, 1)));
    map.set(textured(1).with_index(UVec2::new(6, 0)));
    map.set(textured(2).with_index(UVec2::new(4, 1)));
    map.set(textured(4).with_index(UVec2::new(7, 3)));
    map.set(textured(9).with_visibility(false).with_index(UVec2::new(4, 0)));
    extract_tilemap(&mut map, &mut mirror);
    let rebuilt = prepare_tilemap(&mut mirror, &vec![UVec2::new(1, 0)]);
    assert_eq!(rebuilt, vec![UVec2::new(1, 0)]);
    let buffer = mirror.buffer(UVec2::new(1, 0)).unwrap();
    let cells: Vec<UVec2> = buffer.iter().map(|tile| tile.index).collect();
    assert_eq!(
        cells,
        vec![UVec2::new(6, 0), UVec2::new(4, 1), UVec2::new(5, 1), UVec2::new(7, 3)]
    );
    let textures: Vec<i32> = buffer.iter().map(|tile| tile.layers[0].texture_index).collect();
    assert_eq!(textures, vec![1, 2, 3, 4]);
    assert!(!mirror.is_dirty(UVec2::new(1, 0)));
    assert!(!mirror.rebuild_chunk(UVec2::new(1, 0)));
    assert!(!mirror.rebuild_chunk(UVec2::new(0, 0)));
    assert!(!mirror.rebuild_chunk(UVec2::new(9, 9)));
}

#[test]
fn a_culled_chunk_is_not_drawn_and_keeps_its_buffer() {
    let mut map = square_map(UVec2::new(32, 16), 16);
    let mut mirror = RenderTilemap::new(&map);
    let plugin = EntiTilesRendererPlugin { culling: culling() };
    map.fill_rect(FillArea::new(UVec2::new(0, 0), UVec2::new(32, 16)).unwrap(), &textured(0));
    // Chunk (0, 0) spans world x 0..256, chunk (1, 0) world x 256..512; views are doubled.
    let left = CameraView { min_x: 0, min_y: 0, max_x: 400, max_y: 100 };
    let both = CameraView { min_x: 0, min_y: 0, max_x: 2000, max_y: 100 };
    let frame = plugin.run_frame(&mut map, &mut mirror, &both);
    assert_eq!(frame.visible, vec![UVec2::new(0, 0), UVec2::new(1, 0)]);
    assert_eq!(frame.rebuilt.len(), 2);
    let kept = mirror.buffer(UVec2::new(1, 0)).unwrap().clone();
    let frame = plugin.run_frame(&mut map, &mut mirror, &left);
    assert_eq!(frame.visible, vec![UVec2::new(0, 0)]);
    assert!(frame.draws.iter().all(|draw| draw.chunk != UVec2::new(1, 0)));
    assert_eq!(frame.draws.len(), 1);
    assert_eq!(mirror.buffer(UVec2::new(1, 0)).unwrap(), &kept);
    let frame = plugin.run_frame(&mut map, &mut mirror, &both);
    assert_eq!(frame.visible.len(), 2);
    assert!(frame.rebuilt.is_empty());
    assert_eq!(frame.draws.len(), 2);
    assert_eq!(mirror.buffer(UVec2::new(1, 0)).unwrap(), &kept);
}

#[test]
fn a_dirty_chunk_out_of_view_is_rebuilt_once_it_is_seen() {
    let mut map = square_map(UVec2::new(32, 16), 16);
    let mut mirror = RenderTilemap::new(&map);
    let plugin = EntiTilesRendererPlugin { culling: culling() };
    map.fill_rect(FillArea::new(UVec2::new(0, 0), UVec2::new(32, 16)).unwrap(), &textured(0));
    let left = CameraView { min_x: 0, min_y: 0, max_x: 400, max_y: 100 };
    let both = CameraView { min_x: 0, min_y: 0, max_x: 2000, max_y: 100 };
    plugin.run_frame(&mut map, &mut mirror, &both);
    map.set(textured(5).with_index(UVec2::new(20, 3)));
    let frame = plugin.run_frame(&mut map, &mut mirror, &left);
    assert!(frame.rebuilt.is_empty());
    assert!(mirror.is_dirty(UVec2::new(1, 0)));
    let frame = plugin.run_frame(&mut map, &mut mirror, &left);
    assert!(frame.rebuilt.is_empty());
    assert!(mirror.is_dirty(UVec2::new(1, 0)));
    let frame = plugin.run_frame(&mut map, &mut mirror, &both);
    assert_eq!(frame.rebuilt, vec![UVec2::new(1, 0)]);
    assert!(!mirror.is_dirty(UVec2::new(1, 0)));
}

#[test]
fn culling_can_be_widened_and_switched_off() {
    let mut map = square_map(UVec2::new(32, 16), 16);
    let mut mirror = RenderTilemap::new(&map);
    map.fill_rect(FillArea::new(UVec2::new(0, 0), UVec2::new(32, 16)).unwrap(), &textured(0));
    extract_tilemap(&mut map, &mut mirror);
    let left = CameraView { min_x: 0, min_y: 0, max_x: 400, max_y: 100 };
    assert_eq!(cull_tilemap(&mirror, &left, &culling()), vec![UVec2::new(0, 0)]);
    let touching = CameraView { min_x: 0, min_y: 0, max_x: 512, max_y: 100 };
    assert_eq!(cull_tilemap(&mirror, &touching, &culling()).len(), 2);
    let near = FrustumCulling { enabled: true, margin: 111 };
    assert_eq!(cull_tilemap(&mirror, &left, &near), vec![UVec2::new(0, 0)]);
    let wide = FrustumCulling { enabled: true, margin: 112 };
    assert_eq!(cull_tilemap(&mirror, &left, &wide).len(), 2);
    let off = FrustumCulling { enabled: false, margin: 0 };
    let away = CameraView { min_x: -90, min_y: -90, max_x: -80, max_y: -80 };
    assert!(cull_tilemap(&mirror, &away, &culling()).is_empty());
    assert_eq!(cull_tilemap(&mirror, &away, &off).len(), 2);
    assert_eq!(
        expand_view(&left, 5),
        WorldAabb { min: WorldPoint { x: -5, y: -5 }, max: WorldPoint { x: 405, y: 105 } }
    );
}

#[test]
fn chunk_boxes_follow_the_shape_of_the_tiles() {
    let mut builder = TilemapBuilder::new(TileType::Square, UVec2::new(32, 32), UVec2::new(16, 10));
    builder.with_render_chunk_size(8).with_translation(IVec2::new(-3, 4));
    assert_eq!(
        chunk_world_aabb(&builder.settings, UVec2::new(1, 2)),
        WorldAabb {
            min: WorldPoint { x: 2 * 8 * 16 - 6, y: 2 * 16 * 10 + 8 },
            max: WorldPoint { x: 2 * 16 * 16 - 6, y: 2 * 24 * 10 + 8 }
        }
    );
    let mut builder =
        TilemapBuilder::new(TileType::IsometricDiamond, UVec2::new(32, 32), UVec2::new(32, 16));
    builder.with_render_chunk_size(8);
    assert_eq!(
        chunk_world_aabb(&builder.settings, UVec2::new(0, 0)),
        WorldAabb {
            min: WorldPoint { x: -8 * 32, y: 0 },
            max: WorldPoint { x: 8 * 32, y: 16 * 16 }
        }
    );
    assert_eq!(
        chunk_world_aabb(&builder.settings, UVec2::new(1, 2)),
        WorldAabb {
            min: WorldPoint { x: (8 - 24) * 32, y: (8 + 16) * 16 },
            max: WorldPoint { x: (16 - 16) * 32, y: (16 + 24) * 16 }
        }
    );
}

#[test]
fn draws_carry_the_texture_and_the_z_order_and_wait_for_the_texture() {
    let desc = TilemapTextureDescriptor {
        size: UVec2::new(64, 32),
        tile_size: UVec2::new(16, 16),
        filter_mode: FilterMode::Nearest,
    };
    let mut builder = TilemapBuilder::new(TileType::Square, UVec2::new(32, 16), UVec2::new(16, 16));
    builder.with_render_chunk_size(16).with_z_order(4).with_texture(55, desc);
    let mut map = builder.build(Entity { bits: 2 }).unwrap();
    let mut mirror = RenderTilemap::new(&map);
    map.set(textured(0).with_index(UVec2::new(1, 1)));
    map.set(textured(0).with_index(UVec2::new(2, 1)));
    map.set(textured(0).with_index(UVec2::new(17, 1)));
    extract_tilemap(&mut map, &mut mirror);
    let visible = cull_tilemap(&mirror, &everything(), &culling());
    prepare_tilemap(&mut mirror, &visible);
    assert!(!mirror.is_texture_usable());
    assert!(queue_tilemap(&mirror, &visible).is_empty());
    mirror.set_texture_ready(true);
    assert!(mirror.is_texture_usable());
    assert_eq!(
        queue_tilemap(&mirror, &visible),
        vec![
            DrawSubmission {
                tilemap: Entity { bits: 2 },
                chunk: UVec2::new(0, 0),
                texture: Some(55),
                sort_key: 4,
                instances: 2
            },
            DrawSubmission {
                tilemap: Entity { bits: 2 },
                chunk: UVec2::new(1, 0),
                texture: Some(55),
                sort_key: 4,
                instances: 1
            },
        ]
    );
    let reversed = vec![UVec2::new(1, 0), UVec2::new(5, 5), UVec2::new(0, 0)];
    let draws = queue_tilemap(&mirror, &reversed);
    assert_eq!(draws.len(), 2);
    assert_eq!(draws[0].chunk, UVec2::new(1, 0));
}

#[test]
fn released_chunks_lose_their_buffers_at_the_next_extraction() {
    let mut map = square_map(UVec2::new(32, 16), 16);
    let mut mirror = RenderTilemap::new(&map);
    let plugin = EntiTilesRendererPlugin::default();
    map.set(textured(0).with_index(UVec2::new(1, 1)));
    map.set(textured(0).with_index(UVec2::new(17, 1)));
    plugin.run_frame(&mut map, &mut mirror, &everything());
    assert!(mirror.buffer(UVec2::new(1, 0)).is_some());
    map.remove(UVec2::new(17, 1));
    let frame = plugin.run_frame(&mut map, &mut mirror, &everything());
    assert!(mirror.buffer(UVec2::new(1, 0)).is_none());
    assert!(!mirror.is_populated(UVec2::new(1, 0)));
    assert_eq!(frame.visible, vec![UVec2::new(0, 0)]);
    map.despawn();
    let frame = plugin.run_frame(&mut map, &mut mirror, &everything());
    assert!(frame.visible.is_empty());
    assert!(frame.draws.is_empty());
    assert!(mirror.buffer(UVec2::new(0, 0)).is_none());
    assert!(mirror.get(UVec2::new(1, 1)).is_none());
    map.set(textured(3).with_index(UVec2::new(1, 1)));
    map.despawn();
    map.set(textured(4).with_index(UVec2::new(1, 1)));
    let frame = plugin.run_frame(&mut map, &mut mirror, &everything());
    assert_eq!(frame.rebuilt, vec![UVec2::new(0, 0)]);
    assert_eq!(mirror.get(UVec2::new(1, 1)).unwrap().layers[0].texture_index, 4);
}

#[test]
fn animations_show_their_frames_in_turn() {
    let mut table = TilemapAnimations::new();
    assert_eq!(
        table.register(RawTileAnimation { sequence: vec![], frame_duration: 5 }),
        Err(AnimationError::Degenerate)
    );
    assert_eq!(
        table.register(RawTileAnimation { sequence: vec![1], frame_duration: 0 }),
        Err(AnimationError::Degenerate)
    );
    assert_eq!(
        table.register(RawTileAnimation { sequence: vec![4, 5, 6], frame_duration: 10 }),
        Ok(0)
    );
    assert_eq!(table.register(RawTileAnimation { sequence: vec![9], frame_duration: 1 }), Ok(1));
    assert_eq!(table.frame_at(0, 0), Ok(4));
    assert_eq!(table.frame_at(0, 9), Ok(4));
    assert_eq!(table.frame_at(0, 10), Ok(5));
    assert_eq!(table.frame_at(0, 29), Ok(6));
    assert_eq!(table.frame_at(0, 30), Ok(4));
    assert_eq!(table.frame_at(0, u64::MAX), Ok([4, 5, 6][((u64::MAX / 10) % 3) as usize]));
    assert_eq!(table.frame_at(1, 12345), Ok(9));
    assert_eq!(table.frame_at(2, 0), Err(AnimationError::Missing { animation: 2 }));
    let plain = pack(&textured(7).build_at(UVec2::new(0, 0)));
    let moving = pack(&TileBuilder::new().with_animation(0).build_at(UVec2::new(1, 0)));
    let lost = pack(&TileBuilder::new().with_animation(8).build_at(UVec2::new(2, 0)));
    let patched = animate_buffer(&vec![plain, moving], &table, 15).unwrap();
    assert_eq!(patched[0], plain);
    assert_eq!(patched[1].layers[0].texture_index, 5);
    assert_eq!(patched[1].animation, Some(0));
    assert_eq!(patched[1].index, UVec2::new(1, 0));
    assert_eq!(
        animate_buffer(&vec![plain, lost, moving], &table, 15),
        Err(AnimationError::Missing { animation: 8 })
    );
}

#[test]
fn the_uniform_block_is_uploaded_when_the_settings_change() {
    let mut map = square_map(UVec2::new(32, 16), 16);
    let mut mirror = RenderTilemap::new(&map);
    let plugin = EntiTilesRendererPlugin::default();
    let frame = plugin.run_frame(&mut map, &mut mirror, &everything());
    assert_eq!(
        frame.uniform,
        Some(TilemapUniform {
            translation: IVec2::new(0, 0),
            z_order: 7,
            tile_type: TileType::Square,
            tile_size: UVec2::new(0, 0),
            tile_render_size: UVec2::new(16, 16),
            layer_opacities: LayerOpacities::opaque(),
            flip: 0,
        })
    );
    let frame = plugin.run_frame(&mut map, &mut mirror, &everything());
    assert_eq!(frame.uniform, None);
    let opacities = LayerOpacities { first: 255, second: 128, third: 0, fourth: 64 };
    map.set_settings(TilemapSettings {
        translation: IVec2::new(5, -5),
        layer_opacities: opacities,
        size: UVec2::new(1, 1),
        render_chunk_size: 1,
        ..map.settings()
    });
    assert_eq!(map.settings().size, UVec2::new(32, 16));
    assert_eq!(map.settings().render_chunk_size, 16);
    let frame = plugin.run_frame(&mut map, &mut mirror, &everything());
    let uniform = frame.uniform.unwrap();
    assert_eq!(uniform.translation, IVec2::new(5, -5));
    assert_eq!(uniform.layer_opacities, opacities);
    assert_eq!(mirror.prepare_uniform(), None);
    map.set_settings(map.settings());
    let frame = plugin.run_frame(&mut map, &mut mirror, &everything());
    assert_eq!(frame.uniform, None);
}
