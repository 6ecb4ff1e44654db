//! The culling stage: which chunks of a mirror a camera sees.

use crate::math::{UVec2, WorldAabb, WorldPoint};
use crate::render::chunk::RenderTilemap;
use crate::render::model::{CameraView, FrustumCulling};
use crate::tilemap::model::{row_major_before, TilemapSettings};
use crate::tilemap::world::{aabb_of_cells, cells_aabb};
use vstd::prelude::*;

verus! {

/// The camera's rectangle, widened by `margin` on every side.
pub fn expand_view(camera: &CameraView, margin: u32) -> (view: WorldAabb)
    ensures
        view == camera.expanded(margin),
{
    WorldAabb {
        min: WorldPoint {
            x: camera.min_x as i128 - margin as i128,
            y: camera.min_y as i128 - margin as i128,
        },
        max: WorldPoint {
            x: camera.max_x as i128 + margin as i128,
            y: camera.max_y as i128 + margin as i128,
        },
    }
}

/// The world box of the chunk `chunk` of a tilemap with these settings.
pub fn chunk_world_aabb(settings: &TilemapSettings, chunk: UVec2) -> (aabb: WorldAabb)
    ensures
        aabb == cells_aabb(
            *settings,
            chunk.x * settings.render_chunk_size,
            chunk.y * settings.render_chunk_size,
            chunk.x * settings.render_chunk_size + settings.render_chunk_size,
            chunk.y * settings.render_chunk_size + settings.render_chunk_size,
        ),
{
    let size: u64 = settings.render_chunk_size as u64;
    proof {
        assert(chunk.x * size <= 0xffff_ffff * 0xffff_ffff) by (nonlinear_arith)
            requires
                0 <= chunk.x <= 0xffff_ffff,
                0 <= size <= 0xffff_ffff,
        ;
        assert(chunk.y * size <= 0xffff_ffff * 0xffff_ffff) by (nonlinear_arith)
            requires
                0 <= chunk.y <= 0xffff_ffff,
                0 <= size <= 0xffff_ffff,
        ;
    }
    let x0: u64 = (chunk.x as u64) * size;
    let y0: u64 = (chunk.y as u64) * size;
    aabb_of_cells(settings, x0, y0, x0 + size, y0 + size)
}

/// The chunks of `mirror` that `camera` sees, row by row of the chunk grid: each chunk that
/// holds tiles and, where culling is on, whose world box meets the camera's widened
/// rectangle.
pub fn cull_tilemap(mirror: &RenderTilemap, camera: &CameraView, culling: &FrustumCulling)
    -> (visible: Vec<UVec2>)
    requires
        mirror.wf(),
    ensures
        forall|chunk: UVec2|
            visible@.contains(chunk) <==> mirror@.is_visible(*camera, *culling, chunk),
        forall|i: int, j: int|
            0 <= i < j < visible.len() ==> row_major_before(
                visible@[i],
                visible@[j].y as int,
                visible@[j].x as int,
            ),
{
    let grid = mirror.chunk_grid();
    let settings = mirror.settings();
    let view = expand_view(camera, culling.margin);
    let mut visible: Vec<UVec2> = Vec::new();
    let mut row: u32 = 0;
    proof {
        mirror.lemma_view_wf();
    }
    while row < grid.count.y
        invariant
            mirror.wf(),
            mirror@.wf(),
            grid == mirror@.grid(),
            settings == mirror@.settings,
            view == camera.expanded(culling.margin),
            row <= grid.count.y,
            forall|chunk: UVec2|
                #![trigger visible@.contains(chunk)]
                visible@.contains(chunk) <==> grid.has_chunk(chunk) && row_major_before(
                    chunk,
                    row as int,
                    0,
                ) && mirror@.is_visible(*camera, *culling, chunk),
            forall|i: int, j: int|
                0 <= i < j < visible.len() ==> row_major_before(
                    visible@[i],
                    visible@[j].y as int,
                    visible@[j].x as int,
                ),
        decreases grid.count.y - row,
    {
        let mut column: u32 = 0;
        while column < grid.count.x
            invariant
                mirror.wf(),
                mirror@.wf(),
                grid == mirror@.grid(),
                settings == mirror@.settings,
                view == camera.expanded(culling.margin),
                row < grid.count.y,
                column <= grid.count.x,
                forall|chunk: UVec2|
                    #![trigger visible@.contains(chunk)]
                    visible@.contains(chunk) <==> grid.has_chunk(chunk) && row_major_before(
                        chunk,
                        row as int,
                        column as int,
                    ) && mirror@.is_visible(*camera, *culling, chunk),
                forall|i: int, j: int|
                    0 <= i < j < visible.len() ==> row_major_before(
                        visible@[i],
                        visible@[j].y as int,
                        visible@[j].x as int,
                    ),
            decreases grid.count.x - column,
        {
            let chunk = UVec2 { x: column, y: row };
            let seen: bool = mirror.is_populated(chunk) && (!culling.enabled || chunk_world_aabb(
                &settings,
                chunk,
            ).is_intersected(&view));
            let ghost before = visible@;
            if seen {
                visible.push(chunk);
            }
            proof {
                assert forall|other: UVec2|
                    visible@.contains(other) <==> grid.has_chunk(other) && row_major_before(
                        other,
                        row as int,
                        column + 1,
                    ) && mirror@.is_visible(*camera, *culling, other) by {
                    if before.contains(other) {
                        let i = choose|i: int| 0 <= i < before.len() && before[i] == other;
                        assert(visible@[i] == other);
                    }
                    if other.x == chunk.x && other.y == chunk.y {
                        if seen {
                            assert(visible@[before.len() as int] == other);
                        }
                    }
                }
                assert forall|i: int, j: int| 0 <= i < j < visible.len() implies row_major_before(
                    visible@[i],
                    visible@[j].y as int,
                    visible@[j].x as int,
                ) by {
                    if j == before.len() {
                        assert(before.contains(before[i]));
                    }
                }
            }
            column += 1;
        }
        proof {
            assert forall|chunk: UVec2| grid.has_chunk(chunk) implies row_major_before(
                chunk,
                row as int,
                column as int,
            ) == row_major_before(chunk, row + 1, 0) by {}
        }
        row += 1;
    }
    proof {
        assert forall|chunk: UVec2|
            visible@.contains(chunk) <==> mirror@.is_visible(*camera, *culling, chunk) by {
            if mirror@.is_visible(*camera, *culling, chunk) {
                let cell = choose|cell: UVec2| #[trigger]
                    mirror@.tiles.contains_key(cell) && mirror@.owner(cell) == chunk;
                grid.lemma_locate(cell);
            }
        }
    }
    visible
}

} // verus!
