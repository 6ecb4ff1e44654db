//! Where the cells of a tilemap lie in world space. World space is measured in half world
//! units, so that the centre of a tile is exact: every coordinate here is twice the world
//! coordinate.

use crate::math::{UVec2, WorldAabb, WorldPoint};
use crate::tilemap::model::TilemapSettings;
use crate::tilemap::tile::TileType;
use vstd::prelude::*;

verus! {

/// The world box of the cells `[x0, x1) x [y0, y1)` of a tilemap, in half world units.
pub open spec fn cells_aabb(settings: TilemapSettings, x0: int, y0: int, x1: int, y1: int)
    -> WorldAabb {
    let rx = settings.tile_render_size.x as int;
    let ry = settings.tile_render_size.y as int;
    let tx = 2 * settings.translation.x;
    let ty = 2 * settings.translation.y;
    match settings.tile_type {
        TileType::Square => WorldAabb {
            min: WorldPoint { x: (2 * x0 * rx + tx) as i128, y: (2 * y0 * ry + ty) as i128 },
            max: WorldPoint { x: (2 * x1 * rx + tx) as i128, y: (2 * y1 * ry + ty) as i128 },
        },
        TileType::IsometricDiamond => WorldAabb {
            min: WorldPoint { x: ((x0 - y1) * rx + tx) as i128, y: ((x0 + y0) * ry + ty) as i128 },
            max: WorldPoint { x: ((x1 - y0) * rx + tx) as i128, y: ((x1 + y1) * ry + ty) as i128 },
        },
    }
}

/// The centre of a cell in world space, in half world units.
pub open spec fn cell_center(settings: TilemapSettings, cell: UVec2) -> WorldPoint {
    let rx = settings.tile_render_size.x as int;
    let ry = settings.tile_render_size.y as int;
    let tx = 2 * settings.translation.x;
    let ty = 2 * settings.translation.y;
    match settings.tile_type {
        TileType::Square => WorldPoint {
            x: ((2 * cell.x + 1) * rx + tx) as i128,
            y: ((2 * cell.y + 1) * ry + ty) as i128,
        },
        TileType::IsometricDiamond => WorldPoint {
            x: ((cell.x - cell.y) * rx + tx) as i128,
            y: ((cell.x + cell.y + 1) * ry + ty) as i128,
        },
    }
}

/// `a * b + c` for numbers that are far from the limits of the type.
fn scaled(a: i128, b: i128, c: i128) -> (r: i128)
    requires
        -0x1_0000_0000_0000_0000_0000 <= a <= 0x1_0000_0000_0000_0000_0000,
        -0x1_0000_0000 <= b <= 0x1_0000_0000,
        -0x2_0000_0000 <= c <= 0x2_0000_0000,
    ensures
        r == a * b + c,
{
    proof {
        assert(-0x1_0000_0000_0000_0000_0000 * 0x1_0000_0000 <= a * b
            <= 0x1_0000_0000_0000_0000_0000 * 0x1_0000_0000) by (nonlinear_arith)
            requires
                -0x1_0000_0000_0000_0000_0000 <= a <= 0x1_0000_0000_0000_0000_0000,
                -0x1_0000_0000 <= b <= 0x1_0000_0000,
        ;
    }
    a * b + c
}

/// The centre of `cell` in world space.
pub fn center_of(settings: &TilemapSettings, cell: UVec2) -> (center: WorldPoint)
    ensures
        center == cell_center(*settings, cell),
{
    let rx: i128 = settings.tile_render_size.x as i128;
    let ry: i128 = settings.tile_render_size.y as i128;
    let tx: i128 = 2 * (settings.translation.x as i128);
    let ty: i128 = 2 * (settings.translation.y as i128);
    let x: i128 = cell.x as i128;
    let y: i128 = cell.y as i128;
    match settings.tile_type {
        TileType::Square => WorldPoint {
            x: scaled(2 * x + 1, rx, tx),
            y: scaled(2 * y + 1, ry, ty),
        },
        TileType::IsometricDiamond => WorldPoint {
            x: scaled(x - y, rx, tx),
            y: scaled(x + y + 1, ry, ty),
        },
    }
}

/// The world box of the cells `[x0, x1) x [y0, y1)`.
pub fn aabb_of_cells(settings: &TilemapSettings, x0: u64, y0: u64, x1: u64, y1: u64) -> (aabb:
    WorldAabb)
    ensures
        aabb == cells_aabb(*settings, x0 as int, y0 as int, x1 as int, y1 as int),
{
    let rx: i128 = settings.tile_render_size.x as i128;
    let ry: i128 = settings.tile_render_size.y as i128;
    let tx: i128 = 2 * (settings.translation.x as i128);
    let ty: i128 = 2 * (settings.translation.y as i128);
    let x0: i128 = x0 as i128;
    let y0: i128 = y0 as i128;
    let x1: i128 = x1 as i128;
    let y1: i128 = y1 as i128;
    match settings.tile_type {
        TileType::Square => WorldAabb {
            min: WorldPoint { x: scaled(2 * x0, rx, tx), y: scaled(2 * y0, ry, ty) },
            max: WorldPoint { x: scaled(2 * x1, rx, tx), y: scaled(2 * y1, ry, ty) },
        },
        TileType::IsometricDiamond => WorldAabb {
            min: WorldPoint { x: scaled(x0 - y1, rx, tx), y: scaled(x0 + y0, ry, ty) },
            max: WorldPoint { x: scaled(x1 - y0, rx, tx), y: scaled(x1 + y1, ry, ty) },
        },
    }
}

} // verus!
