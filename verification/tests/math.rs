use bevy_entitiles::math::{chunk_count, FillArea, IAabb2d, IVec2, UVec2, WorldAabb, WorldPoint};
use bevy_entitiles::tilemap::grid::ChunkGrid;

#[test]
fn fill_areas_are_made_from_an_origin_and_an_extent() {
    assert_eq!(
        FillArea::new(UVec2::new(2, 3), UVec2::new(20, 10)),
        Some(FillArea { origin: UVec2::new(2, 3), dest: UVec2::new(21, 12) })
    );
    assert_eq!(FillArea::new(UVec2::new(2, 3), UVec2::new(0, 10)), None);
    assert_eq!(FillArea::new(UVec2::new(2, 3), UVec2::new(10, 0)), None);
    assert_eq!(FillArea::new(UVec2::new(u32::MAX, 0), UVec2::new(2, 1)), None);
    assert_eq!(
        FillArea::new(UVec2::new(u32::MAX, 0), UVec2::new(1, 1)),
        Some(FillArea { origin: UVec2::new(u32::MAX, 0), dest: UVec2::new(u32::MAX, 0) })
    );
    let area = FillArea { origin: UVec2::new(1, 1), dest: UVec2::new(2, 3) };
    assert!(area.is_inside(UVec2::new(1, 1)));
    assert!(area.is_inside(UVec2::new(2, 3)));
    assert!(!area.is_inside(UVec2::new(3, 3)));
    assert!(!area.is_inside(UVec2::new(0, 2)));
}

#[test]
fn signed_boxes_hold_their_corners() {
    let aabb = IAabb2d { min: IVec2::new(0, -9), max: IVec2::new(19, 0) };
    assert!(aabb.is_inside(IVec2::new(0, -9)));
    assert!(aabb.is_inside(IVec2::new(19, 0)));
    assert!(!aabb.is_inside(IVec2::new(20, 0)));
    assert!(!aabb.is_inside(IVec2::new(0, 1)));
}

#[test]
fn chunk_counts_round_up() {
    assert_eq!(chunk_count(UVec2::new(32, 33), 16), UVec2::new(2, 3));
    assert_eq!(chunk_count(UVec2::new(0, 1), 16), UVec2::new(0, 1));
    assert_eq!(chunk_count(UVec2::new(u32::MAX, 100), 1), UVec2::new(u32::MAX, 100));
    assert_eq!(chunk_count(UVec2::new(u32::MAX, 100), u32::MAX), UVec2::new(1, 1));
}

#[test]
fn a_grid_locates_its_cells() {
    let grid = ChunkGrid { size: UVec2::new(40, 20), chunk_size: 16, count: UVec2::new(3, 2) };
    assert_eq!(grid.locate_exec(UVec2::new(0, 0)), (0, 0));
    assert_eq!(grid.locate_exec(UVec2::new(17, 3)), (1, 3 * 16 + 1));
    assert_eq!(grid.locate_exec(UVec2::new(39, 19)), (5, 3 * 16 + 7));
    assert_eq!(grid.slot_of(UVec2::new(2, 1)), 5);
    assert_eq!(grid.owner(UVec2::new(39, 19)), UVec2::new(2, 1));
    assert_eq!(grid.cell_of(UVec2::new(2, 1), UVec2::new(7, 3)), Some(UVec2::new(39, 19)));
    assert_eq!(grid.cell_of(UVec2::new(2, 1), UVec2::new(8, 3)), None);
    assert_eq!(grid.cell_of(UVec2::new(2, 1), UVec2::new(7, 4)), None);
}

#[test]
fn world_boxes_meet_where_they_share_a_point() {
    let a = WorldAabb { min: WorldPoint { x: 0, y: 0 }, max: WorldPoint { x: 10, y: 10 } };
    let touching = WorldAabb { min: WorldPoint { x: 10, y: 10 }, max: WorldPoint { x: 20, y: 20 } };
    let apart = WorldAabb { min: WorldPoint { x: 11, y: 0 }, max: WorldPoint { x: 20, y: 10 } };
    let above = WorldAabb { min: WorldPoint { x: 0, y: 11 }, max: WorldPoint { x: 10, y: 12 } };
    assert!(a.is_intersected(&touching));
    assert!(touching.is_intersected(&a));
    assert!(!a.is_intersected(&apart));
    assert!(!a.is_intersected(&above));
}
