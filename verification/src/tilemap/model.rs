//! The mathematical model of a tilemap: which cell holds which tile, which chunks wait for
//! upload and which for release. The operations of the grid are stated here as functions
//! from one model to the next.

use crate::math::{chunk_of, chunks_to_cover, FillArea, IVec2, UVec2};
use crate::tilemap::tile::{TileType, TileUpdater, TileView};
use vstd::prelude::*;

verus! {

/// The host's handle of an entity, as the bits that identify it.
#[derive(Clone, Copy, Debug, PartialEq, Eq, Structural)]
pub struct Entity {
    pub bits: u64,
}

/// How a texture is sampled between texels.
#[derive(Clone, Copy, Debug, PartialEq, Eq, Structural)]
pub enum FilterMode {
    Nearest,
    Linear,
}

/// The layout of a tilemap's texture atlas.
#[derive(Clone, Copy, Debug, PartialEq, Eq, Structural)]
pub struct TilemapTextureDescriptor {
    pub size: UVec2,
    pub tile_size: UVec2,
    pub filter_mode: FilterMode,
}

/// A tilemap's texture atlas: the host's handle of the image, and its layout.
#[derive(Clone, Copy, Debug, PartialEq, Eq, Structural)]
pub struct TilemapTexture {
    pub texture: u64,
    pub desc: TilemapTextureDescriptor,
}

/// How opaque each of the drawn layers of the tiles of a tilemap is, from 0 to 255, lowest
/// layer first.
#[derive(Clone, Copy, Debug, PartialEq, Eq, Structural)]
pub struct LayerOpacities {
    pub first: u8,
    pub second: u8,
    pub third: u8,
    pub fourth: u8,
}

impl LayerOpacities {
    pub open spec fn spec_opaque() -> LayerOpacities {
        LayerOpacities { first: 255, second: 255, third: 255, fourth: 255 }
    }

    /// Every layer wholly opaque.
    pub fn opaque() -> (opacities: LayerOpacities)
        ensures
            opacities == Self::spec_opaque(),
    {
        LayerOpacities { first: 255, second: 255, third: 255, fourth: 255 }
    }
}

/// What describes a tilemap apart from its tiles.
#[derive(Clone, Copy, Debug, PartialEq, Eq, Structural)]
pub struct TilemapSettings {
    pub tile_type: TileType,
    /// The extent of the grid in cells.
    pub size: UVec2,
    /// The size of a tile in the texture, in pixels.
    pub tile_size: UVec2,
    /// The size of a tile in the world, in world units.
    pub tile_render_size: UVec2,
    /// The number of cells along one edge of a chunk.
    pub render_chunk_size: u32,
    pub texture: Option<TilemapTexture>,
    pub filter_mode: FilterMode,
    pub translation: IVec2,
    pub z_order: u32,
    /// The flips applied to every tile, as the bits of `TileFlip`.
    pub flip: u32,
    /// How opaque each layer of the tiles is drawn.
    pub layer_opacities: LayerOpacities,
}

/// The box `aabb` grown as far as it takes to hold `cell`.
pub open spec fn grown(aabb: Option<FillArea>, cell: UVec2) -> Option<FillArea> {
    match aabb {
        None => Some(FillArea { origin: cell, dest: cell }),
        Some(a) => Some(
            FillArea {
                origin: UVec2 {
                    x: if cell.x < a.origin.x {
                        cell.x
                    } else {
                        a.origin.x
                    },
                    y: if cell.y < a.origin.y {
                        cell.y
                    } else {
                        a.origin.y
                    },
                },
                dest: UVec2 {
                    x: if cell.x > a.dest.x {
                        cell.x
                    } else {
                        a.dest.x
                    },
                    y: if cell.y > a.dest.y {
                        cell.y
                    } else {
                        a.dest.y
                    },
                },
            },
        ),
    }
}

/// The mathematical value of a tilemap.
pub struct TilemapView {
    pub id: Entity,
    pub settings: TilemapSettings,
    /// The tile of each occupied cell.
    pub tiles: Map<UVec2, TileView>,
    /// The chunks that changed since they were last handed to the renderer.
    pub dirty: Set<UVec2>,
    /// The chunks whose render-side buffers are to be freed.
    pub released: Set<UVec2>,
    /// A box that holds every occupied cell; it grows as cells are written.
    pub aabb: Option<FillArea>,
}

impl TilemapView {
    pub open spec fn chunk_size(self) -> u32 {
        self.settings.render_chunk_size
    }

    /// Whether `cell` lies inside the declared extent.
    pub open spec fn in_bounds(self, cell: UVec2) -> bool {
        cell.x < self.settings.size.x && cell.y < self.settings.size.y
    }

    /// The chunk that owns `cell`.
    pub open spec fn owner(self, cell: UVec2) -> UVec2 {
        chunk_of(cell, self.chunk_size())
    }

    /// Whether `chunk` is a chunk of the grid.
    pub open spec fn has_chunk(self, chunk: UVec2) -> bool {
        chunk.x < chunks_to_cover(self.settings.size.x as int, self.chunk_size() as int)
            && chunk.y < chunks_to_cover(self.settings.size.y as int, self.chunk_size() as int)
    }

    /// The tiles of `chunk`: the occupied cells that it owns.
    pub open spec fn chunk_tiles(self, chunk: UVec2) -> Set<UVec2> {
        Set::new(|cell: UVec2| self.tiles.contains_key(cell) && self.owner(cell) == chunk)
    }

    /// Whether `chunk` holds a tile.
    pub open spec fn populated(self, chunk: UVec2) -> bool {
        exists|cell: UVec2| #[trigger] self.tiles.contains_key(cell) && self.owner(cell) == chunk
    }

    /// Whether `cell` is the only occupied cell of its chunk.
    pub open spec fn alone_in_chunk(self, cell: UVec2) -> bool {
        forall|other: UVec2| #[trigger]
            self.tiles.contains_key(other) && self.owner(other) == self.owner(cell) ==> other
                == cell
    }

    pub open spec fn wf(self) -> bool {
        &&& self.chunk_size() > 0
        &&& forall|cell: UVec2| #[trigger]
            self.tiles.contains_key(cell) ==> {
                &&& self.in_bounds(cell)
                &&& self.tiles[cell].index == cell
                &&& self.aabb is Some
                &&& self.aabb.unwrap().contains(cell)
            }
        &&& forall|chunk: UVec2| #[trigger] self.dirty.contains(chunk) ==> self.has_chunk(chunk)
        &&& forall|chunk: UVec2| #[trigger]
            self.released.contains(chunk) ==> self.has_chunk(chunk)
    }

    /// An empty tilemap.
    pub open spec fn empty(id: Entity, settings: TilemapSettings) -> TilemapView {
        TilemapView {
            id,
            settings,
            tiles: Map::empty(),
            dirty: Set::empty(),
            released: Set::empty(),
            aabb: None,
        }
    }

    /// The tile at `cell`, if there is one.
    pub open spec fn get(self, cell: UVec2) -> Option<TileView> {
        if self.tiles.contains_key(cell) {
            Some(self.tiles[cell])
        } else {
            None
        }
    }

    /// `tile` written to its cell. Outside the extent nothing changes.
    pub open spec fn set(self, tile: TileView) -> TilemapView {
        if self.in_bounds(tile.index) {
            TilemapView {
                tiles: self.tiles.insert(tile.index, tile),
                dirty: self.dirty.insert(self.owner(tile.index)),
                aabb: grown(self.aabb, tile.index),
                ..self
            }
        } else {
            self
        }
    }

    /// The tile at `cell` taken away. Its chunk waits for upload, and for release where the
    /// tile was its last. Where the cell is empty nothing changes.
    pub open spec fn remove(self, cell: UVec2) -> TilemapView {
        if self.tiles.contains_key(cell) {
            TilemapView {
                tiles: self.tiles.remove(cell),
                dirty: self.dirty.insert(self.owner(cell)),
                released: if self.alone_in_chunk(cell) {
                    self.released.insert(self.owner(cell))
                } else {
                    self.released
                },
                ..self
            }
        } else {
            self
        }
    }

    /// The part of `area` that lies inside the extent.
    pub open spec fn covers(self, area: FillArea, cell: UVec2) -> bool {
        area.contains(cell) && self.in_bounds(cell)
    }

    /// `tile` written to every cell of `area` that lies inside the extent.
    pub open spec fn fill_rect(self, area: FillArea, tile: TileView) -> TilemapView {
        TilemapView {
            tiles: Map::new(
                |cell: UVec2| self.covers(area, cell) || self.tiles.contains_key(cell),
                |cell: UVec2|
                    if self.covers(area, cell) {
                        tile.at(cell)
                    } else {
                        self.tiles[cell]
                    },
            ),
            dirty: Set::new(
                |chunk: UVec2|
                    self.dirty.contains(chunk) || exists|cell: UVec2| #[trigger]
                        self.covers(area, cell) && self.owner(cell) == chunk,
            ),
            aabb: if self.covers(area, area.origin) {
                grown(grown(self.aabb, area.origin), self.clipped_dest(area))
            } else {
                self.aabb
            },
            ..self
        }
    }

    /// The far corner of the part of `area` that lies inside the extent, where there is one.
    pub open spec fn clipped_dest(self, area: FillArea) -> UVec2 {
        UVec2 {
            x: if area.dest.x < self.settings.size.x {
                area.dest.x
            } else {
                (self.settings.size.x - 1) as u32
            },
            y: if area.dest.y < self.settings.size.y {
                area.dest.y
            } else {
                (self.settings.size.y - 1) as u32
            },
        }
    }

    /// Every tile taken away: each populated chunk waits for release.
    pub open spec fn despawn(self) -> TilemapView {
        TilemapView {
            tiles: Map::empty(),
            released: Set::new(
                |chunk: UVec2| self.released.contains(chunk) || self.populated(chunk),
            ),
            aabb: None,
            ..self
        }
    }

    /// The tilemap once the renderer has taken its changes: no chunk waits any more.
    pub open spec fn extracted(self) -> TilemapView {
        TilemapView { dirty: Set::empty(), released: Set::empty(), ..self }
    }
}

/// Whether `cell` comes before column `column` of row `row` when cells are walked row by
/// row, each row from its lowest column.
pub open spec fn row_major_before(cell: UVec2, row: int, column: int) -> bool {
    cell.y < row || (cell.y == row && cell.x < column)
}

/// A box that holds `cell` does not grow for it.
pub proof fn lemma_grown_inside(area: FillArea, cell: UVec2)
    requires
        area.contains(cell),
    ensures
        grown(Some(area), cell) == Some(area),
{
}

impl TilemapView {
    /// The state of `fill_rect` on its way: the box has grown already, and `tile` is written to
    /// the cells of `area` that come before column `column` of row `row`.
    pub open spec fn fill_progress(self, area: FillArea, tile: TileView, row: int, column: int)
        -> TilemapView {
        TilemapView {
            tiles: Map::new(
                |cell: UVec2|
                    (self.covers(area, cell) && row_major_before(cell, row, column))
                        || self.tiles.contains_key(cell),
                |cell: UVec2|
                    if self.covers(area, cell) && row_major_before(cell, row, column) {
                        tile.at(cell)
                    } else {
                        self.tiles[cell]
                    },
            ),
            dirty: Set::new(
                |chunk: UVec2|
                    self.dirty.contains(chunk) || exists|cell: UVec2|
                        #![trigger self.covers(area, cell)]
                        self.covers(area, cell) && row_major_before(cell, row, column)
                            && self.owner(cell) == chunk,
            ),
            aabb: self.fill_rect(area, tile).aabb,
            ..self
        }
    }

    /// Before the first cell, only the box has changed.
    pub proof fn lemma_fill_start(self, area: FillArea, tile: TileView)
        ensures
            self.fill_progress(area, tile, area.origin.y as int, area.origin.x as int) == (
            TilemapView { aabb: self.fill_rect(area, tile).aabb, ..self }),
    {
        let p = self.fill_progress(area, tile, area.origin.y as int, area.origin.x as int);
        assert(p.tiles =~= self.tiles);
        assert(p.dirty =~= self.dirty);
    }

    /// Writing the next cell moves the state on by one column.
    pub proof fn lemma_fill_step(self, area: FillArea, tile: TileView, cell: UVec2)
        requires
            self.covers(area, cell),
        ensures
            self.fill_progress(area, tile, cell.y as int, cell.x as int).set(tile.at(cell))
                == self.fill_progress(area, tile, cell.y as int, cell.x + 1),
    {
        let before = self.fill_progress(area, tile, cell.y as int, cell.x as int);
        let after = self.fill_progress(area, tile, cell.y as int, cell.x + 1);
        let written = before.set(tile.at(cell));
        assert(written.tiles =~= after.tiles);
        assert forall|chunk: UVec2| written.dirty.contains(chunk) == after.dirty.contains(
            chunk,
        ) by {
            if written.dirty.contains(chunk) && !self.dirty.contains(chunk) {
                if chunk == self.owner(cell) {
                    assert(self.covers(area, cell) && row_major_before(
                        cell,
                        cell.y as int,
                        cell.x + 1,
                    ));
                } else {
                    let c = choose|c: UVec2|
                        #![trigger self.covers(area, c)]
                        self.covers(area, c) && row_major_before(c, cell.y as int, cell.x as int)
                            && self.owner(c) == chunk;
                }
            }
            if after.dirty.contains(chunk) && !self.dirty.contains(chunk) {
                let c = choose|c: UVec2|
                    #![trigger self.covers(area, c)]
                    self.covers(area, c) && row_major_before(c, cell.y as int, cell.x + 1)
                        && self.owner(c) == chunk;
                if c != cell {
                    assert(self.covers(area, c) && row_major_before(
                        c,
                        cell.y as int,
                        cell.x as int,
                    ));
                }
            }
        }
        assert(written.dirty =~= after.dirty);
        if self.covers(area, area.origin) {
            let first = grown(self.aabb, area.origin).unwrap();
            let full = grown(Some(first), self.clipped_dest(area)).unwrap();
            lemma_grown_inside(full, cell);
        }
    }

    /// The state after the last covered column of a row is the state before the next row.
    pub proof fn lemma_fill_row_end(self, area: FillArea, tile: TileView, row: int, column: int)
        requires
            column > area.dest.x || column >= self.settings.size.x,
        ensures
            self.fill_progress(area, tile, row, column) == self.fill_progress(
                area,
                tile,
                row + 1,
                area.origin.x as int,
            ),
    {
        let a = self.fill_progress(area, tile, row, column);
        let b = self.fill_progress(area, tile, row + 1, area.origin.x as int);
        assert forall|cell: UVec2| self.covers(area, cell) implies row_major_before(
            cell,
            row,
            column,
        ) == row_major_before(cell, row + 1, area.origin.x as int) by {}
        assert(a.tiles =~= b.tiles);
        assert(a.dirty =~= b.dirty);
    }

    /// After the last covered row the rectangle is filled.
    pub proof fn lemma_fill_done(self, area: FillArea, tile: TileView, row: int)
        requires
            row > area.dest.y || row >= self.settings.size.y,
        ensures
            self.fill_progress(area, tile, row, area.origin.x as int) == self.fill_rect(
                area,
                tile,
            ),
    {
        let a = self.fill_progress(area, tile, row, area.origin.x as int);
        let b = self.fill_rect(area, tile);
        assert forall|cell: UVec2| self.covers(area, cell) implies row_major_before(
            cell,
            row,
            area.origin.x as int,
        ) by {}
        assert(a.tiles =~= b.tiles);
        assert(a.dirty =~= b.dirty);
    }

    /// Where `area` covers no cell of the grid, filling it changes nothing.
    pub proof fn lemma_fill_nothing(self, area: FillArea, tile: TileView)
        requires
            !self.covers(area, area.origin),
        ensures
            self.fill_rect(area, tile) == self,
    {
        let b = self.fill_rect(area, tile);
        assert forall|cell: UVec2| !self.covers(area, cell) by {}
        assert(b.tiles =~= self.tiles);
        assert(b.dirty =~= self.dirty);
    }
}

impl TilemapView {
    /// A tile that was set is the tile that is read back from its cell, and every other cell
    /// reads as before.
    pub proof fn lemma_set_then_get(self, tile: TileView, other: UVec2)
        requires
            self.in_bounds(tile.index),
            other != tile.index,
        ensures
            self.set(tile).get(tile.index) == Some(tile),
            self.set(tile).get(other) == self.get(other),
    {
    }

    /// Of two tiles set to one cell the later one stays: the grid holds the same tiles as if
    /// the earlier one had never been set.
    pub proof fn lemma_last_write_wins(self, first: TileView, second: TileView)
        requires
            first.index == second.index,
        ensures
            self.set(first).set(second).tiles == self.set(second).tiles,
            self.in_bounds(second.index) ==> self.set(first).set(second).get(second.index)
                == Some(second),
    {
    }

    /// Setting the same tile twice is setting it once.
    pub proof fn lemma_set_idempotent(self, tile: TileView)
        ensures
            self.set(tile).set(tile) == self.set(tile),
    {
        let once = self.set(tile);
        let twice = once.set(tile);
        assert(twice.tiles =~= once.tiles);
        assert(twice.dirty =~= once.dirty);
    }

    /// Filling the same rectangle twice with the same tile is filling it once.
    pub proof fn lemma_fill_rect_idempotent(self, area: FillArea, tile: TileView)
        ensures
            self.fill_rect(area, tile).fill_rect(area, tile) == self.fill_rect(area, tile),
    {
        let once = self.fill_rect(area, tile);
        let twice = once.fill_rect(area, tile);
        assert forall|cell: UVec2| once.covers(area, cell) == self.covers(area, cell) by {}
        assert(twice.tiles =~= once.tiles);
        assert forall|chunk: UVec2| twice.dirty.contains(chunk) == once.dirty.contains(
            chunk,
        ) by {
            if twice.dirty.contains(chunk) && !once.dirty.contains(chunk) {
                let cell = choose|cell: UVec2| #[trigger]
                    once.covers(area, cell) && once.owner(cell) == chunk;
            }
        }
        assert(twice.dirty =~= once.dirty);
    }

    /// Removing the tile of the same cell twice is removing it once.
    pub proof fn lemma_remove_idempotent(self, cell: UVec2)
        ensures
            self.remove(cell).remove(cell) == self.remove(cell),
    {
    }

    /// Every cell of a filled rectangle reads as if the tile had been set to that cell alone.
    pub proof fn lemma_fill_rect_is_set(self, area: FillArea, tile: TileView, cell: UVec2)
        requires
            area.contains(cell),
        ensures
            self.fill_rect(area, tile).get(cell) == self.set(tile.at(cell)).get(cell),
            self.in_bounds(cell) ==> self.fill_rect(area, tile).get(cell) == Some(tile.at(cell)),
    {
    }

    /// Filling a rectangle leaves the cells outside it as they were.
    pub proof fn lemma_fill_rect_outside(self, area: FillArea, tile: TileView, cell: UVec2)
        requires
            !area.contains(cell),
        ensures
            self.fill_rect(area, tile).get(cell) == self.get(cell),
    {
    }

    /// A removed tile is absent afterwards, and the other cells read as before.
    pub proof fn lemma_remove_then_get(self, cell: UVec2, other: UVec2)
        requires
            other != cell,
        ensures
            self.remove(cell).get(cell) is None,
            self.remove(cell).get(other) == self.get(other),
    {
    }

    /// Removing from an empty cell changes nothing.
    pub proof fn lemma_remove_absent(self, cell: UVec2)
        requires
            self.get(cell) is None,
        ensures
            self.remove(cell) == self,
    {
    }

    /// A cell belongs to the chunk whose range of cells holds it, and to no other: its chunk
    /// is its coordinates divided by the chunk size, rounded down.
    pub proof fn lemma_chunk_membership(self, chunk: UVec2, cell: UVec2)
        requires
            self.chunk_size() > 0,
        ensures
            self.owner(cell) == chunk <==> {
                &&& chunk.x * self.chunk_size() <= cell.x < (chunk.x + 1) * self.chunk_size()
                &&& chunk.y * self.chunk_size() <= cell.y < (chunk.y + 1) * self.chunk_size()
            },
            self.tiles.contains_key(cell) ==> (self.chunk_tiles(chunk).contains(cell)
                <==> self.owner(cell) == chunk),
    {
        let size = self.chunk_size() as int;
        crate::math::lemma_chunk_split(cell.x as int, size);
        crate::math::lemma_chunk_split(cell.y as int, size);
        assert((chunk.x + 1) * size == chunk.x * size + size) by (nonlinear_arith);
        assert((chunk.y + 1) * size == chunk.y * size + size) by (nonlinear_arith);
        if chunk.x * size <= cell.x < (chunk.x + 1) * size {
            crate::math::lemma_chunk_unique(chunk.x as int, cell.x - chunk.x * size, size);
        }
        if chunk.y * size <= cell.y < (chunk.y + 1) * size {
            crate::math::lemma_chunk_unique(chunk.y as int, cell.y - chunk.y * size, size);
        }
    }

    /// No tile is a member of two chunks.
    pub proof fn lemma_one_chunk_per_tile(self, first: UVec2, second: UVec2, cell: UVec2)
        requires
            self.chunk_tiles(first).contains(cell),
            self.chunk_tiles(second).contains(cell),
        ensures
            first == second,
    {
    }

    /// Once despawned, a tilemap holds no tile, and each chunk that held one waits for
    /// release.
    pub proof fn lemma_despawn_then_get(self, cell: UVec2)
        ensures
            self.despawn().get(cell) is None,
            self.tiles.contains_key(cell) ==> self.despawn().released.contains(self.owner(cell)),
            self.despawn().despawn() == self.despawn(),
    {
        let once = self.despawn();
        let twice = once.despawn();
        assert forall|chunk: UVec2| !once.populated(chunk) by {}
        assert(twice.released =~= once.released);
    }
}

/// Why a change to the tiles of a rectangle is refused.
#[derive(Clone, Copy, Debug, PartialEq, Eq, Structural)]
pub enum TileError {
    /// A layer was to be put to the tile at `index`, which shows an animation: the first
    /// such tile of the rectangle, row by row.
    LayerConflict { index: UVec2 },
    /// A layer was to be put at a position that no stack can be lengthened to.
    LayerOutOfReach,
}

impl TilemapView {
    /// Whether `area` holds a tile at `cell`.
    pub open spec fn touches(self, area: FillArea, cell: UVec2) -> bool {
        area.contains(cell) && self.tiles.contains_key(cell)
    }

    /// Whether `updater` cannot be applied to the tile at `cell` of `area`.
    pub open spec fn update_conflict(self, area: FillArea, updater: TileUpdater, cell: UVec2)
        -> bool {
        self.touches(area, cell) && self.tiles[cell].conflicts(updater)
    }

    /// Whether `cell` is the first cell of `area`, row by row, whose tile `updater` cannot be
    /// applied to.
    pub open spec fn is_first_conflict(self, area: FillArea, updater: TileUpdater, cell: UVec2)
        -> bool {
        &&& self.update_conflict(area, updater, cell)
        &&& forall|other: UVec2| #[trigger]
            self.update_conflict(area, updater, other) ==> !row_major_before(
                other,
                cell.y as int,
                cell.x as int,
            )
    }

    /// `updater` applied to the tile at `cell`, if there is one.
    pub open spec fn update_one(self, cell: UVec2, updater: TileUpdater) -> TilemapView {
        if self.tiles.contains_key(cell) {
            TilemapView {
                tiles: self.tiles.insert(cell, self.tiles[cell].updated(updater)),
                dirty: self.dirty.insert(self.owner(cell)),
                ..self
            }
        } else {
            self
        }
    }

    /// `updater` applied to every tile of `area`. Empty cells stay empty.
    pub open spec fn update_rect(self, area: FillArea, updater: TileUpdater) -> TilemapView {
        self.update_progress(area, updater, u32::MAX + 1, 0)
    }

    /// The state of `update_rect` on its way: `updater` is applied to the tiles of `area`
    /// that come before column `column` of row `row`.
    pub open spec fn update_progress(
        self,
        area: FillArea,
        updater: TileUpdater,
        row: int,
        column: int,
    ) -> TilemapView {
        TilemapView {
            tiles: Map::new(
                |cell: UVec2| self.tiles.contains_key(cell),
                |cell: UVec2|
                    if area.contains(cell) && row_major_before(cell, row, column) {
                        self.tiles[cell].updated(updater)
                    } else {
                        self.tiles[cell]
                    },
            ),
            dirty: Set::new(
                |chunk: UVec2|
                    self.dirty.contains(chunk) || exists|cell: UVec2|
                        #![trigger self.touches(area, cell)]
                        self.touches(area, cell) && row_major_before(cell, row, column)
                            && self.owner(cell) == chunk,
            ),
            ..self
        }
    }

    /// Before the first cell nothing has changed.
    pub proof fn lemma_update_start(self, area: FillArea, updater: TileUpdater)
        ensures
            self.update_progress(area, updater, area.origin.y as int, area.origin.x as int)
                == self,
    {
        let p = self.update_progress(area, updater, area.origin.y as int, area.origin.x as int);
        assert(p.tiles =~= self.tiles);
        assert(p.dirty =~= self.dirty);
    }

    /// Applying the change to the next cell moves the state on by one column.
    pub proof fn lemma_update_step(self, area: FillArea, updater: TileUpdater, cell: UVec2)
        requires
            area.contains(cell),
        ensures
            self.update_progress(area, updater, cell.y as int, cell.x as int).update_one(
                cell,
                updater,
            ) == self.update_progress(area, updater, cell.y as int, cell.x + 1),
    {
        let before = self.update_progress(area, updater, cell.y as int, cell.x as int);
        let after = self.update_progress(area, updater, cell.y as int, cell.x + 1);
        let changed = before.update_one(cell, updater);
        assert(changed.tiles =~= after.tiles);
        assert forall|chunk: UVec2| changed.dirty.contains(chunk) == after.dirty.contains(
            chunk,
        ) by {
            if changed.dirty.contains(chunk) && !self.dirty.contains(chunk) {
                if self.tiles.contains_key(cell) && chunk == self.owner(cell) {
                    assert(self.touches(area, cell) && row_major_before(
                        cell,
                        cell.y as int,
                        cell.x + 1,
                    ));
                } else {
                    let c = choose|c: UVec2|
                        #![trigger self.touches(area, c)]
                        self.touches(area, c) && row_major_before(c, cell.y as int, cell.x as int)
                            && self.owner(c) == chunk;
                }
            }
            if after.dirty.contains(chunk) && !self.dirty.contains(chunk) {
                let c = choose|c: UVec2|
                    #![trigger self.touches(area, c)]
                    self.touches(area, c) && row_major_before(c, cell.y as int, cell.x + 1)
                        && self.owner(c) == chunk;
                if c != cell {
                    assert(self.touches(area, c) && row_major_before(
                        c,
                        cell.y as int,
                        cell.x as int,
                    ));
                }
            }
        }
        assert(changed.dirty =~= after.dirty);
    }

    /// The state after the last column of a row that holds a tile of `area` is the state
    /// before the next row.
    pub proof fn lemma_update_row_end(
        self,
        area: FillArea,
        updater: TileUpdater,
        row: int,
        column: int,
    )
        requires
            self.wf(),
            column > area.dest.x || column >= self.settings.size.x,
        ensures
            self.update_progress(area, updater, row, column) == self.update_progress(
                area,
                updater,
                row + 1,
                area.origin.x as int,
            ),
    {
        let a = self.update_progress(area, updater, row, column);
        let b = self.update_progress(area, updater, row + 1, area.origin.x as int);
        assert forall|cell: UVec2| self.touches(area, cell) implies row_major_before(
            cell,
            row,
            column,
        ) == row_major_before(cell, row + 1, area.origin.x as int) by {}
        assert(a.tiles =~= b.tiles);
        assert(a.dirty =~= b.dirty);
    }

    /// After the last row that holds a tile of `area`, the change is applied to every tile of
    /// the rectangle.
    pub proof fn lemma_update_done(self, area: FillArea, updater: TileUpdater, row: int)
        requires
            self.wf(),
            row > area.dest.y || row >= self.settings.size.y,
        ensures
            self.update_progress(area, updater, row, area.origin.x as int) == self.update_rect(
                area,
                updater,
            ),
    {
        let a = self.update_progress(area, updater, row, area.origin.x as int);
        let b = self.update_rect(area, updater);
        assert forall|cell: UVec2| self.touches(area, cell) implies row_major_before(
            cell,
            row,
            area.origin.x as int,
        ) && row_major_before(cell, u32::MAX + 1, 0) by {}
        assert(a.tiles =~= b.tiles);
        assert(a.dirty =~= b.dirty);
    }

    /// Where `area` holds no tile, a change to it changes nothing.
    pub proof fn lemma_update_nothing(self, area: FillArea, updater: TileUpdater)
        requires
            forall|cell: UVec2| !self.touches(area, cell),
        ensures
            self.update_rect(area, updater) == self,
    {
        let b = self.update_rect(area, updater);
        assert forall|cell: UVec2| self.tiles.contains_key(cell) implies !area.contains(
            cell,
        ) by {
            assert(!self.touches(area, cell));
        }
        assert(b.tiles =~= self.tiles);
        assert(b.dirty =~= self.dirty);
    }

    /// After a change to a rectangle, each tile of the rectangle is the tile that was there
    /// with the change applied, every other tile is as before, and no tile has come or gone.
    pub proof fn lemma_update_rect_then_get(
        self,
        area: FillArea,
        updater: TileUpdater,
        cell: UVec2,
    )
        ensures
            self.update_rect(area, updater).get(cell) == match self.get(cell) {
                Some(tile) => if area.contains(cell) {
                    Some(tile.updated(updater))
                } else {
                    Some(tile)
                },
                None => None,
            },
    {
    }
}

} // verus!
