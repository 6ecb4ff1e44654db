//! The tile grid: a bounded grid of cells, stored chunk by chunk.

use crate::math::{
    chunk_count, chunk_of, chunks_to_cover, flat_index, lemma_chunks_to_cover,
    lemma_flat_index_in_range, lemma_flat_index_injective, FillArea, IVec2, UVec2, WorldPoint,
};
use crate::tilemap::buffers::TileBuffer;
use crate::tilemap::grid::ChunkGrid;
use crate::tilemap::model::{
    grown, row_major_before, Entity, FilterMode, LayerOpacities, TileError, TilemapSettings,
    TilemapTexture, TilemapTextureDescriptor, TilemapView,
};
use crate::tilemap::tile::{Tile, TileBuilder, TileFlip, TileType, TileUpdater};
use crate::tilemap::world::{cell_center, center_of};
use vstd::prelude::*;

verus! {

/// The largest number of chunks that a tilemap may have while the safety check is on.
pub const MAX_CHUNK_COUNT: u64 = 100;

/// Why a tilemap could not be built.
#[derive(Clone, Copy, Debug, PartialEq, Eq, Structural)]
pub enum TilemapError {
    /// The chunk size is zero.
    ZeroChunkSize,
    /// The grid has more than `MAX_CHUNK_COUNT` chunks, and the safety check is on.
    TooManyChunks { chunk_count: UVec2 },
    /// The chunk table, or one chunk, has more slots than this machine can address.
    TooLarge,
}

/// Collects the settings of a tilemap.
#[derive(Clone, Copy, Debug, PartialEq, Eq, Structural)]
pub struct TilemapBuilder {
    pub settings: TilemapSettings,
    pub safety_check: bool,
}

impl TilemapBuilder {
    /// The settings that a new builder starts from.
    pub open spec fn spec_new(ty: TileType, size: UVec2, tile_render_size: UVec2)
        -> TilemapBuilder {
        TilemapBuilder {
            settings: TilemapSettings {
                tile_type: ty,
                size,
                tile_size: UVec2 { x: 0, y: 0 },
                tile_render_size,
                render_chunk_size: 32,
                texture: None,
                filter_mode: FilterMode::Nearest,
                translation: IVec2 { x: 0, y: 0 },
                z_order: 10,
                flip: 0,
                layer_opacities: LayerOpacities::spec_opaque(),
            },
            safety_check: true,
        }
    }

    /// A builder for a tilemap of `size` cells, each `tile_render_size` world units large.
    pub fn new(ty: TileType, size: UVec2, tile_render_size: UVec2) -> (builder: TilemapBuilder)
        ensures
            builder == Self::spec_new(ty, size, tile_render_size),
    {
        TilemapBuilder {
            settings: TilemapSettings {
                tile_type: ty,
                size,
                tile_size: UVec2 { x: 0, y: 0 },
                tile_render_size,
                render_chunk_size: 32,
                texture: None,
                filter_mode: FilterMode::Nearest,
                translation: IVec2 { x: 0, y: 0 },
                z_order: 10,
                flip: 0,
                layer_opacities: LayerOpacities::opaque(),
            },
            safety_check: true,
        }
    }

    /// Overrides the z order, which is 10 by default.
    pub fn with_z_order(&mut self, z_order: u32) -> (builder: &mut Self)
        ensures
            *builder == (TilemapBuilder {
                settings: TilemapSettings { z_order, ..old(self).settings },
                ..*old(self)
            }),
            *final(self) == *final(builder),
    {
        self.settings.z_order = z_order;
        self
    }

    /// Overrides the chunk size, which is 32 by default.
    pub fn with_render_chunk_size(&mut self, size: u32) -> (builder: &mut Self)
        ensures
            *builder == (TilemapBuilder {
                settings: TilemapSettings { render_chunk_size: size, ..old(self).settings },
                ..*old(self)
            }),
            *final(self) == *final(builder),
    {
        self.settings.render_chunk_size = size;
        self
    }

    /// Overrides the filter mode, which is nearest by default.
    pub fn with_filter_mode(&mut self, filter_mode: FilterMode) -> (builder: &mut Self)
        ensures
            *builder == (TilemapBuilder {
                settings: TilemapSettings { filter_mode, ..old(self).settings },
                ..*old(self)
            }),
            *final(self) == *final(builder),
    {
        self.settings.filter_mode = filter_mode;
        self
    }

    /// Overrides the translation, which is zero by default.
    pub fn with_translation(&mut self, translation: IVec2) -> (builder: &mut Self)
        ensures
            *builder == (TilemapBuilder {
                settings: TilemapSettings { translation, ..old(self).settings },
                ..*old(self)
            }),
            *final(self) == *final(builder),
    {
        self.settings.translation = translation;
        self
    }

    /// Assigns a texture atlas; the size of a tile in pixels is taken from its layout.
    pub fn with_texture(&mut self, texture: u64, desc: TilemapTextureDescriptor) -> (builder:
        &mut Self)
        ensures
            *builder == (TilemapBuilder {
                settings: TilemapSettings {
                    texture: Some(TilemapTexture { texture, desc }),
                    tile_size: desc.tile_size,
                    ..old(self).settings
                },
                ..*old(self)
            }),
            *final(self) == *final(builder),
    {
        self.settings.texture = Some(TilemapTexture { texture, desc });
        self.settings.tile_size = desc.tile_size;
        self
    }

    /// Adds `flip` to the flips applied to every tile.
    pub fn with_flip(&mut self, flip: TileFlip) -> (builder: &mut Self)
        ensures
            *builder == (TilemapBuilder {
                settings: TilemapSettings {
                    flip: old(self).settings.flip | flip.spec_bits(),
                    ..old(self).settings
                },
                ..*old(self)
            }),
            *final(self) == *final(builder),
    {
        self.settings.flip = self.settings.flip | flip.bits();
        self
    }

    /// Lets `build` accept a grid of any number of chunks.
    pub fn with_disabled_safety_check(&mut self) -> (builder: &mut Self)
        ensures
            *builder == (TilemapBuilder { safety_check: false, ..*old(self) }),
            *final(self) == *final(builder),
    {
        self.safety_check = false;
        self
    }

    /// Why `build` refuses these settings, if it does.
    pub open spec fn build_error(self) -> Option<TilemapError> {
        let chunk_size = self.settings.render_chunk_size as int;
        let columns = chunks_to_cover(self.settings.size.x as int, chunk_size);
        let rows = chunks_to_cover(self.settings.size.y as int, chunk_size);
        if chunk_size == 0 {
            Some(TilemapError::ZeroChunkSize)
        } else if self.safety_check && columns * rows > MAX_CHUNK_COUNT {
            Some(
                TilemapError::TooManyChunks {
                    chunk_count: UVec2 { x: columns as u32, y: rows as u32 },
                },
            )
        } else if columns * rows > usize::MAX || chunk_size * chunk_size > usize::MAX {
            Some(TilemapError::TooLarge)
        } else {
            None
        }
    }

    /// Builds an empty tilemap for the entity `id`.
    pub fn build(&self, id: Entity) -> (built: Result<Tilemap, TilemapError>)
        ensures
            match built {
                Ok(tilemap) => {
                    &&& self.build_error() is None
                    &&& tilemap.wf()
                    &&& tilemap@ == TilemapView::empty(id, self.settings)
                },
                Err(error) => self.build_error() == Some(error),
            },
    {
        let chunk_size: u32 = self.settings.render_chunk_size;
        if chunk_size == 0 {
            return Err(TilemapError::ZeroChunkSize);
        }
        let count = chunk_count(self.settings.size, chunk_size);
        proof {
            lemma_chunks_to_cover(self.settings.size.x as int, chunk_size as int);
            lemma_chunks_to_cover(self.settings.size.y as int, chunk_size as int);
            assert(count.x * count.y <= 0xffff_ffff * 0xffff_ffff) by (nonlinear_arith)
                requires
                    0 <= count.x <= 0xffff_ffff,
                    0 <= count.y <= 0xffff_ffff,
            ;
            assert(chunk_size * chunk_size <= 0xffff_ffff * 0xffff_ffff) by (nonlinear_arith)
                requires
                    0 <= chunk_size <= 0xffff_ffff,
            ;
        }
        let total: u64 = (count.x as u64) * (count.y as u64);
        if self.safety_check && total > MAX_CHUNK_COUNT {
            return Err(TilemapError::TooManyChunks { chunk_count: count });
        }
        let cells: u64 = (chunk_size as u64) * (chunk_size as u64);
        if total > usize::MAX as u64 || cells > usize::MAX as u64 {
            return Err(TilemapError::TooLarge);
        }
        let slots: usize = total as usize;
        let mut chunks: Vec<Option<Chunk>> = Vec::new();
        let mut dirty_flags: Vec<bool> = Vec::new();
        let mut release_flags: Vec<bool> = Vec::new();
        let mut i: usize = 0;
        while i < slots
            invariant
                i <= slots,
                chunks.len() == i,
                dirty_flags.len() == i,
                release_flags.len() == i,
                forall|k: int| 0 <= k < i ==> chunks@[k] is None,
                forall|k: int| 0 <= k < i ==> !dirty_flags@[k],
                forall|k: int| 0 <= k < i ==> !release_flags@[k],
            decreases slots - i,
        {
            chunks.push(None);
            dirty_flags.push(false);
            release_flags.push(false);
            i += 1;
        }
        let tilemap = Tilemap {
            id,
            settings: self.settings,
            chunk_count: count,
            chunks,
            dirty_flags,
            dirty_list: Vec::new(),
            release_flags,
            release_list: Vec::new(),
            aabb: None,
        };
        proof {
            assert forall|cell: UVec2| tilemap.stored(cell) is None by {
                if tilemap.in_bounds(cell) {
                    tilemap.lemma_locate(cell);
                }
            }
            assert forall|chunk: UVec2| chunk.x < count.x && chunk.y < count.y implies 0
                <= #[trigger] flat_index(chunk.x as int, chunk.y as int, count.x as int)
                < slots by {
                lemma_flat_index_in_range(
                    chunk.x as int,
                    chunk.y as int,
                    count.x as int,
                    count.y as int,
                );
            }
            assert(tilemap@.tiles =~= Map::<UVec2, crate::tilemap::tile::TileView>::empty());
            assert(tilemap@.dirty =~= Set::<UVec2>::empty());
            assert(tilemap@.released =~= Set::<UVec2>::empty());
        }
        Ok(tilemap)
    }
}

/// The mark of a tilemap whose texture may still lack the usage that lets it be copied from.
#[derive(Clone, Copy, Debug, PartialEq, Eq, Structural)]
pub struct WaitForTextureUsageChange;

/// What is to be done about the texture of a tilemap that carries the mark.
#[derive(Clone, Copy, Debug, PartialEq, Eq, Structural)]
pub enum TextureUsage {
    /// The image is not loaded yet: the tilemap keeps its mark.
    Waiting(WaitForTextureUsageChange),
    /// The tilemap loses its mark; the image is given the usage first where it lacks it.
    Ready { add_copy_source: bool },
}

/// The tiles of one chunk, row by row, with the number of cells that are occupied.
pub struct Chunk {
    pub(crate) tiles: Vec<Option<Tile>>,
    pub(crate) live: usize,
}

/// The number of occupied cells among `tiles`.
pub open spec fn live_count(tiles: Seq<Option<Tile>>) -> nat
    decreases tiles.len(),
{
    if tiles.len() == 0 {
        0
    } else {
        live_count(tiles.drop_last()) + if tiles.last() is Some {
            1nat
        } else {
            0nat
        }
    }
}

pub proof fn lemma_live_count_bound(tiles: Seq<Option<Tile>>)
    ensures
        live_count(tiles) <= tiles.len(),
    decreases tiles.len(),
{
    if tiles.len() > 0 {
        lemma_live_count_bound(tiles.drop_last());
    }
}

/// Writing one cell changes the count by what the cell gains or loses.
pub proof fn lemma_live_count_update(tiles: Seq<Option<Tile>>, t: int, value: Option<Tile>)
    requires
        0 <= t < tiles.len(),
    ensures
        live_count(tiles.update(t, value)) + (if tiles[t] is Some {
            1nat
        } else {
            0nat
        }) == live_count(tiles) + (if value is Some {
            1nat
        } else {
            0nat
        }),
    decreases tiles.len(),
{
    if t == tiles.len() - 1 {
        assert(tiles.update(t, value).drop_last() =~= tiles.drop_last());
    } else {
        lemma_live_count_update(tiles.drop_last(), t, value);
        assert(tiles.update(t, value).drop_last() =~= tiles.drop_last().update(t, value));
    }
}

/// The count is zero exactly where no cell is occupied.
pub proof fn lemma_live_count_zero(tiles: Seq<Option<Tile>>)
    ensures
        live_count(tiles) == 0 <==> forall|t: int| 0 <= t < tiles.len() ==> tiles[t] is None,
    decreases tiles.len(),
{
    if tiles.len() > 0 {
        lemma_live_count_zero(tiles.drop_last());
        if live_count(tiles) == 0 {
            assert forall|t: int| 0 <= t < tiles.len() implies tiles[t] is None by {
                if t < tiles.len() - 1 {
                    assert(tiles.drop_last()[t] is None);
                }
            }
        }
        if forall|t: int| 0 <= t < tiles.len() ==> tiles[t] is None {
            assert forall|t: int| 0 <= t < tiles.drop_last().len() implies tiles.drop_last()[t]
                is None by {}
        }
    }
}

impl Chunk {
    /// A chunk of `cells` empty cells.
    pub(crate) fn empty(cells: usize) -> (chunk: Chunk)
        ensures
            chunk.tiles.len() == cells,
            chunk.live == 0,
            forall|t: int| 0 <= t < cells ==> chunk.tiles@[t] is None,
    {
        let mut tiles: Vec<Option<Tile>> = Vec::new();
        let mut i: usize = 0;
        while i < cells
            invariant
                i <= cells,
                tiles.len() == i,
                forall|t: int| 0 <= t < i ==> tiles@[t] is None,
            decreases cells - i,
        {
            tiles.push(None);
            i += 1;
        }
        Chunk { tiles, live: 0 }
    }
}

/// A grid of tiles of a declared extent. Chunks are allocated when their first tile is
/// written and dropped when their last tile is removed.
pub struct Tilemap {
    pub(crate) id: Entity,
    pub(crate) settings: TilemapSettings,
    pub(crate) chunk_count: UVec2,
    pub(crate) chunks: Vec<Option<Chunk>>,
    pub(crate) dirty_flags: Vec<bool>,
    pub(crate) dirty_list: Vec<UVec2>,
    pub(crate) release_flags: Vec<bool>,
    pub(crate) release_list: Vec<UVec2>,
    pub(crate) aabb: Option<FillArea>,
}

/// A list of chunks that mirrors a table of flags: it names each flagged chunk once.
pub open spec fn list_mirrors_flags(list: Seq<UVec2>, flags: Seq<bool>, count: UVec2) -> bool {
    &&& list.no_duplicates()
    &&& forall|i: int|
        0 <= i < list.len() ==> {
            &&& (#[trigger] list[i]).x < count.x
            &&& list[i].y < count.y
            &&& flags[flat_index(list[i].x as int, list[i].y as int, count.x as int)]
        }
    &&& forall|chunk: UVec2|
        chunk.x < count.x && chunk.y < count.y && #[trigger] flags[flat_index(
            chunk.x as int,
            chunk.y as int,
            count.x as int,
        )] ==> list.contains(chunk)
}

/// The box `aabb` grown as far as it takes to hold `cell`.
pub(crate) fn grow(aabb: Option<FillArea>, cell: UVec2) -> (area: FillArea)
    ensures
        Some(area) == grown(aabb, cell),
{
    match aabb {
        None => FillArea { origin: cell, dest: cell },
        Some(a) => FillArea {
            origin: UVec2 {
                x: if cell.x < a.origin.x {
                    cell.x
                } else {
                    a.origin.x
                },
                y: if cell.y < a.origin.y {
                    cell.y
                } else {
                    a.origin.y
                },
            },
            dest: UVec2 {
                x: if cell.x > a.dest.x {
                    cell.x
                } else {
                    a.dest.x
                },
                y: if cell.y > a.dest.y {
                    cell.y
                } else {
                    a.dest.y
                },
            },
        },
    }
}

/// Flags `chunk` and, where it was not flagged yet, adds it to the list.
pub(crate) fn mark_chunk(
    flags: &mut Vec<bool>,
    list: &mut Vec<UVec2>,
    chunk: UVec2,
    slot: usize,
    count: UVec2,
)
    requires
        list_mirrors_flags(old(list)@, old(flags)@, count),
        chunk.x < count.x,
        chunk.y < count.y,
        slot == flat_index(chunk.x as int, chunk.y as int, count.x as int),
        slot < old(flags).len(),
        old(flags).len() == count.x * count.y,
    ensures
        list_mirrors_flags(final(list)@, final(flags)@, count),
        final(flags)@ == old(flags)@.update(slot as int, true),
        final(list)@ == if old(flags)@[slot as int] {
            old(list)@
        } else {
            old(list)@.push(chunk)
        },
{
    if !flags[slot] {
        flags[slot] = true;
        list.push(chunk);
        proof {
            let before = old(list)@;
            let after = list@;
            assert(!before.contains(chunk));
            assert forall|i: int, j: int|
                0 <= i < after.len() && 0 <= j < after.len() && i != j implies after[i]
                != after[j] by {
                if i < before.len() && j < before.len() {
                } else if i < before.len() {
                    assert(before.contains(before[i]));
                } else {
                    assert(before.contains(before[j]));
                }
            }
            assert forall|other: UVec2|
                other.x < count.x && other.y < count.y && #[trigger] flags@[flat_index(
                    other.x as int,
                    other.y as int,
                    count.x as int,
                )] implies after.contains(other) by {
                if other == chunk {
                    assert(after[before.len() as int] == chunk);
                } else {
                    lemma_flat_index_in_range(
                        other.x as int,
                        other.y as int,
                        count.x as int,
                        count.y as int,
                    );
                    if flat_index(other.x as int, other.y as int, count.x as int) == slot {
                        lemma_flat_index_injective(
                            other.x as int,
                            other.y as int,
                            chunk.x as int,
                            chunk.y as int,
                            count.x as int,
                        );
                    }
                    assert(old(flags)@[flat_index(
                        other.x as int,
                        other.y as int,
                        count.x as int,
                    )]);
                    assert(before.contains(other));
                    let i = choose|i: int| 0 <= i < before.len() && before[i] == other;
                    assert(after[i] == other);
                }
            }
            assert forall|i: int| 0 <= i < after.len() implies {
                &&& (#[trigger] after[i]).x < count.x
                &&& after[i].y < count.y
                &&& flags@[flat_index(after[i].x as int, after[i].y as int, count.x as int)]
            } by {
                if i < before.len() {
                    assert(after[i] == before[i]);
                    lemma_flat_index_in_range(
                        before[i].x as int,
                        before[i].y as int,
                        count.x as int,
                        count.y as int,
                    );
                }
            }
        }
    } else {
        assert(flags@ =~= old(flags)@.update(slot as int, true));
    }
}

/// Takes the list and clears the flag of each chunk that it names.
pub(crate) fn take_marks(flags: &mut Vec<bool>, list: &mut Vec<UVec2>, count: UVec2) -> (taken:
    Vec<UVec2>)
    requires
        list_mirrors_flags(old(list)@, old(flags)@, count),
        old(flags).len() == count.x * count.y,
    ensures
        taken@ == old(list)@,
        final(list)@.len() == 0,
        final(flags).len() == old(flags).len(),
        list_mirrors_flags(final(list)@, final(flags)@, count),
        forall|chunk: UVec2|
            chunk.x < count.x && chunk.y < count.y ==> !(#[trigger] final(flags)@[flat_index(
                chunk.x as int,
                chunk.y as int,
                count.x as int,
            )]),
{
    let mut i: usize = 0;
    while i < list.len()
        invariant
            i <= list.len(),
            list@ == old(list)@,
            flags.len() == count.x * count.y,
            list_mirrors_flags(old(list)@, old(flags)@, count),
            forall|chunk: UVec2|
                chunk.x < count.x && chunk.y < count.y && #[trigger] flags@[flat_index(
                    chunk.x as int,
                    chunk.y as int,
                    count.x as int,
                )] ==> exists|j: int| i <= j < list.len() && list@[j] == chunk,
        decreases list.len() - i,
    {
        let chunk = list[i];
        proof {
            lemma_flat_index_in_range(
                chunk.x as int,
                chunk.y as int,
                count.x as int,
                count.y as int,
            );
            assert(0 <= chunk.y * count.x <= flat_index(
                chunk.x as int,
                chunk.y as int,
                count.x as int,
            )) by (nonlinear_arith)
                requires
                    0 <= chunk.y,
                    0 <= count.x,
                    0 <= chunk.x,
                    flat_index(chunk.x as int, chunk.y as int, count.x as int) == chunk.y
                        * count.x + chunk.x,
            ;
        }
        let slot: usize = (chunk.y as usize) * (count.x as usize) + (chunk.x as usize);
        flags[slot] = false;
        proof {
            assert forall|other: UVec2|
                other.x < count.x && other.y < count.y && #[trigger] flags@[flat_index(
                    other.x as int,
                    other.y as int,
                    count.x as int,
                )] implies exists|j: int| i + 1 <= j < list.len() && list@[j] == other by {
                lemma_flat_index_in_range(
                    other.x as int,
                    other.y as int,
                    count.x as int,
                    count.y as int,
                );
                if flat_index(other.x as int, other.y as int, count.x as int) == slot {
                    lemma_flat_index_injective(
                        other.x as int,
                        other.y as int,
                        chunk.x as int,
                        chunk.y as int,
                        count.x as int,
                    );
                }
            }
        }
        i += 1;
    }
    let mut taken: Vec<UVec2> = Vec::new();
    core::mem::swap(list, &mut taken);
    taken
}

impl Tilemap {
    /// The layout of the chunk table.
    pub(crate) open spec fn grid(&self) -> ChunkGrid {
        ChunkGrid {
            size: self.settings.size,
            chunk_size: self.settings.render_chunk_size,
            count: self.chunk_count,
        }
    }

    pub(crate) open spec fn chunk_slot(&self, chunk: UVec2) -> int {
        self.grid().chunk_slot(chunk)
    }

    /// The slot of the chunk that owns `cell`, and the cell's slot in that chunk.
    pub(crate) open spec fn locate(&self, cell: UVec2) -> (int, int) {
        self.grid().locate(cell)
    }

    pub(crate) open spec fn in_bounds(&self, cell: UVec2) -> bool {
        self.grid().in_bounds(cell)
    }

    /// The shape of the chunk table.
    pub(crate) open spec fn grid_wf(&self) -> bool {
        &&& self.grid().wf()
        &&& self.chunks.len() == self.chunk_count.x * self.chunk_count.y
        &&& self.dirty_flags.len() == self.chunks.len()
        &&& self.release_flags.len() == self.chunks.len()
    }

    /// What holds of the chunk in slot `k`, where there is one.
    pub(crate) open spec fn chunk_wf(&self, k: int) -> bool {
        let chunk = self.chunks@[k].unwrap();
        &&& chunk.tiles.len() == self.settings.render_chunk_size
            * self.settings.render_chunk_size
        &&& chunk.live == live_count(chunk.tiles@)
        &&& chunk.live > 0
        &&& forall|t: int|
            0 <= t < chunk.tiles.len() && (#[trigger] chunk.tiles@[t]) is Some ==> {
                let cell = chunk.tiles@[t].unwrap().index;
                self.in_bounds(cell) && self.locate(cell) == (k, t)
            }
    }

    /// The tile stored for `cell`.
    pub(crate) open spec fn stored(&self, cell: UVec2) -> Option<Tile> {
        if self.in_bounds(cell) {
            match self.chunks@[self.locate(cell).0] {
                Some(chunk) => chunk.tiles@[self.locate(cell).1],
                None => None,
            }
        } else {
            None
        }
    }

    /// The invariant of the grid.
    pub closed spec fn wf(&self) -> bool {
        &&& self.grid_wf()
        &&& forall|k: int|
            0 <= k < self.chunks.len() && (#[trigger] self.chunks@[k]) is Some ==> self.chunk_wf(k)
        &&& list_mirrors_flags(self.dirty_list@, self.dirty_flags@, self.chunk_count)
        &&& list_mirrors_flags(self.release_list@, self.release_flags@, self.chunk_count)
        &&& forall|cell: UVec2| #[trigger]
            self.stored(cell) is Some ==> self.aabb is Some && self.aabb.unwrap().contains(cell)
    }

    pub(crate) proof fn lemma_locate(&self, cell: UVec2)
        requires
            self.grid_wf(),
            self.in_bounds(cell),
        ensures
            0 <= self.locate(cell).0 < self.chunks.len(),
            0 <= self.locate(cell).1 < self.settings.render_chunk_size
                * self.settings.render_chunk_size,
            chunk_of(cell, self.settings.render_chunk_size).x < self.chunk_count.x,
            chunk_of(cell, self.settings.render_chunk_size).y < self.chunk_count.y,
    {
        self.grid().lemma_locate(cell);
    }

    /// Two cells of the grid that are stored in the same place are the same cell.
    pub(crate) proof fn lemma_locate_injective(&self, a: UVec2, b: UVec2)
        requires
            self.grid_wf(),
            self.in_bounds(a),
            self.in_bounds(b),
            self.locate(a) == self.locate(b),
        ensures
            a == b,
    {
        self.grid().lemma_locate_injective(a, b);
    }
}

impl View for Tilemap {
    type V = TilemapView;

    closed spec fn view(&self) -> TilemapView {
        TilemapView {
            id: self.id,
            settings: self.settings,
            tiles: Map::new(
                |cell: UVec2| self.stored(cell) is Some,
                |cell: UVec2| self.stored(cell).unwrap()@,
            ),
            dirty: Set::new(
                |chunk: UVec2|
                    chunk.x < self.chunk_count.x && chunk.y < self.chunk_count.y
                        && self.dirty_flags@[self.chunk_slot(chunk)],
            ),
            released: Set::new(
                |chunk: UVec2|
                    chunk.x < self.chunk_count.x && chunk.y < self.chunk_count.y
                        && self.release_flags@[self.chunk_slot(chunk)],
            ),
            aabb: self.aabb,
        }
    }
}

impl Tilemap {
    /// A well-formed grid has a well-formed model.
    pub proof fn lemma_view_wf(&self)
        requires
            self.wf(),
        ensures
            self@.wf(),
    {
        assert forall|cell: UVec2| #[trigger] self@.tiles.contains_key(cell) implies {
            &&& self@.in_bounds(cell)
            &&& self@.tiles[cell].index == cell
            &&& self@.aabb is Some
            &&& self@.aabb.unwrap().contains(cell)
        } by {
            self.lemma_locate(cell);
            let (k, t) = self.locate(cell);
            let tile = self.chunks@[k].unwrap().tiles@[t];
            self.lemma_locate_injective(cell, tile.unwrap().index);
        }
    }

    /// Where `cell` is stored.
    pub(crate) fn locate_exec(&self, cell: UVec2) -> (place: (usize, usize))
        requires
            self.grid_wf(),
            self.in_bounds(cell),
        ensures
            (place.0 as int, place.1 as int) == self.locate(cell),
            place.0 < self.chunks.len(),
            place.1 < self.settings.render_chunk_size * self.settings.render_chunk_size,
    {
        self.layout().locate_exec(cell)
    }

    pub(crate) fn layout(&self) -> (grid: ChunkGrid)
        ensures
            grid == self.grid(),
    {
        ChunkGrid {
            size: self.settings.size,
            chunk_size: self.settings.render_chunk_size,
            count: self.chunk_count,
        }
    }

    pub fn is_out_of_tilemap_uvec(&self, index: UVec2) -> (out: bool)
        ensures
            out == !self@.in_bounds(index),
    {
        index.x >= self.settings.size.x || index.y >= self.settings.size.y
    }

    pub fn is_out_of_tilemap_ivec(&self, index: IVec2) -> (out: bool)
        ensures
            out == !(0 <= index.x < self@.settings.size.x && 0 <= index.y
                < self@.settings.size.y),
    {
        index.x < 0 || index.y < 0 || index.x as u32 >= self.settings.size.x || index.y as u32
            >= self.settings.size.y
    }

    /// The tile at `index`, if the cell lies inside the extent and is occupied.
    pub fn get(&self, index: UVec2) -> (tile: Option<&Tile>)
        requires
            self.wf(),
        ensures
            match tile {
                Some(t) => self@.get(index) == Some(t@),
                None => self@.get(index) is None,
            },
    {
        if self.is_out_of_tilemap_uvec(index) {
            return None;
        }
        let (k, t) = self.locate_exec(index);
        match &self.chunks[k] {
            Some(chunk) => {
                chunk.tiles[t].as_ref()
            },
            None => None,
        }
    }

    /// The centre of a tile in world space, in half world units: the point holds twice the
    /// world coordinates.
    pub fn index_to_world(&self, index: UVec2) -> (center: WorldPoint)
        ensures
            center == cell_center(self@.settings, index),
    {
        center_of(&self.settings, index)
    }

    /// What is to be done about the texture of a waiting tilemap. `image` says what the host
    /// knows of the image: nothing as long as it is not loaded, else whether it can be copied
    /// from already.
    pub open spec fn usage_step(self, wait: WaitForTextureUsageChange, image: Option<bool>)
        -> TextureUsage {
        match self@.settings.texture {
            None => TextureUsage::Ready { add_copy_source: false },
            Some(_) => match image {
                None => TextureUsage::Waiting(wait),
                Some(copy_source) => TextureUsage::Ready { add_copy_source: !copy_source },
            },
        }
    }

    /// Decides whether the tilemap goes on waiting for its texture. A tilemap without a
    /// texture waits for nothing; one whose image is not loaded yet keeps its mark; one whose
    /// image is loaded stops waiting, the image being given the usage that lets it be copied
    /// from where it lacks it.
    pub fn set_usage(&self, wait: WaitForTextureUsageChange, image: Option<bool>) -> (step:
        TextureUsage)
        ensures
            step == self.usage_step(wait, image),
    {
        match self.settings.texture {
            None => TextureUsage::Ready { add_copy_source: false },
            Some(_) => match image {
                None => TextureUsage::Waiting(wait),
                Some(copy_source) => TextureUsage::Ready { add_copy_source: !copy_source },
            },
        }
    }

    /// The entity that the tilemap belongs to.
    pub fn get_id(&self) -> (id: Entity)
        ensures
            id == self@.id,
    {
        self.id
    }

    /// Writes `tile` to its cell, which lies inside the extent, and hands back the tile that
    /// the cell held.
    pub(crate) fn write(&mut self, tile: Tile) -> (previous: Option<Tile>)
        requires
            old(self).wf(),
            old(self).in_bounds(tile.index),
        ensures
            final(self).wf(),
            final(self)@ == old(self)@.set(tile@),
            match previous {
                Some(p) => old(self)@.get(tile.index) == Some(p@),
                None => old(self)@.get(tile.index) is None,
            },
    {
        let cell = tile.index;
        let ghost written = tile;
        let chunk_size: u32 = self.settings.render_chunk_size;
        let (k, t) = self.locate_exec(cell);
        let owner = UVec2 { x: cell.x / chunk_size, y: cell.y / chunk_size };
        proof {
            self.lemma_locate(cell);
        }
        let taken: Option<Chunk> = self.chunks[k].take();
        let mut chunk: Chunk = match taken {
            Some(chunk) => chunk,
            None => Chunk::empty((chunk_size as usize) * (chunk_size as usize)),
        };
        let ghost tiles_before = chunk.tiles@;
        proof {
            lemma_live_count_zero(tiles_before);
        }
        let previous: Option<Tile> = chunk.tiles[t].take();
        chunk.tiles[t] = Some(tile);
        proof {
            assert(chunk.tiles@ =~= tiles_before.update(t as int, Some(written)));
            lemma_live_count_update(tiles_before, t as int, Some(written));
            lemma_live_count_bound(chunk.tiles@);
        }
        if previous.is_none() {
            chunk.live = chunk.live + 1;
        }
        self.chunks[k] = Some(chunk);
        mark_chunk(&mut self.dirty_flags, &mut self.dirty_list, owner, k, self.chunk_count);
        self.aabb = Some(grow(self.aabb, cell));
        proof {
            let before = *old(self);
            let after = *self;
            assert forall|c: UVec2| #[trigger] after.stored(c) == (if c == cell {
                Some(written)
            } else {
                before.stored(c)
            }) by {
                if after.in_bounds(c) {
                    before.lemma_locate(c);
                    if c != cell && before.locate(c) == before.locate(cell) {
                        before.lemma_locate_injective(c, cell);
                    }
                }
            }
            assert forall|j: int|
                0 <= j < after.chunks.len() && (#[trigger] after.chunks@[j]) is Some
                    implies after.chunk_wf(j) by {}
            assert(after@.tiles =~= before@.set(written@).tiles);
            assert forall|q: UVec2| after@.dirty.contains(q) == before@.set(
                written@,
            ).dirty.contains(q) by {
                if q.x < after.chunk_count.x && q.y < after.chunk_count.y {
                    lemma_flat_index_in_range(
                        q.x as int,
                        q.y as int,
                        after.chunk_count.x as int,
                        after.chunk_count.y as int,
                    );
                    if after.chunk_slot(q) == k {
                        lemma_flat_index_injective(
                            q.x as int,
                            q.y as int,
                            owner.x as int,
                            owner.y as int,
                            after.chunk_count.x as int,
                        );
                    }
                }
            }
            assert(after@.dirty =~= before@.set(written@).dirty);
            assert(after@.released =~= before@.released);
        }
        previous
    }

    /// Sets a tile, replacing the tile that its cell holds, and hands the replaced tile back.
    /// Outside the extent nothing is written.
    pub fn set(&mut self, tile_builder: TileBuilder) -> (previous: Option<Tile>)
        requires
            old(self).wf(),
        ensures
            final(self).wf(),
            final(self)@ == old(self)@.set(tile_builder@),
            match previous {
                Some(p) => old(self)@.in_bounds(tile_builder.index) && old(self)@.get(
                    tile_builder.index,
                ) == Some(p@),
                None => !old(self)@.in_bounds(tile_builder.index) || old(self)@.get(
                    tile_builder.index,
                ) is None,
            },
    {
        if self.is_out_of_tilemap_uvec(tile_builder.index) {
            return None;
        }
        self.write(tile_builder.build())
    }

    /// Removes the tile at `index` and hands it back. Where the cell is empty or lies outside
    /// the extent, nothing changes.
    pub fn remove(&mut self, index: UVec2) -> (removed: Option<Tile>)
        requires
            old(self).wf(),
        ensures
            final(self).wf(),
            final(self)@ == old(self)@.remove(index),
            match removed {
                Some(tile) => old(self)@.get(index) == Some(tile@),
                None => old(self)@.get(index) is None,
            },
    {
        if self.is_out_of_tilemap_uvec(index) {
            return None;
        }
        let chunk_size: u32 = self.settings.render_chunk_size;
        let (k, t) = self.locate_exec(index);
        let owner = UVec2 { x: index.x / chunk_size, y: index.y / chunk_size };
        proof {
            self.lemma_locate(index);
            self.lemma_view_wf();
        }
        let occupied: bool = match &self.chunks[k] {
            Some(chunk) => chunk.tiles[t].is_some(),
            None => false,
        };
        if !occupied {
            return None;
        }
        let mut chunk: Chunk = self.chunks[k].take().unwrap();
        let ghost tiles_before = chunk.tiles@;
        let removed: Option<Tile> = chunk.tiles[t].take();
        proof {
            lemma_live_count_update(tiles_before, t as int, None);
            lemma_live_count_zero(chunk.tiles@);
        }
        chunk.live = chunk.live - 1;
        let emptied: bool = chunk.live == 0;
        let ghost tiles_after = chunk.tiles@;
        if emptied {
            mark_chunk(
                &mut self.release_flags,
                &mut self.release_list,
                owner,
                k,
                self.chunk_count,
            );
        } else {
            self.chunks[k] = Some(chunk);
        }
        mark_chunk(&mut self.dirty_flags, &mut self.dirty_list, owner, k, self.chunk_count);
        proof {
            let before = *old(self);
            let after = *self;
            assert forall|c: UVec2| #[trigger] after.stored(c) == (if c == index {
                None
            } else {
                before.stored(c)
            }) by {
                if after.in_bounds(c) {
                    before.lemma_locate(c);
                    if c != index && before.locate(c) == before.locate(index) {
                        before.lemma_locate_injective(c, index);
                    }
                    if c != index && before.locate(c).0 == k && emptied {
                        assert(tiles_after[before.locate(c).1] is None);
                    }
                }
            }
            assert forall|j: int|
                0 <= j < after.chunks.len() && (#[trigger] after.chunks@[j]) is Some
                    implies after.chunk_wf(j) by {}
            assert(after@.tiles =~= before@.remove(index).tiles);
            assert(emptied == before@.alone_in_chunk(index)) by {
                if emptied {
                    assert forall|other: UVec2| #[trigger]
                        before@.tiles.contains_key(other) && before@.owner(other)
                            == before@.owner(index) implies other == index by {
                        before.lemma_locate(other);
                    }
                } else {
                    let u = choose|u: int| 0 <= u < tiles_after.len() && tiles_after[u] is Some;
                    let other = tiles_before[u].unwrap().index;
                    before.lemma_locate(other);
                    lemma_flat_index_injective(
                        chunk_of(other, chunk_size).x as int,
                        chunk_of(other, chunk_size).y as int,
                        owner.x as int,
                        owner.y as int,
                        before.chunk_count.x as int,
                    );
                    assert(before@.tiles.contains_key(other));
                }
            }
            assert forall|q: UVec2|
                q.x < after.chunk_count.x && q.y < after.chunk_count.y && after.chunk_slot(q)
                    == k implies q == owner by {
                lemma_flat_index_injective(
                    q.x as int,
                    q.y as int,
                    owner.x as int,
                    owner.y as int,
                    after.chunk_count.x as int,
                );
            }
            assert forall|q: UVec2|
                q.x < after.chunk_count.x && q.y < after.chunk_count.y implies 0
                <= #[trigger] after.chunk_slot(q) < after.chunks.len() by {
                lemma_flat_index_in_range(
                    q.x as int,
                    q.y as int,
                    after.chunk_count.x as int,
                    after.chunk_count.y as int,
                );
            }
            assert(after@.dirty =~= before@.remove(index).dirty);
            assert(after@.released =~= before@.remove(index).released);
        }
        removed
    }

    /// Fills a rectangle with tiles built from `tile_builder`, whose own cell is not used.
    /// Cells of the rectangle that lie outside the extent are passed over.
    pub fn fill_rect(&mut self, area: FillArea, tile_builder: &TileBuilder)
        requires
            old(self).wf(),
        ensures
            final(self).wf(),
            final(self)@ == old(self)@.fill_rect(area, tile_builder@),
    {
        let size = self.settings.size;
        let ghost start = self@;
        let ghost tile = tile_builder@;
        if area.origin.x > area.dest.x || area.origin.y > area.dest.y || area.origin.x >= size.x
            || area.origin.y >= size.y {
            proof {
                start.lemma_fill_nothing(area, tile);
            }
            return ;
        }
        let dest = UVec2 {
            x: if area.dest.x < size.x {
                area.dest.x
            } else {
                size.x - 1
            },
            y: if area.dest.y < size.y {
                area.dest.y
            } else {
                size.y - 1
            },
        };
        self.aabb = Some(grow(Some(grow(self.aabb, area.origin)), dest));
        proof {
            start.lemma_fill_start(area, tile);
            assert forall|k: int|
                0 <= k < self.chunks.len() && (#[trigger] self.chunks@[k]) is Some
                    implies self.chunk_wf(k) by {}
            assert forall|cell: UVec2| #[trigger] self.stored(cell) is Some implies self.aabb
                is Some && self.aabb.unwrap().contains(cell) by {
                assert(old(self).stored(cell) is Some);
            }
            assert(self@.tiles =~= start.tiles);
            assert(self@.dirty =~= start.dirty);
            assert(self@.released =~= start.released);
        }
        let mut y: u32 = area.origin.y;
        while y <= dest.y
            invariant
                self.wf(),
                area.origin.y <= y <= dest.y + 1,
                area.origin.x <= dest.x,
                dest.x < self.settings.size.x,
                dest.y < self.settings.size.y,
                dest == start.clipped_dest(area),
                tile == tile_builder@,
                start.settings == self.settings,
                self@ == start.fill_progress(area, tile, y as int, area.origin.x as int),
            decreases dest.y + 1 - y,
        {
            let mut x: u32 = area.origin.x;
            while x <= dest.x
                invariant
                    self.wf(),
                    area.origin.y <= y <= dest.y,
                    area.origin.x <= x <= dest.x + 1,
                    dest.x < self.settings.size.x,
                    dest.y < self.settings.size.y,
                    dest == start.clipped_dest(area),
                    tile == tile_builder@,
                    start.settings == self.settings,
                    self@ == start.fill_progress(area, tile, y as int, x as int),
                decreases dest.x + 1 - x,
            {
                let cell = UVec2 { x, y };
                proof {
                    start.lemma_fill_step(area, tile, cell);
                }
                self.write(tile_builder.build_at(cell));
                x += 1;
            }
            proof {
                start.lemma_fill_row_end(area, tile, y as int, x as int);
            }
            y += 1;
        }
        proof {
            start.lemma_fill_done(area, tile, y as int);
        }
    }

    /// Applies `updater` to the tile at `cell`, if there is one.
    pub(crate) fn update_at(&mut self, cell: UVec2, updater: &TileUpdater)
        requires
            old(self).wf(),
            old(self).in_bounds(cell),
            updater.fits(),
            old(self)@.tiles.contains_key(cell) ==> !old(self)@.tiles[cell].conflicts(*updater),
        ensures
            final(self).wf(),
            final(self)@ == old(self)@.update_one(cell, *updater),
    {
        let chunk_size: u32 = self.settings.render_chunk_size;
        let (k, t) = self.locate_exec(cell);
        let owner = UVec2 { x: cell.x / chunk_size, y: cell.y / chunk_size };
        proof {
            self.lemma_locate(cell);
            self.lemma_view_wf();
        }
        let occupied: bool = match &self.chunks[k] {
            Some(chunk) => chunk.tiles[t].is_some(),
            None => false,
        };
        if !occupied {
            return ;
        }
        let mut chunk: Chunk = self.chunks[k].take().unwrap();
        let ghost tiles_before = chunk.tiles@;
        let mut tile: Tile = chunk.tiles[t].take().unwrap();
        tile.update(updater);
        let ghost changed = tile;
        chunk.tiles[t] = Some(tile);
        proof {
            assert(chunk.tiles@ =~= tiles_before.update(t as int, Some(changed)));
            lemma_live_count_update(tiles_before, t as int, Some(changed));
        }
        self.chunks[k] = Some(chunk);
        mark_chunk(&mut self.dirty_flags, &mut self.dirty_list, owner, k, self.chunk_count);
        proof {
            let before = *old(self);
            let after = *self;
            assert forall|c: UVec2| #[trigger] after.stored(c) == (if c == cell {
                Some(changed)
            } else {
                before.stored(c)
            }) by {
                if after.in_bounds(c) {
                    before.lemma_locate(c);
                    if c != cell && before.locate(c) == before.locate(cell) {
                        before.lemma_locate_injective(c, cell);
                    }
                }
            }
            assert forall|j: int|
                0 <= j < after.chunks.len() && (#[trigger] after.chunks@[j]) is Some
                    implies after.chunk_wf(j) by {}
            assert(after@.tiles =~= before@.update_one(cell, *updater).tiles);
            assert forall|q: UVec2| after@.dirty.contains(q) == before@.update_one(
                cell,
                *updater,
            ).dirty.contains(q) by {
                if q.x < after.chunk_count.x && q.y < after.chunk_count.y {
                    lemma_flat_index_in_range(
                        q.x as int,
                        q.y as int,
                        after.chunk_count.x as int,
                        after.chunk_count.y as int,
                    );
                    if after.chunk_slot(q) == k {
                        lemma_flat_index_injective(
                            q.x as int,
                            q.y as int,
                            owner.x as int,
                            owner.y as int,
                            after.chunk_count.x as int,
                        );
                    }
                }
            }
            assert(after@.dirty =~= before@.update_one(cell, *updater).dirty);
            assert(after@.released =~= before@.released);
        }
    }

    /// Applies `updater` to every tile of a rectangle. Cells that hold no tile stay empty.
    /// Where the change cannot be applied to a tile of the rectangle, nothing is changed and
    /// the first such tile is named.
    pub fn update_rect(&mut self, area: FillArea, updater: &TileUpdater) -> (done: Result<
        (),
        TileError,
    >)
        requires
            old(self).wf(),
        ensures
            final(self).wf(),
            match done {
                Ok(()) => {
                    &&& updater.fits()
                    &&& forall|cell: UVec2| !old(self)@.update_conflict(area, *updater, cell)
                    &&& final(self)@ == old(self)@.update_rect(area, *updater)
                },
                Err(TileError::LayerOutOfReach) => {
                    &&& !updater.fits()
                    &&& final(self)@ == old(self)@
                },
                Err(TileError::LayerConflict { index }) => {
                    &&& updater.fits()
                    &&& old(self)@.is_first_conflict(area, *updater, index)
                    &&& final(self)@ == old(self)@
                },
            },
    {
        if !updater.is_fitting() {
            return Err(TileError::LayerOutOfReach);
        }
        let size = self.settings.size;
        let ghost start = self@;
        let ghost change = *updater;
        proof {
            self.lemma_view_wf();
        }
        if area.origin.x > area.dest.x || area.origin.y > area.dest.y || area.origin.x >= size.x
            || area.origin.y >= size.y {
            proof {
                assert forall|cell: UVec2| !start.touches(area, cell) by {}
                start.lemma_update_nothing(area, change);
            }
            return Ok(());
        }
        let dest = UVec2 {
            x: if area.dest.x < size.x {
                area.dest.x
            } else {
                size.x - 1
            },
            y: if area.dest.y < size.y {
                area.dest.y
            } else {
                size.y - 1
            },
        };
        if updater.layer.is_some() {
            let mut y: u32 = area.origin.y;
            while y <= dest.y
                invariant
                    self.wf(),
                    self@ == start,
                    start.wf(),
                    change == *updater,
                    change.layer is Some,
                    change.fits(),
                    area.origin.y <= y <= dest.y + 1,
                    area.origin.x <= dest.x,
                    dest.x < start.settings.size.x,
                    dest.y < start.settings.size.y,
                    dest == start.clipped_dest(area),
                    forall|cell: UVec2| #[trigger]
                        start.update_conflict(area, change, cell) ==> !row_major_before(
                            cell,
                            y as int,
                            area.origin.x as int,
                        ),
                decreases dest.y + 1 - y,
            {
                let mut x: u32 = area.origin.x;
                while x <= dest.x
                    invariant
                        self.wf(),
                        self@ == start,
                        start.wf(),
                        change == *updater,
                        change.layer is Some,
                        change.fits(),
                    change.fits(),
                        area.origin.y <= y <= dest.y,
                        area.origin.x <= x <= dest.x + 1,
                        dest.x < start.settings.size.x,
                        dest.y < start.settings.size.y,
                        dest == start.clipped_dest(area),
                        forall|cell: UVec2| #[trigger]
                            start.update_conflict(area, change, cell) ==> !row_major_before(
                                cell,
                                y as int,
                                x as int,
                            ),
                    decreases dest.x + 1 - x,
                {
                    let cell = UVec2 { x, y };
                    let animated: bool = match self.get(cell) {
                        Some(tile) => tile.is_animated(),
                        None => false,
                    };
                    if animated {
                        return Err(TileError::LayerConflict { index: cell });
                    }
                    proof {
                        assert forall|other: UVec2| #[trigger]
                            start.update_conflict(area, change, other) implies !row_major_before(
                            other,
                            y as int,
                            x + 1,
                        ) by {}
                    }
                    x += 1;
                }
                proof {
                    assert forall|other: UVec2| #[trigger]
                        start.update_conflict(area, change, other) implies !row_major_before(
                        other,
                        y + 1,
                        area.origin.x as int,
                    ) by {}
                }
                y += 1;
            }
            proof {
                assert forall|cell: UVec2| !start.update_conflict(area, change, cell) by {}
            }
        }
        proof {
            start.lemma_update_start(area, change);
        }
        let mut y: u32 = area.origin.y;
        while y <= dest.y
            invariant
                self.wf(),
                start.wf(),
                change == *updater,
                change.fits(),
                forall|cell: UVec2| !start.update_conflict(area, change, cell),
                area.origin.y <= y <= dest.y + 1,
                area.origin.x <= dest.x,
                dest.x < self.settings.size.x,
                dest.y < self.settings.size.y,
                dest == start.clipped_dest(area),
                start.settings == self.settings,
                self@ == start.update_progress(area, change, y as int, area.origin.x as int),
            decreases dest.y + 1 - y,
        {
            let mut x: u32 = area.origin.x;
            while x <= dest.x
                invariant
                    self.wf(),
                    start.wf(),
                    change == *updater,
                    change.fits(),
                    forall|cell: UVec2| !start.update_conflict(area, change, cell),
                    area.origin.y <= y <= dest.y,
                    area.origin.x <= x <= dest.x + 1,
                    dest.x < self.settings.size.x,
                    dest.y < self.settings.size.y,
                    dest == start.clipped_dest(area),
                    start.settings == self.settings,
                    self@ == start.update_progress(area, change, y as int, x as int),
                decreases dest.x + 1 - x,
            {
                let cell = UVec2 { x, y };
                proof {
                    start.lemma_update_step(area, change, cell);
                    assert(!start.update_conflict(area, change, cell));
                }
                self.update_at(cell, updater);
                x += 1;
            }
            proof {
                start.lemma_update_row_end(area, change, y as int, x as int);
            }
            y += 1;
        }
        proof {
            start.lemma_update_done(area, change, y as int);
        }
        Ok(())
    }

    /// The cell that the tile of `cell` of a buffer is written to when the buffer is put down
    /// at `origin`, where that is a cell at all.
    pub open spec fn buffer_target(origin: IVec2, cell: IVec2) -> Option<UVec2> {
        if 0 <= origin.x + cell.x <= u32::MAX && 0 <= origin.y + cell.y <= u32::MAX {
            Some(UVec2 { x: (origin.x + cell.x) as u32, y: (origin.y + cell.y) as u32 })
        } else {
            None
        }
    }

    /// The tilemap after the first `n` tiles of `buffer` were set in turn, each at its cell
    /// moved by `origin`. Tiles that come to lie outside the extent are passed over.
    pub open spec fn filled_with_buffer(
        start: TilemapView,
        origin: IVec2,
        buffer: TileBuffer,
        n: int,
    ) -> TilemapView
        decreases n,
    {
        if n <= 0 {
            start
        } else {
            let earlier = Self::filled_with_buffer(start, origin, buffer, n - 1);
            match Self::buffer_target(origin, buffer.spec_cell(n - 1)) {
                Some(cell) => earlier.set(buffer@.tiles[buffer.spec_cell(n - 1)].at(cell)),
                None => earlier,
            }
        }
    }

    /// Once a buffer was put down, each of its tiles that came to lie inside the extent is
    /// read back from the cell that it was moved to.
    pub proof fn lemma_filled_with_buffer_then_get(
        start: TilemapView,
        origin: IVec2,
        buffer: TileBuffer,
        i: int,
        n: int,
    )
        requires
            buffer.wf(),
            0 <= i < n <= buffer.spec_len(),
            Self::buffer_target(origin, buffer.spec_cell(i)) is Some,
            start.in_bounds(Self::buffer_target(origin, buffer.spec_cell(i)).unwrap()),
        ensures
            Self::filled_with_buffer(start, origin, buffer, n).get(
                Self::buffer_target(origin, buffer.spec_cell(i)).unwrap(),
            ) == Some(
                buffer@.tiles[buffer.spec_cell(i)].at(
                    Self::buffer_target(origin, buffer.spec_cell(i)).unwrap(),
                ),
            ),
            Self::filled_with_buffer(start, origin, buffer, n).settings == start.settings,
        decreases n,
    {
        Self::lemma_filled_with_buffer_settings(start, origin, buffer, n - 1);
        if i < n - 1 {
            Self::lemma_filled_with_buffer_then_get(start, origin, buffer, i, n - 1);
            buffer.lemma_entries(i);
        }
    }

    /// Putting a buffer down leaves the settings of the tilemap as they are.
    pub proof fn lemma_filled_with_buffer_settings(
        start: TilemapView,
        origin: IVec2,
        buffer: TileBuffer,
        n: int,
    )
        ensures
            Self::filled_with_buffer(start, origin, buffer, n).settings == start.settings,
        decreases n,
    {
        if n > 0 {
            Self::lemma_filled_with_buffer_settings(start, origin, buffer, n - 1);
        }
    }

    /// Sets every tile of `buffer`, each at its cell moved by `origin`. Tiles that come to
    /// lie outside the extent are passed over.
    pub fn fill_with_buffer(&mut self, origin: IVec2, buffer: &TileBuffer)
        requires
            old(self).wf(),
            buffer.wf(),
        ensures
            final(self).wf(),
            final(self)@ == Self::filled_with_buffer(
                old(self)@,
                origin,
                *buffer,
                buffer.spec_len() as int,
            ),
    {
        let ghost start = self@;
        let count: usize = buffer.len();
        let mut i: usize = 0;
        while i < count
            invariant
                i <= count,
                count == buffer.spec_len(),
                buffer.wf(),
                self.wf(),
                self@ == Self::filled_with_buffer(start, origin, *buffer, i as int),
            decreases count - i,
        {
            let (cell, tile) = buffer.entry(i);
            let x: i64 = origin.x as i64 + cell.x as i64;
            let y: i64 = origin.y as i64 + cell.y as i64;
            if 0 <= x && x <= u32::MAX as i64 && 0 <= y && y <= u32::MAX as i64 {
                let target = UVec2 { x: x as u32, y: y as u32 };
                if !self.is_out_of_tilemap_uvec(target) {
                    self.write(tile.build_at(target));
                }
            }
            i += 1;
        }
    }

    /// A chunk of the grid is allocated exactly where it holds a tile.
    pub(crate) proof fn lemma_populated(&self, chunk: UVec2)
        requires
            self.wf(),
            chunk.x < self.chunk_count.x,
            chunk.y < self.chunk_count.y,
        ensures
            self.chunks@[self.chunk_slot(chunk)] is Some <==> self@.populated(chunk),
            0 <= self.chunk_slot(chunk) < self.chunks.len(),
    {
        let k = self.chunk_slot(chunk);
        let chunk_size = self.settings.render_chunk_size;
        lemma_flat_index_in_range(
            chunk.x as int,
            chunk.y as int,
            self.chunk_count.x as int,
            self.chunk_count.y as int,
        );
        if self.chunks@[k] is Some {
            let tiles = self.chunks@[k].unwrap().tiles@;
            lemma_live_count_zero(tiles);
            let t = choose|t: int| 0 <= t < tiles.len() && tiles[t] is Some;
            let cell = tiles[t].unwrap().index;
            self.lemma_locate(cell);
            lemma_flat_index_injective(
                chunk_of(cell, chunk_size).x as int,
                chunk_of(cell, chunk_size).y as int,
                chunk.x as int,
                chunk.y as int,
                self.chunk_count.x as int,
            );
            assert(self@.tiles.contains_key(cell) && self@.owner(cell) == chunk);
        }
        if self@.populated(chunk) {
            let cell = choose|cell: UVec2| #[trigger]
                self@.tiles.contains_key(cell) && self@.owner(cell) == chunk;
        }
    }

    /// Removes every tile. Each chunk that held a tile is queued for release, once.
    pub fn despawn(&mut self)
        requires
            old(self).wf(),
        ensures
            final(self).wf(),
            final(self)@ == old(self)@.despawn(),
    {
        let count = self.chunk_count;
        let mut row: u32 = 0;
        let mut k: usize = 0;
        while row < count.y
            invariant
                old(self).wf(),
                self.grid_wf(),
                self.chunk_count == count,
                self.settings == old(self).settings,
                self.id == old(self).id,
                row <= count.y,
                k == row * count.x,
                list_mirrors_flags(self.release_list@, self.release_flags@, count),
                forall|j: int| 0 <= j < k ==> (#[trigger] self.chunks@[j]) is None,
                self.dirty_flags@ == old(self).dirty_flags@,
                self.dirty_list@ == old(self).dirty_list@,
                forall|j: int|
                    k <= j < self.chunks.len() ==> (#[trigger] self.chunks@[j]) == old(
                        self,
                    ).chunks@[j],
                forall|j: int|
                    0 <= j < self.chunks.len() ==> (#[trigger] self.release_flags@[j]) == (old(
                        self,
                    ).release_flags@[j] || (j < k && old(self).chunks@[j] is Some)),
            decreases count.y - row,
        {
            let mut column: u32 = 0;
            proof {
                assert((row + 1) * count.x == row * count.x + count.x) by (nonlinear_arith);
                assert((row + 1) * count.x <= count.y * count.x) by (nonlinear_arith)
                    requires
                        row + 1 <= count.y,
                        0 <= count.x,
                ;
            }
            while column < count.x
                invariant
                    old(self).wf(),
                    self.grid_wf(),
                    self.chunk_count == count,
                    self.settings == old(self).settings,
                    self.id == old(self).id,
                    row < count.y,
                    column <= count.x,
                    k == row * count.x + column,
                    (row + 1) * count.x <= self.chunks.len(),
                    (row + 1) * count.x == row * count.x + count.x,
                    list_mirrors_flags(self.release_list@, self.release_flags@, count),
                    forall|j: int| 0 <= j < k ==> (#[trigger] self.chunks@[j]) is None,
                    self.dirty_flags@ == old(self).dirty_flags@,
                    self.dirty_list@ == old(self).dirty_list@,
                    forall|j: int|
                        k <= j < self.chunks.len() ==> (#[trigger] self.chunks@[j]) == old(
                            self,
                        ).chunks@[j],
                    forall|j: int|
                        0 <= j < self.chunks.len() ==> (#[trigger] self.release_flags@[j])
                            == (old(self).release_flags@[j] || (j < k && old(
                            self,
                        ).chunks@[j] is Some)),
                decreases count.x - column,
            {
                if self.chunks[k].is_some() {
                    self.chunks[k] = None;
                    mark_chunk(
                        &mut self.release_flags,
                        &mut self.release_list,
                        UVec2 { x: column, y: row },
                        k,
                        count,
                    );
                }
                column += 1;
                k += 1;
            }
            row += 1;
        }
        self.aabb = None;
        proof {
            let before = *old(self);
            let after = *self;
            assert(k == self.chunks.len()) by (nonlinear_arith)
                requires
                    k == row * count.x,
                    row == count.y,
                    self.chunks.len() == count.x * count.y,
            ;
            assert forall|chunk: UVec2|
                chunk.x < count.x && chunk.y < count.y implies 0 <= #[trigger] flat_index(
                chunk.x as int,
                chunk.y as int,
                count.x as int,
            ) < self.chunks.len() by {
                lemma_flat_index_in_range(
                    chunk.x as int,
                    chunk.y as int,
                    count.x as int,
                    count.y as int,
                );
            }
            assert forall|cell: UVec2| after.stored(cell) is None by {
                if after.in_bounds(cell) {
                    after.lemma_locate(cell);
                }
            }
            assert(after@.tiles =~= before@.despawn().tiles);
            assert(after@.dirty =~= before@.despawn().dirty);
            assert forall|chunk: UVec2| after@.released.contains(chunk) == before@.despawn().released.contains(
                chunk,
            ) by {
                if chunk.x < count.x && chunk.y < count.y {
                    before.lemma_populated(chunk);
                } else {
                    if before@.populated(chunk) {
                        let cell = choose|cell: UVec2| #[trigger]
                            before@.tiles.contains_key(cell) && before@.owner(cell) == chunk;
                        before.lemma_locate(cell);
                    }
                }
            }
            assert(after@.released =~= before@.despawn().released);
        }
    }

    /// Whether `chunk` has changed since it was last handed to the renderer.
    pub fn is_chunk_dirty(&self, chunk: UVec2) -> (dirty: bool)
        requires
            self.wf(),
        ensures
            dirty == self@.dirty.contains(chunk),
    {
        if chunk.x >= self.chunk_count.x || chunk.y >= self.chunk_count.y {
            return false;
        }
        let k = self.slot_of(chunk);
        self.dirty_flags[k]
    }

    /// Whether `chunk` is queued for release.
    pub fn is_chunk_released(&self, chunk: UVec2) -> (released: bool)
        requires
            self.wf(),
        ensures
            released == self@.released.contains(chunk),
    {
        if chunk.x >= self.chunk_count.x || chunk.y >= self.chunk_count.y {
            return false;
        }
        let k = self.slot_of(chunk);
        self.release_flags[k]
    }

    /// Whether `chunk` holds a tile.
    pub fn is_chunk_populated(&self, chunk: UVec2) -> (populated: bool)
        requires
            self.wf(),
        ensures
            populated == self@.populated(chunk),
    {
        if chunk.x >= self.chunk_count.x || chunk.y >= self.chunk_count.y {
            proof {
                if self@.populated(chunk) {
                    let cell = choose|cell: UVec2| #[trigger]
                        self@.tiles.contains_key(cell) && self@.owner(cell) == chunk;
                    self.lemma_locate(cell);
                }
            }
            return false;
        }
        proof {
            self.lemma_populated(chunk);
        }
        let k = self.slot_of(chunk);
        self.chunks[k].is_some()
    }

    /// The slot of a chunk of the grid.
    pub(crate) fn slot_of(&self, chunk: UVec2) -> (k: usize)
        requires
            self.grid_wf(),
            chunk.x < self.chunk_count.x,
            chunk.y < self.chunk_count.y,
        ensures
            k == self.chunk_slot(chunk),
            k < self.chunks.len(),
    {
        self.layout().slot_of(chunk)
    }

    /// The layout of the grid: its extent, its chunk size and the number of its chunks.
    pub fn chunk_grid(&self) -> (grid: ChunkGrid)
        requires
            self.wf(),
        ensures
            grid.wf(),
            grid.size == self@.settings.size,
            grid.chunk_size == self@.settings.render_chunk_size,
    {
        self.layout()
    }

    /// Takes other settings for what does not bear on the grid: the extent and the chunk
    /// size stay as they are, whatever `settings` says of them.
    pub fn set_settings(&mut self, settings: TilemapSettings)
        requires
            old(self).wf(),
        ensures
            final(self).wf(),
            final(self)@ == (TilemapView {
                settings: TilemapSettings {
                    size: old(self)@.settings.size,
                    render_chunk_size: old(self)@.settings.render_chunk_size,
                    ..settings
                },
                ..old(self)@
            }),
    {
        self.settings = TilemapSettings {
            tile_type: settings.tile_type,
            size: self.settings.size,
            tile_size: settings.tile_size,
            tile_render_size: settings.tile_render_size,
            render_chunk_size: self.settings.render_chunk_size,
            texture: settings.texture,
            filter_mode: settings.filter_mode,
            translation: settings.translation,
            z_order: settings.z_order,
            flip: settings.flip,
            layer_opacities: settings.layer_opacities,
        };
        proof {
            assert forall|k: int|
                0 <= k < self.chunks.len() && (#[trigger] self.chunks@[k]) is Some
                    implies self.chunk_wf(k) by {
                assert(old(self).chunk_wf(k));
            }
            assert forall|cell: UVec2| #[trigger] self.stored(cell) is Some implies self.aabb
                is Some && self.aabb.unwrap().contains(cell) by {
                assert(old(self).stored(cell) is Some);
            }
            assert(self@.tiles =~= old(self)@.tiles);
            assert(self@.dirty =~= old(self)@.dirty);
            assert(self@.released =~= old(self)@.released);
        }
    }

    /// The settings of the tilemap.
    pub fn settings(&self) -> (settings: TilemapSettings)
        ensures
            settings == self@.settings,
    {
        self.settings
    }

    /// The box that holds every occupied cell, if a cell was written since the tilemap was
    /// built or despawned.
    pub fn aabb(&self) -> (aabb: Option<FillArea>)
        ensures
            aabb == self@.aabb,
    {
        self.aabb
    }

    /// The chunks that wait for upload, each named once.
    pub fn dirty_chunks(&self) -> (chunks: &Vec<UVec2>)
        requires
            self.wf(),
        ensures
            chunks@.no_duplicates(),
            forall|chunk: UVec2| chunks@.contains(chunk) <==> self@.dirty.contains(chunk),
    {
        proof {
            assert forall|chunk: UVec2|
                self.dirty_list@.contains(chunk) <==> self@.dirty.contains(chunk) by {
                if self.dirty_list@.contains(chunk) {
                    let i = choose|i: int|
                        0 <= i < self.dirty_list@.len() && self.dirty_list@[i] == chunk;
                }
            }
        }
        &self.dirty_list
    }

    /// The chunks that wait for release, each named once.
    pub fn released_chunks(&self) -> (chunks: &Vec<UVec2>)
        requires
            self.wf(),
        ensures
            chunks@.no_duplicates(),
            forall|chunk: UVec2| chunks@.contains(chunk) <==> self@.released.contains(chunk),
    {
        proof {
            assert forall|chunk: UVec2|
                self.release_list@.contains(chunk) <==> self@.released.contains(chunk) by {
                if self.release_list@.contains(chunk) {
                    let i = choose|i: int|
                        0 <= i < self.release_list@.len() && self.release_list@[i] == chunk;
                }
            }
        }
        &self.release_list
    }

    /// Hands over what has changed since the last call: the chunks that wait for upload and
    /// the chunks that wait for release, each named once. Afterwards no chunk waits.
    pub fn take_changes(&mut self) -> (changes: ChunkChanges)
        requires
            old(self).wf(),
        ensures
            final(self).wf(),
            final(self)@ == old(self)@.extracted(),
            changes.dirty@.no_duplicates(),
            changes.released@.no_duplicates(),
            forall|chunk: UVec2|
                changes.dirty@.contains(chunk) <==> old(self)@.dirty.contains(chunk),
            forall|chunk: UVec2|
                changes.released@.contains(chunk) <==> old(self)@.released.contains(chunk),
    {
        let count = self.chunk_count;
        let dirty = take_marks(&mut self.dirty_flags, &mut self.dirty_list, count);
        let released = take_marks(&mut self.release_flags, &mut self.release_list, count);
        proof {
            let before = *old(self);
            let after = *self;
            assert forall|k: int|
                0 <= k < after.chunks.len() && (#[trigger] after.chunks@[k]) is Some
                    implies after.chunk_wf(k) by {}
            assert forall|cell: UVec2| #[trigger] after.stored(cell) is Some implies after.aabb
                is Some && after.aabb.unwrap().contains(cell) by {
                assert(before.stored(cell) is Some);
            }
            assert(after@.tiles =~= before@.tiles);
            assert(after@.dirty =~= Set::<UVec2>::empty());
            assert(after@.released =~= Set::<UVec2>::empty());
            assert forall|chunk: UVec2| dirty@.contains(chunk) <==> before@.dirty.contains(
                chunk,
            ) by {}
            assert forall|chunk: UVec2| released@.contains(chunk) <==> before@.released.contains(
                chunk,
            ) by {}
        }
        ChunkChanges { dirty, released }
    }
}

/// The chunks of a tilemap that have changed since its changes were last taken.
pub struct ChunkChanges {
    /// The chunks that wait for upload.
    pub dirty: Vec<UVec2>,
    /// The chunks whose render-side buffers are to be freed.
    pub released: Vec<UVec2>,
}

} // verus!
