//! The render-side mirror of a tilemap, kept chunk by chunk.

use crate::math::{chunk_of, lemma_flat_index_splits, UVec2};
use crate::render::model::{uniform_of, RenderTilemapView, TilemapUniform};
use crate::render::packed::{mirror, mirrored, PackedTile};
use crate::tilemap::grid::ChunkGrid;
use crate::tilemap::map::Tilemap;
use crate::tilemap::model::{Entity, TilemapSettings, TilemapView};
use vstd::prelude::*;

verus! {

/// The mirror of one chunk: what is drawn of each of its cells, row by row, whether its
/// buffer is older than that, and the buffer, once it is built.
pub struct RenderChunk {
    pub(crate) tiles: Vec<Option<PackedTile>>,
    pub(crate) dirty: bool,
    pub(crate) buffer: Option<Vec<PackedTile>>,
}

/// The render-side mirror of a tilemap. It holds a chunk for each chunk of the tilemap of
/// which something is drawn.
pub struct RenderTilemap {
    pub(crate) id: Entity,
    pub(crate) settings: TilemapSettings,
    pub(crate) texture_ready: bool,
    pub(crate) grid: ChunkGrid,
    pub(crate) chunks: Vec<Option<RenderChunk>>,
    pub(crate) uniform: Option<TilemapUniform>,
}

impl RenderTilemap {
    pub(crate) open spec fn grid_wf(&self) -> bool {
        &&& self.grid.wf()
        &&& self.grid.size == self.settings.size
        &&& self.grid.chunk_size == self.settings.render_chunk_size
        &&& self.chunks.len() == self.grid.slots()
    }

    /// What holds of the chunk in slot `k`, where there is one.
    pub(crate) open spec fn chunk_wf(&self, k: int) -> bool {
        let chunk = self.chunks@[k].unwrap();
        &&& chunk.tiles.len() == self.grid.cells_per_chunk()
        &&& exists|t: int| 0 <= t < chunk.tiles.len() && (#[trigger] chunk.tiles@[t]) is Some
        &&& forall|t: int|
            0 <= t < chunk.tiles.len() && (#[trigger] chunk.tiles@[t]) is Some ==> {
                let cell = chunk.tiles@[t].unwrap().index;
                self.grid.in_bounds(cell) && self.grid.locate(cell) == (k, t)
            }
    }

    /// What the mirror holds for `cell`.
    pub(crate) open spec fn stored(&self, cell: UVec2) -> Option<PackedTile> {
        if self.grid.in_bounds(cell) {
            match self.chunks@[self.grid.locate(cell).0] {
                Some(chunk) => chunk.tiles@[self.grid.locate(cell).1],
                None => None,
            }
        } else {
            None
        }
    }

    /// The invariant of the mirror.
    pub closed spec fn wf(&self) -> bool {
        &&& self.grid_wf()
        &&& forall|k: int|
            0 <= k < self.chunks.len() && (#[trigger] self.chunks@[k]) is Some ==> self.chunk_wf(k)
    }
}

impl View for RenderTilemap {
    type V = RenderTilemapView;

    closed spec fn view(&self) -> RenderTilemapView {
        RenderTilemapView {
            id: self.id,
            settings: self.settings,
            texture_ready: self.texture_ready,
            tiles: Map::new(
                |cell: UVec2| self.stored(cell) is Some,
                |cell: UVec2| self.stored(cell).unwrap(),
            ),
            dirty: Set::new(
                |chunk: UVec2|
                    self.grid.has_chunk(chunk) && self.chunks@[self.grid.chunk_slot(chunk)]
                        is Some && self.chunks@[self.grid.chunk_slot(chunk)].unwrap().dirty,
            ),
            buffers: Map::new(
                |chunk: UVec2|
                    self.grid.has_chunk(chunk) && self.chunks@[self.grid.chunk_slot(chunk)]
                        is Some && self.chunks@[self.grid.chunk_slot(chunk)].unwrap().buffer
                        is Some,
                |chunk: UVec2| self.chunks@[self.grid.chunk_slot(chunk)].unwrap().buffer.unwrap()@,
            ),
            uniform: self.uniform,
        }
    }
}

impl RenderTilemap {
    /// The grid of the model is the grid that the mirror keeps.
    pub(crate) proof fn lemma_grid(&self)
        requires
            self.grid_wf(),
        ensures
            self@.grid() == self.grid,
    {
        crate::math::lemma_chunks_to_cover(
            self.settings.size.x as int,
            self.settings.render_chunk_size as int,
        );
        crate::math::lemma_chunks_to_cover(
            self.settings.size.y as int,
            self.settings.render_chunk_size as int,
        );
    }

    /// The mirror holds a chunk exactly where it holds a tile of it.
    pub(crate) proof fn lemma_populated(&self, chunk: UVec2)
        requires
            self.wf(),
        ensures
            self@.populated(chunk) <==> self.grid.has_chunk(chunk)
                && self.chunks@[self.grid.chunk_slot(chunk)] is Some,
            self.grid.has_chunk(chunk) ==> 0 <= self.grid.chunk_slot(chunk) < self.chunks.len(),
    {
        if self.grid.has_chunk(chunk) {
            let k = self.grid.chunk_slot(chunk);
            self.grid.lemma_chunk_slot(chunk);
            if self.chunks@[k] is Some {
                let tiles = self.chunks@[k].unwrap().tiles@;
                let t = choose|t: int| 0 <= t < tiles.len() && (#[trigger] tiles[t]) is Some;
                let cell = tiles[t].unwrap().index;
                self.grid.lemma_located_in(cell, chunk);
                assert(self@.tiles.contains_key(cell) && self@.owner(cell) == chunk);
            }
        }
        if self@.populated(chunk) {
            let cell = choose|cell: UVec2| #[trigger]
                self@.tiles.contains_key(cell) && self@.owner(cell) == chunk;
            self.grid.lemma_locate(cell);
        }
    }

    /// A well-formed mirror has a well-formed model.
    pub proof fn lemma_view_wf(&self)
        requires
            self.wf(),
        ensures
            self@.wf(),
    {
        self.lemma_grid();
        assert forall|cell: UVec2| #[trigger] self@.tiles.contains_key(cell) implies self@.grid().in_bounds(
            cell,
        ) && self@.tiles[cell].index == cell by {
            self.grid.lemma_locate(cell);
            let (k, t) = self.grid.locate(cell);
            let tile = self.chunks@[k].unwrap().tiles@[t];
            self.grid.lemma_locate_injective(cell, tile.unwrap().index);
        }
        assert forall|chunk: UVec2| #[trigger] self@.dirty.contains(chunk) implies self@.populated(
            chunk,
        ) by {
            self.lemma_populated(chunk);
        }
        assert forall|chunk: UVec2| #[trigger]
            self@.buffers.contains_key(chunk) implies self@.populated(chunk) by {
            self.lemma_populated(chunk);
        }
    }

    /// An empty mirror for `tilemap`.
    pub fn new(tilemap: &Tilemap) -> (mirror: RenderTilemap)
        requires
            tilemap.wf(),
        ensures
            mirror.wf(),
            mirror@ == RenderTilemapView::empty(tilemap@.id, tilemap@.settings),
    {
        let grid = tilemap.chunk_grid();
        let slots: usize = (grid.count.x as usize) * (grid.count.y as usize);
        let mut chunks: Vec<Option<RenderChunk>> = Vec::new();
        let mut i: usize = 0;
        while i < slots
            invariant
                i <= slots,
                chunks.len() == i,
                forall|k: int| 0 <= k < i ==> chunks@[k] is None,
            decreases slots - i,
        {
            chunks.push(None);
            i += 1;
        }
        let mirror = RenderTilemap {
            id: tilemap.get_id(),
            settings: tilemap.settings(),
            texture_ready: false,
            grid,
            chunks,
            uniform: None,
        };
        proof {
            assert forall|cell: UVec2| mirror.stored(cell) is None by {
                if mirror.grid.in_bounds(cell) {
                    mirror.grid.lemma_locate(cell);
                }
            }
            assert forall|chunk: UVec2| mirror.grid.has_chunk(chunk) implies 0
                <= #[trigger] mirror.grid.chunk_slot(chunk) < slots by {
                mirror.grid.lemma_chunk_slot(chunk);
            }
            assert(mirror@.tiles =~= Map::<UVec2, PackedTile>::empty());
            assert(mirror@.dirty =~= Set::<UVec2>::empty());
            assert(mirror@.buffers =~= Map::<UVec2, Seq<PackedTile>>::empty());
        }
        mirror
    }

    /// Records whether the host has confirmed that the texture atlas is loaded.
    pub fn set_texture_ready(&mut self, ready: bool)
        requires
            old(self).wf(),
        ensures
            final(self).wf(),
            final(self)@ == (RenderTilemapView { texture_ready: ready, ..old(self)@ }),
    {
        self.texture_ready = ready;
        proof {
            assert forall|k: int|
                0 <= k < self.chunks.len() && (#[trigger] self.chunks@[k]) is Some
                    implies self.chunk_wf(k) by {}
            assert(self@.tiles =~= old(self)@.tiles);
        }
    }

    /// Takes over the settings of the tilemap, which describe the same grid.
    pub(crate) fn set_settings(&mut self, settings: TilemapSettings)
        requires
            old(self).wf(),
            settings.size == old(self)@.settings.size,
            settings.render_chunk_size == old(self)@.settings.render_chunk_size,
        ensures
            final(self).wf(),
            final(self)@ == (RenderTilemapView { settings, ..old(self)@ }),
    {
        self.settings = settings;
        proof {
            assert forall|k: int|
                0 <= k < self.chunks.len() && (#[trigger] self.chunks@[k]) is Some
                    implies self.chunk_wf(k) by {
                assert(old(self).chunk_wf(k));
            }
            assert(self@.tiles =~= old(self)@.tiles);
        }
    }

    /// Hands over the uniform block of the tilemap where it is to be uploaded: where none
    /// was handed over yet, or the settings have changed since.
    pub fn prepare_uniform(&mut self) -> (upload: Option<TilemapUniform>)
        requires
            old(self).wf(),
        ensures
            final(self).wf(),
            final(self)@ == old(self)@.prepare_uniform(),
            upload == (if old(self)@.uniform_stale() {
                Some(uniform_of(old(self)@.settings))
            } else {
                None
            }),
    {
        let uniform = TilemapUniform {
            translation: self.settings.translation,
            z_order: self.settings.z_order,
            tile_type: self.settings.tile_type,
            tile_size: self.settings.tile_size,
            tile_render_size: self.settings.tile_render_size,
            layer_opacities: self.settings.layer_opacities,
            flip: self.settings.flip,
        };
        let stale: bool = match self.uniform {
            Some(handed) => handed != uniform,
            None => true,
        };
        self.uniform = Some(uniform);
        proof {
            assert forall|k: int|
                0 <= k < self.chunks.len() && (#[trigger] self.chunks@[k]) is Some
                    implies self.chunk_wf(k) by {
                assert(old(self).chunk_wf(k));
            }
            assert(self@.tiles =~= old(self)@.tiles);
            assert(self@.dirty =~= old(self)@.dirty);
            assert(self@.buffers =~= old(self)@.buffers);
        }
        if stale {
            Some(uniform)
        } else {
            None
        }
    }

    /// The drawn form of the tile that the mirror holds for `cell`.
    pub fn get(&self, cell: UVec2) -> (tile: Option<PackedTile>)
        requires
            self.wf(),
        ensures
            tile == self@.get(cell),
    {
        if cell.x >= self.grid.size.x || cell.y >= self.grid.size.y {
            return None;
        }
        let (k, t) = self.grid.locate_exec(cell);
        match &self.chunks[k] {
            Some(chunk) => {
                chunk.tiles[t]
            },
            None => None,
        }
    }

    /// The layout of the mirror's grid.
    pub fn chunk_grid(&self) -> (grid: ChunkGrid)
        requires
            self.wf(),
        ensures
            grid.wf(),
            grid == self@.grid(),
    {
        proof {
            self.lemma_grid();
        }
        self.grid
    }

    /// What is drawn of the cell in slot `t` of `chunk` of `sim`.
    pub(crate) open spec fn expected_slot(grid: ChunkGrid, sim: TilemapView, chunk: UVec2, t: int)
        -> Option<PackedTile> {
        match grid.slot_cell(chunk, t) {
            Some(cell) => mirrored(sim.get(cell)),
            None => None,
        }
    }

    /// Takes `chunk` anew from `tilemap`. Its buffer counts as out of date afterwards; it is
    /// freed where `release` asks for it or nothing of the chunk is drawn.
    pub(crate) fn sync_chunk(&mut self, tilemap: &Tilemap, chunk: UVec2, release: bool)
        requires
            old(self).wf(),
            tilemap.wf(),
            old(self)@.matches(tilemap@),
            old(self)@.grid().has_chunk(chunk),
        ensures
            final(self).wf(),
            final(self)@ == old(self)@.synced_one(tilemap@, chunk, release),
    {
        let grid = self.grid;
        let size: u32 = grid.chunk_size;
        let ghost sim = tilemap@;
        proof {
            self.lemma_grid();
            tilemap.lemma_view_wf();
        }
        let k = grid.slot_of(chunk);
        let mut tiles: Vec<Option<PackedTile>> = Vec::new();
        let mut any: bool = false;
        let mut row: u32 = 0;
        while row < size
            invariant
                grid.wf(),
                grid == self.grid,
                grid.size == sim.settings.size,
                grid.chunk_size == sim.settings.render_chunk_size,
                size == grid.chunk_size,
                tilemap.wf(),
                sim == tilemap@,
                sim.wf(),
                row <= size,
                tiles.len() == row * size,
                forall|t: int|
                    0 <= t < tiles.len() ==> #[trigger] tiles@[t] == Self::expected_slot(
                        grid,
                        sim,
                        chunk,
                        t,
                    ),
                any <==> exists|t: int| 0 <= t < tiles.len() && (#[trigger] tiles@[t]) is Some,
            decreases size - row,
        {
            let mut column: u32 = 0;
            proof {
                assert((row + 1) * size == row * size + size) by (nonlinear_arith);
            }
            while column < size
                invariant
                    grid.wf(),
                    grid == self.grid,
                    grid.size == sim.settings.size,
                    grid.chunk_size == sim.settings.render_chunk_size,
                    size == grid.chunk_size,
                    tilemap.wf(),
                    sim == tilemap@,
                    sim.wf(),
                    row < size,
                    column <= size,
                    tiles.len() == row * size + column,
                    (row + 1) * size == row * size + size,
                    forall|t: int|
                        0 <= t < tiles.len() ==> #[trigger] tiles@[t] == Self::expected_slot(
                            grid,
                            sim,
                            chunk,
                            t,
                        ),
                    any <==> exists|t: int|
                        0 <= t < tiles.len() && (#[trigger] tiles@[t]) is Some,
                decreases size - column,
            {
                let offset = UVec2 { x: column, y: row };
                let ghost t = tiles.len() as int;
                proof {
                    lemma_flat_index_splits(column as int, row as int, size as int);
                }
                let kept: Option<PackedTile> = match grid.cell_of(chunk, offset) {
                    Some(cell) => mirror(tilemap.get(cell)),
                    None => None,
                };
                let ghost before = tiles@;
                tiles.push(kept);
                proof {
                    if kept is Some {
                        assert(tiles@[t] is Some);
                    } else if any {
                        let u = choose|u: int|
                            0 <= u < before.len() && (#[trigger] before[u]) is Some;
                        assert(tiles@[u] is Some);
                    } else {
                        assert forall|u: int| 0 <= u < tiles.len() implies (
                        #[trigger] tiles@[u]) is None by {}
                    }
                }
                if kept.is_some() {
                    any = true;
                }
                column += 1;
            }
            row += 1;
        }
        let previous: Option<RenderChunk> = self.chunks[k].take();
        if any {
            let buffer: Option<Vec<PackedTile>> = if release {
                None
            } else {
                match previous {
                    Some(chunk) => chunk.buffer,
                    None => None,
                }
            };
            self.chunks[k] = Some(RenderChunk { tiles, dirty: true, buffer });
        }
        proof {
            let before = *old(self);
            let after = *self;
            let target = before@.synced_one(sim, chunk, release);
            assert(tiles.len() == grid.cells_per_chunk()) by (nonlinear_arith)
                requires
                    tiles.len() == row * size,
                    row == size,
                    grid.cells_per_chunk() == size * size,
            ;
            // What each cell of the chunk holds now.
            assert forall|cell: UVec2| grid.in_bounds(cell) && chunk_of(cell, size)
                == chunk implies #[trigger] after.stored(cell) == mirrored(sim.get(cell)) by {
                grid.lemma_locate(cell);
                grid.lemma_slot_cell(cell);
                let t = grid.locate(cell).1;
                assert(tiles@[t] == Self::expected_slot(grid, sim, chunk, t));
            }
            assert forall|cell: UVec2| !(grid.in_bounds(cell) && chunk_of(cell, size) == chunk)
                implies #[trigger] after.stored(cell) == before.stored(cell) by {
                if grid.in_bounds(cell) {
                    grid.lemma_locate(cell);
                    grid.lemma_located_in(cell, chunk);
                }
            }
            // The new chunk is well formed.
            if any {
                assert forall|t: int|
                    0 <= t < tiles.len() && (#[trigger] tiles@[t]) is Some implies {
                    let cell = tiles@[t].unwrap().index;
                    grid.in_bounds(cell) && grid.locate(cell) == (k as int, t)
                } by {
                    grid.lemma_slot_cell_located(chunk, t);
                }
            }
            assert forall|j: int|
                0 <= j < after.chunks.len() && (#[trigger] after.chunks@[j]) is Some
                    implies after.chunk_wf(j) by {}
            // The drawn tiles of the chunk are the visible tiles of the tilemap's chunk.
            assert(any == RenderTilemapView::drawable(sim, chunk)) by {
                if any {
                    let t = choose|t: int| 0 <= t < tiles.len() && (#[trigger] tiles@[t]) is Some;
                    let cell = grid.slot_cell(chunk, t).unwrap();
                    grid.lemma_located_in(cell, chunk);
                    assert(sim.tiles.contains_key(cell) && sim.tiles[cell].visible && sim.owner(
                        cell,
                    ) == chunk);
                }
                if RenderTilemapView::drawable(sim, chunk) {
                    let cell = choose|cell: UVec2| #[trigger]
                        sim.tiles.contains_key(cell) && sim.tiles[cell].visible && sim.owner(cell)
                            == chunk;
                    assert(after.stored(cell) == mirrored(sim.get(cell)));
                    grid.lemma_locate(cell);
                }
            }
            assert forall|other: UVec2| grid.has_chunk(other) implies 0
                <= #[trigger] grid.chunk_slot(other) < after.chunks.len() && (grid.chunk_slot(
                other,
            ) == k ==> other == chunk) by {
                grid.lemma_chunk_slot(other);
                if grid.chunk_slot(other) == k {
                    grid.lemma_chunk_slot_injective(other, chunk);
                }
            }
            assert(after@.tiles =~= target.tiles);
            assert(after@.dirty =~= target.dirty);
            assert(after@.buffers =~= target.buffers);
        }
    }

    /// The slots of a chunk that the mirror holds are what the model shows of the chunk's
    /// cells.
    pub(crate) proof fn lemma_chunk_slots(&self, chunk: UVec2)
        requires
            self.wf(),
            self.grid.has_chunk(chunk),
            self.chunks@[self.grid.chunk_slot(chunk)] is Some,
        ensures
            self.chunks@[self.grid.chunk_slot(chunk)].unwrap().tiles@ == self@.chunk_slots(chunk),
    {
        let k = self.grid.chunk_slot(chunk);
        self.grid.lemma_chunk_slot(chunk);
        self.lemma_grid();
        let tiles = self.chunks@[k].unwrap().tiles@;
        let slots = self@.chunk_slots(chunk);
        assert forall|t: int| 0 <= t < tiles.len() implies tiles[t] == slots[t] by {
            if self.grid.slot_cell(chunk, t) is Some {
                self.grid.lemma_slot_cell_located(chunk, t);
            }
            if tiles[t] is Some {
                let cell = tiles[t].unwrap().index;
                self.grid.lemma_located_in(cell, chunk);
                self.grid.lemma_slot_cell(cell);
            }
        }
    }

    /// Whether the mirror holds a tile of `chunk`.
    pub fn is_populated(&self, chunk: UVec2) -> (populated: bool)
        requires
            self.wf(),
        ensures
            populated == self@.populated(chunk),
    {
        proof {
            self.lemma_populated(chunk);
        }
        if chunk.x >= self.grid.count.x || chunk.y >= self.grid.count.y {
            return false;
        }
        let k = self.grid.slot_of(chunk);
        self.chunks[k].is_some()
    }

    /// Whether the buffer of `chunk` is older than its tiles.
    pub fn is_dirty(&self, chunk: UVec2) -> (dirty: bool)
        requires
            self.wf(),
        ensures
            dirty == self@.dirty.contains(chunk),
    {
        if chunk.x >= self.grid.count.x || chunk.y >= self.grid.count.y {
            return false;
        }
        let k = self.grid.slot_of(chunk);
        match &self.chunks[k] {
            Some(held) => held.dirty,
            None => false,
        }
    }

    /// The buffer of `chunk`, if it has one.
    pub fn buffer(&self, chunk: UVec2) -> (buffer: Option<&Vec<PackedTile>>)
        requires
            self.wf(),
        ensures
            match buffer {
                Some(b) => self@.buffer(chunk) == Some(b@),
                None => self@.buffer(chunk) is None,
            },
    {
        if chunk.x >= self.grid.count.x || chunk.y >= self.grid.count.y {
            return None;
        }
        let k = self.grid.slot_of(chunk);
        match &self.chunks[k] {
            Some(held) => held.buffer.as_ref(),
            None => None,
        }
    }

    /// The settings that the mirror took at the last extraction.
    pub fn settings(&self) -> (settings: TilemapSettings)
        ensures
            settings == self@.settings,
    {
        self.settings
    }

    /// The entity that the mirrored tilemap belongs to.
    pub fn get_id(&self) -> (id: Entity)
        ensures
            id == self@.id,
    {
        self.id
    }

    /// Whether the texture that the tilemap draws with can be used.
    pub fn is_texture_usable(&self) -> (usable: bool)
        ensures
            usable == self@.texture_usable(),
    {
        self.settings.texture.is_none() || self.texture_ready
    }

    /// Builds the buffer of `chunk` from its tiles where the chunk holds tiles and its buffer
    /// is out of date or missing, and says whether it did.
    pub fn rebuild_chunk(&mut self, chunk: UVec2) -> (rebuilt: bool)
        requires
            old(self).wf(),
        ensures
            final(self).wf(),
            rebuilt == old(self)@.needs_rebuild(Set::empty().insert(chunk), chunk),
            final(self)@ == old(self)@.prepare(Set::empty().insert(chunk)),
    {
        let ghost only = Set::<UVec2>::empty().insert(chunk);
        let ghost target = self@.prepare(only);
        proof {
            self.lemma_populated(chunk);
            assert forall|other: UVec2| other != chunk implies !self@.needs_rebuild(
                only,
                other,
            ) by {}
        }
        if chunk.x >= self.grid.count.x || chunk.y >= self.grid.count.y {
            proof {
                assert(self@.dirty =~= target.dirty);
                assert(self@.buffers =~= target.buffers);
            }
            return false;
        }
        let k = self.grid.slot_of(chunk);
        let stale: bool = match &self.chunks[k] {
            Some(held) => held.dirty || held.buffer.is_none(),
            None => false,
        };
        if !stale {
            proof {
                assert(self@.dirty =~= target.dirty);
                assert(self@.buffers =~= target.buffers);
            }
            return false;
        }
        proof {
            self.lemma_chunk_slots(chunk);
        }
        let held: RenderChunk = self.chunks[k].take().unwrap();
        let buffer = compact_slots(&held.tiles);
        self.chunks[k] = Some(
            RenderChunk { tiles: held.tiles, dirty: false, buffer: Some(buffer) },
        );
        proof {
            let before = *old(self);
            let after = *self;
            assert forall|j: int|
                0 <= j < after.chunks.len() && (#[trigger] after.chunks@[j]) is Some
                    implies after.chunk_wf(j) by {}
            assert forall|cell: UVec2| #[trigger] after.stored(cell) == before.stored(cell) by {
                if after.grid.in_bounds(cell) {
                    after.grid.lemma_locate(cell);
                }
            }
            assert forall|other: UVec2| after.grid.has_chunk(other) implies 0
                <= #[trigger] after.grid.chunk_slot(other) < after.chunks.len() && (
            after.grid.chunk_slot(other) == k ==> other == chunk) by {
                after.grid.lemma_chunk_slot(other);
                if after.grid.chunk_slot(other) == k {
                    after.grid.lemma_chunk_slot_injective(other, chunk);
                }
            }
            assert(after@.tiles =~= target.tiles);
            assert(after@.dirty =~= target.dirty);
            assert(after@.buffers =~= target.buffers);
        }
        true
    }
}

/// The drawn tiles among `slots`, in their order.
pub(crate) fn compact_slots(slots: &Vec<Option<PackedTile>>) -> (buffer: Vec<PackedTile>)
    ensures
        buffer@ == crate::render::model::compact(slots@),
{
    let mut buffer: Vec<PackedTile> = Vec::new();
    let mut t: usize = 0;
    while t < slots.len()
        invariant
            t <= slots.len(),
            buffer@ == crate::render::model::compact(slots@.subrange(0, t as int)),
        decreases slots.len() - t,
    {
        proof {
            assert(slots@.subrange(0, t + 1).drop_last() =~= slots@.subrange(0, t as int));
        }
        match slots[t] {
            Some(tile) => {
                buffer.push(tile);
            },
            None => {},
        }
        t += 1;
    }
    proof {
        assert(slots@.subrange(0, slots.len() as int) =~= slots@);
    }
    buffer
}

} // verus!
