//! The layout of a chunked grid: where a cell is stored, in which slot of the chunk table and
//! in which slot of its chunk.

use crate::math::{
    chunk_of, chunks_to_cover, flat_index, lemma_chunk_in_cover, lemma_chunk_split,
    lemma_flat_index_in_range, lemma_flat_index_injective, offset_in_chunk, UVec2,
};
use vstd::prelude::*;

verus! {

/// A grid of `size` cells, cut into square chunks of `chunk_size` cells along each edge.
#[derive(Clone, Copy, Debug, PartialEq, Eq, Structural)]
pub struct ChunkGrid {
    pub size: UVec2,
    pub chunk_size: u32,
    /// The number of chunks along each axis.
    pub count: UVec2,
}

impl ChunkGrid {
    /// The chunks cover the grid, and both the chunk table and a chunk can be indexed.
    pub open spec fn wf(&self) -> bool {
        &&& self.chunk_size > 0
        &&& self.count.x == chunks_to_cover(self.size.x as int, self.chunk_size as int)
        &&& self.count.y == chunks_to_cover(self.size.y as int, self.chunk_size as int)
        &&& self.count.x * self.count.y <= usize::MAX
        &&& self.chunk_size * self.chunk_size <= usize::MAX
    }

    /// The number of chunks.
    pub open spec fn slots(&self) -> int {
        self.count.x * self.count.y
    }

    /// The number of cells of one chunk.
    pub open spec fn cells_per_chunk(&self) -> int {
        self.chunk_size * self.chunk_size
    }

    pub open spec fn in_bounds(&self, cell: UVec2) -> bool {
        cell.x < self.size.x && cell.y < self.size.y
    }

    pub open spec fn has_chunk(&self, chunk: UVec2) -> bool {
        chunk.x < self.count.x && chunk.y < self.count.y
    }

    /// The slot of `chunk` in the chunk table.
    pub open spec fn chunk_slot(&self, chunk: UVec2) -> int {
        flat_index(chunk.x as int, chunk.y as int, self.count.x as int)
    }

    /// The slot of the chunk that owns `cell`, and the cell's slot in that chunk.
    pub open spec fn locate(&self, cell: UVec2) -> (int, int) {
        let chunk = chunk_of(cell, self.chunk_size);
        let offset = offset_in_chunk(cell, self.chunk_size);
        (
            self.chunk_slot(chunk),
            flat_index(offset.x as int, offset.y as int, self.chunk_size as int),
        )
    }

    /// The cell at `offset` of `chunk`, as unbounded integers.
    pub open spec fn cell_at(&self, chunk: UVec2, offset: UVec2) -> (int, int) {
        (chunk.x * self.chunk_size + offset.x, chunk.y * self.chunk_size + offset.y)
    }

    /// The cell in slot `t` of `chunk`, where the grid has such a cell. The slots of a chunk
    /// run row by row, each row from its lowest column.
    pub open spec fn slot_cell(&self, chunk: UVec2, t: int) -> Option<UVec2> {
        let offset = UVec2 {
            x: (t % (self.chunk_size as int)) as u32,
            y: (t / (self.chunk_size as int)) as u32,
        };
        if self.cell_at(chunk, offset).0 < self.size.x && self.cell_at(chunk, offset).1
            < self.size.y {
            Some(
                UVec2 {
                    x: self.cell_at(chunk, offset).0 as u32,
                    y: self.cell_at(chunk, offset).1 as u32,
                },
            )
        } else {
            None
        }
    }

    /// A cell of the grid lies in the slot of its chunk that `locate` names.
    pub proof fn lemma_slot_cell(&self, cell: UVec2)
        requires
            self.wf(),
            self.in_bounds(cell),
        ensures
            self.slot_cell(chunk_of(cell, self.chunk_size), self.locate(cell).1) == Some(cell),
    {
        self.lemma_locate(cell);
        let offset = offset_in_chunk(cell, self.chunk_size);
        crate::math::lemma_flat_index_splits(
            offset.x as int,
            offset.y as int,
            self.chunk_size as int,
        );
    }

    /// The cell in a slot of a chunk is stored in that slot of that chunk.
    pub proof fn lemma_slot_cell_located(&self, chunk: UVec2, t: int)
        requires
            self.wf(),
            0 <= t < self.cells_per_chunk(),
            self.slot_cell(chunk, t) is Some,
        ensures
            self.in_bounds(self.slot_cell(chunk, t).unwrap()),
            chunk_of(self.slot_cell(chunk, t).unwrap(), self.chunk_size) == chunk,
            self.locate(self.slot_cell(chunk, t).unwrap()) == (self.chunk_slot(chunk), t),
    {
        let size = self.chunk_size as int;
        let column = t % size;
        let row = t / size;
        vstd::arithmetic::div_mod::lemma_fundamental_div_mod(t, size);
        vstd::arithmetic::div_mod::lemma_mod_bound(t, size);
        vstd::arithmetic::div_mod::lemma_div_pos_is_pos(t, size);
        assert(row < size) by (nonlinear_arith)
            requires
                t < size * size,
                t == size * row + column,
                0 <= column,
                size > 0,
        ;
        crate::math::lemma_chunk_unique(chunk.x as int, column, size);
        crate::math::lemma_chunk_unique(chunk.y as int, row, size);
        assert(t == flat_index(column, row, size)) by (nonlinear_arith)
            requires
                t == size * row + column,
                flat_index(column, row, size) == row * size + column,
        ;
    }

    pub proof fn lemma_chunk_slot(&self, chunk: UVec2)
        requires
            self.has_chunk(chunk),
        ensures
            0 <= self.chunk_slot(chunk) < self.slots(),
            0 <= chunk.y * self.count.x <= self.chunk_slot(chunk),
    {
        lemma_flat_index_in_range(
            chunk.x as int,
            chunk.y as int,
            self.count.x as int,
            self.count.y as int,
        );
        assert(0 <= chunk.y * self.count.x) by (nonlinear_arith)
            requires
                0 <= chunk.y,
                0 <= self.count.x,
        ;
    }

    /// Two chunks of the grid that share a slot are the same chunk.
    pub proof fn lemma_chunk_slot_injective(&self, a: UVec2, b: UVec2)
        requires
            self.has_chunk(a),
            self.has_chunk(b),
            self.chunk_slot(a) == self.chunk_slot(b),
        ensures
            a == b,
    {
        lemma_flat_index_injective(
            a.x as int,
            a.y as int,
            b.x as int,
            b.y as int,
            self.count.x as int,
        );
    }

    pub proof fn lemma_locate(&self, cell: UVec2)
        requires
            self.wf(),
            self.in_bounds(cell),
        ensures
            0 <= self.locate(cell).0 < self.slots(),
            0 <= self.locate(cell).1 < self.cells_per_chunk(),
            self.has_chunk(chunk_of(cell, self.chunk_size)),
            offset_in_chunk(cell, self.chunk_size).x < self.chunk_size,
            offset_in_chunk(cell, self.chunk_size).y < self.chunk_size,
            self.cell_at(chunk_of(cell, self.chunk_size), offset_in_chunk(cell, self.chunk_size))
                == (cell.x as int, cell.y as int),
    {
        let cs = self.chunk_size as int;
        lemma_chunk_in_cover(cell.x as int, self.size.x as int, cs);
        lemma_chunk_in_cover(cell.y as int, self.size.y as int, cs);
        lemma_chunk_split(cell.x as int, cs);
        lemma_chunk_split(cell.y as int, cs);
        lemma_flat_index_in_range(
            cell.x as int / cs,
            cell.y as int / cs,
            self.count.x as int,
            self.count.y as int,
        );
        lemma_flat_index_in_range(cell.x as int % cs, cell.y as int % cs, cs, cs);
    }

    /// Two cells of the grid that are stored in the same place are the same cell.
    pub proof fn lemma_locate_injective(&self, a: UVec2, b: UVec2)
        requires
            self.wf(),
            self.in_bounds(a),
            self.in_bounds(b),
            self.locate(a) == self.locate(b),
        ensures
            a == b,
    {
        let cs = self.chunk_size as int;
        self.lemma_locate(a);
        self.lemma_locate(b);
        lemma_chunk_split(a.x as int, cs);
        lemma_chunk_split(a.y as int, cs);
        lemma_chunk_split(b.x as int, cs);
        lemma_chunk_split(b.y as int, cs);
        lemma_flat_index_injective(
            a.x as int / cs,
            a.y as int / cs,
            b.x as int / cs,
            b.y as int / cs,
            self.count.x as int,
        );
        lemma_flat_index_injective(
            a.x as int % cs,
            a.y as int % cs,
            b.x as int % cs,
            b.y as int % cs,
            cs,
        );
    }

    /// A cell that is stored in the slot of a chunk belongs to that chunk.
    pub proof fn lemma_located_in(&self, cell: UVec2, chunk: UVec2)
        requires
            self.wf(),
            self.in_bounds(cell),
            self.has_chunk(chunk),
        ensures
            self.locate(cell).0 == self.chunk_slot(chunk) <==> chunk_of(cell, self.chunk_size)
                == chunk,
    {
        self.lemma_locate(cell);
        if self.locate(cell).0 == self.chunk_slot(chunk) {
            self.lemma_chunk_slot_injective(chunk_of(cell, self.chunk_size), chunk);
        }
    }

    /// Where `cell` is stored.
    pub fn locate_exec(&self, cell: UVec2) -> (place: (usize, usize))
        requires
            self.wf(),
            self.in_bounds(cell),
        ensures
            (place.0 as int, place.1 as int) == self.locate(cell),
            place.0 < self.slots(),
            place.1 < self.cells_per_chunk(),
    {
        let cs: u32 = self.chunk_size;
        proof {
            self.lemma_locate(cell);
            self.lemma_chunk_slot(chunk_of(cell, cs));
            let csi = cs as int;
            let oy = cell.y as int % csi;
            assert(0 <= oy * csi <= flat_index(cell.x as int % csi, oy, csi)) by (nonlinear_arith)
                requires
                    0 <= oy,
                    0 <= csi,
                    0 <= cell.x as int % csi,
                    flat_index(cell.x as int % csi, oy, csi) == oy * csi + cell.x as int % csi,
            ;
        }
        let chunk_row: usize = (cell.y / cs) as usize;
        let chunk_column: usize = (cell.x / cs) as usize;
        let row: usize = (cell.y % cs) as usize;
        let column: usize = (cell.x % cs) as usize;
        (chunk_row * (self.count.x as usize) + chunk_column, row * (cs as usize) + column)
    }

    /// The slot of a chunk of the grid.
    pub fn slot_of(&self, chunk: UVec2) -> (k: usize)
        requires
            self.wf(),
            self.has_chunk(chunk),
        ensures
            k == self.chunk_slot(chunk),
            k < self.slots(),
    {
        proof {
            self.lemma_chunk_slot(chunk);
        }
        (chunk.y as usize) * (self.count.x as usize) + (chunk.x as usize)
    }

    /// The chunk that owns `cell`.
    pub fn owner(&self, cell: UVec2) -> (chunk: UVec2)
        requires
            self.chunk_size > 0,
        ensures
            chunk == chunk_of(cell, self.chunk_size),
    {
        UVec2 { x: cell.x / self.chunk_size, y: cell.y / self.chunk_size }
    }

    /// The cell at `offset` of `chunk`, where the grid has such a cell.
    pub fn cell_of(&self, chunk: UVec2, offset: UVec2) -> (cell: Option<UVec2>)
        requires
            self.wf(),
            offset.x < self.chunk_size,
            offset.y < self.chunk_size,
        ensures
            match cell {
                Some(c) => {
                    &&& self.in_bounds(c)
                    &&& (c.x as int, c.y as int) == self.cell_at(chunk, offset)
                    &&& chunk_of(c, self.chunk_size) == chunk
                    &&& offset_in_chunk(c, self.chunk_size) == offset
                },
                None => self.cell_at(chunk, offset).0 >= self.size.x || self.cell_at(
                    chunk,
                    offset,
                ).1 >= self.size.y,
            },
    {
        proof {
            assert(chunk.x * self.chunk_size <= 0xffff_ffff * 0xffff_ffff) by (nonlinear_arith)
                requires
                    0 <= chunk.x <= 0xffff_ffff,
                    0 <= self.chunk_size <= 0xffff_ffff,
            ;
            assert(chunk.y * self.chunk_size <= 0xffff_ffff * 0xffff_ffff) by (nonlinear_arith)
                requires
                    0 <= chunk.y <= 0xffff_ffff,
                    0 <= self.chunk_size <= 0xffff_ffff,
            ;
            crate::math::lemma_chunk_unique(
                chunk.x as int,
                offset.x as int,
                self.chunk_size as int,
            );
            crate::math::lemma_chunk_unique(
                chunk.y as int,
                offset.y as int,
                self.chunk_size as int,
            );
        }
        let x: u64 = (chunk.x as u64) * (self.chunk_size as u64) + (offset.x as u64);
        let y: u64 = (chunk.y as u64) * (self.chunk_size as u64) + (offset.y as u64);
        if x >= self.size.x as u64 || y >= self.size.y as u64 {
            None
        } else {
            Some(UVec2 { x: x as u32, y: y as u32 })
        }
    }
}

} // verus!
