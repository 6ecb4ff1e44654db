//! Integer vectors, rectangles, and the arithmetic that maps cells to chunks.

use vstd::prelude::*;

verus! {

/// A pair of unsigned coordinates: a cell of a tilemap, a chunk of its chunk grid, or a size.
#[derive(Clone, Copy, Debug, PartialEq, Eq, Structural)]
pub struct UVec2 {
    pub x: u32,
    pub y: u32,
}

impl UVec2 {
    pub fn new(x: u32, y: u32) -> (v: UVec2)
        ensures
            v == (UVec2 { x, y }),
    {
        UVec2 { x, y }
    }
}

/// A pair of signed coordinates.
#[derive(Clone, Copy, Debug, PartialEq, Eq, Structural)]
pub struct IVec2 {
    pub x: i32,
    pub y: i32,
}

impl IVec2 {
    pub fn new(x: i32, y: i32) -> (v: IVec2)
        ensures
            v == (IVec2 { x, y }),
    {
        IVec2 { x, y }
    }
}

/// An axis-aligned box of signed cells, both corners included.
#[derive(Clone, Copy, Debug, PartialEq, Eq, Structural)]
pub struct IAabb2d {
    pub min: IVec2,
    pub max: IVec2,
}

impl IAabb2d {
    pub open spec fn contains(&self, cell: IVec2) -> bool {
        self.min.x <= cell.x <= self.max.x && self.min.y <= cell.y <= self.max.y
    }

    pub fn is_inside(&self, cell: IVec2) -> (inside: bool)
        ensures
            inside == self.contains(cell),
    {
        self.min.x <= cell.x && cell.x <= self.max.x && self.min.y <= cell.y && cell.y
            <= self.max.y
    }
}

/// A rectangle of cells, both corners included. It is empty when `dest` lies left of or
/// below `origin`.
#[derive(Clone, Copy, Debug, PartialEq, Eq, Structural)]
pub struct FillArea {
    pub origin: UVec2,
    pub dest: UVec2,
}

impl FillArea {
    pub open spec fn contains(&self, cell: UVec2) -> bool {
        self.origin.x <= cell.x <= self.dest.x && self.origin.y <= cell.y <= self.dest.y
    }

    /// The rectangle of `extent.x` by `extent.y` cells whose lowest cell is `origin`, where
    /// it has at least one cell and its far corner is still a cell.
    pub open spec fn spec_new(origin: UVec2, extent: UVec2) -> Option<FillArea> {
        if extent.x == 0 || extent.y == 0 || origin.x + extent.x - 1 > u32::MAX || origin.y
            + extent.y - 1 > u32::MAX {
            None
        } else {
            Some(
                FillArea {
                    origin,
                    dest: UVec2 {
                        x: (origin.x + extent.x - 1) as u32,
                        y: (origin.y + extent.y - 1) as u32,
                    },
                },
            )
        }
    }

    pub fn new(origin: UVec2, extent: UVec2) -> (area: Option<FillArea>)
        ensures
            area == Self::spec_new(origin, extent),
    {
        if extent.x == 0 || extent.y == 0 {
            return None;
        }
        if extent.x - 1 > u32::MAX - origin.x || extent.y - 1 > u32::MAX - origin.y {
            return None;
        }
        Some(
            FillArea {
                origin,
                dest: UVec2 { x: origin.x + (extent.x - 1), y: origin.y + (extent.y - 1) },
            },
        )
    }

    pub fn is_inside(&self, cell: UVec2) -> (inside: bool)
        ensures
            inside == self.contains(cell),
    {
        self.origin.x <= cell.x && cell.x <= self.dest.x && self.origin.y <= cell.y && cell.y
            <= self.dest.y
    }
}

/// A point of world space, in half world units: `x` and `y` hold twice the coordinate, so
/// that the centre of a tile, which may fall on half a unit, is exact.
#[derive(Clone, Copy, Debug, PartialEq, Eq, Structural)]
pub struct WorldPoint {
    pub x: i128,
    pub y: i128,
}

/// An axis-aligned box of world space, edges included, in half world units.
#[derive(Clone, Copy, Debug, PartialEq, Eq, Structural)]
pub struct WorldAabb {
    pub min: WorldPoint,
    pub max: WorldPoint,
}

impl WorldAabb {
    /// Whether the two boxes share a point.
    pub open spec fn intersects(&self, other: WorldAabb) -> bool {
        &&& self.min.x <= other.max.x
        &&& other.min.x <= self.max.x
        &&& self.min.y <= other.max.y
        &&& other.min.y <= self.max.y
    }

    pub fn is_intersected(&self, other: &WorldAabb) -> (hit: bool)
        ensures
            hit == self.intersects(*other),
    {
        self.min.x <= other.max.x && other.min.x <= self.max.x && self.min.y <= other.max.y
            && other.min.y <= self.max.y
    }
}

/// The number of chunks of `chunk_size` cells that it takes to cover `cells` cells.
pub open spec fn chunks_to_cover(cells: int, chunk_size: int) -> int
    recommends
        cells >= 0,
        chunk_size > 0,
{
    (cells + chunk_size - 1) / chunk_size
}

/// The chunk that owns `cell`: each coordinate divided by the chunk size, rounded down.
pub open spec fn chunk_of(cell: UVec2, chunk_size: u32) -> UVec2
    recommends
        chunk_size > 0,
{
    UVec2 { x: cell.x / chunk_size, y: cell.y / chunk_size }
}

/// Where `cell` lies inside the chunk that owns it.
pub open spec fn offset_in_chunk(cell: UVec2, chunk_size: u32) -> UVec2
    recommends
        chunk_size > 0,
{
    UVec2 { x: cell.x % chunk_size, y: cell.y % chunk_size }
}

/// The position of `(column, row)` in a row-major table that is `width` wide.
pub open spec fn flat_index(column: int, row: int, width: int) -> int {
    row * width + column
}

pub proof fn lemma_flat_index_in_range(column: int, row: int, width: int, height: int)
    requires
        0 <= column < width,
        0 <= row < height,
    ensures
        0 <= flat_index(column, row, width) < width * height,
{
    assert(row * width <= (height - 1) * width) by (nonlinear_arith)
        requires
            0 <= row <= height - 1,
            width > 0,
    ;
    assert(0 <= row * width) by (nonlinear_arith)
        requires
            0 <= row,
            width > 0,
    ;
    assert((height - 1) * width + width == width * height) by (nonlinear_arith);
}

pub proof fn lemma_flat_index_splits(column: int, row: int, width: int)
    requires
        0 <= column < width,
        0 <= row,
    ensures
        flat_index(column, row, width) % width == column,
        flat_index(column, row, width) / width == row,
{
    vstd::arithmetic::div_mod::lemma_fundamental_div_mod_converse(
        flat_index(column, row, width),
        width,
        row,
        column,
    );
}

/// Two positions of a row-major table coincide only where column and row do.
pub proof fn lemma_flat_index_injective(c1: int, r1: int, c2: int, r2: int, width: int)
    requires
        0 <= c1 < width,
        0 <= c2 < width,
        0 <= r1,
        0 <= r2,
        flat_index(c1, r1, width) == flat_index(c2, r2, width),
    ensures
        c1 == c2,
        r1 == r2,
{
    lemma_flat_index_splits(c1, r1, width);
    lemma_flat_index_splits(c2, r2, width);
}

/// A coordinate is its chunk's first cell plus its offset, and the offset is less than the
/// chunk size.
pub proof fn lemma_chunk_split(v: int, chunk_size: int)
    requires
        0 <= v,
        chunk_size > 0,
    ensures
        v == (v / chunk_size) * chunk_size + v % chunk_size,
        0 <= v % chunk_size < chunk_size,
        0 <= v / chunk_size,
        v / chunk_size <= v,
{
    vstd::arithmetic::div_mod::lemma_fundamental_div_mod(v, chunk_size);
    vstd::arithmetic::div_mod::lemma_mod_bound(v, chunk_size);
    vstd::arithmetic::div_mod::lemma_div_pos_is_pos(v, chunk_size);
    assert(chunk_size * (v / chunk_size) == (v / chunk_size) * chunk_size) by (nonlinear_arith);
    assert(v / chunk_size <= (v / chunk_size) * chunk_size) by (nonlinear_arith)
        requires
            0 <= v / chunk_size,
            chunk_size >= 1,
    ;
}

/// A cell below `cells` lies in a chunk below `chunks_to_cover(cells, chunk_size)`.
pub proof fn lemma_chunk_in_cover(v: int, cells: int, chunk_size: int)
    requires
        0 <= v < cells,
        chunk_size > 0,
    ensures
        0 <= v / chunk_size < chunks_to_cover(cells, chunk_size),
{
    lemma_chunk_split(v, chunk_size);
    lemma_chunk_split(cells + chunk_size - 1, chunk_size);
    let q = v / chunk_size;
    let n = (cells + chunk_size - 1) / chunk_size;
    if q >= n {
        assert(q * chunk_size >= n * chunk_size) by (nonlinear_arith)
            requires
                q >= n,
                chunk_size > 0,
        ;
    }
}

/// The chunk and offset of a coordinate are the only pair that adds up to it.
pub proof fn lemma_chunk_unique(chunk: int, offset: int, chunk_size: int)
    requires
        0 <= chunk,
        0 <= offset < chunk_size,
    ensures
        (chunk * chunk_size + offset) / chunk_size == chunk,
        (chunk * chunk_size + offset) % chunk_size == offset,
{
    vstd::arithmetic::div_mod::lemma_fundamental_div_mod_converse(
        chunk * chunk_size + offset,
        chunk_size,
        chunk,
        offset,
    );
}

/// Rounding the quotient up is adding one where the division leaves a remainder.
pub proof fn lemma_chunks_to_cover(cells: int, chunk_size: int)
    requires
        0 <= cells,
        chunk_size > 0,
    ensures
        chunks_to_cover(cells, chunk_size) == if cells % chunk_size == 0 {
            cells / chunk_size
        } else {
            cells / chunk_size + 1
        },
        chunks_to_cover(cells, chunk_size) <= cells,
        0 <= chunks_to_cover(cells, chunk_size),
{
    lemma_chunk_split(cells, chunk_size);
    let q = cells / chunk_size;
    let r = cells % chunk_size;
    if r == 0 {
        lemma_chunk_unique(q, chunk_size - 1, chunk_size);
    } else {
        assert((q + 1) * chunk_size == q * chunk_size + chunk_size) by (nonlinear_arith);
        lemma_chunk_unique(q + 1, r - 1, chunk_size);
        assert(q + 1 <= q * chunk_size + r) by (nonlinear_arith)
            requires
                0 <= q,
                chunk_size >= 1,
                r >= 1,
        ;
    }
}

/// The number of chunks along each axis of a grid of `size` cells.
pub fn chunk_count(size: UVec2, chunk_size: u32) -> (count: UVec2)
    requires
        chunk_size > 0,
    ensures
        count.x == chunks_to_cover(size.x as int, chunk_size as int),
        count.y == chunks_to_cover(size.y as int, chunk_size as int),
{
    proof {
        lemma_chunks_to_cover(size.x as int, chunk_size as int);
        lemma_chunks_to_cover(size.y as int, chunk_size as int);
    }
    UVec2 {
        x: if size.x % chunk_size == 0 {
            size.x / chunk_size
        } else {
            size.x / chunk_size + 1
        },
        y: if size.y % chunk_size == 0 {
            size.y / chunk_size
        } else {
            size.y / chunk_size + 1
        },
    }
}

} // verus!
