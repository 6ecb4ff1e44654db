//! A buffer of tiles that are not part of a tilemap yet, by signed cell.

use crate::math::{IAabb2d, IVec2};
use crate::tilemap::tile::{
    TileBuilder, TileLayer, TileLayerPosition, TileTexture, TileTextureView, TileView,
};
use vstd::prelude::*;

verus! {

/// The mathematical value of a [`TileBuffer`].
pub struct TileBufferView {
    pub aabb: IAabb2d,
    /// The description of the tile of each cell that has one.
    pub tiles: Map<IVec2, TileView>,
}

/// Tiles by signed cell, in the order in which their cells were first written. The box is
/// what the maker of the buffer says of its extent; tiles may lie outside it.
#[derive(Debug)]
pub struct TileBuffer {
    pub(crate) aabb: IAabb2d,
    pub(crate) cells: Vec<IVec2>,
    pub(crate) tiles: Vec<TileBuilder>,
}

/// What became of a layer that was to be put on top of the tile of a cell.
#[derive(Clone, Copy, Debug, PartialEq, Eq, Structural)]
pub enum Stacked {
    /// The layer lies on top of the layers that the tile had.
    OnTop,
    /// The cell holds no tile: nothing has changed.
    NoTile,
    /// The tile shows an animation: nothing has changed.
    Animated,
}

impl TileBuffer {
    /// Each tile has its cell, and no cell is named twice.
    pub closed spec fn wf(&self) -> bool {
        &&& self.cells.len() == self.tiles.len()
        &&& self.cells@.no_duplicates()
    }

    /// The position of `cell` among the cells of the buffer.
    pub(crate) open spec fn position(&self, cell: IVec2) -> int {
        self.cells@.index_of(cell)
    }

    /// The number of tiles.
    pub closed spec fn spec_len(&self) -> nat {
        self.cells@.len()
    }

    /// The cell of the tile at position `i`.
    pub closed spec fn spec_cell(&self, i: int) -> IVec2 {
        self.cells@[i]
    }
}

impl View for TileBuffer {
    type V = TileBufferView;

    closed spec fn view(&self) -> TileBufferView {
        TileBufferView {
            aabb: self.aabb,
            tiles: Map::new(
                |cell: IVec2| self.cells@.contains(cell),
                |cell: IVec2| self.tiles@[self.position(cell)]@,
            ),
        }
    }
}

impl TileBufferView {
    pub open spec fn get(self, cell: IVec2) -> Option<TileView> {
        if self.tiles.contains_key(cell) {
            Some(self.tiles[cell])
        } else {
            None
        }
    }

    /// What becomes of `layer` when it is to be put on top of the tile of `cell`.
    pub open spec fn stack_outcome(self, cell: IVec2) -> Stacked {
        match self.get(cell) {
            None => Stacked::NoTile,
            Some(tile) => match tile.texture {
                TileTextureView::Static(_) => Stacked::OnTop,
                TileTextureView::Animated(_) => Stacked::Animated,
            },
        }
    }

    /// The buffer after `layer` was to be put on top of the tile of `cell`.
    pub open spec fn stack(self, cell: IVec2, layer: TileLayer) -> TileBufferView {
        if self.stack_outcome(cell) == Stacked::OnTop {
            TileBufferView {
                tiles: self.tiles.insert(
                    cell,
                    TileView {
                        texture: self.tiles[cell].texture.with_layer_at(
                            TileLayerPosition::Top,
                            layer,
                        ),
                        ..self.tiles[cell]
                    },
                ),
                ..self
            }
        } else {
            self
        }
    }
}

impl TileBuffer {
    /// An empty buffer.
    pub fn new(aabb: IAabb2d) -> (buffer: TileBuffer)
        ensures
            buffer.wf(),
            buffer@ == (TileBufferView { aabb, tiles: Map::empty() }),
            buffer.spec_len() == 0,
    {
        let buffer = TileBuffer { aabb, cells: Vec::new(), tiles: Vec::new() };
        proof {
            assert(buffer@.tiles =~= Map::<IVec2, TileView>::empty());
        }
        buffer
    }

    /// The cells of the buffer are the cells of its tiles, and the tile at a position is the
    /// tile of the cell at that position.
    pub proof fn lemma_entries(&self, i: int)
        requires
            self.wf(),
            0 <= i < self.spec_len(),
        ensures
            self@.tiles.contains_key(self.spec_cell(i)),
            forall|j: int|
                0 <= j < self.spec_len() && j != i ==> self.spec_cell(j) != self.spec_cell(i),
            forall|cell: IVec2|
                self@.tiles.contains_key(cell) ==> exists|j: int|
                    0 <= j < self.spec_len() && #[trigger] self.spec_cell(j) == cell,
    {
        assert forall|cell: IVec2| self@.tiles.contains_key(cell) implies exists|j: int|
            0 <= j < self.spec_len() && #[trigger] self.spec_cell(j) == cell by {
            let j = self.cells@.index_of(cell);
            assert(self.spec_cell(j) == cell);
        }
    }

    fn find(&self, cell: IVec2) -> (found: Option<usize>)
        requires
            self.wf(),
        ensures
            match found {
                Some(i) => i < self.cells.len() && self.cells@[i as int] == cell
                    && self.position(cell) == i,
                None => !self.cells@.contains(cell),
            },
    {
        let mut i: usize = 0;
        while i < self.cells.len()
            invariant
                self.wf(),
                i <= self.cells.len(),
                forall|j: int| 0 <= j < i ==> self.cells@[j] != cell,
            decreases self.cells.len() - i,
        {
            if self.cells[i] == cell {
                return Some(i);
            }
            i += 1;
        }
        None
    }

    /// The box that the buffer was made with.
    pub fn aabb(&self) -> (aabb: IAabb2d)
        ensures
            aabb == self@.aabb,
    {
        self.aabb
    }

    /// The number of tiles.
    pub fn len(&self) -> (len: usize)
        requires
            self.wf(),
        ensures
            len == self.spec_len(),
    {
        self.cells.len()
    }

    /// The cell and the tile at position `i`.
    pub fn entry(&self, i: usize) -> (entry: (IVec2, &TileBuilder))
        requires
            self.wf(),
            i < self.spec_len(),
        ensures
            entry.0 == self.spec_cell(i as int),
            self@.get(entry.0) == Some(entry.1@),
    {
        (self.cells[i], &self.tiles[i])
    }

    /// The tile of `cell`, if it has one.
    pub fn get(&self, cell: IVec2) -> (tile: Option<&TileBuilder>)
        requires
            self.wf(),
        ensures
            match tile {
                Some(t) => self@.get(cell) == Some(t@),
                None => self@.get(cell) is None,
            },
    {
        match self.find(cell) {
            Some(i) => Some(&self.tiles[i]),
            None => None,
        }
    }

    /// Sets the tile of `cell`, in place of the tile that it has.
    pub fn set(&mut self, cell: IVec2, tile: TileBuilder)
        requires
            old(self).wf(),
        ensures
            final(self).wf(),
            final(self)@ == (TileBufferView {
                tiles: old(self)@.tiles.insert(cell, tile@),
                ..old(self)@
            }),
    {
        let ghost target = old(self)@.tiles.insert(cell, tile@);
        match self.find(cell) {
            Some(i) => {
                self.tiles[i] = tile;
                proof {
                    assert(self@.tiles =~= target);
                }
            },
            None => {
                self.cells.push(cell);
                self.tiles.push(tile);
                proof {
                    let before = old(self).cells@;
                    let after = self.cells@;
                    assert forall|a: int, b: int|
                        0 <= a < after.len() && 0 <= b < after.len() && a != b implies after[a]
                        != after[b] by {
                        if a < before.len() && b < before.len() {
                        } else if a < before.len() {
                            assert(before.contains(before[a]));
                        } else {
                            assert(before.contains(before[b]));
                        }
                    }
                    assert forall|c: IVec2| after.contains(c) <==> before.contains(c) || c
                        == cell by {
                        if after.contains(c) {
                            let j = choose|j: int| 0 <= j < after.len() && after[j] == c;
                            if j < before.len() {
                                assert(before[j] == c);
                            }
                        }
                        if before.contains(c) {
                            let j = choose|j: int| 0 <= j < before.len() && before[j] == c;
                            assert(after[j] == c);
                        }
                        if c == cell {
                            assert(after[before.len() as int] == c);
                        }
                    }
                    assert forall|c: IVec2| after.contains(c) implies self.tiles@[after.index_of(
                        c,
                    )]@ == target[c] by {
                        let j = after.index_of(c);
                        assert(after[j] == c);
                        if c == cell {
                            assert(after[before.len() as int] == c);
                        } else {
                            assert(before.contains(c));
                            let p = before.index_of(c);
                            assert(after[p] == c);
                        }
                    }
                    assert(self@.tiles =~= target);
                }
            },
        }
    }

    /// Puts `layer` on top of the tile of `cell`, where the cell holds a tile that shows
    /// layers, and says what became of the layer.
    pub fn stack(&mut self, cell: IVec2, layer: TileLayer) -> (outcome: Stacked)
        requires
            old(self).wf(),
        ensures
            final(self).wf(),
            outcome == old(self)@.stack_outcome(cell),
            final(self)@ == old(self)@.stack(cell, layer),
    {
        let i: usize = match self.find(cell) {
            Some(i) => i,
            None => {
                return Stacked::NoTile;
            },
        };
        let ghost before = self.tiles@[i as int]@;
        let animated: bool = match &self.tiles[i].texture {
            TileTexture::Static(_) => false,
            TileTexture::Animated(_) => true,
        };
        if animated {
            return Stacked::Animated;
        }
        match &mut self.tiles[i].texture {
            TileTexture::Static(layers) => {
                layers.push(layer);
            },
            TileTexture::Animated(_) => {},
        }
        proof {
            assert(self.tiles@[i as int]@ == (TileView {
                texture: before.texture.with_layer_at(TileLayerPosition::Top, layer),
                ..before
            }));
            assert(self@.tiles =~= old(self)@.stack(cell, layer).tiles);
        }
        Stacked::OnTop
    }
}

} // verus!
