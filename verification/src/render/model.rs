//! The mathematical model of the render side: the mirror of a tilemap, and the stages of a
//! frame as functions on it.

use crate::math::{chunk_of, chunks_to_cover, UVec2, WorldAabb, WorldPoint};
use crate::render::packed::{mirrored, PackedTile};
use crate::tilemap::grid::ChunkGrid;
use crate::math::IVec2;
use crate::tilemap::model::{Entity, LayerOpacities, TilemapSettings, TilemapView};
use crate::tilemap::tile::TileType;
use crate::tilemap::tile::TileView;
use crate::tilemap::world::cells_aabb;
use vstd::prelude::*;

verus! {

/// The rectangle of world space that a camera shows, edges included, in half world units.
#[derive(Clone, Copy, Debug, PartialEq, Eq, Structural)]
pub struct CameraView {
    pub min_x: i64,
    pub min_y: i64,
    pub max_x: i64,
    pub max_y: i64,
}

/// How chunks are culled: whether at all, and by how many half world units the camera's
/// rectangle is widened on every side before chunks are held against it.
#[derive(Clone, Copy, Debug, PartialEq, Eq, Structural)]
pub struct FrustumCulling {
    pub enabled: bool,
    pub margin: u32,
}

impl CameraView {
    /// The camera's rectangle, widened by `margin` on every side.
    pub open spec fn expanded(self, margin: u32) -> WorldAabb {
        WorldAabb {
            min: WorldPoint { x: (self.min_x - margin) as i128, y: (self.min_y - margin) as i128 },
            max: WorldPoint { x: (self.max_x + margin) as i128, y: (self.max_y + margin) as i128 },
        }
    }
}

/// One draw: the buffer of one chunk of one tilemap, with what it is drawn with and where it
/// sorts among the draws of a frame.
#[derive(Clone, Copy, Debug, PartialEq, Eq, Structural)]
pub struct DrawSubmission {
    pub tilemap: Entity,
    pub chunk: UVec2,
    /// The host's handle of the texture atlas, if the tilemap has one.
    pub texture: Option<u64>,
    /// The tilemap's z order: a draw with a higher key is drawn later, on top.
    pub sort_key: u32,
    /// The number of tiles in the chunk's buffer.
    pub instances: usize,
}

/// The drawn tiles among `slots`, in their order.
pub open spec fn compact(slots: Seq<Option<PackedTile>>) -> Seq<PackedTile>
    decreases slots.len(),
{
    if slots.len() == 0 {
        Seq::empty()
    } else if slots.last() is Some {
        compact(slots.drop_last()).push(slots.last().unwrap())
    } else {
        compact(slots.drop_last())
    }
}

/// What the renderer is told of a tilemap as a whole: where it lies and in which order it
/// is drawn, the shape and the sizes of its tiles, how opaque its layers are, and how its
/// tiles are flipped.
#[derive(Clone, Copy, Debug, PartialEq, Eq, Structural)]
pub struct TilemapUniform {
    pub translation: IVec2,
    pub z_order: u32,
    pub tile_type: TileType,
    pub tile_size: UVec2,
    pub tile_render_size: UVec2,
    pub layer_opacities: LayerOpacities,
    pub flip: u32,
}

/// The uniform block of a tilemap with these settings.
pub open spec fn uniform_of(settings: TilemapSettings) -> TilemapUniform {
    TilemapUniform {
        translation: settings.translation,
        z_order: settings.z_order,
        tile_type: settings.tile_type,
        tile_size: settings.tile_size,
        tile_render_size: settings.tile_render_size,
        layer_opacities: settings.layer_opacities,
        flip: settings.flip,
    }
}

/// The mathematical value of the render-side mirror of a tilemap.
pub struct RenderTilemapView {
    pub id: Entity,
    pub settings: TilemapSettings,
    /// Whether the host has confirmed that the texture atlas is loaded.
    pub texture_ready: bool,
    /// The drawn form of each mirrored tile.
    pub tiles: Map<UVec2, PackedTile>,
    /// The chunks whose buffer is older than their tiles.
    pub dirty: Set<UVec2>,
    /// The buffer of each chunk that has one.
    pub buffers: Map<UVec2, Seq<PackedTile>>,
    /// The uniform block that was last handed over for upload, if one ever was.
    pub uniform: Option<TilemapUniform>,
}

impl RenderTilemapView {
    pub open spec fn chunk_size(self) -> u32 {
        self.settings.render_chunk_size
    }

    pub open spec fn owner(self, cell: UVec2) -> UVec2 {
        chunk_of(cell, self.chunk_size())
    }

    /// The layout of the mirror's grid.
    pub open spec fn grid(self) -> ChunkGrid {
        ChunkGrid {
            size: self.settings.size,
            chunk_size: self.chunk_size(),
            count: UVec2 {
                x: chunks_to_cover(self.settings.size.x as int, self.chunk_size() as int) as u32,
                y: chunks_to_cover(self.settings.size.y as int, self.chunk_size() as int) as u32,
            },
        }
    }

    pub open spec fn get(self, cell: UVec2) -> Option<PackedTile> {
        if self.tiles.contains_key(cell) {
            Some(self.tiles[cell])
        } else {
            None
        }
    }

    /// The buffer of `chunk`, if it has one.
    pub open spec fn buffer(self, chunk: UVec2) -> Option<Seq<PackedTile>> {
        if self.buffers.contains_key(chunk) {
            Some(self.buffers[chunk])
        } else {
            None
        }
    }

    /// Whether the mirror holds a tile of `chunk`.
    pub open spec fn populated(self, chunk: UVec2) -> bool {
        exists|cell: UVec2| #[trigger] self.tiles.contains_key(cell) && self.owner(cell) == chunk
    }

    pub open spec fn wf(self) -> bool {
        &&& self.grid().wf()
        &&& forall|cell: UVec2| #[trigger]
            self.tiles.contains_key(cell) ==> self.grid().in_bounds(cell)
                && self.tiles[cell].index == cell
        &&& forall|chunk: UVec2| #[trigger] self.dirty.contains(chunk) ==> self.populated(chunk)
        &&& forall|chunk: UVec2| #[trigger]
            self.buffers.contains_key(chunk) ==> self.populated(chunk)
    }

    /// The mirror of a tilemap of which nothing has been taken yet.
    pub open spec fn empty(id: Entity, settings: TilemapSettings) -> RenderTilemapView {
        RenderTilemapView {
            id,
            settings,
            texture_ready: false,
            tiles: Map::empty(),
            dirty: Set::empty(),
            buffers: Map::empty(),
            uniform: None,
        }
    }

    /// Whether the uniform block is to be uploaded: none was yet, or the one that was is not
    /// that of the settings any more.
    pub open spec fn uniform_stale(self) -> bool {
        self.uniform != Some(uniform_of(self.settings))
    }

    /// The prepare stage for the tilemap as a whole: the uniform block of the settings counts
    /// as handed over.
    pub open spec fn prepare_uniform(self) -> RenderTilemapView {
        RenderTilemapView { uniform: Some(uniform_of(self.settings)), ..self }
    }

    /// Whether the mirror and `sim` describe the same grid.
    pub open spec fn matches(self, sim: TilemapView) -> bool {
        &&& self.settings.size == sim.settings.size
        &&& self.settings.render_chunk_size == sim.settings.render_chunk_size
    }

    /// Whether `chunk` of `sim` holds a tile that is drawn.
    pub open spec fn drawable(sim: TilemapView, chunk: UVec2) -> bool {
        exists|cell: UVec2| #[trigger]
            sim.tiles.contains_key(cell) && sim.tiles[cell].visible && sim.owner(cell) == chunk
    }

    /// The mirror after `chunk` was taken anew from `sim`: its tiles are those of `sim`, its
    /// buffer counts as out of date, and is freed where `release` asks for it or nothing of
    /// the chunk is drawn.
    pub open spec fn synced_one(self, sim: TilemapView, chunk: UVec2, release: bool)
        -> RenderTilemapView {
        RenderTilemapView {
            tiles: Map::new(
                |cell: UVec2|
                    if self.owner(cell) == chunk {
                        mirrored(sim.get(cell)) is Some
                    } else {
                        self.tiles.contains_key(cell)
                    },
                |cell: UVec2|
                    if self.owner(cell) == chunk {
                        mirrored(sim.get(cell)).unwrap()
                    } else {
                        self.tiles[cell]
                    },
            ),
            dirty: if Self::drawable(sim, chunk) {
                self.dirty.insert(chunk)
            } else {
                self.dirty.remove(chunk)
            },
            buffers: if release || !Self::drawable(sim, chunk) {
                self.buffers.remove(chunk)
            } else {
                self.buffers
            },
            ..self
        }
    }

    /// The mirror after each chunk of `chunks` was taken anew from `sim`, the buffers of the
    /// chunks of `released` being freed.
    pub open spec fn synced(self, sim: TilemapView, chunks: Set<UVec2>, released: Set<UVec2>)
        -> RenderTilemapView {
        RenderTilemapView {
            tiles: Map::new(
                |cell: UVec2|
                    if chunks.contains(self.owner(cell)) {
                        mirrored(sim.get(cell)) is Some
                    } else {
                        self.tiles.contains_key(cell)
                    },
                |cell: UVec2|
                    if chunks.contains(self.owner(cell)) {
                        mirrored(sim.get(cell)).unwrap()
                    } else {
                        self.tiles[cell]
                    },
            ),
            dirty: Set::new(
                |chunk: UVec2|
                    if chunks.contains(chunk) {
                        Self::drawable(sim, chunk)
                    } else {
                        self.dirty.contains(chunk)
                    },
            ),
            buffers: Map::new(
                |chunk: UVec2|
                    self.buffers.contains_key(chunk) && !(chunks.contains(chunk) && (
                    released.contains(chunk) || !Self::drawable(sim, chunk))),
                |chunk: UVec2| self.buffers[chunk],
            ),
            ..self
        }
    }

    /// The extraction stage: the mirror takes the settings of `sim` and, anew, every chunk of
    /// `sim` that waits for upload or release.
    pub open spec fn extract(self, sim: TilemapView) -> RenderTilemapView {
        RenderTilemapView {
            settings: sim.settings,
            ..self.synced(sim, sim.dirty.union(sim.released), sim.released)
        }
    }

    /// Whether the mirror is up to date with `sim` but for the chunks of `sim` that wait for
    /// upload or release.
    pub open spec fn tracks(self, sim: TilemapView) -> bool {
        &&& self.matches(sim)
        &&& forall|cell: UVec2|
            !sim.dirty.contains(sim.owner(cell)) && !sim.released.contains(sim.owner(cell))
                ==> #[trigger] self.get(cell) == mirrored(sim.get(cell))
    }

    /// What the mirror holds for each cell of `chunk`, row by row.
    pub open spec fn chunk_slots(self, chunk: UVec2) -> Seq<Option<PackedTile>> {
        Seq::new(
            (self.chunk_size() * self.chunk_size()) as nat,
            |t: int|
                match self.grid().slot_cell(chunk, t) {
                    Some(cell) => self.get(cell),
                    None => None,
                },
        )
    }

    /// The buffer that is built for `chunk`: its mirrored tiles, row by row, each row from
    /// its lowest column.
    pub open spec fn chunk_buffer(self, chunk: UVec2) -> Seq<PackedTile> {
        compact(self.chunk_slots(chunk))
    }

    /// Whether the prepare stage builds the buffer of `chunk`: the chunk is visible and
    /// holds tiles, and its buffer is out of date or missing.
    pub open spec fn needs_rebuild(self, visible: Set<UVec2>, chunk: UVec2) -> bool {
        &&& visible.contains(chunk)
        &&& self.populated(chunk)
        &&& (self.dirty.contains(chunk) || !self.buffers.contains_key(chunk))
    }

    /// The prepare stage: each chunk that needs it gets its buffer built from its tiles and
    /// counts as up to date; every other chunk keeps what it has.
    pub open spec fn prepare(self, visible: Set<UVec2>) -> RenderTilemapView {
        RenderTilemapView {
            dirty: Set::new(
                |chunk: UVec2| self.dirty.contains(chunk) && !self.needs_rebuild(visible, chunk),
            ),
            buffers: Map::new(
                |chunk: UVec2|
                    self.buffers.contains_key(chunk) || self.needs_rebuild(visible, chunk),
                |chunk: UVec2|
                    if self.needs_rebuild(visible, chunk) {
                        self.chunk_buffer(chunk)
                    } else {
                        self.buffers[chunk]
                    },
            ),
            ..self
        }
    }

    /// The world box of `chunk`: the box of the cells from its first cell to the first cell
    /// of the next chunk along each axis.
    pub open spec fn chunk_aabb(self, chunk: UVec2) -> WorldAabb {
        let size = self.chunk_size() as int;
        cells_aabb(
            self.settings,
            chunk.x * size,
            chunk.y * size,
            chunk.x * size + size,
            chunk.y * size + size,
        )
    }

    /// Whether the culling stage keeps `chunk` for `camera`: the chunk holds tiles and,
    /// where culling is on, its world box meets the camera's widened rectangle.
    pub open spec fn is_visible(self, camera: CameraView, culling: FrustumCulling, chunk: UVec2)
        -> bool {
        self.populated(chunk) && (!culling.enabled || self.chunk_aabb(chunk).intersects(
            camera.expanded(culling.margin),
        ))
    }

    /// The chunks that the culling stage keeps for `camera`.
    pub open spec fn visible(self, camera: CameraView, culling: FrustumCulling) -> Set<UVec2> {
        Set::new(|chunk: UVec2| self.is_visible(camera, culling, chunk))
    }

    /// Whether the texture that the tilemap draws with can be used: it has none, or the host
    /// has confirmed that it is loaded.
    pub open spec fn texture_usable(self) -> bool {
        self.settings.texture is None || self.texture_ready
    }

    /// Whether `chunk` can be drawn: it has a buffer that holds a tile, and the texture can
    /// be used.
    pub open spec fn can_draw(self, chunk: UVec2) -> bool {
        &&& self.buffers.contains_key(chunk)
        &&& self.buffers[chunk].len() > 0
        &&& self.texture_usable()
    }

    /// The draw of `chunk`.
    pub open spec fn submission(self, chunk: UVec2) -> DrawSubmission {
        DrawSubmission {
            tilemap: self.id,
            chunk,
            texture: match self.settings.texture {
                Some(texture) => Some(texture.texture),
                None => None,
            },
            sort_key: self.settings.z_order,
            instances: self.buffers[chunk].len() as usize,
        }
    }

    /// The queue stage: one draw for each chunk of `visible` that can be drawn, in the order
    /// of `visible`.
    pub open spec fn draw_list(self, visible: Seq<UVec2>) -> Seq<DrawSubmission>
        decreases visible.len(),
    {
        if visible.len() == 0 {
            Seq::empty()
        } else if self.can_draw(visible.last()) {
            self.draw_list(visible.drop_last()).push(self.submission(visible.last()))
        } else {
            self.draw_list(visible.drop_last())
        }
    }
}

/// The chunks that `list` names before position `i`.
pub open spec fn named_before(list: Seq<UVec2>, i: int) -> Set<UVec2> {
    Set::new(|chunk: UVec2| exists|j: int| 0 <= j < i && #[trigger] list[j] == chunk)
}

pub proof fn lemma_named_before_step(list: Seq<UVec2>, i: int)
    requires
        0 <= i < list.len(),
    ensures
        named_before(list, i + 1) == named_before(list, i).insert(list[i]),
        named_before(list, 0) == Set::<UVec2>::empty(),
{
    assert forall|chunk: UVec2| named_before(list, i + 1).contains(chunk) == named_before(
        list,
        i,
    ).insert(list[i]).contains(chunk) by {
        if named_before(list, i + 1).contains(chunk) {
            let j = choose|j: int| 0 <= j < i + 1 && #[trigger] list[j] == chunk;
            if j < i {
                assert(named_before(list, i).contains(chunk));
            }
        }
        if named_before(list, i).contains(chunk) {
            let j = choose|j: int| 0 <= j < i && #[trigger] list[j] == chunk;
            assert(0 <= j < i + 1 && list[j] == chunk);
        }
        if chunk == list[i] {
            assert(0 <= i < i + 1 && list[i] == chunk);
        }
    }
    assert(named_before(list, i + 1) =~= named_before(list, i).insert(list[i]));
    assert(named_before(list, 0) =~= Set::<UVec2>::empty());
}

/// The chunks that `list` names.
pub proof fn lemma_named_before_all(list: Seq<UVec2>)
    ensures
        forall|chunk: UVec2|
            named_before(list, list.len() as int).contains(chunk) <==> list.contains(chunk),
{
    assert forall|chunk: UVec2|
        named_before(list, list.len() as int).contains(chunk) <==> list.contains(chunk) by {}
}

impl RenderTilemapView {
    /// Taking no chunk anew leaves the mirror as it is.
    pub proof fn lemma_synced_none(self, sim: TilemapView)
        ensures
            self.synced(sim, Set::empty(), Set::empty()) == self,
    {
        let after = self.synced(sim, Set::empty(), Set::empty());
        assert(after.tiles =~= self.tiles);
        assert(after.dirty =~= self.dirty);
        assert(after.buffers =~= self.buffers);
    }

    /// Taking one more chunk anew.
    pub proof fn lemma_synced_step(
        self,
        sim: TilemapView,
        chunks: Set<UVec2>,
        released: Set<UVec2>,
        chunk: UVec2,
        release: bool,
    )
        requires
            forall|other: UVec2| released.contains(other) ==> chunks.contains(other),
        ensures
            self.synced(sim, chunks, released).synced_one(sim, chunk, release) == self.synced(
                sim,
                chunks.insert(chunk),
                if release {
                    released.insert(chunk)
                } else {
                    released
                },
            ),
    {
        let a = self.synced(sim, chunks, released).synced_one(sim, chunk, release);
        let b = self.synced(
            sim,
            chunks.insert(chunk),
            if release {
                released.insert(chunk)
            } else {
                released
            },
        );
        assert(a.tiles =~= b.tiles);
        assert(a.dirty =~= b.dirty);
        assert(a.buffers =~= b.buffers);
    }

    /// Preparing for no chunk leaves the mirror as it is.
    pub proof fn lemma_prepare_none(self)
        ensures
            self.prepare(Set::empty()) == self,
    {
        let after = self.prepare(Set::empty());
        assert(after.dirty =~= self.dirty);
        assert(after.buffers =~= self.buffers);
    }

    /// Preparing for one more chunk.
    pub proof fn lemma_prepare_step(self, visible: Set<UVec2>, chunk: UVec2)
        ensures
            self.prepare(visible).prepare(Set::empty().insert(chunk)) == self.prepare(
                visible.insert(chunk),
            ),
            self.prepare(visible).needs_rebuild(Set::empty().insert(chunk), chunk) == (
            self.needs_rebuild(visible.insert(chunk), chunk) && !self.needs_rebuild(
                visible,
                chunk,
            )),
            forall|other: UVec2|
                self.needs_rebuild(visible.insert(chunk), other) == (self.needs_rebuild(
                    visible,
                    other,
                ) || (other == chunk && self.needs_rebuild(visible.insert(chunk), chunk))),
    {
        let only = Set::<UVec2>::empty().insert(chunk);
        let first = self.prepare(visible);
        let a = first.prepare(only);
        let b = self.prepare(visible.insert(chunk));
        assert forall|other: UVec2| first.populated(other) == self.populated(other) by {}
        assert(first.chunk_slots(chunk) =~= self.chunk_slots(chunk));
        assert(a.dirty =~= b.dirty);
        assert(a.buffers =~= b.buffers);
    }

    /// After extraction the mirror of a tracked tilemap shows every cell as the tilemap has
    /// it, and goes on tracking the tilemap, which has handed its changes over.
    pub proof fn lemma_extract_tracks(self, sim: TilemapView, cell: UVec2)
        requires
            self.tracks(sim),
        ensures
            self.extract(sim).get(cell) == mirrored(sim.get(cell)),
            self.extract(sim).tracks(sim.extracted()),
    {
        let after = self.extract(sim);
        assert forall|c: UVec2| #[trigger] after.get(c) == mirrored(sim.get(c)) by {
            if !sim.dirty.union(sim.released).contains(self.owner(c)) {
                assert(self.get(c) == mirrored(sim.get(c)));
            }
        }
    }

    /// Extraction keeps the mirror well formed.
    pub proof fn lemma_extract_wf(self, sim: TilemapView)
        requires
            self.wf(),
            sim.wf(),
            self.matches(sim),
        ensures
            self.extract(sim).wf(),
    {
        let after = self.extract(sim);
        let chunks = sim.dirty.union(sim.released);
        assert forall|cell: UVec2| #[trigger] after.tiles.contains_key(cell) implies after.grid().in_bounds(
            cell,
        ) && after.tiles[cell].index == cell by {
            if !chunks.contains(self.owner(cell)) {
                assert(self.tiles.contains_key(cell));
            }
        }
        assert forall|chunk: UVec2|
            after.dirty.contains(chunk) || after.buffers.contains_key(
                chunk,
            ) implies after.populated(chunk) by {
            if chunks.contains(chunk) {
                assert(Self::drawable(sim, chunk));
                let cell = choose|cell: UVec2| #[trigger]
                    sim.tiles.contains_key(cell) && sim.tiles[cell].visible && sim.owner(cell)
                        == chunk;
                assert(after.tiles.contains_key(cell) && after.owner(cell) == chunk);
            } else {
                let cell = choose|cell: UVec2| #[trigger]
                    self.tiles.contains_key(cell) && self.owner(cell) == chunk;
                assert(after.tiles.contains_key(cell) && after.owner(cell) == chunk);
            }
        }
    }
}

impl RenderTilemapView {
    /// The draws of a frame are the draws of the chunks of `visible` that can be drawn.
    pub proof fn lemma_draw_list(self, visible: Seq<UVec2>)
        ensures
            forall|draw: DrawSubmission|
                #![trigger self.draw_list(visible).contains(draw)]
                self.draw_list(visible).contains(draw) <==> visible.contains(draw.chunk)
                    && self.can_draw(draw.chunk) && draw == self.submission(draw.chunk),
        decreases visible.len(),
    {
        let draws = self.draw_list(visible);
        if visible.len() == 0 {
            assert forall|draw: DrawSubmission| !draws.contains(draw) by {}
            assert forall|draw: DrawSubmission| !visible.contains(draw.chunk) by {}
        } else {
            let rest = visible.drop_last();
            let last = visible.last();
            self.lemma_draw_list(rest);
            let earlier = self.draw_list(rest);
            assert forall|draw: DrawSubmission|
                #![trigger draws.contains(draw)]
                draws.contains(draw) <==> visible.contains(draw.chunk) && self.can_draw(
                    draw.chunk,
                ) && draw == self.submission(draw.chunk) by {
                if draws.contains(draw) {
                    let i = choose|i: int| 0 <= i < draws.len() && draws[i] == draw;
                    if i < earlier.len() {
                        assert(earlier[i] == draw);
                        assert(earlier.contains(draw));
                        let j = choose|j: int| 0 <= j < rest.len() && rest[j] == draw.chunk;
                        assert(visible[j] == draw.chunk);
                    } else {
                        assert(draw == self.submission(last));
                        assert(visible[visible.len() - 1] == last);
                    }
                }
                if visible.contains(draw.chunk) && self.can_draw(draw.chunk) && draw
                    == self.submission(draw.chunk) {
                    let j = choose|j: int| 0 <= j < visible.len() && visible[j] == draw.chunk;
                    if j < rest.len() {
                        assert(rest[j] == draw.chunk);
                        assert(rest.contains(draw.chunk));
                        assert(earlier.contains(draw));
                        let i = choose|i: int| 0 <= i < earlier.len() && earlier[i] == draw;
                        assert(draws[i] == draw);
                    } else {
                        assert(draw.chunk == last);
                        assert(draws[draws.len() - 1] == draw);
                    }
                }
            }
        }
    }

    /// A chunk whose world box does not meet the camera's widened rectangle is not kept by
    /// the culling stage, and no draw of the frame is a draw of it.
    pub proof fn lemma_culled_chunk_not_drawn(
        self,
        camera: CameraView,
        culling: FrustumCulling,
        visible: Seq<UVec2>,
        chunk: UVec2,
    )
        requires
            culling.enabled,
            !self.chunk_aabb(chunk).intersects(camera.expanded(culling.margin)),
            forall|other: UVec2|
                #![trigger visible.contains(other)]
                visible.contains(other) <==> self.is_visible(camera, culling, other),
        ensures
            !self.visible(camera, culling).contains(chunk),
            forall|i: int|
                0 <= i < self.draw_list(visible).len() ==> (#[trigger] self.draw_list(
                    visible,
                )[i]).chunk != chunk,
    {
        self.lemma_draw_list(visible);
        assert forall|i: int| 0 <= i < self.draw_list(visible).len() implies (
        #[trigger] self.draw_list(visible)[i]).chunk != chunk by {
            assert(self.draw_list(visible).contains(self.draw_list(visible)[i]));
        }
    }

    /// A chunk whose buffer is up to date keeps it through the prepare stage, whether it is
    /// visible or not: a chunk that comes back into view is drawn from the buffer it had.
    pub proof fn lemma_clean_chunk_keeps_buffer(self, visible: Set<UVec2>, chunk: UVec2)
        requires
            !self.dirty.contains(chunk),
            self.buffers.contains_key(chunk),
        ensures
            !self.needs_rebuild(visible, chunk),
            self.prepare(visible).buffer(chunk) == self.buffer(chunk),
    {
    }

    /// A chunk that is not visible keeps its state through the prepare stage: a buffer that
    /// is out of date stays so until the chunk is seen again.
    pub proof fn lemma_hidden_chunk_stays(self, visible: Set<UVec2>, chunk: UVec2)
        requires
            !visible.contains(chunk),
        ensures
            self.prepare(visible).dirty.contains(chunk) == self.dirty.contains(chunk),
            self.prepare(visible).buffer(chunk) == self.buffer(chunk),
    {
    }

    /// After the prepare stage no visible chunk that holds tiles is out of date or without a
    /// buffer, and the buffer of a chunk that was built holds the chunk's tiles row by row.
    pub proof fn lemma_prepared(self, visible: Set<UVec2>, chunk: UVec2)
        requires
            visible.contains(chunk),
            self.populated(chunk),
        ensures
            !self.prepare(visible).dirty.contains(chunk),
            self.prepare(visible).buffers.contains_key(chunk),
            self.needs_rebuild(visible, chunk) ==> self.prepare(visible).buffers[chunk]
                == self.chunk_buffer(chunk),
    {
    }

    /// When one tile is set in a tilemap whose mirror is wholly up to date, the next frame
    /// builds the buffer of the chunk that owns the tile and of no other chunk: every other
    /// chunk keeps its buffer.
    pub proof fn lemma_single_write_rebuilds_one_chunk(
        self,
        sim: TilemapView,
        tile: TileView,
        visible: Set<UVec2>,
        chunk: UVec2,
    )
        requires
            self.matches(sim),
            sim.dirty == Set::<UVec2>::empty(),
            sim.released == Set::<UVec2>::empty(),
            forall|other: UVec2|
                self.populated(other) ==> !self.dirty.contains(other)
                    && self.buffers.contains_key(other),
            sim.in_bounds(tile.index),
        ensures
            self.extract(sim.set(tile)).needs_rebuild(visible, chunk) ==> chunk == sim.owner(
                tile.index,
            ),
            chunk != sim.owner(tile.index) ==> self.extract(sim.set(tile)).prepare(
                visible,
            ).buffer(chunk) == self.buffer(chunk),
            tile.visible && visible.contains(sim.owner(tile.index)) ==> self.extract(
                sim.set(tile),
            ).needs_rebuild(visible, sim.owner(tile.index)),
    {
        let written = sim.set(tile);
        let after = self.extract(written);
        let owner = sim.owner(tile.index);
        if chunk != owner {
            if after.populated(chunk) {
                let cell = choose|cell: UVec2| #[trigger]
                    after.tiles.contains_key(cell) && after.owner(cell) == chunk;
                assert(self.populated(chunk));
            }
        }
        if tile.visible {
            assert(written.tiles.contains_key(tile.index) && written.tiles[tile.index].visible
                && written.owner(tile.index) == owner);
            assert(after.tiles.contains_key(tile.index) && after.owner(tile.index) == owner);
        }
    }
}

impl TilemapView {
    /// A mirror that tracks a tilemap tracks it after a tile is set: the chunk that changed
    /// waits for upload.
    pub proof fn lemma_set_keeps_tracked(self, mirror: RenderTilemapView, tile: TileView)
        requires
            mirror.tracks(self),
        ensures
            mirror.tracks(self.set(tile)),
    {
        let after = self.set(tile);
        assert forall|cell: UVec2|
            !after.dirty.contains(after.owner(cell)) && !after.released.contains(
                after.owner(cell),
            ) implies #[trigger] mirror.get(cell) == mirrored(after.get(cell)) by {}
    }

    /// A mirror that tracks a tilemap tracks it after a tile is removed.
    pub proof fn lemma_remove_keeps_tracked(self, mirror: RenderTilemapView, cell: UVec2)
        requires
            mirror.tracks(self),
        ensures
            mirror.tracks(self.remove(cell)),
    {
        let after = self.remove(cell);
        assert forall|c: UVec2|
            !after.dirty.contains(after.owner(c)) && !after.released.contains(after.owner(c))
                implies #[trigger] mirror.get(c) == mirrored(after.get(c)) by {}
    }

    /// A mirror that tracks a tilemap tracks it after a rectangle is filled.
    pub proof fn lemma_fill_rect_keeps_tracked(
        self,
        mirror: RenderTilemapView,
        area: crate::math::FillArea,
        tile: TileView,
    )
        requires
            mirror.tracks(self),
        ensures
            mirror.tracks(self.fill_rect(area, tile)),
    {
        let after = self.fill_rect(area, tile);
        assert forall|c: UVec2|
            !after.dirty.contains(after.owner(c)) && !after.released.contains(after.owner(c))
                implies #[trigger] mirror.get(c) == mirrored(after.get(c)) by {}
    }

    /// A mirror that tracks a tilemap tracks it after its tiles are changed in a rectangle.
    pub proof fn lemma_update_rect_keeps_tracked(
        self,
        mirror: RenderTilemapView,
        area: crate::math::FillArea,
        updater: crate::tilemap::tile::TileUpdater,
    )
        requires
            mirror.tracks(self),
        ensures
            mirror.tracks(self.update_rect(area, updater)),
    {
        let after = self.update_rect(area, updater);
        assert forall|c: UVec2|
            !after.dirty.contains(after.owner(c)) && !after.released.contains(after.owner(c))
                implies #[trigger] mirror.get(c) == mirrored(after.get(c)) by {
            assert(mirror.get(c) == mirrored(self.get(c)));
            if self.touches(area, c) {
                assert(after.dirty.contains(after.owner(c)));
            }
        }
    }

    /// A mirror that tracks a tilemap tracks it after it is despawned: every chunk that held
    /// a tile waits for release.
    pub proof fn lemma_despawn_keeps_tracked(self, mirror: RenderTilemapView)
        requires
            mirror.tracks(self),
        ensures
            mirror.tracks(self.despawn()),
    {
        let after = self.despawn();
        assert forall|c: UVec2|
            !after.dirty.contains(after.owner(c)) && !after.released.contains(after.owner(c))
                implies #[trigger] mirror.get(c) == mirrored(after.get(c)) by {}
    }
}

} // verus!
