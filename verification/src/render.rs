//! The render side: a mirror of the tile grid, and the stages that bring it up to date, cull
//! it, build its buffers and list its draws.

use crate::math::UVec2;
use crate::render::chunk::RenderTilemap;
use crate::render::culling::cull_tilemap;
use crate::render::extract::extract_tilemap;
use crate::render::model::{
    uniform_of, CameraView, DrawSubmission, FrustumCulling, TilemapUniform,
};
use crate::render::prepare::prepare_tilemap;
use crate::render::queue::queue_tilemap;
use crate::tilemap::map::Tilemap;
use vstd::prelude::*;

pub mod chunk;
pub mod culling;
pub mod extract;
pub mod model;
pub mod packed;
pub mod prepare;
pub mod queue;

verus! {

/// What one frame of one tilemap and one camera comes to.
pub struct Frame {
    /// The uniform block of the tilemap, where it is to be uploaded.
    pub uniform: Option<TilemapUniform>,
    /// The chunks that the camera sees, row by row of the chunk grid.
    pub visible: Vec<UVec2>,
    /// The chunks whose buffer was built in this frame, to be uploaded.
    pub rebuilt: Vec<UVec2>,
    /// The draws of the frame, in the order of `visible`.
    pub draws: Vec<DrawSubmission>,
}

/// Runs the stages of a frame in their order: extraction, culling, prepare, queue.
#[derive(Clone, Copy, Debug)]
pub struct EntiTilesRendererPlugin {
    pub culling: FrustumCulling,
}

impl Default for EntiTilesRendererPlugin {
    /// Culling is on, with no margin.
    fn default() -> (plugin: EntiTilesRendererPlugin)
        ensures
            plugin.culling == (FrustumCulling { enabled: true, margin: 0 }),
    {
        EntiTilesRendererPlugin { culling: FrustumCulling { enabled: true, margin: 0 } }
    }
}

impl EntiTilesRendererPlugin {
    /// One frame: `mirror` takes the changes of `tilemap`, the chunks that `camera` sees are
    /// picked, the uniform block and the buffers of those chunks are brought up to date, and
    /// their draws are listed.
    pub fn run_frame(&self, tilemap: &mut Tilemap, mirror: &mut RenderTilemap, camera: &CameraView)
        -> (frame: Frame)
        requires
            old(tilemap).wf(),
            old(mirror).wf(),
            old(mirror)@.matches(old(tilemap)@),
        ensures
            final(tilemap).wf(),
            final(mirror).wf(),
            final(tilemap)@ == old(tilemap)@.extracted(),
            forall|chunk: UVec2|
                #![trigger frame.visible@.contains(chunk)]
                frame.visible@.contains(chunk) <==> old(mirror)@.extract(
                    old(tilemap)@,
                ).is_visible(*camera, self.culling, chunk),
            final(mirror)@ == old(mirror)@.extract(old(tilemap)@).prepare_uniform().prepare(
                frame.visible@.to_set(),
            ),
            frame.uniform == (if old(mirror)@.extract(old(tilemap)@).uniform_stale() {
                Some(uniform_of(old(tilemap)@.settings))
            } else {
                None
            }),
            frame.rebuilt@.no_duplicates(),
            forall|chunk: UVec2|
                #![trigger frame.rebuilt@.contains(chunk)]
                frame.rebuilt@.contains(chunk) <==> old(mirror)@.extract(
                    old(tilemap)@,
                ).needs_rebuild(frame.visible@.to_set(), chunk),
            frame.draws@ == final(mirror)@.draw_list(frame.visible@),
    {
        extract_tilemap(tilemap, mirror);
        let uniform = mirror.prepare_uniform();
        let visible = cull_tilemap(mirror, camera, &self.culling);
        let rebuilt = prepare_tilemap(mirror, &visible);
        let draws = queue_tilemap(mirror, &visible);
        Frame { uniform, visible, rebuilt, draws }
    }
}

} // verus!
