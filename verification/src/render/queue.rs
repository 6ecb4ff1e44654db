//! The queue stage: one draw for each visible chunk that can be drawn. The stage changes
//! nothing.

use crate::math::UVec2;
use crate::render::chunk::RenderTilemap;
use crate::render::model::DrawSubmission;
use vstd::prelude::*;

verus! {

/// Lists the draws of `mirror` for the chunks of `visible`, in their order: one for each
/// chunk whose buffer holds a tile, and none while the texture cannot be used.
pub fn queue_tilemap(mirror: &RenderTilemap, visible: &Vec<UVec2>) -> (draws: Vec<DrawSubmission>)
    requires
        mirror.wf(),
    ensures
        draws@ == mirror@.draw_list(visible@),
{
    let mut draws: Vec<DrawSubmission> = Vec::new();
    let settings = mirror.settings();
    let usable: bool = mirror.is_texture_usable();
    let texture: Option<u64> = match settings.texture {
        Some(texture) => Some(texture.texture),
        None => None,
    };
    let mut i: usize = 0;
    while i < visible.len()
        invariant
            i <= visible.len(),
            mirror.wf(),
            settings == mirror@.settings,
            usable == mirror@.texture_usable(),
            texture == mirror@.submission(UVec2 { x: 0, y: 0 }).texture,
            draws@ == mirror@.draw_list(visible@.subrange(0, i as int)),
        decreases visible.len() - i,
    {
        let chunk = visible[i];
        proof {
            assert(visible@.subrange(0, i + 1).drop_last() =~= visible@.subrange(0, i as int));
        }
        if usable {
            match mirror.buffer(chunk) {
                Some(buffer) => {
                    if buffer.len() > 0 {
                        draws.push(
                            DrawSubmission {
                                tilemap: mirror.get_id(),
                                chunk,
                                texture,
                                sort_key: settings.z_order,
                                instances: buffer.len(),
                            },
                        );
                    }
                },
                None => {},
            }
        }
        i += 1;
    }
    proof {
        assert(visible@.subrange(0, visible.len() as int) =~= visible@);
    }
    draws
}

} // verus!
