//! The extraction stage: once a frame, the mirror takes what has changed in the tilemap.

use crate::math::UVec2;
use crate::render::chunk::RenderTilemap;
use crate::render::model::{lemma_named_before_all, lemma_named_before_step, named_before};
use crate::tilemap::map::Tilemap;
use vstd::prelude::*;

verus! {

/// Brings `mirror` up to date with `tilemap`. Each chunk of the tilemap that waits for
/// release has its buffer freed, and each chunk that waits for release or upload is taken
/// anew; afterwards no chunk of the tilemap waits.
pub fn extract_tilemap(tilemap: &mut Tilemap, mirror: &mut RenderTilemap)
    requires
        old(tilemap).wf(),
        old(mirror).wf(),
        old(mirror)@.matches(old(tilemap)@),
    ensures
        final(tilemap).wf(),
        final(mirror).wf(),
        final(tilemap)@ == old(tilemap)@.extracted(),
        final(mirror)@ == old(mirror)@.extract(old(tilemap)@),
{
    let ghost sim = tilemap@;
    let ghost start = mirror@;
    proof {
        tilemap.lemma_view_wf();
        mirror.lemma_view_wf();
        start.lemma_synced_none(sim);
        crate::math::lemma_chunks_to_cover(
            sim.settings.size.x as int,
            sim.settings.render_chunk_size as int,
        );
        crate::math::lemma_chunks_to_cover(
            sim.settings.size.y as int,
            sim.settings.render_chunk_size as int,
        );
    }
    let released = tilemap.released_chunks();
    let mut i: usize = 0;
    proof {
        assert(named_before(released@, 0) =~= Set::<UVec2>::empty());
    }
    while i < released.len()
        invariant
            i <= released.len(),
            tilemap.wf(),
            mirror.wf(),
            sim == tilemap@,
            sim.wf(),
            start.matches(sim),
            start.grid().wf(),
            forall|chunk: UVec2| released@.contains(chunk) <==> sim.released.contains(chunk),
            mirror@ == start.synced(
                sim,
                named_before(released@, i as int),
                named_before(released@, i as int),
            ),
        decreases released.len() - i,
    {
        let chunk = released[i];
        proof {
            assert(released@.contains(chunk));
            lemma_named_before_step(released@, i as int);
            start.lemma_synced_step(
                sim,
                named_before(released@, i as int),
                named_before(released@, i as int),
                chunk,
                true,
            );
        }
        mirror.sync_chunk(tilemap, chunk, true);
        i += 1;
    }
    let ghost freed = named_before(released@, released@.len() as int);
    let dirty = tilemap.dirty_chunks();
    let mut j: usize = 0;
    proof {
        assert(freed.union(named_before(dirty@, 0)) =~= freed);
    }
    while j < dirty.len()
        invariant
            j <= dirty.len(),
            tilemap.wf(),
            mirror.wf(),
            sim == tilemap@,
            sim.wf(),
            start.matches(sim),
            start.grid().wf(),
            forall|chunk: UVec2| dirty@.contains(chunk) <==> sim.dirty.contains(chunk),
            mirror@ == start.synced(sim, freed.union(named_before(dirty@, j as int)), freed),
        decreases dirty.len() - j,
    {
        let chunk = dirty[j];
        proof {
            assert(dirty@.contains(chunk));
            lemma_named_before_step(dirty@, j as int);
            start.lemma_synced_step(
                sim,
                freed.union(named_before(dirty@, j as int)),
                freed,
                chunk,
                false,
            );
            assert(freed.union(named_before(dirty@, j as int)).insert(chunk) =~= freed.union(
                named_before(dirty@, j + 1),
            ));
        }
        mirror.sync_chunk(tilemap, chunk, false);
        j += 1;
    }
    proof {
        lemma_named_before_all(released@);
        lemma_named_before_all(dirty@);
        assert(freed =~= sim.released);
        assert(freed.union(named_before(dirty@, dirty@.len() as int)) =~= sim.dirty.union(
            sim.released,
        ));
    }
    mirror.set_settings(tilemap.settings());
    let _ = tilemap.take_changes();
}

} // verus!
