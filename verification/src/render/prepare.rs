//! The prepare stage: the buffers of the visible chunks are brought up to date.

use crate::math::UVec2;
use crate::render::chunk::RenderTilemap;
use crate::render::model::{lemma_named_before_all, lemma_named_before_step, named_before};
use crate::render::packed::PackedTile;
use crate::tilemap::animation::{frame_of, AnimationError, AnimationView, TilemapAnimations};
use crate::tilemap::tile::TileLayer;
use vstd::prelude::*;

verus! {

/// Builds the buffer of each chunk of `visible` that holds tiles and whose buffer is out of
/// date or missing, and names the chunks whose buffer was built, each once. Every other
/// chunk keeps the buffer that it has.
pub fn prepare_tilemap(mirror: &mut RenderTilemap, visible: &Vec<UVec2>) -> (rebuilt: Vec<UVec2>)
    requires
        old(mirror).wf(),
    ensures
        final(mirror).wf(),
        final(mirror)@ == old(mirror)@.prepare(visible@.to_set()),
        rebuilt@.no_duplicates(),
        forall|chunk: UVec2|
            rebuilt@.contains(chunk) <==> old(mirror)@.needs_rebuild(visible@.to_set(), chunk),
{
    let ghost start = mirror@;
    let mut rebuilt: Vec<UVec2> = Vec::new();
    let mut i: usize = 0;
    proof {
        lemma_named_before_step_zero(visible@);
        start.lemma_prepare_none();
    }
    while i < visible.len()
        invariant
            i <= visible.len(),
            mirror.wf(),
            mirror@ == start.prepare(named_before(visible@, i as int)),
            rebuilt@.no_duplicates(),
            forall|chunk: UVec2|
                rebuilt@.contains(chunk) <==> start.needs_rebuild(
                    named_before(visible@, i as int),
                    chunk,
                ),
        decreases visible.len() - i,
    {
        let chunk = visible[i];
        proof {
            lemma_named_before_step(visible@, i as int);
            start.lemma_prepare_step(named_before(visible@, i as int), chunk);
        }
        let ghost before = rebuilt@;
        if mirror.rebuild_chunk(chunk) {
            rebuilt.push(chunk);
        }
        proof {
            let next = named_before(visible@, i + 1);
            assert forall|other: UVec2|
                rebuilt@.contains(other) <==> start.needs_rebuild(next, other) by {
                if before.contains(other) {
                    let k = choose|k: int| 0 <= k < before.len() && before[k] == other;
                    assert(rebuilt@[k] == other);
                }
                if rebuilt@.len() > before.len() && other == chunk {
                    assert(rebuilt@[before.len() as int] == other);
                }
            }
            assert forall|a: int, b: int|
                0 <= a < rebuilt@.len() && 0 <= b < rebuilt@.len() && a != b implies rebuilt@[a]
                != rebuilt@[b] by {
                if a < before.len() && b < before.len() {
                } else if a < before.len() {
                    assert(before.contains(before[a]));
                } else {
                    assert(before.contains(before[b]));
                }
            }
        }
        i += 1;
    }
    proof {
        lemma_named_before_all(visible@);
        assert(named_before(visible@, visible@.len() as int) =~= visible@.to_set());
    }
    rebuilt
}

proof fn lemma_named_before_step_zero(list: Seq<UVec2>)
    ensures
        named_before(list, 0) == Set::<UVec2>::empty(),
{
}

/// A tile of a buffer as it is drawn once `elapsed` ticks have gone by: a tile that shows an
/// animation has the texture of the animation's current frame as its lowest layer; any other
/// tile is as it is in the buffer.
pub open spec fn animated(tile: PackedTile, table: Seq<AnimationView>, elapsed: u64)
    -> PackedTile {
    match tile.animation {
        Some(animation) => PackedTile {
            layers: [
                TileLayer {
                    texture_index: frame_of(table[animation as int], elapsed) as i32,
                    flip: tile.layers[0].flip,
                },
                tile.layers[1],
                tile.layers[2],
                tile.layers[3],
            ],
            ..tile
        },
        None => tile,
    }
}

/// Whether the tile at position `i` of `buffer` shows an animation that is not among the
/// `count` registered ones, and is the first tile of the buffer to do so.
pub open spec fn first_unregistered(buffer: Seq<PackedTile>, count: nat, i: int) -> bool {
    &&& 0 <= i < buffer.len()
    &&& buffer[i].animation is Some
    &&& buffer[i].animation.unwrap() >= count
    &&& forall|j: int|
        0 <= j < i ==> (#[trigger] buffer[j]).animation is None || buffer[j].animation.unwrap()
            < count
}

/// The tiles of `buffer` as they are drawn once `elapsed` ticks have gone by. This is done
/// in every frame, whether the buffer was built in it or not. Where a tile shows an
/// animation that was never registered, the first such animation is named.
pub fn animate_buffer(buffer: &Vec<PackedTile>, animations: &TilemapAnimations, elapsed: u64)
    -> (patched: Result<Vec<PackedTile>, AnimationError>)
    requires
        animations.wf(),
    ensures
        match patched {
            Ok(tiles) => {
                &&& tiles@.len() == buffer@.len()
                &&& forall|i: int|
                    0 <= i < buffer@.len() ==> {
                        &&& (buffer@[i].animation is None || buffer@[i].animation.unwrap()
                            < animations@.len())
                        &&& #[trigger] tiles@[i] == animated(buffer@[i], animations@, elapsed)
                    }
            },
            Err(error) => exists|i: int|
                first_unregistered(buffer@, animations@.len(), i) && error == (
                AnimationError::Missing { animation: buffer@[i].animation.unwrap() }),
        },
{
    let mut tiles: Vec<PackedTile> = Vec::new();
    let mut i: usize = 0;
    while i < buffer.len()
        invariant
            animations.wf(),
            i <= buffer.len(),
            tiles@.len() == i,
            forall|j: int|
                0 <= j < i ==> {
                    &&& ((#[trigger] buffer@[j]).animation is None || buffer@[j].animation.unwrap()
                        < animations@.len())
                    &&& tiles@[j] == animated(buffer@[j], animations@, elapsed)
                },
        decreases buffer.len() - i,
    {
        let tile: PackedTile = buffer[i];
        let drawn: PackedTile = match tile.animation {
            Some(animation) => {
                match animations.frame_at(animation, elapsed) {
                    Ok(texture) => {
                        PackedTile {
                            index: tile.index,
                            layers: [
                                TileLayer {
                                    texture_index: #[verifier::truncate] (texture as i32),
                                    flip: tile.layers[0].flip,
                                },
                                tile.layers[1],
                                tile.layers[2],
                                tile.layers[3],
                            ],
                            animation: tile.animation,
                            color: tile.color,
                        }
                    },
                    Err(error) => {
                        proof {
                            assert(first_unregistered(buffer@, animations@.len(), i as int));
                        }
                        return Err(error);
                    },
                }
            },
            None => tile,
        };
        tiles.push(drawn);
        i += 1;
    }
    Ok(tiles)
}

} // verus!
