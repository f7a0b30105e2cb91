//! Terrain columns: stone, a few layers of dirt, and grass or dirt on top.
use vstd::prelude::*;
use crate::voxel::block::{BlockId, AIR, STONE, DIRT, GRASS};
use crate::voxel::chunk::{Chunk, ChunkPos, block_index, lemma_block_index_bounds, in_chunk, CHUNK_SIZE_X, CHUNK_SIZE_Z};

verus! {

/// Surfaces at or below this height are topped with dirt instead of grass.
pub const SEA_LEVEL: i32 = 42;

/// A column's surface height clamped into `[1, 250]`.
pub open spec fn clamp_surface(h: int) -> int {
    if h < 1 {
        1
    } else if h > 250 {
        250
    } else {
        h
    }
}

/// The block at height `y` of a column whose surface is `surface` (the first
/// air block).
pub open spec fn terrain_block(surface: int, y: int) -> BlockId {
    if y < 0 || y >= surface {
        BlockId(AIR)
    } else if y == surface - 1 {
        if surface <= SEA_LEVEL {
            BlockId(DIRT)
        } else {
            BlockId(GRASS)
        }
    } else if y >= surface - 4 {
        BlockId(DIRT)
    } else {
        BlockId(STONE)
    }
}

/// A terrain column, whatever its surface `s` in `[1, 250]`: air from `s`
/// up, a top block at `s - 1` that is grass above sea level and dirt at or
/// below it, dirt in the (up to) three blocks below the top, and stone all
/// the way down from there, whatever the sea level.
pub proof fn law_column_layers(s: int, y: int)
    requires
        1 <= s <= 250,
    ensures
        (y < 0 || y >= s) ==> terrain_block(s, y) == BlockId(AIR),
        y == s - 1 && s > SEA_LEVEL ==> terrain_block(s, y) == BlockId(GRASS),
        y == s - 1 && s <= SEA_LEVEL ==> terrain_block(s, y) == BlockId(DIRT),
        0 <= y && s - 4 <= y < s - 1 ==> terrain_block(s, y) == BlockId(DIRT),
        0 <= y < s - 4 ==> terrain_block(s, y) == BlockId(STONE),
{
}

/// Below the top block a column is the same at every height measured from
/// its surface: raising the surface by `k` raises every block under the top
/// by `k`. Only the top block depends on the sea level.
pub proof fn law_column_shifts_with_surface(s: int, k: int, y: int)
    requires
        1 <= s,
        0 <= k,
        s + k <= 250,
        0 <= y < s - 1,
    ensures
        terrain_block(s + k, y + k) == terrain_block(s, y),
{
}

/// Clamps a raw terrain height into `[1, 250]`.
pub fn clamp_height(h: i32) -> (r: i32)
    ensures
        r == clamp_surface(h as int),
{
    if h < 1 {
        1
    } else if h > 250 {
        250
    } else {
        h
    }
}

/// Fills chunk `pos` from raw surface heights, one per column, indexed
/// `lx * 16 + lz`: each height is clamped into `[1, 250]`, and below it come
/// stone, then four layers of dirt, then a top block of dirt (at or below
/// sea level) or grass.
pub fn generate_chunk(pos: ChunkPos, heights: &Vec<i32>) -> (r: Chunk)
    requires
        heights@.len() == 256,
    ensures
        r.wf(),
        r.position() == pos,
        forall|x: int, y: int, z: int|
            #![trigger r.block(x, y, z)]
            in_chunk(x, y, z) ==> r.block(x, y, z) == terrain_block(
                clamp_surface(heights@[x * 16 + z] as int),
                y,
            ),
{
    let mut chunk = Chunk::new(pos);
    let mut lx: usize = 0;
    while lx < CHUNK_SIZE_X
        invariant
            chunk.wf(),
            chunk.position() == pos,
            heights@.len() == 256,
            0 <= lx <= 16,
            forall|x: int, y: int, z: int|
                #![trigger chunk.block(x, y, z)]
                in_chunk(x, y, z) ==> chunk.block(x, y, z) == (if x < lx {
                    terrain_block(clamp_surface(heights@[x * 16 + z] as int), y)
                } else {
                    BlockId(AIR)
                }),
        decreases 16 - lx,
    {
        let mut lz: usize = 0;
        while lz < CHUNK_SIZE_Z
            invariant
                chunk.wf(),
                chunk.position() == pos,
                heights@.len() == 256,
                0 <= lx < 16,
                0 <= lz <= 16,
                forall|x: int, y: int, z: int|
                    #![trigger chunk.block(x, y, z)]
                    in_chunk(x, y, z) ==> chunk.block(x, y, z) == (if x < lx || (x == lx && z
                        < lz) {
                        terrain_block(clamp_surface(heights@[x * 16 + z] as int), y)
                    } else {
                        BlockId(AIR)
                    }),
            decreases 16 - lz,
        {
            let surface = clamp_height(heights[lx * 16 + lz]);
            fill_column(&mut chunk, lx, lz, surface);
            lz = lz + 1;
        }
        lx = lx + 1;
    }
    chunk
}

/// Writes the blocks `0..surface` of column `(lx, lz)`; the rest of the chunk
/// is left as it was.
fn fill_column(chunk: &mut Chunk, lx: usize, lz: usize, surface: i32)
    requires
        old(chunk).wf(),
        lx < 16,
        lz < 16,
        1 <= surface <= 250,
        forall|y: int| 0 <= y < 256 ==> #[trigger] old(chunk).block(lx as int, y, lz as int) == BlockId(AIR),
    ensures
        final(chunk).wf(),
        final(chunk).position() == old(chunk).position(),
        forall|x: int, y: int, z: int|
            #![trigger final(chunk).block(x, y, z)]
            in_chunk(x, y, z) ==> final(chunk).block(x, y, z) == (if x == lx && z == lz {
                terrain_block(surface as int, y)
            } else {
                old(chunk).block(x, y, z)
            }),
{
    let ghost start = *chunk;
    let mut y: i32 = 0;
    while y < surface
        invariant
            chunk.wf(),
            chunk.position() == start.position(),
            lx < 16,
            lz < 16,
            1 <= surface <= 250,
            0 <= y <= surface,
            forall|y0: int| 0 <= y0 < 256 ==> #[trigger] start.block(lx as int, y0, lz as int) == BlockId(AIR),
            forall|x: int, y0: int, z: int|
                #![trigger chunk.block(x, y0, z)]
                in_chunk(x, y0, z) ==> chunk.block(x, y0, z) == (if x == lx && z == lz && y0 < y {
                    terrain_block(surface as int, y0)
                } else {
                    start.block(x, y0, z)
                }),
        decreases surface - y,
    {
        let block = if y == surface - 1 {
            if surface <= SEA_LEVEL {
                BlockId(DIRT)
            } else {
                BlockId(GRASS)
            }
        } else if y >= surface - 4 {
            BlockId(DIRT)
        } else {
            BlockId(STONE)
        };
        proof {
            lemma_block_index_bounds(lx as int, y as int, lz as int);
        }
        let ghost before = *chunk;
        assert(block == terrain_block(surface as int, y as int));
        assert((y as usize) as int == y as int);
        chunk.set(lx, y as usize, lz, block);
        proof {
            assert forall|x: int, y0: int, z: int|
                #![trigger chunk.block(x, y0, z)]
                in_chunk(x, y0, z) implies chunk.block(x, y0, z) == (if x == lx && z == lz && y0 < y + 1 {
                    terrain_block(surface as int, y0)
                } else {
                    start.block(x, y0, z)
                }) by {
                lemma_block_index_bounds(x, y0, z);
                assert(before.block(x, y0, z) == (if x == lx && z == lz && y0 < y {
                    terrain_block(surface as int, y0)
                } else {
                    start.block(x, y0, z)
                }));
                lemma_block_index_bounds(lx as int, y as int, lz as int);
                assert(chunk.block(x, y0, z) == before.blocks().update(block_index(lx as int, y as int, lz as int), block)[block_index(x, y0, z)]);
                if x == lx && z == lz && y0 == y {
                    assert(chunk.block(x, y0, z) == block);
                } else {
                    if block_index(x, y0, z) == block_index(lx as int, y as int, lz as int) {
                        lemma_block_index_inj(x, y0, z, lx as int, y as int, lz as int);
                    }
                    assert(chunk.block(x, y0, z) == before.block(x, y0, z));
                }
            }
        }
        y = y + 1;
    }
    proof {
        assert forall|x: int, y0: int, z: int|
            #![trigger chunk.block(x, y0, z)]
            in_chunk(x, y0, z) implies chunk.block(x, y0, z) == (if x == lx && z == lz {
                terrain_block(surface as int, y0)
            } else {
                start.block(x, y0, z)
            }) by {
            if x == lx && z == lz && y0 >= surface {
                assert(start.block(lx as int, y0, lz as int) == BlockId(AIR));
            }
        }
    }
}

/// Distinct blocks have distinct storage indices.
pub proof fn lemma_block_index_inj(x1: int, y1: int, z1: int, x2: int, y2: int, z2: int)
    requires
        in_chunk(x1, y1, z1),
        in_chunk(x2, y2, z2),
        block_index(x1, y1, z1) == block_index(x2, y2, z2),
    ensures
        x1 == x2 && y1 == y2 && z1 == z2,
{
}

} // verus!
