//! 16 x 256 x 16 block columns.
use vstd::prelude::*;
use crate::voxel::block::BlockId;

verus! {

/// Blocks along x in one chunk.
pub const CHUNK_SIZE_X: usize = 16;

/// Blocks along z in one chunk.
pub const CHUNK_SIZE_Z: usize = 16;

/// Blocks along y (the full column height).
pub const CHUNK_HEIGHT: usize = 256;

/// Blocks stored per chunk.
pub const BLOCKS_PER_CHUNK: usize = 65536;

/// Chunk-space coordinate (chunk units, not blocks): chunk `(1, 0)` covers
/// world blocks x in `[16, 32)`, z in `[0, 16)` and the full height.
#[derive(Clone, Copy, PartialEq, Eq, Hash, Debug, Structural)]
pub struct ChunkPos {
    pub x: i32,
    pub z: i32,
}

/// A column of `CHUNK_SIZE_X * CHUNK_HEIGHT * CHUNK_SIZE_Z` blocks, stored
/// flat with x fastest, then z, then y.
pub struct Chunk {
    pub pos: ChunkPos,
    blocks: Vec<BlockId>,
}

/// Flat storage index of block `(x, y, z)`.
pub open spec fn block_index(x: int, y: int, z: int) -> int {
    (y * 16 + z) * 16 + x
}

/// Whether `(x, y, z)` is a block of a chunk.
pub open spec fn in_chunk(x: int, y: int, z: int) -> bool {
    0 <= x < 16 && 0 <= y < 256 && 0 <= z < 16
}

pub proof fn lemma_block_index_bounds(x: int, y: int, z: int)
    requires
        in_chunk(x, y, z),
    ensures
        0 <= block_index(x, y, z) < 65536,
{
    assert(0 <= y * 16 + z < 4096) by (nonlinear_arith)
        requires
            0 <= y < 256,
            0 <= z < 16,
    ;
    assert(0 <= (y * 16 + z) * 16 + x < 65536) by (nonlinear_arith)
        requires
            0 <= y * 16 + z < 4096,
            0 <= x < 16,
    ;
}

impl Chunk {
    /// The chunk's position.
    pub closed spec fn position(&self) -> ChunkPos {
        self.pos
    }

    /// The stored blocks.
    pub closed spec fn blocks(&self) -> Seq<BlockId> {
        self.blocks@
    }

    /// Storage holds exactly one entry per block.
    pub open spec fn wf(&self) -> bool {
        self.blocks().len() == BLOCKS_PER_CHUNK
    }

    /// The block at `(x, y, z)`.
    pub open spec fn block(&self, x: int, y: int, z: int) -> BlockId {
        self.blocks()[block_index(x, y, z)]
    }

    /// Whether the block at `(x, y, z)` is in the chunk and solid.
    pub open spec fn solid_at(&self, x: int, y: int, z: int) -> bool {
        in_chunk(x, y, z) && self.block(x, y, z).solid()
    }

    /// A chunk of air at `pos`.
    pub fn new(pos: ChunkPos) -> (r: Self)
        ensures
            r.wf(),
            r.position() == pos,
            forall|i: int| 0 <= i < BLOCKS_PER_CHUNK ==> #[trigger] r.blocks()[i] == BlockId(0),
    {
        let mut blocks: Vec<BlockId> = Vec::new();
        let mut i: usize = 0;
        while i < BLOCKS_PER_CHUNK
            invariant
                0 <= i <= BLOCKS_PER_CHUNK,
                blocks@.len() == i,
                forall|j: int| 0 <= j < i ==> #[trigger] blocks@[j] == BlockId(0),
            decreases BLOCKS_PER_CHUNK - i,
        {
            blocks.push(BlockId(0));
            i = i + 1;
        }
        Self { pos, blocks }
    }

    /// Flat storage index of `(x, y, z)`.
    fn index(x: usize, y: usize, z: usize) -> (r: usize)
        requires
            block_index(x as int, y as int, z as int) < BLOCKS_PER_CHUNK,
        ensures
            r == block_index(x as int, y as int, z as int),
    {
        assert(y * 16 <= (y * 16 + z) * 16) by (nonlinear_arith);
        (y * CHUNK_SIZE_Z + z) * CHUNK_SIZE_X + x
    }

    /// The block stored at flat index `block_index(x, y, z)`; that index has
    /// to lie inside the storage.
    pub fn get(&self, x: usize, y: usize, z: usize) -> (r: BlockId)
        requires
            self.wf(),
            block_index(x as int, y as int, z as int) < BLOCKS_PER_CHUNK,
        ensures
            r == self.block(x as int, y as int, z as int),
    {
        self.blocks[Self::index(x, y, z)]
    }

    /// Stores `block` at flat index `block_index(x, y, z)`.
    pub fn set(&mut self, x: usize, y: usize, z: usize, block: BlockId)
        requires
            old(self).wf(),
            block_index(x as int, y as int, z as int) < BLOCKS_PER_CHUNK,
        ensures
            final(self).wf(),
            final(self).position() == old(self).position(),
            final(self).blocks() == old(self).blocks().update(
                block_index(x as int, y as int, z as int),
                block,
            ),
    {
        let i = Self::index(x, y, z);
        self.blocks.set(i, block);
    }

    /// Bounds-checked lookup with signed coordinates; `None` means outside
    /// the chunk, not air.
    pub fn get_checked(&self, x: i32, y: i32, z: i32) -> (r: Option<BlockId>)
        requires
            self.wf(),
        ensures
            r == (if in_chunk(x as int, y as int, z as int) {
                Some(self.block(x as int, y as int, z as int))
            } else {
                None
            }),
    {
        if x < 0 || y < 0 || z < 0 {
            return None;
        }
        let xu = x as usize;
        let yu = y as usize;
        let zu = z as usize;
        if xu >= CHUNK_SIZE_X || yu >= CHUNK_HEIGHT || zu >= CHUNK_SIZE_Z {
            return None;
        }
        proof {
            lemma_block_index_bounds(x as int, y as int, z as int);
        }
        Some(self.get(xu, yu, zu))
    }

    /// World-space block coordinate of this chunk's `(0, 0, 0)` corner.
    pub fn world_origin(&self) -> (r: (i32, i32, i32))
        requires
            i32::MIN <= self.position().x * 16 <= i32::MAX,
            i32::MIN <= self.position().z * 16 <= i32::MAX,
        ensures
            r.0 == self.position().x * 16 && r.1 == 0 && r.2 == self.position().z * 16,
    {
        (self.pos.x * 16, 0, self.pos.z * 16)
    }
}

} // verus!
