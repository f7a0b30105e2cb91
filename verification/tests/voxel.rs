use rendering_engine::voxel::block::{BlockId, AIR, DIRT, GRASS, STONE};
use rendering_engine::voxel::chunk::{Chunk, ChunkPos, BLOCKS_PER_CHUNK, CHUNK_HEIGHT, CHUNK_SIZE_X, CHUNK_SIZE_Z};
use rendering_engine::voxel::greedy::{clear_flags, greedy_rects, GridRect};
use rendering_engine::voxel::mesher::{chunk_y_bounds, mesh_chunk};
use rendering_engine::voxel::worldgen::{clamp_height, generate_chunk, SEA_LEVEL};

#[test]
fn block_solidity_and_colors() {
    assert!(!BlockId(AIR).is_solid());
    assert!(BlockId(STONE).is_solid());
    assert_eq!(BlockId(STONE).color(), [120, 120, 125, 255]);
    assert_eq!(BlockId(DIRT).color(), [110, 80, 55, 255]);
    assert_eq!(BlockId(GRASS).color(), [95, 160, 70, 255]);
    assert_eq!(BlockId(AIR).color(), [255, 0, 255, 255]);
    assert_eq!(BlockId(77).color(), [255, 0, 255, 255]);
}

#[test]
fn chunk_storage_and_bounds() {
    assert_eq!(CHUNK_SIZE_X * CHUNK_SIZE_Z * CHUNK_HEIGHT, BLOCKS_PER_CHUNK);
    let mut c = Chunk::new(ChunkPos { x: 2, z: -3 });
    assert_eq!(c.get(15, 255, 15), BlockId(AIR));
    c.set(15, 255, 15, BlockId(STONE));
    c.set(0, 0, 0, BlockId(DIRT));
    assert_eq!(c.get(15, 255, 15), BlockId(STONE));
    assert_eq!(c.get_checked(0, 0, 0), Some(BlockId(DIRT)));
    assert_eq!(c.get_checked(-1, 0, 0), None);
    assert_eq!(c.get_checked(0, 256, 0), None);
    assert_eq!(c.get_checked(16, 0, 0), None);
    assert_eq!(c.get_checked(15, 255, 15), Some(BlockId(STONE)));
    assert_eq!(c.world_origin(), (32, 0, -48));
}

#[test]
fn y_bounds_of_chunks() {
    let mut c = Chunk::new(ChunkPos { x: 0, z: 0 });
    assert_eq!(chunk_y_bounds(&c), None);
    c.set(4, 20, 4, BlockId(STONE));
    c.set(1, 10, 9, BlockId(DIRT));
    assert_eq!(chunk_y_bounds(&c), Some((10, 20)));
}

#[test]
fn empty_chunk_meshes_to_nothing() {
    let c = Chunk::new(ChunkPos { x: 0, z: 0 });
    let m = mesh_chunk(&c, |_, _, _| false);
    assert!(m.vertices.is_empty());
    assert!(m.indices.is_empty());
}

#[test]
fn single_block_has_six_faces() {
    let mut c = Chunk::new(ChunkPos { x: 0, z: 0 });
    c.set(3, 10, 5, BlockId(GRASS));
    let m = mesh_chunk(&c, |_, _, _| false);
    assert_eq!(m.vertices.len(), 24);
    assert_eq!(m.indices.len(), 36);
    for f in 0..6u8 {
        assert_eq!(m.vertices.iter().filter(|v| v.face == f).count(), 4);
    }
    for v in &m.vertices {
        assert!(v.x == 3 || v.x == 4);
        assert!(v.y == 10 || v.y == 11);
        assert!(v.z == 5 || v.z == 6);
        assert_eq!(v.color, [95, 160, 70, 255]);
    }
    for q in 0..6u32 {
        let b = 4 * q;
        let idx = &m.indices[(6 * q) as usize..(6 * q + 6) as usize];
        let mut sorted: Vec<u32> = idx.to_vec();
        sorted.sort();
        sorted.dedup();
        assert_eq!(sorted, vec![b, b + 1, b + 2, b + 3]);
    }
}

#[test]
fn adjacent_blocks_merge_into_larger_quads() {
    let mut c = Chunk::new(ChunkPos { x: 0, z: 0 });
    c.set(3, 10, 5, BlockId(STONE));
    c.set(4, 10, 5, BlockId(STONE));
    let m = mesh_chunk(&c, |_, _, _| false);
    // Six quads: the shared faces are hidden and the long sides merge.
    assert_eq!(m.vertices.len(), 24);
    assert_eq!(m.indices.len(), 36);
    let top: Vec<_> = m.vertices.iter().filter(|v| v.face == 2).collect();
    assert_eq!(top.len(), 4);
    assert!(top.iter().any(|v| v.x == 3) && top.iter().any(|v| v.x == 5));
    assert!(top.iter().all(|v| v.y == 11));
}

#[test]
fn solid_neighbors_hide_boundary_faces() {
    let mut c = Chunk::new(ChunkPos { x: 0, z: 0 });
    c.set(0, 0, 0, BlockId(STONE));
    let m = mesh_chunk(&c, |_, _, _| true);
    assert_eq!(m.vertices.len(), 12);
    assert_eq!(m.indices.len(), 18);
    assert!(m.vertices.iter().all(|v| v.face == 0 || v.face == 2 || v.face == 4));
}

fn tiling_ok(visible: &[bool], u_size: usize, v_size: usize, rects: &[GridRect]) -> bool {
    let mut count = vec![0u32; u_size * v_size];
    for r in rects {
        if r.w == 0 || r.h == 0 || r.u + r.w > u_size || r.v + r.h > v_size {
            return false;
        }
        for u in r.u..r.u + r.w {
            for v in r.v..r.v + r.h {
                count[u * v_size + v] += 1;
            }
        }
    }
    (0..u_size * v_size).all(|i| count[i] == if visible[i] { 1 } else { 0 })
}

#[test]
fn greedy_rects_tile_exactly() {
    let visible = vec![true; 9];
    let mut visited = vec![false; 9];
    let rects = greedy_rects(&visible, &mut visited, 3, 3);
    assert!(tiling_ok(&visible, 3, 3, &rects));
    assert_eq!(rects.len(), 1);
    assert_eq!((rects[0].w, rects[0].h), (3, 3));

    let visible = vec![true, false, true, true, true, false, false, true, true, true, true, false];
    let mut visited = vec![false; 12];
    let rects = greedy_rects(&visible, &mut visited, 3, 4);
    assert!(tiling_ok(&visible, 3, 4, &rects));
    let got: Vec<(usize, usize, usize, usize)> = rects.iter().map(|r| (r.u, r.v, r.w, r.h)).collect();
    assert_eq!(got, vec![(0, 0, 3, 1), (0, 2, 1, 2), (1, 3, 1, 1), (2, 1, 1, 2)]);

    clear_flags(&mut visited);
    assert!(visited.iter().all(|b| !*b));
}

#[test]
fn generated_chunk_layers() {
    let heights = vec![50i32; 256];
    let c = generate_chunk(ChunkPos { x: 1, z: 1 }, &heights);
    assert_eq!(c.get(7, 49, 7), BlockId(GRASS));
    assert_eq!(c.get(7, 48, 7), BlockId(DIRT));
    assert_eq!(c.get(7, 46, 7), BlockId(DIRT));
    assert_eq!(c.get(7, 45, 7), BlockId(STONE));
    assert_eq!(c.get(7, 0, 7), BlockId(STONE));
    assert_eq!(c.get(7, 50, 7), BlockId(AIR));
    assert_eq!(c.pos, ChunkPos { x: 1, z: 1 });
}

#[test]
fn low_columns_have_dirt_tops_and_heights_clamp() {
    let mut heights = vec![SEA_LEVEL; 256];
    heights[3 * 16 + 4] = 1000;
    heights[0] = -5;
    let c = generate_chunk(ChunkPos { x: 0, z: 0 }, &heights);
    assert_eq!(c.get(5, (SEA_LEVEL - 1) as usize, 5), BlockId(DIRT));
    assert_eq!(c.get(3, 249, 4), BlockId(GRASS));
    assert_eq!(c.get(3, 250, 4), BlockId(AIR));
    assert_eq!(c.get(0, 0, 0), BlockId(DIRT));
    assert_eq!(c.get(0, 1, 0), BlockId(AIR));
    assert_eq!(clamp_height(0), 1);
    assert_eq!(clamp_height(251), 250);
    assert_eq!(clamp_height(100), 100);
}
