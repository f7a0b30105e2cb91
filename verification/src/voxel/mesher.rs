//! Greedy meshing of a chunk: every exposed block face is covered by exactly
//! one quad, and quads grow as large as the greedy scan allows.
use vstd::prelude::*;
use crate::voxel::block::BlockId;
use crate::voxel::chunk::{Chunk, in_chunk, lemma_block_index_bounds, CHUNK_HEIGHT};
use crate::voxel::greedy::{
    GridRect, greedy_rects, clear_flags, gi, lemma_gi, rect_has, rect_ok, covered, exact_tiling,
    before, free_cell, greedy_pick, greedy_order, lemma_order_at,
};

verus! {

/// One mesh corner with integer block coordinates, the index of the face
/// (`0..6`: +x, -x, +y, -y, +z, -z) it belongs to, and its colour.
#[derive(Clone, Copy, Debug)]
pub struct VoxelVertex {
    pub x: i32,
    pub y: i32,
    pub z: i32,
    pub face: u8,
    pub color: [u8; 4],
}

/// A chunk mesh: four vertices and two triangles per quad.
pub struct VoxelMesh {
    pub vertices: Vec<VoxelVertex>,
    pub indices: Vec<u32>,
}

/// Outward direction of face `f`.
pub open spec fn face_dir(f: int) -> (int, int, int) {
    if f == 0 {
        (1, 0, 0)
    } else if f == 1 {
        (-1, 0, 0)
    } else if f == 2 {
        (0, 1, 0)
    } else if f == 3 {
        (0, -1, 0)
    } else if f == 4 {
        (0, 0, 1)
    } else {
        (0, 0, -1)
    }
}

/// The `u` axis of face `f`.
pub open spec fn face_u(f: int) -> (int, int, int) {
    if f == 0 || f == 1 {
        (0, 0, 1)
    } else {
        (1, 0, 0)
    }
}

/// The `v` axis of face `f`.
pub open spec fn face_v(f: int) -> (int, int, int) {
    if f == 2 || f == 3 {
        (0, 0, 1)
    } else {
        (0, 1, 0)
    }
}

/// Whether `(x, y, z)` is solid: the chunk's own block inside the chunk, what
/// `nb` answers outside it.
pub open spec fn solid_or_neighbor<F: Fn(i32, i32, i32) -> bool>(
    chunk: Chunk,
    nb: F,
    x: int,
    y: int,
    z: int,
) -> bool {
    if in_chunk(x, y, z) {
        chunk.block(x, y, z).solid()
    } else {
        call_ensures(nb, (x as i32, y as i32, z as i32), true)
    }
}

/// `(x, y, z)` lies outside the chunk, next to a face of one of its solid
/// blocks: the only places where the mesher asks the neighbour query.
pub open spec fn asked_at(chunk: Chunk, x: int, y: int, z: int) -> bool {
    &&& !in_chunk(x, y, z)
    &&& {
        ||| chunk.solid_at(x - 1, y, z)
        ||| chunk.solid_at(x + 1, y, z)
        ||| chunk.solid_at(x, y - 1, z)
        ||| chunk.solid_at(x, y + 1, z)
        ||| chunk.solid_at(x, y, z - 1)
        ||| chunk.solid_at(x, y, z + 1)
    }
}

/// `nb` may be asked about every place where the mesher asks it.
pub open spec fn answers_where_asked<F: Fn(i32, i32, i32) -> bool>(chunk: Chunk, nb: F) -> bool {
    forall|x: i32, y: i32, z: i32|
        asked_at(chunk, x as int, y as int, z as int) ==> #[trigger] call_requires(nb, (x, y, z))
}

/// `nb` answers the same for the same block.
pub open spec fn deterministic<F: Fn(i32, i32, i32) -> bool>(nb: F) -> bool {
    forall|x: i32, y: i32, z: i32, b1: bool, b2: bool|
        call_ensures(nb, (x, y, z), b1) && call_ensures(nb, (x, y, z), b2) ==> b1 == b2
}

/// Face `f` of block `(x, y, z)` is exposed: the block is solid and its
/// neighbour in direction `f` is not.
pub open spec fn exposed<F: Fn(i32, i32, i32) -> bool>(
    chunk: Chunk,
    nb: F,
    f: int,
    x: int,
    y: int,
    z: int,
) -> bool {
    let d = face_dir(f);
    chunk.solid_at(x, y, z) && !solid_or_neighbor(chunk, nb, x + d.0, y + d.1, z + d.2)
}

/// Some block of layer `y` is solid.
pub open spec fn layer_has_solid(chunk: Chunk, y: int) -> bool {
    exists|x: int, z: int| 0 <= x < 16 && 0 <= z < 16 && #[trigger] chunk.solid_at(x, y, z)
}

/// The lowest layer in `[y, 256)` with a solid block, or 256.
pub open spec fn lowest_solid_from(chunk: Chunk, y: int) -> int
    decreases 256 - y,
{
    if y >= 256 {
        256
    } else if layer_has_solid(chunk, y) {
        y
    } else {
        lowest_solid_from(chunk, y + 1)
    }
}

/// The highest layer in `[lo, y]` with a solid block, or `lo - 1`.
pub open spec fn highest_solid_to(chunk: Chunk, lo: int, y: int) -> int
    decreases y - lo + 1,
{
    if y < lo {
        lo - 1
    } else if layer_has_solid(chunk, y) {
        y
    } else {
        highest_solid_to(chunk, lo, y - 1)
    }
}

/// The lowest and highest layers holding solid blocks, if any.
pub open spec fn y_bounds(chunk: Chunk) -> Option<(int, int)> {
    let lo = lowest_solid_from(chunk, 0);
    if lo >= 256 {
        None
    } else {
        Some((lo, highest_solid_to(chunk, lo, 255)))
    }
}

/// Start of the depth range scanned for face `f` when solids span `[lo, hi]`.
pub open spec fn depth_start(f: int, lo: int) -> int {
    if f == 2 || f == 3 {
        lo
    } else {
        0
    }
}

/// Number of layers scanned for face `f`.
pub open spec fn depth_size(f: int, lo: int, hi: int) -> int {
    if f == 2 || f == 3 {
        hi - lo + 1
    } else {
        16
    }
}

/// Grid size along `v` for face `f`.
pub open spec fn v_size_of(f: int, lo: int, hi: int) -> int {
    if f == 2 || f == 3 {
        16
    } else {
        hi - lo + 1
    }
}

/// Offset added to grid `v` to get the block coordinate along the `v` axis.
pub open spec fn v_offset(f: int, lo: int) -> int {
    if f == 2 || f == 3 {
        0
    } else {
        lo
    }
}

/// Block coordinate of grid cell `(u, v)` in layer `d` of face `f`.
pub open spec fn cell_xyz(f: int, d: int, u: int, v: int, lo: int) -> (int, int, int) {
    if f == 0 || f == 1 {
        (d, v + lo, u)
    } else if f == 2 || f == 3 {
        (u, d, v)
    } else {
        (u, v + lo, d)
    }
}

/// Layer and grid cell of block `(x, y, z)` for face `f`.
pub open spec fn cell_duv(f: int, x: int, y: int, z: int, lo: int) -> (int, int, int) {
    if f == 0 || f == 1 {
        (x, z, y - lo)
    } else if f == 2 || f == 3 {
        (y, x, z)
    } else {
        (z, x, y - lo)
    }
}

/// Grid cell `(u, v)` of layer `d` of face `f` is an exposed face.
pub open spec fn cell_visible<F: Fn(i32, i32, i32) -> bool>(
    chunk: Chunk,
    nb: F,
    f: int,
    d: int,
    u: int,
    v: int,
    lo: int,
) -> bool {
    let p = cell_xyz(f, d, u, v, lo);
    exposed(chunk, nb, f, p.0, p.1, p.2)
}

/// A quad: face, layer, and rectangle of grid cells.
pub type Quad = (int, int, GridRect);

/// The quads cover every exposed face of the chunk exactly once.
pub open spec fn quads_tile<F: Fn(i32, i32, i32) -> bool>(
    chunk: Chunk,
    nb: F,
    lo: int,
    hi: int,
    qs: Seq<Quad>,
) -> bool {
    &&& forall|i: int| 0 <= i < qs.len() ==> quad_in_grid(chunk, nb, lo, hi, #[trigger] qs[i])
    &&& forall|i: int, j: int, u: int, v: int|
        0 <= i < j < qs.len() && qs[i].0 == qs[j].0 && qs[i].1 == qs[j].1 && #[trigger] rect_has(
            qs[i].2,
            u,
            v,
        ) ==> !#[trigger] rect_has(qs[j].2, u, v)
    &&& forall|f: int, x: int, y: int, z: int|
        0 <= f < 6 && #[trigger] exposed(chunk, nb, f, x, y, z) ==> quad_covers(
            qs,
            f,
            cell_duv(f, x, y, z, lo),
        )
}

/// Some quad of face `f` covers layer/cell `c`.
pub open spec fn quad_covers(qs: Seq<Quad>, f: int, c: (int, int, int)) -> bool {
    exists|i: int|
        0 <= i < qs.len() && qs[i].0 == f && qs[i].1 == c.0 && #[trigger] rect_has(
            qs[i].2,
            c.1,
            c.2,
        )
}

/// Quad `q` lies in its face's grid and covers only exposed faces.
pub open spec fn quad_in_grid<F: Fn(i32, i32, i32) -> bool>(
    chunk: Chunk,
    nb: F,
    lo: int,
    hi: int,
    q: Quad,
) -> bool {
    let (f, d, r) = q;
    &&& 0 <= f < 6
    &&& depth_start(f, lo) <= d < depth_start(f, lo) + depth_size(f, lo, hi)
    &&& r.w >= 1
    &&& r.h >= 1
    &&& r.u + r.w <= 16
    &&& r.v + r.h <= v_size_of(f, lo, hi)
    &&& forall|u: int, v: int| #[trigger] rect_has(r, u, v) ==> cell_visible(chunk, nb, f, d, u, v, lo)
}

/// Whether face `f`'s corners are emitted in the order c0, c3, c2, c1 (so
/// that they wind counter-clockwise seen from outside).
pub open spec fn flipped(f: int) -> bool {
    f == 0 || f == 2 || f == 5
}

/// Corner `(u + uo, v + vo)` of a quad of face `f` on the plane `pp`.
pub open spec fn corner(f: int, pp: int, u: int, v: int, lo: int) -> (int, int, int) {
    let vv = v + v_offset(f, lo);
    if f == 0 || f == 1 {
        (pp, vv, u)
    } else if f == 2 || f == 3 {
        (u, pp, vv)
    } else {
        (u, vv, pp)
    }
}

/// The block-space plane a quad of face `f` in layer `d` lies on.
pub open spec fn plane_of(f: int, d: int) -> int {
    if f == 0 || f == 2 || f == 4 {
        d + 1
    } else {
        d
    }
}

/// The `k`-th emitted corner of quad `q` (k in 0..4).
pub open spec fn quad_corner(q: Quad, k: int, lo: int) -> (int, int, int) {
    let (f, d, r) = q;
    let pp = plane_of(f, d);
    let (uo, vo) = if k == 0 {
        (0int, 0int)
    } else if k == 2 {
        (r.w as int, r.h as int)
    } else if (k == 1) != flipped(f) {
        (r.w as int, 0int)
    } else {
        (0int, r.h as int)
    };
    corner(f, pp, r.u + uo, r.v + vo, lo)
}

/// The vertex emitted for corner `k` of quad `q`.
pub open spec fn quad_vertex(chunk: Chunk, q: Quad, k: int, lo: int) -> VoxelVertex {
    let c = quad_corner(q, k, lo);
    let b = cell_xyz(q.0, q.1, q.2.u as int, q.2.v as int, lo);
    VoxelVertex {
        x: c.0 as i32,
        y: c.1 as i32,
        z: c.2 as i32,
        face: q.0 as u8,
        color: chunk.block(b.0, b.1, b.2).spec_color(),
    }
}

/// Vertices of a list of quads, four per quad.
pub open spec fn quads_vertices(chunk: Chunk, qs: Seq<Quad>, lo: int) -> Seq<VoxelVertex>
    decreases qs.len(),
{
    if qs.len() == 0 {
        Seq::empty()
    } else {
        let q = qs.last();
        quads_vertices(chunk, qs.drop_last(), lo) + seq![
            quad_vertex(chunk, q, 0, lo),
            quad_vertex(chunk, q, 1, lo),
            quad_vertex(chunk, q, 2, lo),
            quad_vertex(chunk, q, 3, lo),
        ]
    }
}

/// Indices of `n` quads: two triangles `(b, b+1, b+2)`, `(b+2, b+3, b)` per
/// quad, `b = 4 * quad`.
pub open spec fn quads_indices(n: nat) -> Seq<u32>
    decreases n,
{
    if n == 0 {
        Seq::empty()
    } else {
        let b = 4 * (n - 1);
        quads_indices((n - 1) as nat) + seq![
            b as u32,
            (b + 1) as u32,
            (b + 2) as u32,
            (b + 2) as u32,
            (b + 3) as u32,
            b as u32,
        ]
    }
}

proof fn lemma_quads_vertices_len(chunk: Chunk, qs: Seq<Quad>, lo: int)
    ensures
        quads_vertices(chunk, qs, lo).len() == 4 * qs.len(),
    decreases qs.len(),
{
    if qs.len() > 0 {
        lemma_quads_vertices_len(chunk, qs.drop_last(), lo);
    }
}

proof fn lemma_quads_indices_len(n: nat)
    ensures
        quads_indices(n).len() == 6 * n,
    decreases n,
{
    if n > 0 {
        lemma_quads_indices_len((n - 1) as nat);
    }
}

/// The lowest and highest layers that hold a solid block, `None` for a chunk
/// of air.
pub fn chunk_y_bounds(chunk: &Chunk) -> (r: Option<(i32, i32)>)
    requires
        chunk.wf(),
    ensures
        match y_bounds(*chunk) {
            None => r is None,
            Some((lo, hi)) => r == Some((lo as i32, hi as i32)),
        },
{
    let mut y: usize = 0;
    while y < CHUNK_HEIGHT && !layer_solid(chunk, y)
        invariant
            chunk.wf(),
            0 <= y <= 256,
            lowest_solid_from(*chunk, 0) == lowest_solid_from(*chunk, y as int),
        decreases 256 - y,
    {
        y = y + 1;
    }
    if y == CHUNK_HEIGHT {
        return None;
    }
    proof {
        lemma_lowest_is_solid(*chunk, y as int);
    }
    let min_y = y;
    let mut top: usize = CHUNK_HEIGHT - 1;
    while top > min_y && !layer_solid(chunk, top)
        invariant
            chunk.wf(),
            min_y <= top < 256,
            layer_has_solid(*chunk, min_y as int),
            highest_solid_to(*chunk, min_y as int, 255) == highest_solid_to(*chunk, min_y as int, top as int),
        decreases top,
    {
        top = top - 1;
    }
    proof {
        if top == min_y {
            assert(layer_has_solid(*chunk, min_y as int));
        }
    }
    Some((min_y as i32, top as i32))
}

proof fn lemma_lowest_is_solid(chunk: Chunk, y: int)
    requires
        0 <= y < 256,
        lowest_solid_from(chunk, 0) == lowest_solid_from(chunk, y),
        layer_has_solid(chunk, y),
    ensures
        y_bounds(chunk) == Some((y, highest_solid_to(chunk, y, 255))),
{
}

/// Whether layer `y` holds a solid block.
fn layer_solid(chunk: &Chunk, y: usize) -> (r: bool)
    requires
        chunk.wf(),
        y < 256,
    ensures
        r == layer_has_solid(*chunk, y as int),
{
    let mut z: usize = 0;
    while z < 16
        invariant
            chunk.wf(),
            y < 256,
            0 <= z <= 16,
            forall|a: int, b: int| 0 <= a < 16 && 0 <= b < z ==> !#[trigger] chunk.solid_at(a, y as int, b),
        decreases 16 - z,
    {
        let mut x: usize = 0;
        while x < 16
            invariant
                chunk.wf(),
                y < 256,
                0 <= z < 16,
                0 <= x <= 16,
                forall|a: int, b: int| 0 <= a < 16 && 0 <= b < z ==> !#[trigger] chunk.solid_at(a, y as int, b),
                forall|a: int| 0 <= a < x ==> !#[trigger] chunk.solid_at(a, y as int, z as int),
            decreases 16 - x,
        {
            proof {
                lemma_block_index_bounds(x as int, y as int, z as int);
            }
            if chunk.get(x, y, z).is_solid() {
                assert(chunk.solid_at(x as int, y as int, z as int));
                return true;
            }
            x = x + 1;
        }
        z = z + 1;
    }
    false
}


proof fn lemma_below_lowest(chunk: Chunk, y0: int)
    requires
        0 <= y0,
    ensures
        y0 <= lowest_solid_from(chunk, y0) <= 256 || y0 > 256,
        forall|y: int| y0 <= y < lowest_solid_from(chunk, y0) ==> !layer_has_solid(chunk, y),
        lowest_solid_from(chunk, y0) < 256 ==> layer_has_solid(chunk, lowest_solid_from(chunk, y0)),
    decreases 256 - y0,
{
    if y0 < 256 && !layer_has_solid(chunk, y0) {
        lemma_below_lowest(chunk, y0 + 1);
    }
}

proof fn lemma_above_highest(chunk: Chunk, lo: int, y0: int)
    requires
        lo <= y0 + 1,
    ensures
        lo - 1 <= highest_solid_to(chunk, lo, y0) <= y0,
        forall|y: int| highest_solid_to(chunk, lo, y0) < y <= y0 ==> !layer_has_solid(chunk, y),
        highest_solid_to(chunk, lo, y0) >= lo ==> layer_has_solid(chunk, highest_solid_to(chunk, lo, y0)),
    decreases y0 - lo + 1,
{
    if y0 >= lo && !layer_has_solid(chunk, y0) {
        lemma_above_highest(chunk, lo, y0 - 1);
    }
}

/// Every solid block lies between the bounds `chunk_y_bounds` reports, and a
/// chunk without bounds holds no solid block.
pub proof fn law_solids_within_y_bounds(chunk: Chunk, x: int, y: int, z: int)
    requires
        chunk.solid_at(x, y, z),
    ensures
        y_bounds(chunk) matches Some((lo, hi)) && 0 <= lo <= y <= hi < 256,
{
    assert(layer_has_solid(chunk, y));
    lemma_below_lowest(chunk, 0);
    let lo = lowest_solid_from(chunk, 0);
    lemma_above_highest(chunk, lo, 255);
}

/// Direction, `u` axis and `v` axis of face `f`.
fn face_axes(f: usize) -> (r: ((i32, i32, i32), (i32, i32, i32), (i32, i32, i32)))
    requires
        f < 6,
    ensures
        (r.0.0 as int, r.0.1 as int, r.0.2 as int) == face_dir(f as int),
        (r.1.0 as int, r.1.1 as int, r.1.2 as int) == face_u(f as int),
        (r.2.0 as int, r.2.1 as int, r.2.2 as int) == face_v(f as int),
{
    if f == 0 {
        ((1, 0, 0), (0, 0, 1), (0, 1, 0))
    } else if f == 1 {
        ((-1, 0, 0), (0, 0, 1), (0, 1, 0))
    } else if f == 2 {
        ((0, 1, 0), (1, 0, 0), (0, 0, 1))
    } else if f == 3 {
        ((0, -1, 0), (1, 0, 0), (0, 0, 1))
    } else if f == 4 {
        ((0, 0, 1), (1, 0, 0), (0, 1, 0))
    } else {
        ((0, 0, -1), (1, 0, 0), (0, 1, 0))
    }
}

/// Grid size and coordinate offset along `axis`: a full 16 along x or z,
/// the solid layers `[min_y, max_y]` along y.
fn axis_extent(axis: (i32, i32, i32), min_y: i32, max_y: i32) -> (r: (usize, i32))
    requires
        0 <= min_y <= max_y < 256,
    ensures
        axis.0 != 0 ==> r.0 == 16 && r.1 == 0,
        axis.0 == 0 && axis.1 != 0 ==> r.0 == max_y - min_y + 1 && r.1 == min_y,
        axis.0 == 0 && axis.1 == 0 ==> r.0 == 16 && r.1 == 0,
{
    if axis.0 != 0 {
        (16, 0)
    } else if axis.1 != 0 {
        let n = max_y - min_y + 1;
        let n = if n > 1 { n } else { 1 };
        (n as usize, min_y)
    } else {
        (16, 0)
    }
}

/// Whether `(x, y, z)` is solid, asking `nb` outside the chunk.
fn solid_or_ask<F: Fn(i32, i32, i32) -> bool>(chunk: &Chunk, nb: &F, x: i32, y: i32, z: i32) -> (r: bool)
    requires
        chunk.wf(),
        in_chunk(x as int, y as int, z as int) || call_requires(*nb, (x, y, z)),
        deterministic(*nb),
    ensures
        r == solid_or_neighbor(*chunk, *nb, x as int, y as int, z as int),
{
    match chunk.get_checked(x, y, z) {
        Some(b) => b.is_solid(),
        None => {
            let r = nb(x, y, z);
            proof {
                if !r {
                    if call_ensures(*nb, (x, y, z), true) {
                        assert(false);
                    }
                }
            }
            r
        },
    }
}

/// `n` cleared flags.
fn false_flags(n: usize) -> (r: Vec<bool>)
    ensures
        r@.len() == n,
        forall|i: int| 0 <= i < n ==> !#[trigger] r@[i],
{
    let mut v: Vec<bool> = Vec::new();
    let mut i: usize = 0;
    while i < n
        invariant
            0 <= i <= n,
            v@.len() == i,
            forall|j: int| 0 <= j < i ==> !#[trigger] v@[j],
        decreases n - i,
    {
        v.push(false);
        i = i + 1;
    }
    v
}


/// Marks which cells of layer `d` of face `f` are exposed faces.
fn fill_layer<F: Fn(i32, i32, i32) -> bool>(
    chunk: &Chunk,
    nb: &F,
    f: usize,
    d: i32,
    lo: i32,
    hi: i32,
    v_size: usize,
    visible: &mut Vec<bool>,
)
    requires
        chunk.wf(),
        f < 6,
        0 <= lo <= hi < 256,
        v_size == v_size_of(f as int, lo as int, hi as int),
        depth_start(f as int, lo as int) <= d < depth_start(f as int, lo as int) + depth_size(
            f as int,
            lo as int,
            hi as int,
        ),
        old(visible)@.len() == 16 * v_size,
        answers_where_asked(*chunk, *nb),
        deterministic(*nb),
    ensures
        final(visible)@.len() == 16 * v_size,
        forall|u: int, v: int|
            0 <= u < 16 && 0 <= v < v_size ==> #[trigger] final(visible)@[gi(v_size as int, u, v)]
                == cell_visible(*chunk, *nb, f as int, d as int, u, v, lo as int),
{
    let (dir, _ua, _va) = face_axes(f);
    let v_off: i32 = if f == 2 || f == 3 { 0 } else { lo };
    let ghost vs = v_size as int;
    let mut u: usize = 0;
    while u < 16
        invariant
            chunk.wf(),
            f < 6,
            0 <= lo <= hi < 256,
            v_size == v_size_of(f as int, lo as int, hi as int),
            vs == v_size as int,
            depth_start(f as int, lo as int) <= d < depth_start(f as int, lo as int) + depth_size(
                f as int,
                lo as int,
                hi as int,
            ),
            (dir.0 as int, dir.1 as int, dir.2 as int) == face_dir(f as int),
            v_off == v_offset(f as int, lo as int),
            visible@.len() == 16 * v_size,
            answers_where_asked(*chunk, *nb),
            deterministic(*nb),
            0 <= u <= 16,
            forall|a: int, b: int|
                0 <= a < u && 0 <= b < v_size ==> #[trigger] visible@[gi(vs, a, b)]
                    == cell_visible(*chunk, *nb, f as int, d as int, a, b, lo as int),
        decreases 16 - u,
    {
        let mut v: usize = 0;
        while v < v_size
            invariant
                chunk.wf(),
                f < 6,
                0 <= lo <= hi < 256,
                v_size == v_size_of(f as int, lo as int, hi as int),
                vs == v_size as int,
                depth_start(f as int, lo as int) <= d < depth_start(f as int, lo as int)
                    + depth_size(f as int, lo as int, hi as int),
                (dir.0 as int, dir.1 as int, dir.2 as int) == face_dir(f as int),
                v_off == v_offset(f as int, lo as int),
                visible@.len() == 16 * v_size,
                answers_where_asked(*chunk, *nb),
                deterministic(*nb),
                0 <= u < 16,
                0 <= v <= v_size,
                forall|a: int, b: int|
                    0 <= a < u && 0 <= b < v_size ==> #[trigger] visible@[gi(vs, a, b)]
                        == cell_visible(*chunk, *nb, f as int, d as int, a, b, lo as int),
                forall|b: int|
                    0 <= b < v ==> #[trigger] visible@[gi(vs, u as int, b)] == cell_visible(
                        *chunk,
                        *nb,
                        f as int,
                        d as int,
                        u as int,
                        b,
                        lo as int,
                    ),
            decreases v_size - v,
        {
            let ui = u as i32;
            let vi = v as i32;
            let (x, y, z) = if dir.0 != 0 {
                (d, vi + v_off, ui)
            } else if dir.1 != 0 {
                (ui, d, vi)
            } else {
                (ui, vi + v_off, d)
            };
            proof {
                lemma_gi(16, vs, u as int, v as int);
                assert((x as int, y as int, z as int) == cell_xyz(f as int, d as int, u as int, v as int, lo as int));
                assert(in_chunk(x as int, y as int, z as int));
            }
            let here = solid_or_ask(chunk, nb, x, y, z);
            let vis = if !here {
                false
            } else {
                proof {
                    let (nx, ny, nz) = ((x + dir.0) as i32, (y + dir.1) as i32, (z + dir.2) as i32);
                    if !in_chunk(nx as int, ny as int, nz as int) {
                        assert(chunk.solid_at(x as int, y as int, z as int));
                        assert(asked_at(*chunk, nx as int, ny as int, nz as int));
                        assert(call_requires(*nb, (nx, ny, nz)));
                    }
                }
                !solid_or_ask(chunk, nb, x + dir.0, y + dir.1, z + dir.2)
            };
            let c = u * v_size + v;
            let ghost before = visible@;
            visible.set(c, vis);
            proof {
                assert forall|a: int, b: int|
                    0 <= a < 16 && 0 <= b < v_size && (a < u || (a == u && b <= v)) implies #[trigger] visible@[gi(vs, a, b)]
                        == cell_visible(*chunk, *nb, f as int, d as int, a, b, lo as int) by {
                    lemma_gi(16, vs, a, b);
                    if a != u || b != v {
                        if gi(vs, a, b) == c {
                            crate::voxel::greedy::lemma_gi_inj(vs, a, b, u as int, v as int);
                        }
                        assert(visible@[gi(vs, a, b)] == before[gi(vs, a, b)]);
                    }
                }
            }
            v = v + 1;
        }
        u = u + 1;
    }
}

/// Emitted position of a corner of face `f` on plane `pp` at grid `(uu, vv)`
/// (with `vv` already offset into block space).
fn corner_at(f: usize, pp: i32, uu: i32, vv: i32) -> (r: (i32, i32, i32))
    requires
        f < 6,
    ensures
        (r.0 as int, r.1 as int, r.2 as int) == (if f == 0 || f == 1 {
            (pp as int, vv as int, uu as int)
        } else if f == 2 || f == 3 {
            (uu as int, pp as int, vv as int)
        } else {
            (uu as int, vv as int, pp as int)
        }),
{
    if f == 0 || f == 1 {
        (pp, vv, uu)
    } else if f == 2 || f == 3 {
        (uu, pp, vv)
    } else {
        (uu, vv, pp)
    }
}

/// Appends the four corners and two triangles of quad `(f, d, r)`.
fn emit_quad(
    chunk: &Chunk,
    f: usize,
    d: i32,
    r: GridRect,
    lo: i32,
    hi: i32,
    vertices: &mut Vec<VoxelVertex>,
    indices: &mut Vec<u32>,
)
    requires
        chunk.wf(),
        f < 6,
        0 <= lo <= hi < 256,
        depth_start(f as int, lo as int) <= d < depth_start(f as int, lo as int) + depth_size(
            f as int,
            lo as int,
            hi as int,
        ),
        r.w >= 1,
        r.h >= 1,
        r.u + r.w <= 16,
        r.v + r.h <= v_size_of(f as int, lo as int, hi as int),
        old(vertices)@.len() + 4 <= u32::MAX,
    ensures
        final(vertices)@ == old(vertices)@ + seq![
            quad_vertex(*chunk, (f as int, d as int, r), 0, lo as int),
            quad_vertex(*chunk, (f as int, d as int, r), 1, lo as int),
            quad_vertex(*chunk, (f as int, d as int, r), 2, lo as int),
            quad_vertex(*chunk, (f as int, d as int, r), 3, lo as int),
        ],
        final(indices)@ == old(indices)@ + seq![
            old(vertices)@.len() as u32,
            (old(vertices)@.len() + 1) as u32,
            (old(vertices)@.len() + 2) as u32,
            (old(vertices)@.len() + 2) as u32,
            (old(vertices)@.len() + 3) as u32,
            old(vertices)@.len() as u32,
        ],
{
    let ghost q: Quad = (f as int, d as int, r);
    let v_off: i32 = if f == 2 || f == 3 { 0 } else { lo };
    let plane = if f == 0 || f == 2 || f == 4 { d + 1 } else { d };
    let u0 = r.u as i32;
    let v0 = r.v as i32 + v_off;
    let u1 = (r.u + r.w) as i32;
    let v1 = (r.v + r.h) as i32 + v_off;
    let c0 = corner_at(f, plane, u0, v0);
    let c1 = corner_at(f, plane, u1, v0);
    let c2 = corner_at(f, plane, u1, v1);
    let c3 = corner_at(f, plane, u0, v1);
    let corners = if f == 0 || f == 2 || f == 5 {
        [c0, c3, c2, c1]
    } else {
        [c0, c1, c2, c3]
    };
    let (bx, by, bz) = if f == 0 || f == 1 {
        (d, r.v as i32 + v_off, r.u as i32)
    } else if f == 2 || f == 3 {
        (r.u as i32, d, r.v as i32)
    } else {
        (r.u as i32, r.v as i32 + v_off, d)
    };
    proof {
        assert((bx as int, by as int, bz as int) == cell_xyz(f as int, d as int, r.u as int, r.v as int, lo as int));
        lemma_block_index_bounds(bx as int, by as int, bz as int);
    }
    let color = chunk.get(bx as usize, by as usize, bz as usize).color();
    let base = vertices.len() as u32;
    let ghost old_v = vertices@;
    let ghost old_i = indices@;
    let mut k: usize = 0;
    while k < 4
        invariant
            0 <= k <= 4,
            vertices@.len() == old_v.len() + k,
            forall|j: int| 0 <= j < old_v.len() ==> #[trigger] vertices@[j] == old_v[j],
            forall|j: int|
                0 <= j < k ==> #[trigger] vertices@[old_v.len() + j] == (VoxelVertex {
                    x: corners[j].0,
                    y: corners[j].1,
                    z: corners[j].2,
                    face: f as u8,
                    color,
                }),
        decreases 4 - k,
    {
        let c = corners[k];
        vertices.push(VoxelVertex { x: c.0, y: c.1, z: c.2, face: f as u8, color });
        k = k + 1;
    }
    indices.push(base);
    indices.push(base + 1);
    indices.push(base + 2);
    indices.push(base + 2);
    indices.push(base + 3);
    indices.push(base);
    proof {
        assert forall|j: int| 0 <= j < 4 implies #[trigger] vertices@[old_v.len() + j] == quad_vertex(*chunk, q, j, lo as int) by {
            let qc = quad_corner(q, j, lo as int);
            assert((corners[j].0 as int, corners[j].1 as int, corners[j].2 as int) == qc);
        }
        assert(vertices@ =~= old_v + seq![
            quad_vertex(*chunk, q, 0, lo as int),
            quad_vertex(*chunk, q, 1, lo as int),
            quad_vertex(*chunk, q, 2, lo as int),
            quad_vertex(*chunk, q, 3, lo as int),
        ]) by {
            assert(vertices@[old_v.len() as int + 0] == quad_vertex(*chunk, q, 0, lo as int));
            assert(vertices@[old_v.len() as int + 1] == quad_vertex(*chunk, q, 1, lo as int));
            assert(vertices@[old_v.len() as int + 2] == quad_vertex(*chunk, q, 2, lo as int));
            assert(vertices@[old_v.len() as int + 3] == quad_vertex(*chunk, q, 3, lo as int));
        }
        assert(indices@ =~= old_i + seq![
            old_v.len() as u32,
            (old_v.len() + 1) as u32,
            (old_v.len() + 2) as u32,
            (old_v.len() + 2) as u32,
            (old_v.len() + 3) as u32,
            old_v.len() as u32,
        ]);
    }
}


/// All quads of `qs` lie in their grids and no two of the same face and
/// layer share a cell.
pub open spec fn quads_placed<F: Fn(i32, i32, i32) -> bool>(
    chunk: Chunk,
    nb: F,
    lo: int,
    hi: int,
    qs: Seq<Quad>,
) -> bool {
    &&& forall|i: int| 0 <= i < qs.len() ==> quad_in_grid(chunk, nb, lo, hi, #[trigger] qs[i])
    &&& forall|i: int, j: int, u: int, v: int|
        0 <= i < j < qs.len() && qs[i].0 == qs[j].0 && qs[i].1 == qs[j].1 && #[trigger] rect_has(
            qs[i].2,
            u,
            v,
        ) ==> !#[trigger] rect_has(qs[j].2, u, v)
}

/// Adding the exact tiling `rs` of layer `d` of face `f` to quads that all
/// come from earlier layers keeps the quads well placed and covers every
/// exposed face of that layer.
proof fn lemma_add_layer<F: Fn(i32, i32, i32) -> bool>(
    chunk: Chunk,
    nb: F,
    lo: int,
    hi: int,
    qs0: Seq<Quad>,
    f: int,
    d: int,
    g: Seq<bool>,
    rs: Seq<GridRect>,
)
    requires
        y_bounds(chunk) == Some((lo, hi)),
        0 <= lo <= hi < 256,
        0 <= f < 6,
        depth_start(f, lo) <= d < depth_start(f, lo) + depth_size(f, lo, hi),
        quads_placed(chunk, nb, lo, hi, qs0),
        forall|i: int| 0 <= i < qs0.len() ==> (#[trigger] qs0[i]).0 != f || qs0[i].1 != d,
        g.len() == 16 * v_size_of(f, lo, hi),
        forall|u: int, v: int|
            0 <= u < 16 && 0 <= v < v_size_of(f, lo, hi) ==> #[trigger] g[gi(v_size_of(f, lo, hi), u, v)]
                == cell_visible(chunk, nb, f, d, u, v, lo),
        exact_tiling(g, 16, v_size_of(f, lo, hi), rs),
    ensures
        ({
            let qs = qs0 + Seq::new(rs.len(), |i: int| (f, d, rs[i]));
            &&& quads_placed(chunk, nb, lo, hi, qs)
            &&& forall|x: int, y: int, z: int|
                #[trigger] exposed(chunk, nb, f, x, y, z) && cell_duv(f, x, y, z, lo).0 == d
                    ==> quad_covers(qs, f, cell_duv(f, x, y, z, lo))
            &&& forall|g2: int, c: (int, int, int)| quad_covers(qs0, g2, c) ==> #[trigger] quad_covers(qs, g2, c)
        }),
{
    let vs = v_size_of(f, lo, hi);
    let new_qs = Seq::new(rs.len(), |i: int| (f, d, rs[i]));
    let qs = qs0 + new_qs;
    let n0 = qs0.len();
    assert forall|i: int| 0 <= i < qs.len() implies quad_in_grid(chunk, nb, lo, hi, #[trigger] qs[i]) by {
        if i >= n0 {
            let r = rs[i - n0];
            assert(qs[i] == (f, d, r));
            assert(rect_ok(g, 16, vs, r));
            assert forall|u: int, v: int| #[trigger] rect_has(r, u, v) implies cell_visible(chunk, nb, f, d, u, v, lo) by {
                assert(g[gi(vs, u, v)]);
            }
        } else {
            assert(qs[i] == qs0[i]);
        }
    }
    assert forall|i: int, j: int, u: int, v: int|
        0 <= i < j < qs.len() && qs[i].0 == qs[j].0 && qs[i].1 == qs[j].1 && #[trigger] rect_has(
            qs[i].2,
            u,
            v,
        ) implies !#[trigger] rect_has(qs[j].2, u, v) by {
        if j < n0 {
            assert(qs[i] == qs0[i] && qs[j] == qs0[j]);
            assert(rect_has(qs0[i].2, u, v));
            assert(!rect_has(qs0[j].2, u, v));
        } else if i < n0 {
            assert(qs[i] == qs0[i]);
            assert(qs[j] == (f, d, rs[j - n0]));
            assert(qs0[i].0 != f || qs0[i].1 != d);
        } else {
            assert(qs[i] == (f, d, rs[i - n0]));
            assert(qs[j] == (f, d, rs[j - n0]));
            assert(rect_has(rs[i - n0], u, v));
            assert(crate::voxel::greedy::pairwise_disjoint(rs));
            assert(!rect_has(rs[j - n0], u, v));
        }
    }
    assert forall|x: int, y: int, z: int|
        #[trigger] exposed(chunk, nb, f, x, y, z) && cell_duv(f, x, y, z, lo).0 == d
            implies quad_covers(qs, f, cell_duv(f, x, y, z, lo)) by {
        law_solids_within_y_bounds(chunk, x, y, z);
        let c = cell_duv(f, x, y, z, lo);
        assert(cell_xyz(f, c.0, c.1, c.2, lo) == (x, y, z));
        assert(0 <= c.1 < 16 && 0 <= c.2 < vs);
        assert(g[gi(vs, c.1, c.2)]);
        assert(covered(rs, c.1, c.2));
        let k = choose|k: int| 0 <= k < rs.len() && #[trigger] rect_has(rs[k], c.1, c.2);
        assert(qs[n0 + k] == (f, d, rs[k]));
        assert(rect_has(qs[n0 + k].2, c.1, c.2));
    }
    assert forall|g2: int, c: (int, int, int)| quad_covers(qs0, g2, c) implies #[trigger] quad_covers(qs, g2, c) by {
        let k = choose|k: int| 0 <= k < qs0.len() && qs0[k].0 == g2 && qs0[k].1 == c.0 && #[trigger] rect_has(qs0[k].2, c.1, c.2);
        assert(qs[k] == qs0[k]);
        assert(rect_has(qs[k].2, c.1, c.2));
    }
}


/// Cell `(u, v)` of layer `d` of face `f` is an exposed face that no quad of
/// `prev` covers.
pub open spec fn free_face<F: Fn(i32, i32, i32) -> bool>(
    chunk: Chunk,
    nb: F,
    lo: int,
    hi: int,
    prev: Seq<Quad>,
    f: int,
    d: int,
    u: int,
    v: int,
) -> bool {
    &&& 0 <= u < 16
    &&& 0 <= v < v_size_of(f, lo, hi)
    &&& cell_visible(chunk, nb, f, d, u, v, lo)
    &&& !quad_covers(prev, f, (d, u, v))
}

/// Quad `q` is the greedy pick of its layer once the quads `prev` are
/// emitted: it starts at the first free face of the layer in scan order
/// (`u` outer, `v` inner), reaches along `u` up to the first face of its
/// first row that is not free, and along `v` up to the first row whose faces
/// over its width are not all free.
pub open spec fn quad_pick<F: Fn(i32, i32, i32) -> bool>(
    chunk: Chunk,
    nb: F,
    lo: int,
    hi: int,
    prev: Seq<Quad>,
    q: Quad,
) -> bool {
    let (f, d, r) = q;
    &&& free_face(chunk, nb, lo, hi, prev, f, d, r.u as int, r.v as int)
    &&& forall|a: int, b: int|
        before(a, b, r.u as int, r.v as int) ==> !#[trigger] free_face(
            chunk,
            nb,
            lo,
            hi,
            prev,
            f,
            d,
            a,
            b,
        )
    &&& (r.u + r.w == 16 || !free_face(chunk, nb, lo, hi, prev, f, d, r.u + r.w, r.v as int))
    &&& (r.v + r.h == v_size_of(f, lo, hi) || exists|k: int|
        0 <= k < r.w && !#[trigger] free_face(chunk, nb, lo, hi, prev, f, d, r.u + k, r.v + r.h))
}

/// The quads come face by face (`0..6`) and, within a face, layer by layer
/// upwards; each is the greedy pick of its layer once those before it are
/// emitted.
#[verifier::opaque]
pub open spec fn quads_greedy<F: Fn(i32, i32, i32) -> bool>(
    chunk: Chunk,
    nb: F,
    lo: int,
    hi: int,
    qs: Seq<Quad>,
) -> bool {
    &&& forall|i: int, j: int|
        0 <= i < j < qs.len() ==> (#[trigger] qs[i]).0 < (#[trigger] qs[j]).0 || (qs[i].0
            == qs[j].0 && qs[i].1 <= qs[j].1)
    &&& forall|i: int| 0 <= i < qs.len() ==> quad_pick(chunk, nb, lo, hi, qs.take(i), #[trigger] qs[i])
}

/// Appending the greedy tiling `rs` of layer `d` of face `f` to quads of
/// earlier faces and layers keeps the quads in greedy order.
proof fn lemma_add_layer_greedy<F: Fn(i32, i32, i32) -> bool>(
    chunk: Chunk,
    nb: F,
    lo: int,
    hi: int,
    qs0: Seq<Quad>,
    f: int,
    d: int,
    g: Seq<bool>,
    rs: Seq<GridRect>,
)
    requires
        quads_greedy(chunk, nb, lo, hi, qs0),
        forall|i: int|
            0 <= i < qs0.len() ==> (#[trigger] qs0[i]).0 < f || (qs0[i].0 == f && qs0[i].1 < d),
        g.len() == 16 * v_size_of(f, lo, hi),
        forall|u: int, v: int|
            0 <= u < 16 && 0 <= v < v_size_of(f, lo, hi) ==> #[trigger] g[gi(v_size_of(f, lo, hi), u, v)]
                == cell_visible(chunk, nb, f, d, u, v, lo),
        greedy_order(g, 16, v_size_of(f, lo, hi), rs),
    ensures
        quads_greedy(chunk, nb, lo, hi, qs0 + Seq::new(rs.len(), |i: int| (f, d, rs[i]))),
{
    reveal(quads_greedy);
    let vs = v_size_of(f, lo, hi);
    let new_qs = Seq::new(rs.len(), |i: int| (f, d, rs[i]));
    let qs = qs0 + new_qs;
    let n0 = qs0.len() as int;
    assert forall|i: int, j: int|
        0 <= i < j < qs.len() implies (#[trigger] qs[i]).0 < (#[trigger] qs[j]).0 || (qs[i].0
            == qs[j].0 && qs[i].1 <= qs[j].1) by {
        if j < n0 {
            assert(qs[i] == qs0[i] && qs[j] == qs0[j]);
        } else if i < n0 {
            assert(qs[i] == qs0[i]);
            assert(qs[j] == (f, d, rs[j - n0]));
        } else {
            assert(qs[i] == (f, d, rs[i - n0]));
            assert(qs[j] == (f, d, rs[j - n0]));
        }
    }
    assert forall|i: int| 0 <= i < qs.len() implies quad_pick(chunk, nb, lo, hi, qs.take(i), #[trigger] qs[i]) by {
        if i < n0 {
            assert(qs.take(i) =~= qs0.take(i));
            assert(qs[i] == qs0[i]);
        } else {
            let t = i - n0;
            let prev = qs.take(i);
            let prs = rs.take(t);
            let r = rs[t];
            assert(qs[i] == (f, d, r));
            lemma_order_at(g, 16, vs, rs, t);
            assert(prev =~= qs0 + Seq::new(t as nat, |s: int| (f, d, rs[s])));
            assert forall|a: int, b: int|
                #[trigger] free_face(chunk, nb, lo, hi, prev, f, d, a, b) == free_cell(g, 16, vs, prs, a, b) by {
                let cov1 = quad_covers(prev, f, (d, a, b));
                let cov2 = covered(prs, a, b);
                if cov1 {
                    let s = choose|s: int|
                        0 <= s < prev.len() && prev[s].0 == f && prev[s].1 == d && #[trigger] rect_has(
                            prev[s].2,
                            a,
                            b,
                        );
                    if s < n0 {
                        assert(prev[s] == qs0[s]);
                        assert(false);
                    } else {
                        assert(prev[s] == (f, d, rs[s - n0]));
                        assert(prs[s - n0] == rs[s - n0]);
                        assert(rect_has(prs[s - n0], a, b));
                    }
                    assert(cov2);
                }
                if cov2 {
                    let s = choose|s: int| 0 <= s < prs.len() && #[trigger] rect_has(prs[s], a, b);
                    let c = (d, a, b);
                    assert(prs.len() == t);
                    assert(prev[n0 + s] == (f, d, rs[s]));
                    assert(rect_has(prev[n0 + s].2, c.1, c.2));
                    assert(quad_covers(prev, f, c));
                }
                assert(cov1 == cov2);
                if 0 <= a < 16 && 0 <= b < vs {
                    assert(g[gi(vs, a, b)] == cell_visible(chunk, nb, f, d, a, b, lo));
                }
            }
            assert(greedy_pick(g, 16, vs, prs, r));
            assert(free_face(chunk, nb, lo, hi, prev, f, d, r.u as int, r.v as int));
            assert forall|a: int, b: int|
                before(a, b, r.u as int, r.v as int) implies !#[trigger] free_face(
                    chunk,
                    nb,
                    lo,
                    hi,
                    prev,
                    f,
                    d,
                    a,
                    b,
                ) by {
                assert(!free_cell(g, 16, vs, prs, a, b));
            }
            if r.u + r.w != 16 {
                assert(!free_cell(g, 16, vs, prs, r.u + r.w, r.v as int));
            }
            if r.v + r.h != vs {
                let k = choose|k: int| 0 <= k < r.w && !#[trigger] free_cell(g, 16, vs, prs, r.u + k, r.v + r.h);
                assert(!free_face(chunk, nb, lo, hi, prev, f, d, r.u + k, r.v + r.h));
            }
        }
    }
}


/// The quad at `m` of greedy-ordered quads is the greedy pick once those
/// before it are emitted.
proof fn lemma_greedy_at<F: Fn(i32, i32, i32) -> bool>(
    chunk: Chunk,
    nb: F,
    lo: int,
    hi: int,
    qs: Seq<Quad>,
    m: int,
)
    requires
        quads_greedy(chunk, nb, lo, hi, qs),
        0 <= m < qs.len(),
    ensures
        quad_pick(chunk, nb, lo, hi, qs.take(m), qs[m]),
        forall|j: int|
            m < j < qs.len() ==> qs[m].0 < (#[trigger] qs[j]).0 || (qs[m].0 == qs[j].0 && qs[m].1
                <= qs[j].1),
{
    reveal(quads_greedy);
}

/// The faces under the quad at `m` of a tiling are exposed and free of the
/// quads before it.
proof fn lemma_quad_cells_free<F: Fn(i32, i32, i32) -> bool>(
    chunk: Chunk,
    nb: F,
    lo: int,
    hi: int,
    qs: Seq<Quad>,
    m: int,
)
    requires
        quads_tile(chunk, nb, lo, hi, qs),
        0 <= m < qs.len(),
    ensures
        forall|a: int, b: int|
            #[trigger] rect_has(qs[m].2, a, b) ==> free_face(
                chunk,
                nb,
                lo,
                hi,
                qs.take(m),
                qs[m].0,
                qs[m].1,
                a,
                b,
            ),
{
    let q = qs[m];
    assert(quad_in_grid(chunk, nb, lo, hi, q));
    assert forall|a: int, b: int| #[trigger] rect_has(q.2, a, b) implies free_face(
        chunk,
        nb,
        lo,
        hi,
        qs.take(m),
        q.0,
        q.1,
        a,
        b,
    ) by {
        if quad_covers(qs.take(m), q.0, (q.1, a, b)) {
            let i = choose|i: int|
                0 <= i < qs.take(m).len() && qs.take(m)[i].0 == q.0 && qs.take(m)[i].1 == q.1
                    && #[trigger] rect_has(qs.take(m)[i].2, a, b);
            assert(qs.take(m)[i] == qs[i]);
            assert(rect_has(qs[i].2, a, b));
        }
    }
}

/// Two greedy picks of one layer once `prev` is emitted, each lying on free
/// faces, are the same quad.
proof fn lemma_quad_pick_unique<F: Fn(i32, i32, i32) -> bool>(
    chunk: Chunk,
    nb: F,
    lo: int,
    hi: int,
    prev: Seq<Quad>,
    q1: Quad,
    q2: Quad,
)
    requires
        quad_pick(chunk, nb, lo, hi, prev, q1),
        quad_pick(chunk, nb, lo, hi, prev, q2),
        quad_in_grid(chunk, nb, lo, hi, q1),
        quad_in_grid(chunk, nb, lo, hi, q2),
        q1.0 == q2.0,
        q1.1 == q2.1,
        forall|a: int, b: int|
            #[trigger] rect_has(q1.2, a, b) ==> free_face(chunk, nb, lo, hi, prev, q1.0, q1.1, a, b),
        forall|a: int, b: int|
            #[trigger] rect_has(q2.2, a, b) ==> free_face(chunk, nb, lo, hi, prev, q2.0, q2.1, a, b),
    ensures
        q1 == q2,
{
    let (f, d, r1) = q1;
    let r2 = q2.2;
    if before(r1.u as int, r1.v as int, r2.u as int, r2.v as int) {
        assert(!free_face(chunk, nb, lo, hi, prev, f, d, r1.u as int, r1.v as int));
    }
    if before(r2.u as int, r2.v as int, r1.u as int, r1.v as int) {
        assert(!free_face(chunk, nb, lo, hi, prev, f, d, r2.u as int, r2.v as int));
    }
    assert(r1.u == r2.u && r1.v == r2.v);
    if r1.w < r2.w {
        assert(rect_has(r2, r1.u + r1.w, r1.v as int));
    }
    if r2.w < r1.w {
        assert(rect_has(r1, r2.u + r2.w, r2.v as int));
    }
    assert(r1.w == r2.w);
    if r1.h < r2.h {
        let k = choose|k: int|
            0 <= k < r1.w && !#[trigger] free_face(chunk, nb, lo, hi, prev, f, d, r1.u + k, r1.v + r1.h);
        assert(rect_has(r2, r1.u + k, r1.v + r1.h));
    }
    if r2.h < r1.h {
        let k = choose|k: int|
            0 <= k < r2.w && !#[trigger] free_face(chunk, nb, lo, hi, prev, f, d, r2.u + k, r2.v + r2.h);
        assert(rect_has(r1, r2.u + k, r2.v + r2.h));
    }
    assert(r1 == r2);
}

/// When two greedy tilings agree before `m`, the quad at `m` of the first
/// does not come from an earlier face or layer than the quad at `m` of the
/// second.
proof fn lemma_layer_not_before<F: Fn(i32, i32, i32) -> bool>(
    chunk: Chunk,
    nb: F,
    lo: int,
    hi: int,
    qa: Seq<Quad>,
    qb: Seq<Quad>,
    m: int,
)
    requires
        quads_greedy(chunk, nb, lo, hi, qa),
        quads_tile(chunk, nb, lo, hi, qb),
        quads_greedy(chunk, nb, lo, hi, qb),
        0 <= m < qa.len(),
        m < qb.len(),
        qa.take(m) == qb.take(m),
        0 <= qa[m].0 < 6,
    ensures
        !(qa[m].0 < qb[m].0 || (qa[m].0 == qb[m].0 && qa[m].1 < qb[m].1)),
{
    let (f, d, r) = qa[m];
    let prev = qa.take(m);
    lemma_greedy_at(chunk, nb, lo, hi, qa, m);
    lemma_greedy_at(chunk, nb, lo, hi, qb, m);
    assert(free_face(chunk, nb, lo, hi, prev, f, d, r.u as int, r.v as int));
    let p = cell_xyz(f, d, r.u as int, r.v as int, lo);
    assert(exposed(chunk, nb, f, p.0, p.1, p.2));
    assert(cell_duv(f, p.0, p.1, p.2, lo) == (d, r.u as int, r.v as int));
    assert(quad_covers(qb, f, cell_duv(f, p.0, p.1, p.2, lo)));
    let i = choose|i: int|
        0 <= i < qb.len() && qb[i].0 == f && qb[i].1 == d && #[trigger] rect_has(
            qb[i].2,
            r.u as int,
            r.v as int,
        );
    if i < m {
        assert(prev[i] == qb[i]);
        let c = (d, r.u as int, r.v as int);
        assert(rect_has(prev[i].2, c.1, c.2));
        assert(quad_covers(prev, f, c));
    } else if i > m {
        assert(qb[m].0 < qb[i].0 || (qb[m].0 == qb[i].0 && qb[m].1 <= qb[i].1));
    }
}

/// Two greedy tilings of one chunk agree on their first `n` quads.
proof fn lemma_quads_prefix<F: Fn(i32, i32, i32) -> bool>(
    chunk: Chunk,
    nb: F,
    lo: int,
    hi: int,
    qs1: Seq<Quad>,
    qs2: Seq<Quad>,
    n: int,
)
    requires
        quads_tile(chunk, nb, lo, hi, qs1),
        quads_greedy(chunk, nb, lo, hi, qs1),
        quads_tile(chunk, nb, lo, hi, qs2),
        quads_greedy(chunk, nb, lo, hi, qs2),
        0 <= n <= qs1.len(),
        n <= qs2.len(),
    ensures
        qs1.take(n) == qs2.take(n),
    decreases n,
{
    if n > 0 {
        let m = n - 1;
        lemma_quads_prefix(chunk, nb, lo, hi, qs1, qs2, m);
        let prev = qs1.take(m);
        assert(quad_in_grid(chunk, nb, lo, hi, qs1[m]));
        assert(quad_in_grid(chunk, nb, lo, hi, qs2[m]));
        lemma_layer_not_before(chunk, nb, lo, hi, qs1, qs2, m);
        lemma_layer_not_before(chunk, nb, lo, hi, qs2, qs1, m);
        lemma_greedy_at(chunk, nb, lo, hi, qs1, m);
        lemma_greedy_at(chunk, nb, lo, hi, qs2, m);
        lemma_quad_cells_free(chunk, nb, lo, hi, qs1, m);
        lemma_quad_cells_free(chunk, nb, lo, hi, qs2, m);
        lemma_quad_pick_unique(chunk, nb, lo, hi, prev, qs1[m], qs2[m]);
        assert(qs1.take(n) =~= prev.push(qs1[m]));
        assert(qs2.take(n) =~= prev.push(qs2[m]));
    }
}

/// Greedy-ordered quads do not go on past a prefix that already covers
/// every exposed face.
proof fn lemma_no_quad_after_tiling<F: Fn(i32, i32, i32) -> bool>(
    chunk: Chunk,
    nb: F,
    lo: int,
    hi: int,
    short: Seq<Quad>,
    long: Seq<Quad>,
)
    requires
        quads_tile(chunk, nb, lo, hi, short),
        quads_tile(chunk, nb, lo, hi, long),
        quads_greedy(chunk, nb, lo, hi, long),
        short.len() < long.len(),
    ensures
        long.take(short.len() as int) != short,
{
    let n = short.len() as int;
    if long.take(n) == short {
        lemma_greedy_at(chunk, nb, lo, hi, long, n);
        assert(quad_in_grid(chunk, nb, lo, hi, long[n]));
        let (f, d, r) = long[n];
        assert(free_face(chunk, nb, lo, hi, short, f, d, r.u as int, r.v as int));
        let p = cell_xyz(f, d, r.u as int, r.v as int, lo);
        assert(exposed(chunk, nb, f, p.0, p.1, p.2));
        assert(cell_duv(f, p.0, p.1, p.2, lo) == (d, r.u as int, r.v as int));
        assert(quad_covers(short, f, cell_duv(f, p.0, p.1, p.2, lo)));
    }
}

/// The mesh's quads are determined: two sequences of quads that both cover
/// every exposed face exactly once and both come in greedy order are equal.
pub proof fn law_mesh_quads_unique<F: Fn(i32, i32, i32) -> bool>(
    chunk: Chunk,
    nb: F,
    lo: int,
    hi: int,
    qs1: Seq<Quad>,
    qs2: Seq<Quad>,
)
    requires
        quads_tile(chunk, nb, lo, hi, qs1),
        quads_greedy(chunk, nb, lo, hi, qs1),
        quads_tile(chunk, nb, lo, hi, qs2),
        quads_greedy(chunk, nb, lo, hi, qs2),
    ensures
        qs1 == qs2,
{
    if qs1.len() < qs2.len() {
        lemma_quads_prefix(chunk, nb, lo, hi, qs1, qs2, qs1.len() as int);
        assert(qs1.take(qs1.len() as int) =~= qs1);
        lemma_no_quad_after_tiling(chunk, nb, lo, hi, qs1, qs2);
    } else if qs2.len() < qs1.len() {
        lemma_quads_prefix(chunk, nb, lo, hi, qs1, qs2, qs2.len() as int);
        assert(qs2.take(qs2.len() as int) =~= qs2);
        lemma_no_quad_after_tiling(chunk, nb, lo, hi, qs2, qs1);
    } else {
        lemma_quads_prefix(chunk, nb, lo, hi, qs1, qs2, qs1.len() as int);
        assert(qs1.take(qs1.len() as int) =~= qs1);
        assert(qs2.take(qs2.len() as int) =~= qs2);
    }
}


/// Greedy mesh of `chunk`: for each face direction (+x, -x, +y, -y, +z, -z),
/// each layer, the exposed faces are merged into quads by `greedy_rects`,
/// and each quad becomes four vertices wound counter-clockwise seen from
/// outside plus two triangles. Blocks outside the chunk are solid when
/// `neighbor_solid` says so; it is asked only about blocks outside the chunk
/// next to a face of one of its solid blocks (`asked_at`), so it need only
/// answer there. Only layers between the lowest and highest
/// solid block are scanned. The quads come face by face and layer by layer,
/// each the greedy pick of its layer, which determines them
/// (`law_mesh_quads_unique`).
pub fn mesh_chunk<F: Fn(i32, i32, i32) -> bool>(chunk: &Chunk, neighbor_solid: F) -> (m: VoxelMesh)
    requires
        chunk.wf(),
        answers_where_asked(*chunk, neighbor_solid),
        deterministic(neighbor_solid),
    ensures
        y_bounds(*chunk) is None ==> m.vertices@.len() == 0 && m.indices@.len() == 0,
        y_bounds(*chunk) matches Some((lo, hi)) ==> exists|qs: Seq<Quad>|
            #[trigger] quads_tile(*chunk, neighbor_solid, lo, hi, qs)
                && quads_greedy(*chunk, neighbor_solid, lo, hi, qs)
                && m.vertices@ == quads_vertices(*chunk, qs, lo)
                && m.indices@ == quads_indices(qs.len()),
{
    let mut vertices: Vec<VoxelVertex> = Vec::new();
    let mut indices: Vec<u32> = Vec::new();
    let bounds = chunk_y_bounds(chunk);
    let (min_y, max_y) = match bounds {
        Some(b) => b,
        None => {
            return VoxelMesh { vertices, indices };
        },
    };
    let ghost lo = min_y as int;
    let ghost hi = max_y as int;
    proof {
        lemma_below_lowest(*chunk, 0);
        lemma_above_highest(*chunk, lo, 255);
        assert(y_bounds(*chunk) == Some((lo, hi)));
        assert(vertices@ =~= quads_vertices(*chunk, Seq::<Quad>::empty(), lo));
        assert(indices@ =~= quads_indices(0));
        reveal(quads_greedy);
        assert(quads_greedy(*chunk, neighbor_solid, lo, hi, Seq::<Quad>::empty()));
    }
    let ghost mut qs: Seq<Quad> = Seq::empty();
    let mut f: usize = 0;
    while f < 6
        invariant
            chunk.wf(),
            y_bounds(*chunk) == Some((lo, hi)),
            0 <= lo <= hi < 256,
            lo == min_y,
            hi == max_y,
            answers_where_asked(*chunk, neighbor_solid),
            deterministic(neighbor_solid),
            0 <= f <= 6,
            vertices@ == quads_vertices(*chunk, qs, lo),
            indices@ == quads_indices(qs.len()),
            qs.len() <= f * 1048576,
            quads_placed(*chunk, neighbor_solid, lo, hi, qs),
            quads_greedy(*chunk, neighbor_solid, lo, hi, qs),
            forall|i: int| 0 <= i < qs.len() ==> (#[trigger] qs[i]).0 < f,
            forall|g: int, x: int, y: int, z: int|
                0 <= g < f && #[trigger] exposed(*chunk, neighbor_solid, g, x, y, z) ==> quad_covers(
                    qs,
                    g,
                    cell_duv(g, x, y, z, lo),
                ),
        decreases 6 - f,
    {
        let (dir, ua, va) = face_axes(f);
        let (depth_len, depth_off) = axis_extent(dir, min_y, max_y);
        let (u_size, _u_off) = axis_extent(ua, min_y, max_y);
        let (v_size, _v_off) = axis_extent(va, min_y, max_y);
        assert(u_size == 16);
        assert(v_size == v_size_of(f as int, lo, hi));
        assert(depth_len == depth_size(f as int, lo, hi));
        assert(depth_off == depth_start(f as int, lo));
        let mut visible = false_flags(u_size * v_size);
        let mut visited = false_flags(u_size * v_size);
        proof {
            assert forall|x: int, y: int, z: int|
                #[trigger] exposed(*chunk, neighbor_solid, f as int, x, y, z) implies cell_duv(
                    f as int,
                    x,
                    y,
                    z,
                    lo,
                ).0 >= depth_off by {
                law_solids_within_y_bounds(*chunk, x, y, z);
            }
        }
        let mut di: usize = 0;
        while di < depth_len
            invariant
                chunk.wf(),
                y_bounds(*chunk) == Some((lo, hi)),
                0 <= lo <= hi < 256,
                lo == min_y,
                hi == max_y,
                answers_where_asked(*chunk, neighbor_solid),
                deterministic(neighbor_solid),
                0 <= f < 6,
                u_size == 16,
                v_size == v_size_of(f as int, lo, hi),
                depth_len == depth_size(f as int, lo, hi),
                depth_off == depth_start(f as int, lo),
                visible@.len() == 16 * v_size,
                visited@.len() == 16 * v_size,
                0 <= di <= depth_len,
                vertices@ == quads_vertices(*chunk, qs, lo),
                indices@ == quads_indices(qs.len()),
                qs.len() <= f * 1048576 + di * 4096,
                quads_placed(*chunk, neighbor_solid, lo, hi, qs),
                quads_greedy(*chunk, neighbor_solid, lo, hi, qs),
                forall|i: int|
                    0 <= i < qs.len() ==> (#[trigger] qs[i]).0 < f || (qs[i].0 == f && qs[i].1
                        < depth_off + di),
                forall|g: int, x: int, y: int, z: int|
                    0 <= g < f && #[trigger] exposed(*chunk, neighbor_solid, g, x, y, z)
                        ==> quad_covers(qs, g, cell_duv(g, x, y, z, lo)),
                forall|x: int, y: int, z: int|
                    #[trigger] exposed(*chunk, neighbor_solid, f as int, x, y, z) && cell_duv(
                        f as int,
                        x,
                        y,
                        z,
                        lo,
                    ).0 < depth_off + di ==> quad_covers(
                        qs,
                        f as int,
                        cell_duv(f as int, x, y, z, lo),
                    ),
            decreases depth_len - di,
        {
            let d = di as i32 + depth_off;
            clear_flags(&mut visible);
            clear_flags(&mut visited);
            fill_layer(chunk, &neighbor_solid, f, d, min_y, max_y, v_size, &mut visible);
            let rects = greedy_rects(&visible, &mut visited, u_size, v_size);
            let ghost qs0 = qs;
            proof {
                lemma_add_layer(
                    *chunk,
                    neighbor_solid,
                    lo,
                    hi,
                    qs0,
                    f as int,
                    d as int,
                    visible@,
                    rects@,
                );
                lemma_add_layer_greedy(
                    *chunk,
                    neighbor_solid,
                    lo,
                    hi,
                    qs0,
                    f as int,
                    d as int,
                    visible@,
                    rects@,
                );
            }
            let mut ri: usize = 0;
            while ri < rects.len()
                invariant
                    chunk.wf(),
                    0 <= lo <= hi < 256,
                    lo == min_y,
                    hi == max_y,
                    0 <= f < 6,
                    depth_start(f as int, lo) <= d < depth_start(f as int, lo) + depth_size(
                        f as int,
                        lo,
                        hi,
                    ),
                    exact_tiling(visible@, 16, v_size as int, rects@),
                    v_size == v_size_of(f as int, lo, hi),
                    rects@.len() <= 16 * v_size,
                    qs0.len() <= 6 * 1048576,
                    0 <= ri <= rects@.len(),
                    qs == qs0 + Seq::new(ri as nat, |i: int| (f as int, d as int, rects@[i])),
                    vertices@ == quads_vertices(*chunk, qs, lo),
                    indices@ == quads_indices(qs.len()),
                decreases rects@.len() - ri,
            {
                let r = rects[ri];
                proof {
                    assert(crate::voxel::greedy::rect_ok(visible@, 16, v_size as int, rects@[ri as int]));
                    lemma_quads_vertices_len(*chunk, qs, lo);
                }
                emit_quad(chunk, f, d, r, min_y, max_y, &mut vertices, &mut indices);
                let ghost q: Quad = (f as int, d as int, r);
                proof {
                    let nq = qs.push(q);
                    assert(nq.drop_last() =~= qs);
                    assert(nq.last() == q);
                    assert(vertices@ == quads_vertices(*chunk, nq, lo));
                    lemma_quads_vertices_len(*chunk, qs, lo);
                    assert(indices@ == quads_indices(nq.len()));
                    qs = nq;
                    assert(qs =~= qs0 + Seq::new((ri + 1) as nat, |i: int| (f as int, d as int, rects@[i])));
                }
                ri = ri + 1;
            }
            proof {
                assert(qs =~= qs0 + Seq::new(rects@.len(), |i: int| (f as int, d as int, rects@[i])));
                assert forall|i: int|
                    0 <= i < qs.len() implies (#[trigger] qs[i]).0 < f || (qs[i].0 == f && qs[i].1
                        < depth_off + di + 1) by {
                    if i < qs0.len() {
                        assert(qs[i] == qs0[i]);
                    }
                }
                assert forall|g: int, x: int, y: int, z: int|
                    0 <= g < f && #[trigger] exposed(*chunk, neighbor_solid, g, x, y, z)
                        implies quad_covers(qs, g, cell_duv(g, x, y, z, lo)) by {
                    assert(quad_covers(qs0, g, cell_duv(g, x, y, z, lo)));
                }
                assert forall|x: int, y: int, z: int|
                    #[trigger] exposed(*chunk, neighbor_solid, f as int, x, y, z) && cell_duv(
                        f as int,
                        x,
                        y,
                        z,
                        lo,
                    ).0 < depth_off + di + 1 implies quad_covers(
                        qs,
                        f as int,
                        cell_duv(f as int, x, y, z, lo),
                    ) by {
                    if cell_duv(f as int, x, y, z, lo).0 < depth_off + di {
                        assert(quad_covers(qs0, f as int, cell_duv(f as int, x, y, z, lo)));
                    }
                }
            }
            di = di + 1;
        }
        proof {
            assert forall|g: int, x: int, y: int, z: int|
                0 <= g < f + 1 && #[trigger] exposed(*chunk, neighbor_solid, g, x, y, z)
                    implies quad_covers(qs, g, cell_duv(g, x, y, z, lo)) by {
                if g == f {
                    law_solids_within_y_bounds(*chunk, x, y, z);
                }
            }
        }
        f = f + 1;
    }
    proof {
        assert(quads_tile(*chunk, neighbor_solid, lo, hi, qs));
    }
    VoxelMesh { vertices, indices }
}


pub open spec fn vsub(a: (int, int, int), b: (int, int, int)) -> (int, int, int) {
    (a.0 - b.0, a.1 - b.1, a.2 - b.2)
}

pub open spec fn vcross(a: (int, int, int), b: (int, int, int)) -> (int, int, int) {
    (a.1 * b.2 - a.2 * b.1, a.2 * b.0 - a.0 * b.2, a.0 * b.1 - a.1 * b.0)
}

pub open spec fn vdot(a: (int, int, int), b: (int, int, int)) -> int {
    a.0 * b.0 + a.1 * b.1 + a.2 * b.2
}

/// Every emitted quad winds counter-clockwise seen from outside: the normal
/// of its first triangle points along the face direction, so back-face
/// culling keeps it.
pub proof fn law_quads_face_outward(q: Quad, lo: int)
    requires
        0 <= q.0 < 6,
        q.2.w >= 1,
        q.2.h >= 1,
    ensures
        ({
            let p0 = quad_corner(q, 0, lo);
            let p1 = quad_corner(q, 1, lo);
            let p3 = quad_corner(q, 3, lo);
            vdot(vcross(vsub(p1, p0), vsub(p3, p0)), face_dir(q.0)) > 0
        }),
{
    let w = q.2.w as int;
    let h = q.2.h as int;
    assert(w * h > 0) by (nonlinear_arith)
        requires
            w >= 1,
            h >= 1,
    ;
    let p0 = quad_corner(q, 0, lo);
    let p1 = quad_corner(q, 1, lo);
    let p3 = quad_corner(q, 3, lo);
    assert(h * w == w * h) by (nonlinear_arith);
    assert(0 * w == 0 && w * 0 == 0 && 0 * h == 0 && h * 0 == 0 && 0 * 0 == 0) by (nonlinear_arith);
    let f = q.0;
    if f == 0 {
        assert(vsub(p1, p0) == (0int, h, 0int));
        assert(vsub(p3, p0) == (0int, 0int, w));
    } else if f == 1 {
        assert(vsub(p1, p0) == (0int, 0int, w));
        assert(vsub(p3, p0) == (0int, h, 0int));
    } else if f == 2 {
        assert(vsub(p1, p0) == (0int, 0int, h));
        assert(vsub(p3, p0) == (w, 0int, 0int));
    } else if f == 3 {
        assert(vsub(p1, p0) == (w, 0int, 0int));
        assert(vsub(p3, p0) == (0int, 0int, h));
    } else if f == 4 {
        assert(vsub(p1, p0) == (w, 0int, 0int));
        assert(vsub(p3, p0) == (0int, h, 0int));
    } else {
        assert(vsub(p1, p0) == (0int, h, 0int));
        assert(vsub(p3, p0) == (w, 0int, 0int));
    }
}

/// A chunk for which no vertical bounds exist holds no solid block (and
/// `mesh_chunk` gives it an empty mesh).
pub proof fn law_no_solid_no_bounds(chunk: Chunk)
    requires
        y_bounds(chunk) is None,
    ensures
        forall|x: int, y: int, z: int| !#[trigger] chunk.solid_at(x, y, z),
{
    assert forall|x: int, y: int, z: int| !#[trigger] chunk.solid_at(x, y, z) by {
        if chunk.solid_at(x, y, z) {
            law_solids_within_y_bounds(chunk, x, y, z);
        }
    }
}

} // verus!
