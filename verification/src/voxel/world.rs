//! Chunk streaming bookkeeping: which chunks are loaded or in flight, which
//! are wanted around the player, and in what order the missing ones are
//! handed to the workers.
//!
//! The frustum test and the worker threads are the caller's business: the
//! caller answers "is this position visible?" with a flag per position, and
//! sends the positions that `dispatch` returns to the workers.
use vstd::prelude::*;
use crate::voxel::chunk::ChunkPos;
use crate::ranking::{insert_ranked, pair_lt, strictly_sorted};
use crate::distinct::{lemma_concat_contains, lemma_push_contains, lemma_push_fresh, lemma_remove_distinct};

verus! {

/// Largest render distance whose scan fits the `i32` arithmetic.
pub const MAX_RENDER_DISTANCE: i32 = 23169;

/// Smallest render distance accepted (anything negative scans nothing).
pub const MIN_RENDER_DISTANCE: i32 = -23170;

/// Chunks started per `dispatch`, counting those still in flight.
pub const MAX_LOAD_PER_FRAME: usize = 4;

/// Offset that puts every invisible position behind every visible one.
pub const INVISIBLE_PENALTY: u64 = 0x1_0000_0000;

/// Squared chunk distance between `p` and `c`.
pub open spec fn dist2(p: ChunkPos, c: ChunkPos) -> int {
    (p.x - c.x) * (p.x - c.x) + (p.z - c.z) * (p.z - c.z)
}

/// Whether `p` lies in the square of half-width `rd` around `c`.
pub open spec fn in_range(p: ChunkPos, c: ChunkPos, rd: int) -> bool {
    c.x - rd <= p.x <= c.x + rd && c.z - rd <= p.z <= c.z + rd
}

/// Load priority of a position: visible first, then nearer.
pub open spec fn priority(visible: bool, p: ChunkPos, c: ChunkPos) -> int {
    (if visible { 0int } else { INVISIBLE_PENALTY as int }) + dist2(p, c)
}

/// Whether source index `i` is loaded before source index `j`: lower
/// priority first, and the earlier source position among equals.
pub open spec fn precedes(src: Seq<ChunkPos>, flags: Seq<bool>, c: ChunkPos, i: int, j: int) -> bool {
    let a = priority(flags[i], src[i], c);
    let b = priority(flags[j], src[j], c);
    a < b || (a == b && i < j)
}

/// `q` lists exactly the kept positions of `src`, in load order.
pub open spec fn ranked_queue(
    q: Seq<ChunkPos>,
    src: Seq<ChunkPos>,
    flags: Seq<bool>,
    c: ChunkPos,
    keep: Seq<bool>,
) -> bool {
    exists|ix: Seq<int>|
        {
            &&& ix.len() == q.len()
            &&& forall|k: int| 0 <= k < ix.len() ==> 0 <= #[trigger] ix[k] < src.len()
            &&& forall|k: int| 0 <= k < ix.len() ==> q[k] == src[#[trigger] ix[k]]
            &&& forall|i: int| 0 <= i < src.len() ==> (keep[i] <==> #[trigger] ix.contains(i))
            &&& forall|a: int, b: int|
                0 <= a < b < ix.len() ==> precedes(src, flags, c, #[trigger] ix[a], #[trigger] ix[b])
        }
}

/// Side of the scanned square.
pub open spec fn scan_width(rd: int) -> int {
    2 * rd + 1
}

/// Number of positions in the scan of radius `rd`.
pub open spec fn scan_len(rd: int) -> int {
    if rd >= 0 {
        scan_width(rd) * scan_width(rd)
    } else {
        0
    }
}

/// The `k`-th position of the scan around `c`: x offsets outermost, both
/// from `-rd` up to `rd`.
pub open spec fn scan_pos(c: ChunkPos, rd: int, k: int) -> ChunkPos {
    ChunkPos {
        x: (c.x - rd + k / scan_width(rd)) as i32,
        z: (c.z - rd + k % scan_width(rd)) as i32,
    }
}

/// The full scan around `c`.
pub open spec fn scan_seq(c: ChunkPos, rd: int) -> Seq<ChunkPos> {
    Seq::new(scan_len(rd) as nat, |k: int| scan_pos(c, rd, k))
}

/// The scan of radius `rd` around `c` stays inside `i32`.
pub open spec fn scan_fits(c: ChunkPos, rd: int) -> bool {
    &&& MIN_RENDER_DISTANCE <= rd <= MAX_RENDER_DISTANCE
    &&& rd >= 0 ==> i32::MIN <= c.x - rd && c.x + rd <= i32::MAX && i32::MIN <= c.z - rd && c.z
        + rd <= i32::MAX
}

/// Every position of the scan that `needed_positions` produces lies in range
/// and is listed once.
pub proof fn lemma_scan_pos(c: ChunkPos, rd: int, k: int)
    requires
        scan_fits(c, rd),
        0 <= k < scan_len(rd),
    ensures
        scan_pos(c, rd, k).x == c.x - rd + k / scan_width(rd),
        scan_pos(c, rd, k).z == c.z - rd + k % scan_width(rd),
        0 <= k / scan_width(rd) < scan_width(rd),
        0 <= k % scan_width(rd) < scan_width(rd),
        in_range(scan_pos(c, rd, k), c, rd),
{
    let w = scan_width(rd);
    assert(rd >= 0);
    assert(0 <= k / w < w) by (nonlinear_arith)
        requires
            0 <= k < w * w,
            w > 0,
    ;
    assert(0 <= k % w < w) by (nonlinear_arith)
        requires
            w > 0,
    ;
}

/// The positions within `rd` chunks of `center`, x offset outermost.
pub fn needed_positions(center: ChunkPos, rd: i32) -> (r: Vec<ChunkPos>)
    requires
        scan_fits(center, rd as int),
    ensures
        r@ == scan_seq(center, rd as int),
{
    let mut out: Vec<ChunkPos> = Vec::new();
    if rd < 0 {
        assert(out@ =~= scan_seq(center, rd as int));
        return out;
    }
    let ghost w = scan_width(rd as int);
    let mut dx: i32 = -rd;
    assert(dx + rd == 0);
    assert((dx + rd) * w == 0) by (nonlinear_arith)
        requires
            dx + rd == 0,
    ;
    while dx <= rd
        invariant
            0 <= rd <= MAX_RENDER_DISTANCE,
            w == 2 * rd + 1,
            scan_fits(center, rd as int),
            -rd <= dx <= rd + 1,
            out@.len() == (dx + rd) * w,
            forall|k: int| 0 <= k < out@.len() ==> out@[k] == scan_pos(center, rd as int, k),
        decreases rd + 1 - dx,
    {
        let mut dz: i32 = -rd;
        while dz <= rd
            invariant
                0 <= rd <= MAX_RENDER_DISTANCE,
                w == 2 * rd + 1,
                scan_fits(center, rd as int),
                -rd <= dx <= rd,
                -rd <= dz <= rd + 1,
                out@.len() == (dx + rd) * w + (dz + rd),
                forall|k: int| 0 <= k < out@.len() ==> out@[k] == scan_pos(center, rd as int, k),
            decreases rd + 1 - dz,
        {
            let ghost k = out@.len() as int;
            proof {
                vstd::arithmetic::div_mod::lemma_fundamental_div_mod_converse(
                    k,
                    w,
                    (dx + rd) as int,
                    (dz + rd) as int,
                );
            }
            out.push(ChunkPos { x: center.x + dx, z: center.z + dz });
            dz = dz + 1;
        }
        proof {
            assert((dx + rd) * w + w == (dx + 1 + rd) * w) by (nonlinear_arith);
        }
        dx = dx + 1;
    }
    proof {
        assert((dx + rd) * w == w * w) by (nonlinear_arith)
            requires
                dx == rd + 1,
                w == 2 * rd + 1,
        ;
        assert(out@ =~= scan_seq(center, rd as int));
    }
    out
}

/// The load priority of `p` seen from `c`, as `priority` states it.
fn priority_of(visible: bool, p: ChunkPos, c: ChunkPos) -> (r: u64)
    requires
        in_range(p, c, MAX_RENDER_DISTANCE as int),
    ensures
        r == priority(visible, p, c),
{
    let dx: i64 = p.x as i64 - c.x as i64;
    let dz: i64 = p.z as i64 - c.z as i64;
    assert(0 <= dx * dx <= 23169 * 23169) by (nonlinear_arith)
        requires
            -23169 <= dx <= 23169,
    ;
    assert(0 <= dz * dz <= 23169 * 23169) by (nonlinear_arith)
        requires
            -23169 <= dz <= 23169,
    ;
    let d: u64 = (dx * dx + dz * dz) as u64;
    if visible {
        d
    } else {
        INVISIBLE_PENALTY + d
    }
}

/// The kept positions of `src` in load order: visible before invisible,
/// nearer to `c` first, and in `src` order among equals.
pub fn rank_positions(src: &Vec<ChunkPos>, flags: &Vec<bool>, keep: &Vec<bool>, c: ChunkPos) -> (out:
    Vec<ChunkPos>)
    requires
        flags@.len() == src@.len(),
        keep@.len() == src@.len(),
        forall|i: int| 0 <= i < src@.len() ==> in_range(#[trigger] src@[i], c, MAX_RENDER_DISTANCE as int),
    ensures
        ranked_queue(out@, src@, flags@, c, keep@),
        forall|k: int| 0 <= k < out@.len() ==> src@.contains(#[trigger] out@[k]),
        src@.no_duplicates() ==> out@.no_duplicates(),
{
    let mut r: Vec<(u64, usize)> = Vec::new();
    let n = src.len();
    for i in 0..n
        invariant
            n == src@.len(),
            flags@.len() == n,
            keep@.len() == n,
            forall|j: int| 0 <= j < n ==> in_range(#[trigger] src@[j], c, MAX_RENDER_DISTANCE as int),
            strictly_sorted(r@),
            forall|k1: int, k2: int|
                0 <= k1 < k2 < r@.len() ==> (#[trigger] r@[k1]).1 != (#[trigger] r@[k2]).1,
            forall|k: int|
                0 <= k < r@.len() ==> {
                    &&& (#[trigger] r@[k]).1 < i
                    &&& keep@[r@[k].1 as int]
                    &&& r@[k].0 == priority(flags@[r@[k].1 as int], src@[r@[k].1 as int], c)
                },
            forall|j: int|
                0 <= j < i && #[trigger] keep@[j] ==> exists|k: int| 0 <= k < r@.len() && r@[k].1 == j,
    {
        if keep[i] {
            let key = priority_of(flags[i], src[i], c);
            let ghost before = r@;
            let pos = insert_ranked(&mut r, (key, i));
            proof {
                assert forall|j: int| 0 <= j < i + 1 && #[trigger] keep@[j] implies exists|k: int|
                    0 <= k < r@.len() && r@[k].1 == j by {
                    if j == i {
                        assert(r@[pos as int].1 == j);
                    } else {
                        let k0 = choose|k: int| 0 <= k < before.len() && before[k].1 == j;
                        if k0 < pos {
                            assert(r@[k0].1 == j);
                        } else {
                            assert(r@[k0 + 1].1 == j);
                        }
                    }
                }
                assert forall|k: int| 0 <= k < r@.len() implies {
                    &&& (#[trigger] r@[k]).1 < i + 1
                    &&& keep@[r@[k].1 as int]
                    &&& r@[k].0 == priority(flags@[r@[k].1 as int], src@[r@[k].1 as int], c)
                } by {
                    if k < pos {
                        assert(r@[k] == before[k]);
                    } else if k > pos {
                        assert(r@[k] == before[k - 1]);
                    }
                }
                assert forall|k1: int, k2: int| 0 <= k1 < k2 < r@.len() implies (#[trigger] r@[k1]).1
                    != (#[trigger] r@[k2]).1 by {
                    let a = if k1 < pos { k1 } else { k1 - 1 };
                    let b = if k2 < pos { k2 } else { k2 - 1 };
                    if k1 != pos && k2 != pos {
                        assert(r@[k1] == before[a] && r@[k2] == before[b]);
                    } else if k1 == pos {
                        assert(r@[k2] == before[b]);
                    } else {
                        assert(r@[k1] == before[a]);
                    }
                }
            }
        }
    }
    let mut out: Vec<ChunkPos> = Vec::new();
    let m = r.len();
    for t in 0..m
        invariant
            m == r@.len(),
            n == src@.len(),
            forall|k: int| 0 <= k < r@.len() ==> (#[trigger] r@[k]).1 < n,
            forall|k1: int, k2: int|
                0 <= k1 < k2 < r@.len() ==> (#[trigger] r@[k1]).1 != (#[trigger] r@[k2]).1,
            out@.len() == t,
            forall|k: int| 0 <= k < t ==> out@[k] == src@[(#[trigger] r@[k]).1 as int],
    {
        out.push(src[r[t].1]);
    }
    proof {
        let ix = Seq::new(r@.len(), |k: int| r@[k].1 as int);
        assert forall|i: int| 0 <= i < src@.len() implies (keep@[i] <==> #[trigger] ix.contains(i)) by {
            if keep@[i] {
                let k0 = choose|k: int| 0 <= k < r@.len() && r@[k].1 == i;
                assert(ix[k0] == i);
            }
            if ix.contains(i) {
                let k0 = choose|k: int| 0 <= k < ix.len() && ix[k] == i;
                assert(r@[k0].1 == i);
            }
        }
        assert forall|a: int, b: int| 0 <= a < b < ix.len() implies precedes(
            src@,
            flags@,
            c,
            #[trigger] ix[a],
            #[trigger] ix[b],
        ) by {
            assert(pair_lt(r@[a], r@[b]));
        }
        assert(forall|k: int| 0 <= k < ix.len() ==> out@[k] == src@[#[trigger] ix[k]]);
        assert(forall|k: int| 0 <= k < ix.len() ==> 0 <= #[trigger] ix[k] < src@.len());
        assert(ix.len() == out@.len());
        assert forall|k: int| 0 <= k < out@.len() implies src@.contains(#[trigger] out@[k]) by {
            assert(out@[k] == src@[r@[k].1 as int]);
        }
        if src@.no_duplicates() {
            assert forall|k1: int, k2: int| 0 <= k1 < out@.len() && 0 <= k2 < out@.len() && k1
                != k2 implies out@[k1] != out@[k2] by {
                if k1 < k2 {
                    assert(r@[k1].1 != r@[k2].1);
                } else {
                    assert(r@[k2].1 != r@[k1].1);
                }
            }
        }
    }
    out
}

/// The scan lists each position once.
pub proof fn lemma_scan_distinct(c: ChunkPos, rd: int)
    requires
        scan_fits(c, rd),
    ensures
        scan_seq(c, rd).no_duplicates(),
{
    let s = scan_seq(c, rd);
    assert forall|i: int, j: int| 0 <= i < s.len() && 0 <= j < s.len() && i != j implies s[i]
        != s[j] by {
        let w = scan_width(rd);
        lemma_scan_pos(c, rd, i);
        lemma_scan_pos(c, rd, j);
        vstd::arithmetic::div_mod::lemma_fundamental_div_mod(i, w);
        vstd::arithmetic::div_mod::lemma_fundamental_div_mod(j, w);
        if i / w == j / w && i % w == j % w {
            assert(w * (i / w) + i % w == w * (j / w) + j % w);
        }
    }
}

/// Index of `p` in `v`, if present.
fn find_pos(v: &Vec<ChunkPos>, p: ChunkPos) -> (r: Option<usize>)
    ensures
        match r {
            Some(i) => i < v@.len() && v@[i as int] == p,
            None => !v@.contains(p),
        },
{
    let mut i: usize = 0;
    while i < v.len()
        invariant
            i <= v@.len(),
            forall|k: int| 0 <= k < i ==> v@[k] != p,
        decreases v@.len() - i,
    {
        if v[i] == p {
            return Some(i);
        }
        i = i + 1;
    }
    None
}

/// Whether `p` lies within `rd` chunks of `c` on both axes.
fn within(p: ChunkPos, c: ChunkPos, rd: i32) -> (r: bool)
    ensures
        r == in_range(p, c, rd as int),
{
    let dx: i64 = p.x as i64 - c.x as i64;
    let dz: i64 = p.z as i64 - c.z as i64;
    let r64: i64 = rd as i64;
    -r64 <= dx && dx <= r64 && -r64 <= dz && dz <= r64
}

/// What the loader knows of each chunk, and the chunks still to start, in
/// the order they will be started.
pub struct ChunkLoader {
    loading: Vec<ChunkPos>,
    loaded: Vec<ChunkPos>,
    render_distance: i32,
    player_chunk: ChunkPos,
    max_load_per_frame: usize,
    load_queue: Vec<ChunkPos>,
}

impl ChunkLoader {
    /// Chunks handed to a worker and not reported back yet.
    pub closed spec fn loading_set(&self) -> Set<ChunkPos> {
        self.loading@.to_set()
    }

    /// Chunks whose mesh is done.
    pub closed spec fn loaded_set(&self) -> Set<ChunkPos> {
        self.loaded@.to_set()
    }

    /// Chunks waiting to be started, first one first.
    pub closed spec fn queue(&self) -> Seq<ChunkPos> {
        self.load_queue@
    }

    /// The chunk the queue was last built around.
    pub closed spec fn center(&self) -> ChunkPos {
        self.player_chunk
    }

    /// Half-width, in chunks, of the square kept around the player.
    pub closed spec fn radius(&self) -> int {
        self.render_distance as int
    }

    /// How many chunks may be in flight at once.
    pub closed spec fn batch(&self) -> int {
        self.max_load_per_frame as int
    }

    /// Whether the loader is loading or has loaded `p`.
    pub open spec fn known(&self, p: ChunkPos) -> bool {
        self.loading_set().contains(p) || self.loaded_set().contains(p)
    }

    /// No chunk is listed twice or in two states, and every queued chunk
    /// lies within the render distance of the player.
    pub closed spec fn wf(&self) -> bool {
        &&& self.loading@.no_duplicates()
        &&& self.loaded@.no_duplicates()
        &&& forall|p: ChunkPos| !(self.loading@.contains(p) && self.loaded@.contains(p))
        &&& self.load_queue@.no_duplicates()
        &&& forall|k: int|
            0 <= k < self.load_queue@.len() ==> in_range(
                #[trigger] self.load_queue@[k],
                self.player_chunk,
                self.render_distance as int,
            )
        &&& MIN_RENDER_DISTANCE <= self.render_distance <= MAX_RENDER_DISTANCE
    }

    /// A loader with nothing known and nothing queued, whose player is
    /// nowhere yet, so that the first `enter_chunk` always scans.
    pub fn new(render_distance: i32) -> (r: Self)
        requires
            MIN_RENDER_DISTANCE <= render_distance <= MAX_RENDER_DISTANCE,
        ensures
            r.wf(),
            r.loading_set().is_empty(),
            r.loaded_set().is_empty(),
            r.queue().len() == 0,
            r.center() == (ChunkPos { x: i32::MAX, z: i32::MAX }),
            r.radius() == render_distance,
            r.batch() == MAX_LOAD_PER_FRAME,
    {
        let r = ChunkLoader {
            loading: Vec::new(),
            loaded: Vec::new(),
            render_distance,
            player_chunk: ChunkPos { x: i32::MAX, z: i32::MAX },
            max_load_per_frame: MAX_LOAD_PER_FRAME,
            load_queue: Vec::new(),
        };
        assert(r.loading_set() =~= Set::empty());
        assert(r.loaded_set() =~= Set::empty());
        r
    }

    /// The render distance.
    pub fn render_distance(&self) -> (r: i32)
        ensures
            r == self.radius(),
    {
        self.render_distance
    }

    /// The chunk the queue was last built around.
    pub fn player_chunk(&self) -> (r: ChunkPos)
        ensures
            r == self.center(),
    {
        self.player_chunk
    }

    /// The chunks waiting to be started, first one first.
    pub fn load_queue(&self) -> (r: &Vec<ChunkPos>)
        ensures
            r@ == self.queue(),
    {
        &self.load_queue
    }

    /// Whether `p` is loading or loaded.
    pub fn is_known(&self, p: ChunkPos) -> (r: bool)
        ensures
            r == self.known(p),
    {
        find_pos(&self.loading, p).is_some() || find_pos(&self.loaded, p).is_some()
    }

    /// How many chunks are in flight.
    pub fn loading_count(&self) -> (r: usize)
        requires
            self.wf(),
        ensures
            r == self.loading_set().len(),
    {
        proof {
            self.loading@.unique_seq_to_set();
        }
        self.loading.len()
    }

    /// A worker finished `pos`: it is loaded from now on.
    pub fn mark_loaded(&mut self, pos: ChunkPos)
        requires
            old(self).wf(),
        ensures
            final(self).wf(),
            final(self).loading_set() == old(self).loading_set().remove(pos),
            final(self).loaded_set() == old(self).loaded_set().insert(pos),
            final(self).queue() == old(self).queue(),
            final(self).center() == old(self).center(),
            final(self).radius() == old(self).radius(),
            final(self).batch() == old(self).batch(),
    {
        let ghost before = self.loading@;
        match find_pos(&self.loading, pos) {
            Some(i) => {
                self.loading.remove(i);
                proof {
                    lemma_remove_distinct(before, i as int);
                }
            },
            None => {
                assert(self.loading@.to_set() =~= before.to_set().remove(pos));
            },
        }
        let ghost mid = self.loaded@;
        let found = find_pos(&self.loaded, pos);
        if found.is_none() {
            self.loaded.push(pos);
            proof {
                mid.lemma_push_to_set_commute(pos);
            }
            assert forall|a: int, b: int|
                0 <= a < self.loaded@.len() && 0 <= b < self.loaded@.len() && a != b implies
                self.loaded@[a] != self.loaded@[b] by {
                if a < mid.len() && b < mid.len() {
                    assert(self.loaded@[a] == mid[a] && self.loaded@[b] == mid[b]);
                } else if a < mid.len() {
                    assert(self.loaded@[a] == mid[a]);
                } else {
                    assert(self.loaded@[b] == mid[b]);
                }
            }
        } else {
            let i = found.unwrap();
            assert(mid[i as int] == pos);
            assert(mid.contains(pos));
            assert(mid.to_set().contains(pos));
            assert(self.loaded@ == mid);
            assert(self.loaded@.to_set() =~= mid.to_set().insert(pos));
        }
        assert forall|p: ChunkPos| !(self.loading@.contains(p) && self.loaded@.contains(p)) by {
            if self.loading@.contains(p) {
                assert(self.loading@.to_set().contains(p));
            }
            if self.loaded@.contains(p) {
                assert(self.loaded@.to_set().contains(p));
            }
        }
    }

    /// How many more chunks may start now.
    pub open spec fn room(&self) -> int {
        if self.batch() > self.loading_set().len() {
            self.batch() - self.loading_set().len()
        } else {
            0
        }
    }

    /// The player entered chunk `center`. Loaded chunks that fell out of
    /// range are forgotten and returned, so that the renderer can drop them;
    /// chunks in flight stay. The queue is rebuilt from every position in
    /// range that is neither loading nor loaded. `visible[k]` tells whether
    /// the `k`-th position of `needed_positions(center, radius)` is in view.
    pub fn enter_chunk(&mut self, center: ChunkPos, visible: &Vec<bool>) -> (removed: Vec<ChunkPos>)
        requires
            old(self).wf(),
            scan_fits(center, old(self).radius()),
            visible@.len() == scan_len(old(self).radius()),
        ensures
            final(self).wf(),
            final(self).center() == center,
            final(self).radius() == old(self).radius(),
            final(self).batch() == old(self).batch(),
            final(self).loading_set() == old(self).loading_set(),
            forall|p: ChunkPos|
                final(self).loaded_set().contains(p) <==> (old(self).loaded_set().contains(p)
                    && in_range(p, center, old(self).radius())),
            removed@.no_duplicates(),
            forall|p: ChunkPos|
                #[trigger] removed@.contains(p) <==> (old(self).loaded_set().contains(p) && !in_range(
                    p,
                    center,
                    old(self).radius(),
                )),
            ranked_queue(
                final(self).queue(),
                scan_seq(center, old(self).radius()),
                visible@,
                center,
                scan_seq(center, old(self).radius()).map_values(|p: ChunkPos| !old(self).known(p)),
            ),
    {
        let rd = self.render_distance;
        let src = needed_positions(center, rd);
        proof {
            lemma_scan_distinct(center, rd as int);
            assert forall|k: int| 0 <= k < src@.len() implies in_range(
                #[trigger] src@[k],
                center,
                MAX_RENDER_DISTANCE as int,
            ) by {
                lemma_scan_pos(center, rd as int, k);
            }
        }
        let mut keep: Vec<bool> = Vec::new();
        for i in 0..src.len()
            invariant
                keep@.len() == i,
                forall|k: int| 0 <= k < i ==> keep@[k] == !self.known(#[trigger] src@[k]),
        {
            let fresh = !self.is_known(src[i]);
            keep.push(fresh);
        }
        let ghost old_self = *self;
        assert(keep@ =~= src@.map_values(|p: ChunkPos| !old_self.known(p)));
        let mut kept: Vec<ChunkPos> = Vec::new();
        let mut removed: Vec<ChunkPos> = Vec::new();
        let n = self.loaded.len();
        for i in 0..n
            invariant
                n == self.loaded@.len(),
                self.loaded@.no_duplicates(),
                forall|p: ChunkPos|
                    #[trigger] kept@.contains(p) <==> (self.loaded@.take(i as int).contains(p)
                        && in_range(p, center, rd as int)),
                forall|p: ChunkPos|
                    #[trigger] removed@.contains(p) <==> (self.loaded@.take(i as int).contains(p)
                        && !in_range(p, center, rd as int)),
                kept@.no_duplicates(),
                removed@.no_duplicates(),
        {
            let p = self.loaded[i];
            let ghost pre = self.loaded@.take(i as int);
            assert(self.loaded@.take(i + 1) =~= pre.push(p));
            proof {
                lemma_push_contains(pre, p);
            }
            assert(!pre.contains(p));
            proof {
                if kept@.contains(p) {
                    assert(pre.contains(p));
                }
                if removed@.contains(p) {
                    assert(pre.contains(p));
                }
            }
            if within(p, center, rd) {
                proof {
                    lemma_push_fresh(kept@, p);
                }
                kept.push(p);
            } else {
                proof {
                    lemma_push_fresh(removed@, p);
                }
                removed.push(p);
            }
        }
        assert(self.loaded@.take(n as int) =~= self.loaded@);
        self.loaded = kept;
        let queue = rank_positions(&src, visible, &keep, center);
        self.load_queue = queue;
        self.player_chunk = center;
        proof {
            assert forall|k: int| 0 <= k < self.load_queue@.len() implies in_range(
                #[trigger] self.load_queue@[k],
                self.player_chunk,
                self.render_distance as int,
            ) by {
                assert(src@.contains(self.load_queue@[k]));
                let i = choose|i: int| 0 <= i < src@.len() && src@[i] == self.load_queue@[k];
                lemma_scan_pos(center, rd as int, i);
            }
            assert forall|p: ChunkPos| !(self.loading@.contains(p) && self.loaded@.contains(p)) by {
                if self.loaded@.contains(p) {
                    assert(old_self.loaded@.contains(p));
                }
            }
            assert forall|p: ChunkPos|
                self.loaded_set().contains(p) <==> (old_self.loaded_set().contains(p) && in_range(
                    p,
                    center,
                    rd as int,
                )) by {
                assert(self.loaded@.contains(p) == self.loaded_set().contains(p));
                assert(old_self.loaded@.contains(p) == old_self.loaded_set().contains(p));
            }
            assert forall|p: ChunkPos|
                #[trigger] removed@.contains(p) <==> (old_self.loaded_set().contains(p) && !in_range(
                    p,
                    center,
                    rd as int,
                )) by {
                assert(old_self.loaded@.contains(p) == old_self.loaded_set().contains(p));
            }
        }
        removed
    }

    /// The player turned: the queue is reordered by what is in view now.
    /// `visible[k]` tells whether the `k`-th queued chunk is in view.
    pub fn reprioritize(&mut self, visible: &Vec<bool>)
        requires
            old(self).wf(),
            visible@.len() == old(self).queue().len(),
        ensures
            final(self).wf(),
            ranked_queue(
                final(self).queue(),
                old(self).queue(),
                visible@,
                old(self).center(),
                Seq::new(old(self).queue().len(), |k: int| true),
            ),
            final(self).loading_set() == old(self).loading_set(),
            final(self).loaded_set() == old(self).loaded_set(),
            final(self).center() == old(self).center(),
            final(self).radius() == old(self).radius(),
            final(self).batch() == old(self).batch(),
    {
        let n = self.load_queue.len();
        let mut keep: Vec<bool> = Vec::new();
        for i in 0..n
            invariant
                keep@.len() == i,
                forall|k: int| 0 <= k < i ==> keep@[k],
        {
            keep.push(true);
        }
        assert(keep@ =~= Seq::new(n as nat, |k: int| true));
        let ghost q = self.load_queue@;
        assert forall|k: int| 0 <= k < q.len() implies in_range(
            #[trigger] q[k],
            self.player_chunk,
            MAX_RENDER_DISTANCE as int,
        ) by {
            assert(in_range(q[k], self.player_chunk, self.render_distance as int));
        }
        let queue = rank_positions(&self.load_queue, visible, &keep, self.player_chunk);
        self.load_queue = queue;
        proof {
            assert forall|k: int| 0 <= k < self.load_queue@.len() implies in_range(
                #[trigger] self.load_queue@[k],
                self.player_chunk,
                self.render_distance as int,
            ) by {
                assert(q.contains(self.load_queue@[k]));
                let i = choose|i: int| 0 <= i < q.len() && q[i] == self.load_queue@[k];
                assert(in_range(q[i], self.player_chunk, self.render_distance as int));
            }
        }
    }

    /// Starts as many queued chunks as there is room for: pops the queue
    /// front to back, skips chunks already loading or loaded, marks each
    /// started chunk as loading and returns them in that order.
    pub fn dispatch(&mut self) -> (started: Vec<ChunkPos>)
        requires
            old(self).wf(),
        ensures
            final(self).wf(),
            exists|k: int|
                {
                    &&& 0 <= k <= old(self).queue().len()
                    &&& final(self).queue() == old(self).queue().skip(k)
                    &&& started@ == old(self).queue().take(k).filter(
                        |p: ChunkPos| !old(self).known(p),
                    )
                    &&& started@.len() < old(self).room() ==> k == old(self).queue().len()
                    &&& started@.len() == old(self).room() && k > 0 ==> !old(self).known(
                        old(self).queue()[k - 1],
                    )
                },
            started@.len() <= old(self).room(),
            forall|p: ChunkPos| #[trigger] started@.contains(p) ==> !old(self).known(p),
            final(self).loading_set() == old(self).loading_set().union(started@.to_set()),
            final(self).loading_set().len() == old(self).loading_set().len() + started@.len(),
            old(self).loading_set().len() <= old(self).batch() ==> final(self).loading_set().len()
                <= final(self).batch(),
            final(self).loaded_set() == old(self).loaded_set(),
            final(self).center() == old(self).center(),
            final(self).radius() == old(self).radius(),
            final(self).batch() == old(self).batch(),
    {
        let ghost old_self = *self;
        let ghost q = self.load_queue@;
        let ghost fresh = |p: ChunkPos| !old_self.known(p);
        proof {
            self.loading@.unique_seq_to_set();
        }
        let mut can = self.max_load_per_frame.saturating_sub(self.loading.len());
        let ghost room = can as int;
        let mut started: Vec<ChunkPos> = Vec::new();
        let mut i: usize = 0;
        while can > 0 && i < self.load_queue.len()
            invariant
                fresh == (|p: ChunkPos| !old_self.known(p)),
                self.load_queue@ == q,
                q.no_duplicates(),
                self.loaded@ == old_self.loaded@,
                self.player_chunk == old_self.player_chunk,
                self.render_distance == old_self.render_distance,
                self.max_load_per_frame == old_self.max_load_per_frame,
                i <= q.len(),
                started@ == q.take(i as int).filter(fresh),
                forall|p: ChunkPos| #[trigger] started@.contains(p) ==> q.take(i as int).contains(p),
                forall|p: ChunkPos| #[trigger] started@.contains(p) ==> fresh(p),
                started@.no_duplicates(),
                self.loading@ == old_self.loading@ + started@,
                can + started@.len() == room,
                can == 0 && i > 0 ==> fresh(q[i - 1]),
            decreases q.len() - i,
        {
            let pos = self.load_queue[i];
            let ghost pre = q.take(i as int);
            assert(q.take(i + 1) =~= pre.push(pos));
            proof {
                lemma_push_contains(pre, pos);
            }
            assert(!pre.contains(pos));
            proof {
                pre.lemma_filter_push(pos, fresh);
            }
            let k = self.is_known(pos);
            assert(k == old_self.known(pos)) by {
                assert(!started@.contains(pos));
                lemma_concat_contains(old_self.loading@, started@, pos);
                assert(self.loading@.contains(pos) <==> old_self.loading@.contains(pos));
            }
            i = i + 1;
            if !k {
                proof {
                    lemma_push_fresh(started@, pos);
                    assert(old_self.loading@ + started@.push(pos) =~= (old_self.loading@
                        + started@).push(pos));
                }
                self.loading.push(pos);
                started.push(pos);
                can = can - 1;
            }
        }
        let rest = self.load_queue.split_off(i);
        self.load_queue = rest;
        proof {
            let k = i as int;
            assert(self.load_queue@ =~= q.skip(k));
            assert forall|x: ChunkPos| self.loading@.contains(x) <==> (old_self.loading@.contains(x)
                || started@.contains(x)) by {
                lemma_concat_contains(old_self.loading@, started@, x);
            }
            assert forall|x: ChunkPos| #[trigger] self.loading@.to_set().contains(x) <==> old_self.loading_set().union(started@.to_set()).contains(x) by {
                lemma_concat_contains(old_self.loading@, started@, x);
            }
            assert(self.loading@.to_set() =~= old_self.loading_set().union(started@.to_set()));
            assert forall|a: int, b: int|
                0 <= a < self.loading@.len() && 0 <= b < self.loading@.len() && a != b implies
                self.loading@[a] != self.loading@[b] by {
                let m = old_self.loading@.len() as int;
                if a >= m {
                    assert(started@.contains(self.loading@[a]));
                    assert(!old_self.loading@.contains(self.loading@[a]));
                }
                if b >= m {
                    assert(started@.contains(self.loading@[b]));
                    assert(!old_self.loading@.contains(self.loading@[b]));
                }
            }
            assert forall|p: ChunkPos| !(self.loading@.contains(p) && self.loaded@.contains(p)) by {
                if self.loading@.contains(p) && !old_self.loading@.contains(p) {
                    assert(started@.contains(p));
                }
            }
            assert forall|t: int| 0 <= t < self.load_queue@.len() implies in_range(
                #[trigger] self.load_queue@[t],
                self.player_chunk,
                self.render_distance as int,
            ) by {
                assert(self.load_queue@[t] == q[t + k]);
            }
            assert(started@.len() < room ==> k == q.len());
            assert(fresh =~= (|p: ChunkPos| !old_self.known(p)));
            assert(started@ == q.take(k).filter(|p: ChunkPos| !old_self.known(p)));
            assert(started@.len() == room && k > 0 ==> !old_self.known(q[k - 1]));
            assert(room == old_self.room());
            self.loading@.unique_seq_to_set();
            old_self.loading@.unique_seq_to_set();
            assert({
                &&& 0 <= k <= old_self.queue().len()
                &&& self.queue() == old_self.queue().skip(k)
                &&& started@ == old_self.queue().take(k).filter(|p: ChunkPos| !old_self.known(p))
                &&& started@.len() < old_self.room() ==> k == old_self.queue().len()
                &&& started@.len() == old_self.room() && k > 0 ==> !old_self.known(
                    old_self.queue()[k - 1],
                )
            });
        }
        started
    }

}

} // verus!
