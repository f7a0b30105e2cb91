//! The renderer's bookkeeping: configuration, per-frame transform regions,
//! and grouping of visible instances into indirect draw commands.
use vstd::prelude::*;
use crate::render::pipeline::PipelineStateId;
use crate::resources::material::MaterialId;
use crate::ranking::{key_before, stable_order, stable_sort_indices};

verus! {

/// Handle of a mesh loaded into the geometry pool.
#[derive(Debug, Clone, Copy, PartialEq, Eq, PartialOrd, Ord, Hash, Structural)]
pub struct MeshId(pub u32);

/// Objects per transform region by default.
pub const DEFAULT_MAX_OBJECTS: usize = 65536;

/// Transform regions by default (frames in flight).
pub const DEFAULT_TRANSFORM_REGIONS: usize = 3;

/// Renderer sizing.
#[derive(Debug, Clone, Copy, PartialEq, Eq, Structural)]
pub struct RendererConfig {
    pub max_objects: usize,
    pub transform_regions: usize,
    pub indirect_command_capacity: usize,
    pub initial_draw_batch_capacity: usize,
}

impl Default for RendererConfig {
    fn default() -> (r: Self)
        ensures
            r == (RendererConfig {
                max_objects: 65536,
                transform_regions: 3,
                indirect_command_capacity: 4096,
                initial_draw_batch_capacity: 1024,
            }),
    {
        Self {
            max_objects: DEFAULT_MAX_OBJECTS,
            transform_regions: DEFAULT_TRANSFORM_REGIONS,
            indirect_command_capacity: 4096,
            initial_draw_batch_capacity: 1024,
        }
    }
}

impl RendererConfig {
    /// Objects per region and number of regions actually used: at least one
    /// of each.
    pub fn effective_sizes(&self) -> (r: (usize, usize))
        ensures
            r.0 == (if self.max_objects >= 1 { self.max_objects } else { 1 }),
            r.1 == (if self.transform_regions >= 1 { self.transform_regions } else { 1 }),
    {
        let m = if self.max_objects > 1 { self.max_objects } else { 1 };
        let t = if self.transform_regions > 1 { self.transform_regions } else { 1 };
        (m, t)
    }
}

/// The transform region a frame writes: `(region, first slot, end slot)`,
/// cycling through `regions` regions of `max_objects` slots each.
pub fn transform_region(frame_index: u64, regions: usize, max_objects: usize) -> (r: (usize, usize, usize))
    requires
        regions >= 1,
        regions * max_objects <= usize::MAX,
    ensures
        r.0 == frame_index % (regions as u64),
        r.1 == r.0 * max_objects,
        r.2 == r.1 + max_objects,
        r.0 < regions,
        r.2 <= regions * max_objects,
{
    let region = (frame_index % (regions as u64)) as usize;
    assert(region * max_objects + max_objects <= regions * max_objects) by (nonlinear_arith)
        requires
            region < regions,
            0 <= max_objects,
    ;
    let base = region * max_objects;
    (region, base, base + max_objects)
}

/// One indirect draw, laid out as `DrawElementsIndirectCommand`.
#[derive(Clone, Copy, Debug, PartialEq, Eq, Structural)]
pub struct DrawElementsIndirectCommand {
    /// Indices per instance.
    pub count: u32,
    /// Instances drawn.
    pub instance_count: u32,
    /// First index in the shared index buffer.
    pub first_index: u32,
    /// Added to every index.
    pub base_vertex: i32,
    /// First instance slot in the transform buffer.
    pub base_instance: u32,
}

/// How indirect draws are issued.
#[derive(Clone, Copy, Debug, PartialEq, Eq, Default, Structural)]
pub enum MdiStrategy {
    /// One `glDrawElementsIndirect` per command.
    Single,
    /// A loop of `glDrawElementsIndirect` standing for one batch.
    #[default]
    Multi,
    /// Like `Multi`, with the count also written to a parameter buffer.
    MultiCount,
}

/// Commands the persistently mapped indirect buffer holds.
pub const MAX_INDIRECT_COMMANDS: usize = 4096;

/// Commands actually written when `len` are offered to a buffer of
/// `capacity`.
pub fn uploaded_command_count(len: usize, capacity: usize) -> (r: usize)
    ensures
        r == (if len < capacity { len } else { capacity }),
{
    if len < capacity {
        len
    } else {
        capacity
    }
}

/// Bytes per indirect command (five `u32` fields).
pub const INDIRECT_COMMAND_STRIDE: usize = 20;

/// Byte offset, in the indirect buffer, of command `i` of a batch that
/// starts at byte `cmd_offset`.
pub fn command_byte_offset(cmd_offset: usize, i: usize) -> (r: i32)
    requires
        cmd_offset + i * INDIRECT_COMMAND_STRIDE <= i32::MAX,
    ensures
        r == cmd_offset + i * INDIRECT_COMMAND_STRIDE,
{
    (cmd_offset + i * INDIRECT_COMMAND_STRIDE) as i32
}

/// Indices `i < n` with `visible[i]`, in order.
pub open spec fn visible_indices(visible: Seq<bool>, n: int) -> Seq<usize>
    decreases n,
{
    if n <= 0 {
        Seq::empty()
    } else if visible[n - 1] {
        visible_indices(visible, n - 1).push((n - 1) as usize)
    } else {
        visible_indices(visible, n - 1)
    }
}

/// Instances that get a transform slot: the visible ones in order, as many
/// as `capacity` slots allow. The flag tells whether instances were left
/// unexamined because the slots ran out.
pub fn select_visible(visible: &Vec<bool>, capacity: usize) -> (r: (Vec<usize>, bool))
    ensures
        ({
            let all = visible_indices(visible@, visible@.len() as int);
            &&& r.0@ == all.take(if all.len() < capacity { all.len() as int } else { capacity as int })
            &&& r.1 == ((capacity == 0 && visible@.len() > 0) || (capacity > 0 && all.len() >= capacity
                && all[capacity - 1] + 1 < visible@.len()))
        }),
{
    let n = visible.len();
    let mut out: Vec<usize> = Vec::new();
    let mut i: usize = 0;
    let mut overflowed = false;
    while i < n
        invariant_except_break
            !overflowed,
        invariant
            n == visible@.len(),
            i <= n,
            out@.len() <= capacity,
            out@ == visible_indices(visible@, i as int),
            forall|k: int| 0 <= k < out@.len() ==> out@[k] < i,
            out@.len() < capacity || (capacity == 0 && i == 0) || (out@.len() == capacity && capacity > 0 && out@[capacity - 1] + 1 == i),
        ensures
            overflowed ==> out@.len() == capacity && i < n,
            !overflowed ==> i == n && out@ == visible_indices(visible@, n as int),
            overflowed ==> out@ == visible_indices(visible@, i as int),
            overflowed ==> capacity == 0 && i == 0 || capacity > 0 && out@[capacity - 1] + 1 == i,
        decreases n - i,
    {
        if out.len() >= capacity {
            overflowed = true;
            break;
        }
        if visible[i] {
            out.push(i);
        }
        i = i + 1;
    }
    proof {
        let all = visible_indices(visible@, n as int);
        lemma_visible_indices_prefix(visible@, i as int, n as int);
        if overflowed {
            assert(out@ =~= all.take(capacity as int));
        } else {
            assert(out@ =~= all.take(all.len() as int));
        }
    }
    (out, overflowed)
}

/// The selection up to `i` is a prefix of the selection up to `n`, and every
/// index selected past `i` is at least `i`.
proof fn lemma_visible_indices_prefix(visible: Seq<bool>, i: int, n: int)
    requires
        0 <= i <= n <= visible.len(),
        visible.len() <= usize::MAX,
    ensures
        visible_indices(visible, i).len() <= visible_indices(visible, n).len(),
        visible_indices(visible, i) == visible_indices(visible, n).take(
            visible_indices(visible, i).len() as int,
        ),
        forall|k: int|
            visible_indices(visible, i).len() <= k < visible_indices(visible, n).len() ==> #[trigger] visible_indices(visible, n)[k] >= i,
    decreases n - i,
{
    if i < n {
        lemma_visible_indices_prefix(visible, i, n - 1);
        lemma_visible_indices_bound(visible, n - 1);
        let p = visible_indices(visible, n - 1);
        let q = visible_indices(visible, n);
        let li = visible_indices(visible, i).len() as int;
        if visible[n - 1] {
            assert(q == p.push((n - 1) as usize));
            assert(q.take(li) =~= p.take(li));
            assert forall|k: int| li <= k < q.len() implies #[trigger] q[k] >= i by {
                if k < p.len() {
                    assert(q[k] == p[k]);
                    assert(p[k] >= i);
                } else {
                    assert(q[k] == (n - 1) as usize);
                }
            }
        }
    }
}

/// Every index selected below `n` is below `n`.
proof fn lemma_visible_indices_bound(visible: Seq<bool>, n: int)
    requires
        0 <= n <= visible.len(),
        visible.len() <= usize::MAX,
    ensures
        forall|k: int| 0 <= k < visible_indices(visible, n).len() ==> #[trigger] visible_indices(visible, n)[k] < n,
    decreases n,
{
    if n > 0 {
        lemma_visible_indices_bound(visible, n - 1);
        let p = visible_indices(visible, n - 1);
        let q = visible_indices(visible, n);
        if visible[n - 1] {
            assert(q == p.push((n - 1) as usize));
            assert forall|k: int| 0 <= k < q.len() implies #[trigger] q[k] < n by {
                if k < p.len() {
                    assert(q[k] == p[k]);
                }
            }
        }
    }
}

/// `runs` splits `[0, upto)` into consecutive maximal runs of equal keys.
pub open spec fn runs_prefix<K>(keys: Seq<K>, runs: Seq<(usize, usize)>, upto: int) -> bool {
    &&& upto == 0 <==> runs.len() == 0
    &&& runs.len() > 0 ==> runs[0].0 == 0 && runs.last().1 == upto
    &&& forall|k: int| 0 <= k < runs.len() ==> (#[trigger] runs[k]).0 < runs[k].1 <= upto
    &&& forall|k: int| 0 <= k < runs.len() - 1 ==> (#[trigger] runs[k]).1 == runs[k + 1].0
    &&& forall|k: int, i: int|
        0 <= k < runs.len() && runs[k].0 <= i < runs[k].1 ==> #[trigger] keys[i] == keys[(
        #[trigger] runs[k]).0 as int]
    &&& forall|k: int|
        0 < k < runs.len() ==> keys[(#[trigger] runs[k]).0 as int] != keys[runs[k].0 - 1]
}

/// `runs` splits all of `keys` into consecutive maximal runs of equal keys.
pub open spec fn runs_partition<K>(keys: Seq<K>, runs: Seq<(usize, usize)>) -> bool {
    runs_prefix(keys, runs, keys.len() as int)
}

proof fn lemma_push_run<K>(keys: Seq<K>, runs: Seq<(usize, usize)>, vi: usize, end: usize)
    requires
        runs_prefix(keys, runs, vi as int),
        vi < end <= keys.len(),
        forall|i: int| vi <= i < end ==> #[trigger] keys[i] == keys[vi as int],
        vi > 0 ==> keys[vi as int] != keys[vi - 1],
    ensures
        runs_prefix(keys, runs.push((vi, end)), end as int),
{
    let rs = runs.push((vi, end));
    assert forall|k: int, i: int|
        0 <= k < rs.len() && rs[k].0 <= i < rs[k].1 implies #[trigger] keys[i] == keys[(
        #[trigger] rs[k]).0 as int] by {
        if k < runs.len() {
            assert(rs[k] == runs[k]);
        }
    }
    assert forall|k: int| 0 < k < rs.len() implies keys[(#[trigger] rs[k]).0 as int] != keys[rs[k].0
        - 1] by {
        if k < runs.len() {
            assert(rs[k] == runs[k]);
        } else {
            assert(rs[k].0 == vi);
        }
    }
    assert forall|k: int| 0 <= k < rs.len() - 1 implies (#[trigger] rs[k]).1 == rs[k + 1].0 by {
        if k < runs.len() - 1 {
            assert(rs[k] == runs[k] && rs[k + 1] == runs[k + 1]);
        } else {
            assert(rs[k] == runs.last());
        }
    }
    assert forall|k: int| 0 <= k < rs.len() implies (#[trigger] rs[k]).0 < rs[k].1 <= end by {
        if k < runs.len() {
            assert(rs[k] == runs[k]);
        }
    }
}

/// Splits the visible instances, sorted by `(material, mesh)`, into runs of
/// the same material and mesh: one indirect draw each.
pub fn group_runs(keys: &Vec<(MaterialId, MeshId)>) -> (r: Vec<(usize, usize)>)
    ensures
        runs_partition(keys@, r@),
{
    let n = keys.len();
    let mut runs: Vec<(usize, usize)> = Vec::new();
    let mut vi: usize = 0;
    while vi < n
        invariant
            n == keys@.len(),
            0 <= vi <= n,
            runs_prefix(keys@, runs@, vi as int),
            vi > 0 && vi < n ==> keys@[vi as int] != keys@[vi - 1],
        decreases n - vi,
    {
        let key = keys[vi];
        let mut end = vi + 1;
        while end < n && keys[end].0 == key.0 && keys[end].1 == key.1
            invariant
                n == keys@.len(),
                vi < end <= n,
                key == keys@[vi as int],
                forall|i: int| vi <= i < end ==> #[trigger] keys@[i] == key,
            decreases n - end,
        {
            end = end + 1;
        }
        proof {
            lemma_push_run(keys@, runs@, vi, end);
            if end < n {
                assert(keys@[end - 1] == key);
            }
        }
        runs.push((vi, end));
        vi = end;
    }
    runs
}

/// What a draw needs from its mesh.
#[derive(Clone, Copy, Debug)]
pub struct MeshDrawInfo {
    pub index_count: i32,
    pub first_index: u32,
    pub base_vertex: i32,
}

/// The indirect command drawing run `[start, end)` of the visible instances,
/// whose transforms start at slot `start_offset`.
pub fn draw_command(mesh: MeshDrawInfo, start: usize, end: usize, start_offset: usize) -> (r:
    DrawElementsIndirectCommand)
    requires
        start < end,
        start_offset + end <= usize::MAX,
    ensures
        r.count == mesh.index_count as u32,
        r.instance_count == (end - start) as u32,
        r.first_index == mesh.first_index,
        r.base_vertex == mesh.base_vertex,
        r.base_instance == (start_offset + start) as u32,
{
    DrawElementsIndirectCommand {
        count: mesh.index_count as u32,
        instance_count: (end - start) as u32,
        first_index: mesh.first_index,
        base_vertex: mesh.base_vertex,
        base_instance: (start_offset + start) as u32,
    }
}

/// `s` is in pipeline-id order.
pub open spec fn sorted_by_pipeline(s: Seq<(PipelineStateId, DrawElementsIndirectCommand)>) -> bool {
    forall|i: int, j: int| #![trigger s[i], s[j]] 0 <= i <= j < s.len() ==> s[i].0.0 <= s[j].0.0
}

/// Pipeline id of each pending draw.
pub open spec fn pipeline_keys(s: Seq<(PipelineStateId, DrawElementsIndirectCommand)>) -> Seq<u64> {
    s.map_values(|d: (PipelineStateId, DrawElementsIndirectCommand)| d.0.0)
}

/// Orders pending draws by pipeline id; draws with the same pipeline keep
/// their order.
pub fn sort_draws_by_pipeline(v: &mut Vec<(PipelineStateId, DrawElementsIndirectCommand)>)
    ensures
        exists|ix: Seq<usize>|
            stable_order(pipeline_keys(old(v)@), ix) && final(v)@ == ix.map_values(
                |i: usize| old(v)@[i as int],
            ),
        sorted_by_pipeline(final(v)@),
        final(v)@.len() == old(v)@.len(),
{
    let n = v.len();
    let mut keys: Vec<u64> = Vec::new();
    for i in 0..n
        invariant
            n == v@.len(),
            keys@.len() == i,
            forall|k: int| 0 <= k < i ==> keys@[k] == (#[trigger] v@[k]).0.0,
    {
        keys.push(v[i].0.0);
    }
    assert(keys@ =~= pipeline_keys(v@));
    let ix = stable_sort_indices(&keys);
    let mut out: Vec<(PipelineStateId, DrawElementsIndirectCommand)> = Vec::new();
    for t in 0..n
        invariant
            n == v@.len(),
            stable_order(keys@, ix@),
            keys@.len() == n,
            out@.len() == t,
            forall|k: int| 0 <= k < t ==> out@[k] == v@[(#[trigger] ix@[k]) as int],
    {
        out.push(v[ix[t]]);
    }
    proof {
        let old_v = v@;
        assert(out@ =~= ix@.map_values(|i: usize| old_v[i as int]));
        assert forall|a: int, b: int| 0 <= a <= b < out@.len() implies #[trigger] out@[a].0.0
            <= #[trigger] out@[b].0.0 by {
            if a < b {
                assert(key_before(keys@, ix@[a] as int, ix@[b] as int));
            }
            assert(out@[a] == old_v[ix@[a] as int]);
            assert(out@[b] == old_v[ix@[b] as int]);
            assert(keys@[ix@[a] as int] == old_v[ix@[a] as int].0.0);
            assert(keys@[ix@[b] as int] == old_v[ix@[b] as int].0.0);
        }
    }
    *v = out;
}

/// Splits draws sorted by pipeline into runs sharing one pipeline: one
/// pipeline switch and one indirect upload each.
pub fn pipeline_runs(draws: &Vec<(PipelineStateId, DrawElementsIndirectCommand)>) -> (r: Vec<(usize, usize)>)
    ensures
        runs_partition(draws@.map_values(|d: (PipelineStateId, DrawElementsIndirectCommand)| d.0), r@),
{
    let ghost keys = draws@.map_values(|d: (PipelineStateId, DrawElementsIndirectCommand)| d.0);
    let n = draws.len();
    let mut runs: Vec<(usize, usize)> = Vec::new();
    let mut pi: usize = 0;
    while pi < n
        invariant
            n == keys.len(),
            keys == draws@.map_values(|d: (PipelineStateId, DrawElementsIndirectCommand)| d.0),
            0 <= pi <= n,
            runs_prefix(keys, runs@, pi as int),
            pi > 0 && pi < n ==> keys[pi as int] != keys[pi - 1],
        decreases n - pi,
    {
        let id = draws[pi].0;
        let mut end = pi + 1;
        while end < n && draws[end].0.0 == id.0
            invariant
                n == keys.len(),
                keys == draws@.map_values(|d: (PipelineStateId, DrawElementsIndirectCommand)| d.0),
                pi < end <= n,
                id == keys[pi as int],
                forall|i: int| pi <= i < end ==> #[trigger] keys[i] == id,
            decreases n - end,
        {
            end = end + 1;
        }
        proof {
            lemma_push_run(keys, runs@, pi, end);
            if end < n {
                assert(keys[end - 1] == id);
            }
        }
        runs.push((pi, end));
        pi = end;
    }
    runs
}

} // verus!
