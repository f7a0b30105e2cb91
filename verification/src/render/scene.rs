//! Scene object registry: handles, static/dynamic separation, the objects
//! that need their instance data recomputed, and the draw order by
//! material and mesh. What an object carries besides (its transform and
//! cached instance data) is the caller's `T`.
use vstd::prelude::*;
use std::collections::HashMap;
use std::collections::hash_map::Entry;
use crate::distinct::{lemma_push_fresh, lemma_remove_distinct};
use crate::render::renderer::MeshId;
use crate::resources::material::MaterialId;

verus! {

/// Opaque handle to a registered scene object.
#[derive(Clone, Copy, Debug, PartialEq, Eq, Hash, Structural)]
pub struct ObjectHandle(pub u32);

/// How often an object's instance data is refreshed.
#[derive(Clone, Copy, Debug, PartialEq, Eq, Structural)]
pub enum ObjectKind {
    /// Refreshed only after it is moved.
    Static,
    /// Refreshed every frame.
    Dynamic,
}

/// A registered object.
pub struct SceneObject<T> {
    pub mesh_id: MeshId,
    pub material_id: MaterialId,
    pub kind: ObjectKind,
    /// Transform and cached instance data.
    pub data: T,
}

/// Draw order: by material, then by mesh.
pub open spec fn draw_le<T>(a: SceneObject<T>, b: SceneObject<T>) -> bool {
    a.material_id.0 < b.material_id.0 || (a.material_id.0 == b.material_id.0 && a.mesh_id.0
        <= b.mesh_id.0)
}

/// Every registered object, with the bookkeeping that spares the renderer
/// work on frames where nothing changed.
pub struct Scene<T> {
    objects: HashMap<u32, SceneObject<T>>,
    handles: Vec<u32>,
    next_handle: u32,
    grid_dirty: bool,
    order_dirty: bool,
    dynamic_handles: Vec<u32>,
    moved_static: Vec<u32>,
    cached_order: Vec<ObjectHandle>,
}

/// Index of `x` in `v`, if present.
fn find_u32(v: &Vec<u32>, x: u32) -> (r: Option<usize>)
    ensures
        match r {
            Some(i) => i < v@.len() && v@[i as int] == x,
            None => !v@.contains(x),
        },
{
    let mut i: usize = 0;
    while i < v.len()
        invariant
            i <= v@.len(),
            forall|k: int| 0 <= k < i ==> v@[k] != x,
        decreases v@.len() - i,
    {
        if v[i] == x {
            return Some(i);
        }
        i = i + 1;
    }
    None
}

/// Removes `x` from `v`, which holds no repeats.
fn remove_u32(v: &mut Vec<u32>, x: u32)
    requires
        old(v)@.no_duplicates(),
    ensures
        final(v)@.no_duplicates(),
        forall|y: u32| #[trigger] final(v)@.contains(y) <==> (old(v)@.contains(y) && y != x),
{
    match find_u32(v, x) {
        Some(i) => {
            let ghost before = v@;
            v.remove(i);
            proof {
                lemma_remove_distinct(before, i as int);
            }
        },
        None => {},
    }
}

impl<T> Scene<T> {
    /// Objects by raw handle.
    pub closed spec fn objects(&self) -> Map<u32, SceneObject<T>> {
        self.objects@
    }

    /// Handles refreshed every frame.
    pub closed spec fn dynamic(&self) -> Set<u32> {
        self.dynamic_handles@.to_set()
    }

    /// Static objects moved since the last refresh.
    pub closed spec fn moved(&self) -> Set<u32> {
        self.moved_static@.to_set()
    }

    /// The handle the next object gets.
    pub closed spec fn next(&self) -> u32 {
        self.next_handle
    }

    /// Whether the set of objects changed since the draw order was built.
    pub closed spec fn order_stale(&self) -> bool {
        self.order_dirty
    }

    /// Whether an object moved or left since the spatial grid was built.
    pub closed spec fn grid_stale(&self) -> bool {
        self.grid_dirty
    }

    /// The last draw order built.
    pub closed spec fn order(&self) -> Seq<ObjectHandle> {
        self.cached_order@
    }

    /// `s` lists every object once, in draw order.
    pub open spec fn is_draw_order(&self, s: Seq<ObjectHandle>) -> bool {
        &&& s.no_duplicates()
        &&& forall|k: u32| #[trigger] self.objects().contains_key(k) <==> s.contains(ObjectHandle(k))
        &&& forall|i: int, j: int|
            0 <= i < j < s.len() ==> draw_le(
                self.objects()[(#[trigger] s[i]).0],
                self.objects()[(#[trigger] s[j]).0],
            )
    }

    /// Handles are below the next one; the dynamic set is exactly the
    /// dynamic objects; moved objects are static ones; an order that is not
    /// stale lists the objects in draw order.
    pub closed spec fn wf(&self) -> bool {
        &&& forall|k: u32| #[trigger] self.objects@.contains_key(k) ==> k < self.next_handle
        &&& self.handles@.no_duplicates()
        &&& forall|k: u32| #[trigger] self.objects@.contains_key(k) <==> self.handles@.contains(k)
        &&& self.dynamic_handles@.no_duplicates()
        &&& forall|k: u32|
            #[trigger] self.dynamic_handles@.contains(k) <==> (self.objects@.contains_key(k)
                && self.objects@[k].kind == ObjectKind::Dynamic)
        &&& self.moved_static@.no_duplicates()
        &&& forall|k: u32|
            #[trigger] self.moved_static@.contains(k) ==> (self.objects@.contains_key(k)
                && self.objects@[k].kind == ObjectKind::Static)
        &&& !self.order_dirty ==> self.is_draw_order(self.cached_order@)
    }

    /// An empty scene.
    pub fn new() -> (r: Self)
        ensures
            r.wf(),
            r.objects() == Map::<u32, SceneObject<T>>::empty(),
            r.next() == 0,
            r.dynamic().is_empty(),
            r.moved().is_empty(),
            !r.order_stale(),
            !r.grid_stale(),
    {
        let r = Scene {
            objects: HashMap::new(),
            handles: Vec::new(),
            next_handle: 0,
            grid_dirty: false,
            order_dirty: false,
            dynamic_handles: Vec::new(),
            moved_static: Vec::new(),
            cached_order: Vec::new(),
        };
        assert(r.dynamic() =~= Set::empty());
        assert(r.moved() =~= Set::empty());
        r
    }

    /// Registers an object under a fresh handle; a dynamic one joins the
    /// dynamic set. The draw order and the spatial grid become stale, so the
    /// next grid query sees the new object.
    pub fn add_object(&mut self, mesh_id: MeshId, material_id: MaterialId, kind: ObjectKind, data: T) -> (h: ObjectHandle)
        requires
            old(self).wf(),
            old(self).next() < u32::MAX,
        ensures
            final(self).wf(),
            h.0 == old(self).next(),
            !old(self).objects().contains_key(h.0),
            final(self).next() == old(self).next() + 1,
            final(self).objects() == old(self).objects().insert(
                h.0,
                SceneObject { mesh_id, material_id, kind, data },
            ),
            final(self).dynamic() == (if kind == ObjectKind::Dynamic {
                old(self).dynamic().insert(h.0)
            } else {
                old(self).dynamic()
            }),
            final(self).moved() == old(self).moved(),
            final(self).order_stale(),
            final(self).grid_stale(),
    {
        let h = self.next_handle;
        self.next_handle = self.next_handle + 1;
        assert(!self.handles@.contains(h)) by {
            if self.handles@.contains(h) {
                assert(old(self).objects@.contains_key(h));
            }
        }
        proof {
            lemma_push_fresh(self.handles@, h);
        }
        self.handles.push(h);
        if kind == ObjectKind::Dynamic {
            assert(!self.dynamic_handles@.contains(h));
            proof {
                lemma_push_fresh(self.dynamic_handles@, h);
            }
            self.dynamic_handles.push(h);
        }
        self.objects.insert(h, SceneObject { mesh_id, material_id, kind, data });
        assert(self.objects@ == old(self).objects@.insert(h, SceneObject { mesh_id, material_id, kind, data }));
        self.order_dirty = true;
        self.grid_dirty = true;
        ObjectHandle(h)
    }

    /// Removes the object, if there is one; then the grid and the draw
    /// order become stale.
    pub fn remove_object(&mut self, handle: ObjectHandle)
        requires
            old(self).wf(),
        ensures
            final(self).wf(),
            final(self).next() == old(self).next(),
            final(self).objects() == old(self).objects().remove(handle.0),
            final(self).dynamic() == old(self).dynamic().remove(handle.0),
            final(self).moved() == old(self).moved().remove(handle.0),
            old(self).objects().contains_key(handle.0) ==> final(self).order_stale() && final(self).grid_stale(),
            !old(self).objects().contains_key(handle.0) ==> final(self).order_stale() == old(self).order_stale() && final(self).grid_stale() == old(self).grid_stale(),
    {
        let present = self.objects.contains_key(&handle.0);
        if present {
            self.objects.remove(&handle.0);
            assert(self.objects@ == old(self).objects@.remove(handle.0));
            remove_u32(&mut self.handles, handle.0);
            remove_u32(&mut self.dynamic_handles, handle.0);
            remove_u32(&mut self.moved_static, handle.0);
            self.grid_dirty = true;
            self.order_dirty = true;
            assert(self.dynamic() =~= old(self).dynamic().remove(handle.0));
            assert(self.moved() =~= old(self).moved().remove(handle.0));
        } else {
            assert(self.objects@ =~= old(self).objects@.remove(handle.0));
            assert(!self.dynamic_handles@.contains(handle.0));
            assert(self.dynamic() =~= old(self).dynamic().remove(handle.0));
            assert(self.moved() =~= old(self).moved().remove(handle.0));
        }
    }

    /// Records that the object moved: the grid becomes stale, and a static
    /// object joins the moved set. `false` if there is no such object.
    pub fn mark_moved(&mut self, handle: ObjectHandle) -> (r: bool)
        requires
            old(self).wf(),
        ensures
            final(self).wf(),
            r == old(self).objects().contains_key(handle.0),
            final(self).objects() == old(self).objects(),
            final(self).next() == old(self).next(),
            final(self).dynamic() == old(self).dynamic(),
            final(self).moved() == (if r && old(self).objects()[handle.0].kind == ObjectKind::Static {
                old(self).moved().insert(handle.0)
            } else {
                old(self).moved()
            }),
            final(self).grid_stale() == (r || old(self).grid_stale()),
            final(self).order_stale() == old(self).order_stale(),
            final(self).order() == old(self).order(),
    {
        match self.objects.get(&handle.0) {
            Some(obj) => {
                self.grid_dirty = true;
                if obj.kind != ObjectKind::Dynamic {
                    if find_u32(&self.moved_static, handle.0).is_none() {
                        proof {
                            lemma_push_fresh(self.moved_static@, handle.0);
                        }
                        self.moved_static.push(handle.0);
                    } else {
                        assert(self.moved() =~= old(self).moved().insert(handle.0));
                    }
                }
                true
            },
            None => false,
        }
    }

    /// The objects whose instance data must be recomputed now: every
    /// dynamic object, then every moved static one. The moved set is
    /// emptied.
    pub fn take_dirty(&mut self) -> (r: Vec<ObjectHandle>)
        requires
            old(self).wf(),
        ensures
            final(self).wf(),
            r@.no_duplicates(),
            forall|k: u32|
                #[trigger] r@.contains(ObjectHandle(k)) <==> (old(self).dynamic().contains(k)
                    || old(self).moved().contains(k)),
            final(self).moved().is_empty(),
            final(self).objects() == old(self).objects(),
            final(self).dynamic() == old(self).dynamic(),
            final(self).next() == old(self).next(),
            final(self).order_stale() == old(self).order_stale(),
            final(self).grid_stale() == old(self).grid_stale(),
            final(self).order() == old(self).order(),
    {
        let mut out: Vec<ObjectHandle> = Vec::new();
        let n = self.dynamic_handles.len();
        for i in 0..n
            invariant
                self.wf(),
                n == self.dynamic_handles@.len(),
                self.dynamic_handles@.no_duplicates(),
                out@.no_duplicates(),
                out@.len() == i,
                forall|k: int| 0 <= k < i ==> out@[k] == ObjectHandle(self.dynamic_handles@[k]),
        {
            out.push(ObjectHandle(self.dynamic_handles[i]));
            proof {
                assert forall|a: int, b: int| 0 <= a < out@.len() && 0 <= b < out@.len() && a != b implies out@[a] != out@[b] by {
                    assert(out@[a] == ObjectHandle(self.dynamic_handles@[a]));
                    assert(out@[b] == ObjectHandle(self.dynamic_handles@[b]));
                    assert(self.dynamic_handles@[a] != self.dynamic_handles@[b]);
                }
            }
        }
        let m = self.moved_static.len();
        for i in 0..m
            invariant
                self.wf(),
                n == self.dynamic_handles@.len(),
                m == self.moved_static@.len(),
                self.moved_static@.no_duplicates(),
                forall|k: u32| #[trigger] self.moved_static@.contains(k) ==> !self.dynamic_handles@.contains(k),
                out@.no_duplicates(),
                out@.len() == n + i,
                forall|k: int| 0 <= k < n ==> out@[k] == ObjectHandle(self.dynamic_handles@[k]),
                forall|k: int| n <= k < n + i ==> out@[k] == ObjectHandle(self.moved_static@[k - n]),
        {
            out.push(ObjectHandle(self.moved_static[i]));
            proof {
                assert forall|a: int, b: int| 0 <= a < out@.len() && 0 <= b < out@.len() && a != b implies out@[a] != out@[b] by {
                    if a < n && b >= n {
                        assert(self.moved_static@.contains(self.moved_static@[b - n]));
                    } else if b < n && a >= n {
                        assert(self.moved_static@.contains(self.moved_static@[a - n]));
                    } else if a < n && b < n {
                        assert(self.dynamic_handles@[a] != self.dynamic_handles@[b]);
                    } else {
                        assert(self.moved_static@[a - n] != self.moved_static@[b - n]);
                    }
                }
            }
        }
        proof {
            assert forall|k: u32| #[trigger] out@.contains(ObjectHandle(k)) <==> (self.dynamic().contains(k)
                || self.moved().contains(k)) by {
                if out@.contains(ObjectHandle(k)) {
                    let j = choose|j: int| 0 <= j < out@.len() && out@[j] == ObjectHandle(k);
                    if j < n {
                        assert(self.dynamic_handles@[j] == k);
                    } else {
                        assert(self.moved_static@[j - n] == k);
                    }
                }
                if self.dynamic_handles@.contains(k) {
                    let j = choose|j: int| 0 <= j < n && self.dynamic_handles@[j] == k;
                    assert(out@[j] == ObjectHandle(k));
                }
                if self.moved_static@.contains(k) {
                    let j = choose|j: int| 0 <= j < m && self.moved_static@[j] == k;
                    assert(out@[n + j] == ObjectHandle(k));
                }
            }
        }
        self.moved_static = Vec::new();
        assert(self.moved() =~= Set::empty());
        assert(self.objects() == old(self).objects());
        assert(!self.order_dirty ==> self.is_draw_order(self.cached_order@)) by {
            if !self.order_dirty {
                assert(old(self).is_draw_order(old(self).cached_order@));
            }
        }
        out
    }

    /// The objects in draw order (by material, then mesh), rebuilt only
    /// when the set of objects changed since the last call.
    pub fn draw_order(&mut self) -> (r: &Vec<ObjectHandle>)
        requires
            old(self).wf(),
        ensures
            final(self).wf(),
            final(self).is_draw_order(r@),
            !old(self).order_stale() ==> r@ == old(self).order(),
            r@ == final(self).order(),
            !final(self).order_stale(),
            final(self).objects() == old(self).objects(),
            final(self).dynamic() == old(self).dynamic(),
            final(self).moved() == old(self).moved(),
            final(self).next() == old(self).next(),
            final(self).grid_stale() == old(self).grid_stale(),
    {
        if self.order_dirty {
            let order = self.sorted_handles();
            let ghost objs = self.objects();
            self.cached_order = order;
            self.order_dirty = false;
            assert(self.objects() == objs);
            assert(self.is_draw_order(self.cached_order@));
        } else {
            assert(old(self).is_draw_order(old(self).cached_order@));
        }
        &self.cached_order
    }

    /// Whether object `other` draws no later than material `mat`, mesh `mesh`.
    fn not_after(&self, other: ObjectHandle, mat: u32, mesh: u32) -> (r: bool)
        requires
            self.objects().contains_key(other.0),
        ensures
            r == (self.objects()[other.0].material_id.0 < mat || (self.objects()[other.0].material_id.0
                == mat && self.objects()[other.0].mesh_id.0 <= mesh)),
    {
        let o = self.objects.get(&other.0).unwrap();
        o.material_id.0 < mat || (o.material_id.0 == mat && o.mesh_id.0 <= mesh)
    }

    /// Every handle, sorted by material then mesh.
    fn sorted_handles(&self) -> (r: Vec<ObjectHandle>)
        requires
            self.wf(),
        ensures
            self.is_draw_order(r@),
    {
        let mut out: Vec<ObjectHandle> = Vec::new();
        let n = self.handles.len();
        for i in 0..n
            invariant
                self.wf(),
                n == self.handles@.len(),
                out@.no_duplicates(),
                forall|k: u32| #[trigger] out@.contains(ObjectHandle(k)) <==> self.handles@.take(i as int).contains(k),
                forall|a: int, b: int|
                    0 <= a < b < out@.len() ==> draw_le(
                        self.objects()[(#[trigger] out@[a]).0],
                        self.objects()[(#[trigger] out@[b]).0],
                    ),
                forall|a: int| 0 <= a < out@.len() ==> self.objects().contains_key((#[trigger] out@[a]).0),
        {
            let h = self.handles[i];
            let ghost pre = self.handles@.take(i as int);
            assert(self.handles@.take(i + 1) =~= pre.push(h));
            proof {
                crate::distinct::lemma_push_contains(pre, h);
            }
            assert(self.objects@.contains_key(h));
            let obj = self.objects.get(&h).unwrap();
            let mat = obj.material_id.0;
            let mesh = obj.mesh_id.0;
            let mut pos: usize = 0;
            while pos < out.len() && self.not_after(out[pos], mat, mesh)
                invariant
                    self.wf(),
                    pos <= out@.len(),
                    self.objects@.contains_key(h),
                    self.objects@[h].material_id.0 == mat,
                    self.objects@[h].mesh_id.0 == mesh,
                    forall|a: int| 0 <= a < out@.len() ==> self.objects().contains_key((#[trigger] out@[a]).0),
                    forall|a: int| 0 <= a < pos ==> draw_le(self.objects()[(#[trigger] out@[a]).0], self.objects()[h]),
                decreases out@.len() - pos,
            {
                pos = pos + 1;
            }
            let ghost before = out@;
            assert(!before.contains(ObjectHandle(h))) by {
                if before.contains(ObjectHandle(h)) {
                    let j = choose|j: int| 0 <= j < pre.len() && pre[j] == h;
                    assert(self.handles@[j] == self.handles@[i as int]);
                }
            }
            out.insert(pos, ObjectHandle(h));
            proof {
                assert forall|a: int, b: int| 0 <= a < b < out@.len() implies draw_le(
                    self.objects()[(#[trigger] out@[a]).0],
                    self.objects()[(#[trigger] out@[b]).0],
                ) by {
                    if b < pos {
                        assert(out@[a] == before[a] && out@[b] == before[b]);
                    } else if b == pos {
                        assert(out@[a] == before[a]);
                    } else if a == pos {
                        assert(out@[b] == before[b - 1]);
                        assert(!draw_le(self.objects()[before[pos as int].0], self.objects()[h]));
                        if b - 1 > pos {
                            assert(draw_le(self.objects()[before[pos as int].0], self.objects()[before[b - 1].0]));
                        }
                    } else if a < pos {
                        assert(out@[a] == before[a] && out@[b] == before[b - 1]);
                    } else {
                        assert(out@[a] == before[a - 1] && out@[b] == before[b - 1]);
                    }
                }
                assert forall|a: int| 0 <= a < out@.len() implies self.objects().contains_key((#[trigger] out@[a]).0) by {
                    if a < pos {
                        assert(out@[a] == before[a]);
                    } else if a > pos {
                        assert(out@[a] == before[a - 1]);
                    }
                }
                assert forall|x: ObjectHandle| #[trigger] out@.contains(x) <==> (before.contains(x) || x == ObjectHandle(h)) by {
                    if out@.contains(x) {
                        let j = choose|j: int| 0 <= j < out@.len() && out@[j] == x;
                        if j < pos {
                            assert(before[j] == x);
                        } else if j > pos {
                            assert(before[j - 1] == x);
                        }
                    }
                    if before.contains(x) {
                        let j = choose|j: int| 0 <= j < before.len() && before[j] == x;
                        if j < pos {
                            assert(out@[j] == x);
                        } else {
                            assert(out@[j + 1] == x);
                        }
                    }
                    if x == ObjectHandle(h) {
                        assert(out@[pos as int] == x);
                    }
                }
                assert forall|a: int, b: int| 0 <= a < out@.len() && 0 <= b < out@.len() && a != b implies out@[a] != out@[b] by {
                    let a0 = if a < pos { a } else { a - 1 };
                    let b0 = if b < pos { b } else { b - 1 };
                    if a == pos {
                        assert(before.contains(before[b0]));
                    } else if b == pos {
                        assert(before.contains(before[a0]));
                    } else {
                        assert(out@[a] == before[a0] && out@[b] == before[b0]);
                    }
                }
            }
        }
        assert(self.handles@.take(n as int) =~= self.handles@);
        out
    }

    /// The handle the next object gets.
    pub fn next_handle(&self) -> (r: ObjectHandle)
        ensures
            r.0 == self.next(),
    {
        ObjectHandle(self.next_handle)
    }

    /// How many objects there are.
    pub fn len(&self) -> (r: usize)
        requires
            self.wf(),
        ensures
            r == self.objects().dom().len(),
    {
        proof {
            self.handles@.unique_seq_to_set();
            assert(self.objects@.dom() =~= self.handles@.to_set());
        }
        self.handles.len()
    }

    /// Whether there are no objects.
    pub fn is_empty(&self) -> (r: bool)
        requires
            self.wf(),
        ensures
            r == (self.objects().dom().len() == 0),
    {
        self.len() == 0
    }

    /// Whether the set of objects changed since the draw order was built.
    pub fn is_scene_dirty(&self) -> (r: bool)
        ensures
            r == self.order_stale(),
    {
        self.order_dirty
    }

    /// Whether the spatial grid must be rebuilt.
    pub fn is_grid_dirty(&self) -> (r: bool)
        ensures
            r == self.grid_stale(),
    {
        self.grid_dirty
    }

    /// Records that the spatial grid was rebuilt.
    pub fn mark_grid_clean(&mut self)
        requires
            old(self).wf(),
        ensures
            final(self).wf(),
            !final(self).grid_stale(),
            final(self).objects() == old(self).objects(),
            final(self).dynamic() == old(self).dynamic(),
            final(self).moved() == old(self).moved(),
            final(self).next() == old(self).next(),
            final(self).order_stale() == old(self).order_stale(),
            final(self).order() == old(self).order(),
    {
        self.grid_dirty = false;
        assert(self.objects() == old(self).objects());
        assert(!self.order_dirty ==> self.is_draw_order(self.cached_order@)) by {
            if !self.order_dirty {
                assert(old(self).is_draw_order(old(self).cached_order@));
            }
        }
    }

    /// Every handle, in registration order.
    pub fn handles(&self) -> (r: Vec<ObjectHandle>)
        requires
            self.wf(),
        ensures
            r@.no_duplicates(),
            forall|k: u32| #[trigger] r@.contains(ObjectHandle(k)) <==> self.objects().contains_key(k),
    {
        let mut out: Vec<ObjectHandle> = Vec::new();
        let n = self.handles.len();
        for i in 0..n
            invariant
                n == self.handles@.len(),
                self.handles@.no_duplicates(),
                out@.len() == i,
                forall|k: int| 0 <= k < i ==> out@[k] == ObjectHandle(self.handles@[k]),
        {
            out.push(ObjectHandle(self.handles[i]));
        }
        proof {
            assert forall|a: int, b: int| 0 <= a < out@.len() && 0 <= b < out@.len() && a != b implies out@[a] != out@[b] by {
                assert(self.handles@[a] != self.handles@[b]);
            }
            assert forall|k: u32| #[trigger] out@.contains(ObjectHandle(k)) <==> self.objects().contains_key(k) by {
                if out@.contains(ObjectHandle(k)) {
                    let j = choose|j: int| 0 <= j < out@.len() && out@[j] == ObjectHandle(k);
                    assert(self.handles@[j] == k);
                }
                if self.handles@.contains(k) {
                    let j = choose|j: int| 0 <= j < n && self.handles@[j] == k;
                    assert(out@[j] == ObjectHandle(k));
                }
            }
        }
        out
    }

    /// The object behind `handle`.
    pub fn get(&self, handle: ObjectHandle) -> (r: Option<&SceneObject<T>>)
        ensures
            r == (if self.objects().contains_key(handle.0) {
                Some(&self.objects()[handle.0])
            } else {
                None
            }),
    {
        self.objects.get(&handle.0)
    }

    /// Mutable access to the caller's data of `handle`; what draws the object
    /// and how it moves stay as they are.
    pub fn get_data_mut(&mut self, handle: ObjectHandle) -> (r: Option<&mut T>)
        requires
            old(self).wf(),
        ensures
            final(self).wf(),
            final(self).next() == old(self).next(),
            final(self).dynamic() == old(self).dynamic(),
            final(self).moved() == old(self).moved(),
            final(self).order_stale() == old(self).order_stale(),
            final(self).grid_stale() == old(self).grid_stale(),
            final(self).order() == old(self).order(),
            match r {
                Some(d) => old(self).objects().contains_key(handle.0) && *d == old(self).objects()[handle.0].data
                    && final(self).objects() == old(self).objects().insert(
                    handle.0,
                    SceneObject { data: *final(d), ..old(self).objects()[handle.0] },
                ),
                None => !old(self).objects().contains_key(handle.0) && final(self).objects()
                    == old(self).objects(),
            },
    {
        match self.objects.entry(handle.0) {
            Entry::Occupied(o) => {
                let obj = o.into_mut();
                Some(&mut obj.data)
            },
            Entry::Vacant(_) => None,
        }
    }
}

/// Adding an object and removing it again leaves the objects as they were:
/// the new handle was not in use.
pub proof fn law_add_remove_restores<T>(
    before: Map<u32, SceneObject<T>>,
    added: Map<u32, SceneObject<T>>,
    after: Map<u32, SceneObject<T>>,
    h: u32,
    obj: SceneObject<T>,
)
    requires
        !before.contains_key(h),
        added == before.insert(h, obj),
        after == added.remove(h),
    ensures
        after == before,
{
    assert(after =~= before);
}

} // verus!
