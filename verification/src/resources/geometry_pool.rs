//! Sub-allocation of the shared vertex and index buffers.
use vstd::prelude::*;
use crate::free_list::{Allocation, FreeListAllocator, range_units, first_fit, carve, freed_spans};

verus! {

/// Vertices the shared vertex buffer holds.
pub const MAX_POOL_VERTICES: usize = 1000000;

/// Indices the shared index buffer holds.
pub const MAX_POOL_INDICES: usize = 3000000;

/// Where a mesh lives in the shared buffers.
#[derive(Clone, Copy, Debug)]
pub struct MeshRange {
    pub base_vertex: i32,
    pub first_index: u32,
    pub index_count: i32,
    pub vertex_alloc: Allocation,
    pub index_alloc: Allocation,
}

/// The two allocators behind the shared vertex and index buffers.
pub struct GeometryPool {
    vertex_alloc: FreeListAllocator,
    index_alloc: FreeListAllocator,
}

impl GeometryPool {
    /// The vertex buffer's allocator.
    pub closed spec fn vertices(&self) -> FreeListAllocator {
        self.vertex_alloc
    }

    /// The index buffer's allocator.
    pub closed spec fn indices(&self) -> FreeListAllocator {
        self.index_alloc
    }

    /// Both allocators are well formed and sized for the shared buffers.
    pub open spec fn wf(&self) -> bool {
        &&& self.vertices().wf()
        &&& self.indices().wf()
        &&& self.vertices().cap() == MAX_POOL_VERTICES
        &&& self.indices().cap() == MAX_POOL_INDICES
    }

    /// Empty buffers.
    pub fn new() -> (r: Self)
        ensures
            r.wf(),
            r.vertices().free_units() == range_units(0, MAX_POOL_VERTICES as int),
            r.indices().free_units() == range_units(0, MAX_POOL_INDICES as int),
    {
        Self {
            vertex_alloc: FreeListAllocator::new(MAX_POOL_VERTICES),
            index_alloc: FreeListAllocator::new(MAX_POOL_INDICES),
        }
    }

    /// Reserves room for a mesh of `vertex_count` vertices and `index_count`
    /// indices. When the indices do not fit, the vertex room taken first is
    /// given back and `None` is returned.
    pub fn upload(&mut self, vertex_count: usize, index_count: usize) -> (r: Option<MeshRange>)
        requires
            old(self).wf(),
        ensures
            final(self).wf(),
            r is Some <==> (vertex_count == 0 || vertex_count <= old(self).vertices().largest())
                && (index_count == 0 || index_count <= old(self).indices().largest()),
            r is None ==> final(self).vertices().spans() == old(self).vertices().spans()
                && final(self).indices().spans() == old(self).indices().spans()
                && final(self).vertices().total_free() == old(self).vertices().total_free()
                && final(self).vertices().largest() == old(self).vertices().largest()
                && final(self).indices().total_free() == old(self).indices().total_free()
                && final(self).indices().largest() == old(self).indices().largest(),
            r matches Some(m) ==> {
                &&& final(self).vertices().total_free() == old(self).vertices().total_free()
                    - vertex_count
                &&& final(self).indices().total_free() == old(self).indices().total_free()
                    - index_count
                &&& vertex_count == 0 ==> m.vertex_alloc.offset == 0 && final(self).vertices().spans()
                    == old(self).vertices().spans()
                &&& vertex_count > 0 ==> {
                    let s = old(self).vertices().spans();
                    let i = first_fit(s, vertex_count as int);
                    &&& m.vertex_alloc.offset == s[i].0
                    &&& final(self).vertices().spans() == carve(s, i, vertex_count as int)
                }
                &&& index_count == 0 ==> m.index_alloc.offset == 0 && final(self).indices().spans()
                    == old(self).indices().spans()
                &&& index_count > 0 ==> {
                    let s = old(self).indices().spans();
                    let i = first_fit(s, index_count as int);
                    &&& m.index_alloc.offset == s[i].0
                    &&& final(self).indices().spans() == carve(s, i, index_count as int)
                }
                &&& m.vertex_alloc.len == vertex_count
                &&& m.index_alloc.len == index_count
                &&& m.base_vertex == m.vertex_alloc.offset
                &&& m.first_index == m.index_alloc.offset
                &&& m.index_count == index_count
                &&& final(self).vertices().can_free(m.vertex_alloc)
                &&& final(self).indices().can_free(m.index_alloc)
                &&& final(self).vertices().free_units() == old(self).vertices().free_units().difference(
                    range_units(m.vertex_alloc.offset as int, vertex_count as int),
                )
                &&& final(self).indices().free_units() == old(self).indices().free_units().difference(
                    range_units(m.index_alloc.offset as int, index_count as int),
                )
            },
    {
        let v_alloc = match self.vertex_alloc.allocate(vertex_count) {
            Some(a) => a,
            None => {
                return None;
            },
        };
        proof {
            crate::free_list::law_free_space_bounds(self.index_alloc);
        }
        let i_alloc = match self.index_alloc.allocate(index_count) {
            Some(a) => a,
            None => {
                let ghost mid = self.vertex_alloc;
                self.vertex_alloc.free(v_alloc);
                proof {
                    crate::free_list::law_free_undoes_allocate(
                        old(self).vertex_alloc,
                        mid,
                        self.vertex_alloc,
                        v_alloc,
                    );
                }
                return None;
            },
        };
        proof {
            crate::free_list::law_free_space_bounds(old(self).vertex_alloc);
            crate::free_list::law_free_space_bounds(old(self).index_alloc);
        }
        Some(
            MeshRange {
                base_vertex: v_alloc.offset as i32,
                first_index: i_alloc.offset as u32,
                index_count: i_alloc.len as i32,
                vertex_alloc: v_alloc,
                index_alloc: i_alloc,
            },
        )
    }

    /// Whether `range` may be given back with `free`.
    pub fn is_releasable(&self, range: MeshRange) -> (r: bool)
        requires
            self.wf(),
        ensures
            r == (self.vertices().can_free(range.vertex_alloc) && self.indices().can_free(
                range.index_alloc,
            )),
    {
        self.vertex_alloc.is_releasable(range.vertex_alloc) && self.index_alloc.is_releasable(
            range.index_alloc,
        )
    }

    /// Gives a mesh's room back.
    pub fn free(&mut self, range: MeshRange)
        requires
            old(self).wf(),
            old(self).vertices().can_free(range.vertex_alloc),
            old(self).indices().can_free(range.index_alloc),
        ensures
            final(self).wf(),
            final(self).vertices().free_units() == old(self).vertices().free_units().union(
                range_units(range.vertex_alloc.offset as int, range.vertex_alloc.len as int),
            ),
            final(self).indices().free_units() == old(self).indices().free_units().union(
                range_units(range.index_alloc.offset as int, range.index_alloc.len as int),
            ),
            final(self).vertices().spans() == freed_spans(
                old(self).vertices().spans(),
                range.vertex_alloc.offset as int,
                range.vertex_alloc.len as int,
            ),
            final(self).indices().spans() == freed_spans(
                old(self).indices().spans(),
                range.index_alloc.offset as int,
                range.index_alloc.len as int,
            ),
            final(self).vertices().total_free() == old(self).vertices().total_free()
                + range.vertex_alloc.len,
            final(self).indices().total_free() == old(self).indices().total_free()
                + range.index_alloc.len,
    {
        self.vertex_alloc.free(range.vertex_alloc);
        self.index_alloc.free(range.index_alloc);
    }

    /// Free vertex slots in total.
    pub fn free_vertex_space(&self) -> (r: usize)
        requires
            self.wf(),
        ensures
            r == self.vertices().total_free(),
    {
        self.vertex_alloc.free_space()
    }

    /// Free index slots in total.
    pub fn free_index_space(&self) -> (r: usize)
        requires
            self.wf(),
        ensures
            r == self.indices().total_free(),
    {
        self.index_alloc.free_space()
    }

    /// The largest mesh (in vertices) that still fits.
    pub fn largest_free_vertex_block(&self) -> (r: usize)
        requires
            self.wf(),
        ensures
            r == self.vertices().largest(),
    {
        self.vertex_alloc.largest_free_block()
    }

    /// The largest mesh (in indices) that still fits.
    pub fn largest_free_index_block(&self) -> (r: usize)
        requires
            self.wf(),
        ensures
            r == self.indices().largest(),
    {
        self.index_alloc.largest_free_block()
    }
}

} // verus!
