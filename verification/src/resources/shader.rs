//! Shader program registry.
use vstd::prelude::*;
use std::collections::HashMap;

verus! {

/// Handle of a shader program.
#[derive(Debug, Clone, Copy, PartialEq, Eq, PartialOrd, Ord, Hash, Structural)]
pub struct ShaderId(pub u32);

/// Compiled shader programs by id. An id is taken before a program is
/// built; a build that fails leaves its id unused.
pub struct ShaderManager<S> {
    shaders: HashMap<u32, S>,
    next_id: u32,
}

impl<S> ShaderManager<S> {
    /// Programs by raw id.
    pub closed spec fn shaders(&self) -> Map<u32, S> {
        self.shaders@
    }

    /// The id the next program gets.
    pub closed spec fn next(&self) -> u32 {
        self.next_id
    }

    /// Every program id is below the next one.
    pub open spec fn wf(&self) -> bool {
        forall|k: u32| #[trigger] self.shaders().contains_key(k) ==> k < self.next()
    }

    /// No programs.
    pub fn new() -> (r: Self)
        ensures
            r.wf(),
            r.shaders() == Map::<u32, S>::empty(),
            r.next() == 0,
    {
        Self { shaders: HashMap::new(), next_id: 0 }
    }

    /// Takes the next id for a program about to be built.
    pub fn reserve_id(&mut self) -> (r: ShaderId)
        requires
            old(self).wf(),
            old(self).next() < u32::MAX,
        ensures
            final(self).wf(),
            r.0 == old(self).next(),
            final(self).next() == old(self).next() + 1,
            final(self).shaders() == old(self).shaders(),
    {
        let id = ShaderId(self.next_id);
        self.next_id = self.next_id + 1;
        assert forall|k: u32| #[trigger] self.shaders().contains_key(k) implies k < self.next() by {
            assert(old(self).shaders().contains_key(k));
        }
        id
    }

    /// Stores a built program under an id taken with `reserve_id`.
    pub fn insert(&mut self, id: ShaderId, shader: S)
        requires
            old(self).wf(),
            id.0 < old(self).next(),
        ensures
            final(self).wf(),
            final(self).next() == old(self).next(),
            final(self).shaders() == old(self).shaders().insert(id.0, shader),
    {
        self.shaders.insert(id.0, shader);
        assert forall|k: u32| #[trigger] self.shaders().contains_key(k) implies k < self.next() by {
            if k != id.0 {
                assert(old(self).shaders().contains_key(k));
            }
        }
    }

    /// Adds a built program under the next id.
    pub fn load_shader(&mut self, shader: S) -> (r: ShaderId)
        requires
            old(self).wf(),
            old(self).next() < u32::MAX,
        ensures
            final(self).wf(),
            r.0 == old(self).next(),
            final(self).next() == old(self).next() + 1,
            !old(self).shaders().contains_key(r.0),
            final(self).shaders() == old(self).shaders().insert(r.0, shader),
    {
        let id = self.reserve_id();
        self.insert(id, shader);
        id
    }

    /// The id the next program gets.
    pub fn next_id(&self) -> (r: ShaderId)
        ensures
            r.0 == self.next(),
    {
        ShaderId(self.next_id)
    }

    /// The program `id`.
    pub fn get(&self, id: ShaderId) -> (r: Option<&S>)
        ensures
            r == (if self.shaders().contains_key(id.0) {
                Some(&self.shaders()[id.0])
            } else {
                None
            }),
    {
        self.shaders.get(&id.0)
    }
}

} // verus!
