//! Light bookkeeping: ids, the lights by id, and the order in which active
//! lights reach the shader. What a light is (`L`) is up to the caller.
use vstd::prelude::*;
use std::collections::HashMap;
use std::collections::hash_map::Entry;

verus! {

/// Lights the shader's uniform block has room for.
pub const MAX_LIGHTS: usize = 16;

/// Unique identifier for a light.
#[derive(Debug, Clone, Copy, PartialEq, Eq, Hash, PartialOrd, Ord, Structural)]
pub struct LightId(pub u32);

/// Type of light source.
#[derive(Debug, Clone, Copy, PartialEq, Eq, Structural)]
pub enum LightType {
    /// Infinitely far away, parallel rays (sunlight).
    Directional,
    /// Emits in all directions from a point.
    Point,
    /// Emits in a cone from a point.
    Spot,
}

/// The number the shader uses for each light type.
pub open spec fn spec_light_type_code(t: LightType) -> u32 {
    match t {
        LightType::Directional => 0,
        LightType::Point => 1,
        LightType::Spot => 2,
    }
}

impl LightType {
    /// The number the shader uses for this type.
    pub fn gpu_code(&self) -> (r: u32)
        ensures
            r == spec_light_type_code(*self),
    {
        match self {
            LightType::Directional => 0,
            LightType::Point => 1,
            LightType::Spot => 2,
        }
    }
}

/// Lights by id, with the active ones in creation order.
pub struct LightManager<L> {
    lights: HashMap<u32, L>,
    next_id: u32,
    active_lights: Vec<LightId>,
}

impl<L> LightManager<L> {
    /// The lights by raw id.
    pub closed spec fn lights(&self) -> Map<u32, L> {
        self.lights@
    }

    /// Active light ids, in the order they reach the shader.
    pub closed spec fn active(&self) -> Seq<LightId> {
        self.active_lights@
    }

    /// The id the next light gets.
    pub closed spec fn next(&self) -> u32 {
        self.next_id
    }

    /// Every light has an id below the next one and is active exactly
    /// once; every active id names a light.
    pub open spec fn wf(&self) -> bool {
        &&& forall|k: u32| #[trigger] self.lights().contains_key(k) ==> k < self.next()
        &&& self.active().no_duplicates()
        &&& forall|k: u32|
            #[trigger] self.lights().contains_key(k) <==> self.active().contains(LightId(k))
    }

    /// No lights.
    pub fn new() -> (r: Self)
        ensures
            r.wf(),
            r.lights() == Map::<u32, L>::empty(),
            r.active().len() == 0,
            r.next() == 0,
    {
        let r = LightManager { lights: HashMap::new(), next_id: 0, active_lights: Vec::new() };
        assert(r.active() =~= Seq::<LightId>::empty());
        r
    }

    /// The id the next added light gets.
    pub fn next_id(&self) -> (r: LightId)
        ensures
            r.0 == self.next(),
    {
        LightId(self.next_id)
    }

    /// Adds `light` under a fresh id, active, after every active light.
    pub fn add(&mut self, light: L) -> (id: LightId)
        requires
            old(self).wf(),
            old(self).next() < u32::MAX,
        ensures
            final(self).wf(),
            id.0 == old(self).next(),
            !old(self).lights().contains_key(id.0),
            final(self).next() == old(self).next() + 1,
            final(self).lights() == old(self).lights().insert(id.0, light),
            final(self).active() == old(self).active().push(id),
    {
        let id = LightId(self.next_id);
        self.next_id = self.next_id + 1;
        let ghost before = self.active_lights@;
        assert(!before.contains(id)) by {
            if before.contains(id) {
                assert(old(self).lights().contains_key(id.0));
            }
        }
        self.active_lights.push(id);
        self.lights.insert(id.0, light);
        assert(self.lights() == old(self).lights().insert(id.0, light));
        assert(forall|k: u32| #[trigger] self.lights().contains_key(k) ==> k < self.next());
        proof {
            assert forall|k: u32| #[trigger] self.lights().contains_key(k) <==> self.active().contains(
                LightId(k),
            ) by {
                if self.active().contains(LightId(k)) && k != id.0 {
                    let j = choose|j: int| 0 <= j < self.active().len() && self.active()[j] == LightId(k);
                    assert(before[j] == LightId(k));
                }
                if old(self).lights().contains_key(k) {
                    let j = choose|j: int| 0 <= j < before.len() && before[j] == LightId(k);
                    assert(self.active()[j] == LightId(k));
                }
                if k == id.0 {
                    assert(self.active()[before.len() as int] == id);
                }
            }
            assert forall|a: int, b: int|
                0 <= a < self.active().len() && 0 <= b < self.active().len() && a != b implies self.active()[a]
                != self.active()[b] by {
                if a < before.len() && b < before.len() {
                } else if a < before.len() {
                    assert(before.contains(before[a]));
                } else {
                    assert(before.contains(before[b]));
                }
            }
        }
        id
    }

    /// Removes light `id` and drops it from the active list; the other
    /// active lights keep their order. Nothing happens for an unknown id.
    pub fn remove(&mut self, id: LightId)
        requires
            old(self).wf(),
        ensures
            final(self).wf(),
            final(self).next() == old(self).next(),
            final(self).lights() == old(self).lights().remove(id.0),
            final(self).active() == old(self).active().filter(|l: LightId| l != id),
            !final(self).active().contains(id),
    {
        let ghost before = self.active_lights@;
        let ghost keep = |l: LightId| l != id;
        self.lights.remove(&id.0);
        assert(self.lights() == old(self).lights().remove(id.0));
        let mut kept: Vec<LightId> = Vec::new();
        let n = self.active_lights.len();
        for i in 0..n
            invariant
                keep == (|l: LightId| l != id),
                n == before.len(),
                self.active_lights@ == before,
                before.no_duplicates(),
                kept@ == before.take(i as int).filter(keep),
                forall|l: LightId| #[trigger] kept@.contains(l) <==> (before.take(i as int).contains(l) && l != id),
                kept@.no_duplicates(),
        {
            let l = self.active_lights[i];
            let ghost pre = before.take(i as int);
            assert(before.take(i + 1) =~= pre.push(l));
            proof {
                pre.lemma_filter_push(l, keep);
            }
            assert(!pre.contains(l)) by {
                if pre.contains(l) {
                    let j = choose|j: int| 0 <= j < pre.len() && pre[j] == l;
                    assert(before[j] == before[i as int]);
                }
            }
            assert forall|x: LightId| #[trigger] pre.push(l).contains(x) <==> (pre.contains(x) || x == l) by {
                if pre.push(l).contains(x) {
                    let j = choose|j: int| 0 <= j < pre.len() + 1 && pre.push(l)[j] == x;
                    if j < pre.len() {
                        assert(pre[j] == x);
                    }
                }
                if pre.contains(x) {
                    let j = choose|j: int| 0 <= j < pre.len() && pre[j] == x;
                    assert(pre.push(l)[j] == x);
                }
                if x == l {
                    assert(pre.push(l)[pre.len() as int] == l);
                }
            }
            if l != id {
                let ghost kb = kept@;
                kept.push(l);
                proof {
                    assert forall|x: LightId| #[trigger] kept@.contains(x) <==> (kb.contains(x) || x == l) by {
                        if kept@.contains(x) {
                            let j = choose|j: int| 0 <= j < kept@.len() && kept@[j] == x;
                            if j < kb.len() {
                                assert(kb[j] == x);
                            }
                        }
                        if kb.contains(x) {
                            let j = choose|j: int| 0 <= j < kb.len() && kb[j] == x;
                            assert(kept@[j] == x);
                        }
                        if x == l {
                            assert(kept@[kb.len() as int] == l);
                        }
                    }
                    assert forall|a: int, b: int|
                        0 <= a < kept@.len() && 0 <= b < kept@.len() && a != b implies kept@[a]
                        != kept@[b] by {
                        if a < kb.len() && b < kb.len() {
                            assert(kept@[a] == kb[a] && kept@[b] == kb[b]);
                        } else if a < kb.len() {
                            assert(kb.contains(kb[a]));
                        } else if b < kb.len() {
                            assert(kb.contains(kb[b]));
                        }
                    }
                }
            }
        }
        assert(before.take(n as int) =~= before);
        self.active_lights = kept;
        proof {
            assert(keep =~= (|l: LightId| l != id));
            assert forall|k: u32| #[trigger] self.lights().contains_key(k) <==> self.active().contains(
                LightId(k),
            ) by {
                assert(old(self).lights().contains_key(k) <==> before.contains(LightId(k)));
            }
        }
    }

    /// Light `id`, if there is one.
    pub fn get(&self, id: LightId) -> (r: Option<&L>)
        ensures
            r == (if self.lights().contains_key(id.0) {
                Some(&self.lights()[id.0])
            } else {
                None
            }),
    {
        self.lights.get(&id.0)
    }

    /// Mutable access to light `id`.
    pub fn get_mut(&mut self, id: LightId) -> (r: Option<&mut L>)
        ensures
            final(self).next() == old(self).next(),
            final(self).active() == old(self).active(),
            match r {
                Some(e) => old(self).lights().contains_key(id.0) && *e == old(self).lights()[id.0]
                    && final(self).lights() == old(self).lights().insert(id.0, *final(e)),
                None => !old(self).lights().contains_key(id.0) && final(self).lights() == old(
                    self,
                ).lights(),
            },
    {
        match self.lights.entry(id.0) {
            Entry::Occupied(o) => Some(o.into_mut()),
            Entry::Vacant(_) => None,
        }
    }

    /// The active light ids, in creation order.
    pub fn active_lights(&self) -> (r: &Vec<LightId>)
        ensures
            r@ == self.active(),
    {
        &self.active_lights
    }

    /// How many lights reach the shader: the active ones, at most
    /// `MAX_LIGHTS`.
    pub fn active_light_count(&self) -> (r: usize)
        ensures
            r == (if self.active().len() < MAX_LIGHTS {
                self.active().len()
            } else {
                MAX_LIGHTS as nat
            }),
    {
        if self.active_lights.len() < MAX_LIGHTS {
            self.active_lights.len()
        } else {
            MAX_LIGHTS
        }
    }

    /// The lights that reach the shader: the first `MAX_LIGHTS` active ids.
    pub fn shader_lights(&self) -> (r: Vec<LightId>)
        ensures
            r@ == self.active().take(
                if self.active().len() < MAX_LIGHTS {
                    self.active().len() as int
                } else {
                    MAX_LIGHTS as int
                },
            ),
    {
        let n = self.active_light_count();
        let mut out: Vec<LightId> = Vec::new();
        for i in 0..n
            invariant
                n <= self.active_lights@.len(),
                out@ == self.active_lights@.take(i as int),
        {
            out.push(self.active_lights[i]);
            assert(self.active_lights@.take(i + 1) =~= self.active_lights@.take(i as int).push(
                self.active_lights@[i as int],
            ));
        }
        out
    }
}

/// Adding a light and removing it again leaves the lights and the active
/// order as they were: the new id was not in use.
pub proof fn law_add_remove_restores<L>(
    lights: Map<u32, L>,
    active: Seq<LightId>,
    id: LightId,
    light: L,
)
    requires
        !lights.contains_key(id.0),
        !active.contains(id),
    ensures
        lights.insert(id.0, light).remove(id.0) == lights,
        active.push(id).filter(|l: LightId| l != id) == active,
{
    assert(lights.insert(id.0, light).remove(id.0) =~= lights);
    lemma_filter_without(active, id);
    active.lemma_filter_push(id, |l: LightId| l != id);
}

/// Dropping `id` from a list that does not hold it changes nothing.
proof fn lemma_filter_without(s: Seq<LightId>, id: LightId)
    requires
        !s.contains(id),
    ensures
        s.filter(|l: LightId| l != id) == s,
    decreases s.len(),
{
    if s.len() > 0 {
        let t = s.drop_last();
        assert(!t.contains(id)) by {
            if t.contains(id) {
                let j = choose|j: int| 0 <= j < t.len() && t[j] == id;
                assert(s[j] == id);
            }
        }
        lemma_filter_without(t, id);
        assert(s == t.push(s.last()));
        t.lemma_filter_push(s.last(), |l: LightId| l != id);
        assert(s.last() != id) by {
            assert(s[s.len() - 1] == s.last());
        }
    } else {
        reveal(Seq::filter);
        assert(s.filter(|l: LightId| l != id) =~= s);
    }
}

} // verus!
