//! Triple buffering between one producer and one consumer.
//!
//! Three slots rotate between three roles: the producer writes into the
//! back slot, `publish` swaps it with the middle (latest published) slot,
//! and `consume` swaps the middle slot with the front slot and hands out a
//! clone of what was published. The producer and the consumer never touch the
//! same slot.
use vstd::prelude::*;

verus! {

/// Three slots and the indices of their current roles.
pub struct TripleBuffer<T> {
    slots: Vec<T>,
    back: usize,
    mid: usize,
    front: usize,
    fresh: bool,
    published: Ghost<nat>,
    taken: Ghost<nat>,
}

/// `(b, m, f)` is a permutation of `(0, 1, 2)`.
pub open spec fn roles_ok(b: int, m: int, f: int) -> bool {
    &&& 0 <= b < 3
    &&& 0 <= m < 3
    &&& 0 <= f < 3
    &&& b != m
    &&& m != f
    &&& b != f
}

impl<T: Default + Clone> TripleBuffer<T> {
    /// The three slots.
    pub closed spec fn slots(&self) -> Seq<T> {
        self.slots@
    }

    /// Index of the slot the producer writes.
    pub closed spec fn back_index(&self) -> int {
        self.back as int
    }

    /// Index of the latest published slot.
    pub closed spec fn mid_index(&self) -> int {
        self.mid as int
    }

    /// Index of the slot the consumer last took.
    pub closed spec fn front_index(&self) -> int {
        self.front as int
    }

    /// Something was published since the last `consume`.
    pub closed spec fn is_fresh(&self) -> bool {
        self.fresh
    }

    /// How many times `publish` was called: publications are numbered
    /// `1, 2, ...` in order.
    pub closed spec fn published(&self) -> nat {
        self.published@
    }

    /// The number of the publication the last successful `consume` handed
    /// out (0 before any).
    pub closed spec fn taken(&self) -> nat {
        self.taken@
    }

    /// Three slots, the three roles held by three different slots, and
    /// something is fresh exactly when a publication newer than the last one
    /// handed out exists.
    pub open spec fn wf(&self) -> bool {
        &&& self.slots().len() == 3
        &&& roles_ok(self.back_index(), self.mid_index(), self.front_index())
        &&& self.taken() <= self.published()
        &&& self.is_fresh() <==> self.taken() < self.published()
    }

    /// Three default slots: back 0, middle 1, front 2, nothing published.
    pub fn new() -> (r: Self)
        ensures
            r.wf(),
            r.back_index() == 0,
            r.mid_index() == 1,
            r.front_index() == 2,
            !r.is_fresh(),
            r.published() == 0,
            r.taken() == 0,
    {
        let mut slots: Vec<T> = Vec::new();
        slots.push(T::default());
        slots.push(T::default());
        slots.push(T::default());
        Self { slots, back: 0, mid: 1, front: 2, fresh: false, published: Ghost(0), taken: Ghost(0) }
    }

    /// The back slot, for the producer to write into.
    pub fn write_slot(&mut self) -> (r: &mut T)
        requires
            old(self).wf(),
        ensures
            *r == old(self).slots()[old(self).back_index()],
            final(self).wf(),
            final(self).slots() == old(self).slots().update(old(self).back_index(), *final(r)),
            final(self).back_index() == old(self).back_index(),
            final(self).mid_index() == old(self).mid_index(),
            final(self).front_index() == old(self).front_index(),
            final(self).is_fresh() == old(self).is_fresh(),
            final(self).published() == old(self).published(),
            final(self).taken() == old(self).taken(),
    {
        let idx = self.back;
        &mut self.slots[idx]
    }

    /// Publishes the back slot: it becomes the middle slot, and the old
    /// middle slot becomes the new back slot.
    pub fn publish(&mut self)
        requires
            old(self).wf(),
        ensures
            final(self).wf(),
            final(self).slots() == old(self).slots(),
            final(self).back_index() == old(self).mid_index(),
            final(self).mid_index() == old(self).back_index(),
            final(self).front_index() == old(self).front_index(),
            final(self).is_fresh(),
            final(self).published() == old(self).published() + 1,
            final(self).taken() == old(self).taken(),
    {
        let b = self.back;
        let m = self.mid;
        self.mid = b;
        self.back = m;
        self.fresh = true;
        proof {
            self.published = Ghost(self.published@ + 1);
        }
    }

    /// Takes the latest published data into `out` and returns `true`; returns
    /// `false` and leaves everything as it was when nothing new was published.
    pub fn consume(&mut self, out: &mut T) -> (r: bool)
        requires
            old(self).wf(),
        ensures
            final(self).wf(),
            r == old(self).is_fresh(),
            final(self).slots() == old(self).slots(),
            final(self).back_index() == old(self).back_index(),
            !final(self).is_fresh(),
            !r ==> *final(out) == *old(out) && final(self).mid_index() == old(self).mid_index()
                && final(self).front_index() == old(self).front_index(),
            r ==> final(self).front_index() == old(self).mid_index() && final(self).mid_index()
                == old(self).front_index() && cloned(
                old(self).slots()[old(self).mid_index()],
                *final(out),
            ),
            final(self).published() == old(self).published(),
            r ==> old(self).taken() < old(self).published() && final(self).taken() == old(
                self,
            ).published(),
            !r ==> old(self).taken() == old(self).published() && final(self).taken() == old(
                self,
            ).taken(),
    {
        if !self.fresh {
            return false;
        }
        self.fresh = false;
        proof {
            self.taken = Ghost(self.published@);
        }
        let m = self.mid;
        self.mid = self.front;
        self.front = m;
        *out = self.slots[m].clone();
        true
    }
}

/// What the producer writes into the back slot and publishes is what the
/// next `consume` hands out (up to `clone`): writing `v`, publishing, then
/// consuming gives a clone of `v`.
pub proof fn law_consume_gets_published<T: Default + Clone>(
    s0: TripleBuffer<T>,
    s1: TripleBuffer<T>,
    s2: TripleBuffer<T>,
    v: T,
)
    requires
        s0.wf(),
        s1.wf(),
        s2.wf(),
        s1.slots() == s0.slots().update(s0.back_index(), v),
        s1.back_index() == s0.back_index(),
        s2.slots() == s1.slots(),
        s2.mid_index() == s1.back_index(),
    ensures
        s2.slots()[s2.mid_index()] == v,
{
}

/// Consumers never see an old or repeated frame: a successful `consume`
/// hands out the latest publication, whose number is larger than that of
/// the frame the previous successful `consume` handed out; when nothing was
/// published since, `consume` fails and hands out nothing.
pub proof fn law_consume_newer<T: Default + Clone>(s0: TripleBuffer<T>, s1: TripleBuffer<T>, r: bool)
    requires
        s0.wf(),
        s1.wf(),
        s1.published() == s0.published(),
        r ==> s1.taken() == s0.published(),
        !r ==> s1.taken() == s0.taken(),
        r == s0.is_fresh(),
    ensures
        r ==> s0.taken() < s1.taken() && s1.taken() == s1.published(),
        !r ==> s0.taken() == s0.published() && s1.taken() == s0.taken(),
        !s1.is_fresh() || !r,
{
}

/// The producer's slot is never the slot the consumer holds or the one
/// waiting to be taken, before or after any operation.
pub proof fn law_roles_disjoint<T: Default + Clone>(s: TripleBuffer<T>)
    requires
        s.wf(),
    ensures
        s.back_index() != s.front_index(),
        s.back_index() != s.mid_index(),
        s.mid_index() != s.front_index(),
{
}

} // verus!
