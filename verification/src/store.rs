//! The bodies of a simulation, in the order in which they were added.
//!
//! The order matters: the collision sweep visits the bodies in this order and
//! treats the earlier and the later body of a pair differently.
use crate::body::{Body, BodyState, Color};
use crate::vector::{Vec2, Vector};
use vstd::prelude::*;

verus! {

/// Whether every body of the sequence is valid.
pub open spec fn all_valid(s: Seq<BodyState>) -> bool {
    forall|i: int| 0 <= i < s.len() ==> (#[trigger] s[i]).valid()
}

/// What the renderer sees of a body: its centre, its radius and its colour.
pub open spec fn appearance(b: BodyState) -> (Vector, int, Color) {
    (b.position, b.radius, b.color)
}

/// An ordered collection of bodies. New bodies go to the back.
pub struct BodyStore {
    bodies: Vec<Body>,
}

impl View for BodyStore {
    type V = Seq<BodyState>;

    closed spec fn view(&self) -> Seq<BodyState> {
        self.bodies@.map_values(|b: Body| b@)
    }
}

impl BodyStore {
    /// Whether every body in the store is valid.
    pub open spec fn wf(&self) -> bool {
        all_valid(self@)
    }

    /// An empty store.
    pub fn new() -> (s: BodyStore)
        ensures
            s@ == Seq::<BodyState>::empty(),
            s.wf(),
    {
        let s = BodyStore { bodies: Vec::new() };
        assert(s@ =~= Seq::<BodyState>::empty());
        s
    }

    /// The number of bodies.
    pub fn len(&self) -> (n: usize)
        ensures
            n == self@.len(),
    {
        self.bodies.len()
    }

    /// Whether the store holds no body.
    pub fn is_empty(&self) -> (e: bool)
        ensures
            e == (self@.len() == 0),
    {
        self.bodies.len() == 0
    }

    /// Adds `body` at the back.
    pub fn append(&mut self, body: Body)
        requires
            old(self).wf(),
            body.wf(),
        ensures
            final(self)@ == old(self)@.push(body@),
            final(self).wf(),
    {
        self.bodies.push(body);
        assert(self@ =~= old(self)@.push(body@));
    }

    /// Removes every body.
    pub fn clear(&mut self)
        ensures
            final(self)@ == Seq::<BodyState>::empty(),
            final(self).wf(),
    {
        self.bodies.clear();
        assert(self@ =~= Seq::<BodyState>::empty());
    }

    /// The body at index `i`.
    pub fn get(&self, i: usize) -> (b: Body)
        requires
            i < self@.len(),
        ensures
            b@ == self@[i as int],
            self.wf() ==> b.wf(),
    {
        self.bodies[i]
    }

    /// The body at index `i`, or `None` where there is none.
    pub fn body(&self, i: usize) -> (b: Option<Body>)
        ensures
            i < self@.len() ==> b is Some && b->Some_0@ == self@[i as int],
            i >= self@.len() ==> b is None,
    {
        if i < self.bodies.len() {
            Some(self.bodies[i])
        } else {
            None
        }
    }

    /// Puts `body` in the place of the body at index `i`.
    pub(crate) fn set(&mut self, i: usize, body: Body)
        requires
            i < old(self)@.len(),
            old(self).wf(),
            body.wf(),
        ensures
            final(self)@ == old(self)@.update(i as int, body@),
            final(self).wf(),
    {
        self.bodies.set(i, body);
        assert(self@ =~= old(self)@.update(i as int, body@));
    }

    /// What the renderer needs of each body, in store order.
    pub fn iterate(&self) -> (out: Vec<(Vec2, i64, Color)>)
        ensures
            out@.len() == self@.len(),
            forall|i: int|
                0 <= i < self@.len() ==> ((#[trigger] out@[i]).0@, out@[i].1 as int, out@[i].2)
                    == appearance(self@[i]),
    {
        let mut out: Vec<(Vec2, i64, Color)> = Vec::new();
        let n = self.bodies.len();
        let mut i: usize = 0;
        while i < n
            invariant
                i <= n,
                n == self@.len(),
                n == self.bodies@.len(),
                out@.len() == i,
                forall|k: int|
                    0 <= k < i ==> ((#[trigger] out@[k]).0@, out@[k].1 as int, out@[k].2)
                        == appearance(self@[k]),
            decreases n - i,
        {
            let b = self.bodies[i];
            out.push((b.position(), b.radius(), b.color()));
            i += 1;
        }
        out
    }
}

} // verus!
