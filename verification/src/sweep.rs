//! The relaxation sweep: one forward pass over all pairs of bodies.
//!
//! The sweep takes the bodies in store order. Each body in turn is resolved
//! against every later body, also in store order, and every correction takes
//! effect at once: a body that was pushed as the later body of a pair enters
//! its next pair where the push left it. One sweep does not separate a whole
//! pile; repeating the substep does.
use crate::body::BodyState;
use crate::collision::{lemma_resolve_valid, resolve, resolve_pair};
use crate::store::{all_valid, BodyStore};
use vstd::prelude::*;

verus! {

/// The sequence after the pair at indices `i < j` has been resolved.
pub open spec fn resolve_at(s: Seq<BodyState>, i: int, j: int) -> Seq<BodyState> {
    let r = resolve_pair(s[i], s[j]);
    s.update(i, r.0).update(j, r.1)
}

/// The sequence after body `i` has been resolved, in order, against the bodies
/// at indices `i + 1` up to, but not including, `j`.
pub open spec fn sweep_one(s: Seq<BodyState>, i: int, j: int) -> Seq<BodyState>
    decreases j - i,
{
    if j <= i + 1 {
        s
    } else {
        resolve_at(sweep_one(s, i, j - 1), i, j - 1)
    }
}

/// The sequence after each of the first `i` bodies, in order, has been
/// resolved against all the bodies behind it.
pub open spec fn sweep_first(s: Seq<BodyState>, i: int) -> Seq<BodyState>
    decreases i,
{
    if i <= 0 {
        s
    } else {
        let t = sweep_first(s, i - 1);
        sweep_one(t, i - 1, t.len() as int)
    }
}

/// The sequence after one whole sweep.
pub open spec fn sweep(s: Seq<BodyState>) -> Seq<BodyState> {
    sweep_first(s, s.len() as int)
}

/// Resolving one body against later ones keeps the number of bodies and their
/// validity.
pub proof fn lemma_sweep_one_valid(s: Seq<BodyState>, i: int, j: int)
    requires
        all_valid(s),
        0 <= i,
        j <= s.len(),
    ensures
        sweep_one(s, i, j).len() == s.len(),
        all_valid(sweep_one(s, i, j)),
    decreases j - i,
{
    if j > i + 1 {
        lemma_sweep_one_valid(s, i, j - 1);
        let t = sweep_one(s, i, j - 1);
        lemma_resolve_valid(t[i], t[j - 1]);
    }
}

/// A sweep over the first `i` bodies keeps the number of bodies and their
/// validity.
pub proof fn lemma_sweep_first_valid(s: Seq<BodyState>, i: int)
    requires
        all_valid(s),
        i <= s.len(),
    ensures
        sweep_first(s, i).len() == s.len(),
        all_valid(sweep_first(s, i)),
    decreases i,
{
    if i > 0 {
        lemma_sweep_first_valid(s, i - 1);
        let t = sweep_first(s, i - 1);
        lemma_sweep_one_valid(t, i - 1, t.len() as int);
    }
}

/// A sweep keeps the number of bodies and their validity.
pub proof fn lemma_sweep_valid(s: Seq<BodyState>)
    requires
        all_valid(s),
    ensures
        sweep(s).len() == s.len(),
        all_valid(sweep(s)),
{
    lemma_sweep_first_valid(s, s.len() as int);
}

impl BodyStore {
    /// Runs one relaxation sweep over the store.
    pub fn resolve_collisions(&mut self)
        requires
            old(self).wf(),
        ensures
            final(self)@ == sweep(old(self)@),
            final(self)@.len() == old(self)@.len(),
            final(self).wf(),
    {
        let n = self.len();
        let mut i: usize = 0;
        while i < n
            invariant
                i <= n,
                n == self@.len(),
                n == old(self)@.len(),
                self.wf(),
                self@ == sweep_first(old(self)@, i as int),
            decreases n - i,
        {
            let ghost before = self@;
            let mut j: usize = i + 1;
            while j < n
                invariant
                    i < n,
                    i + 1 <= j <= n,
                    n == self@.len(),
                    n == before.len(),
                    self.wf(),
                    self@ == sweep_one(before, i as int, j as int),
                decreases n - j,
            {
                let mut a = self.get(i);
                let mut b = self.get(j);
                resolve(&mut a, &mut b);
                self.set(i, a);
                self.set(j, b);
                j += 1;
            }
            i += 1;
        }
        proof {
            lemma_sweep_valid(old(self)@);
        }
    }
}

} // verus!
