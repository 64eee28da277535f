//! Substeps.
//!
//! A frame is divided into equal substeps. Each substep moves every body one
//! Verlet step under gravity, enforces the boundary on it, and then runs one
//! relaxation sweep. Gravity acts in every substep, scaled by the square of the
//! substep's duration. Repeating the substep is what lets a pile of bodies
//! settle: one sweep alone does not separate them all.
use crate::body::BodyState;
use crate::boundary::{constrain, enforce, Boundary};
use crate::integrator::{acceleration_per_step, integrate, step_acceleration, step_body};
use crate::scalar::{div_toward_zero, trunc_div};
use crate::store::{all_valid, BodyStore};
use crate::sweep::{lemma_sweep_valid, sweep};
use crate::vector::{Vec2, Vector};
use vstd::prelude::*;

verus! {

/// What acts on every body: gravity, in ticks per second squared, and the
/// boundary policy.
#[derive(Clone, Copy, Debug, PartialEq, Eq, Structural)]
pub struct World {
    pub gravity: Vec2,
    pub boundary: Boundary,
}

/// One body after the first half of a substep: a Verlet step, then the
/// boundary.
pub open spec fn moved(b: BodyState, accel: Vector, boundary: Boundary) -> BodyState {
    constrain(integrate(b, accel), boundary)
}

/// All bodies after the first half of a substep. Moving and constraining act
/// on one body at a time, so it makes no difference whether all bodies are
/// moved before any is constrained.
pub open spec fn move_all(s: Seq<BodyState>, accel: Vector, boundary: Boundary) -> Seq<BodyState> {
    Seq::new(s.len(), |i: int| moved(s[i], accel, boundary))
}

/// All bodies after one substep: moved, constrained, and swept once.
pub open spec fn substep(s: Seq<BodyState>, accel: Vector, boundary: Boundary) -> Seq<BodyState> {
    sweep(move_all(s, accel, boundary))
}

/// All bodies after `k` substeps.
pub open spec fn run(s: Seq<BodyState>, accel: Vector, boundary: Boundary, k: nat) -> Seq<
    BodyState,
>
    decreases k,
{
    if k == 0 {
        s
    } else {
        substep(run(s, accel, boundary, (k - 1) as nat), accel, boundary)
    }
}

/// The duration of one of `substeps` equal substeps of a frame of
/// `frame_delta` ticks of a second, rounded toward zero.
pub open spec fn substep_duration(frame_delta: int, substeps: int) -> int {
    trunc_div(frame_delta, substeps)
}

/// The displacement that gravity gives in one substep.
pub open spec fn substep_acceleration(gravity: Vector, dt: int) -> Vector {
    Vector { x: step_acceleration(gravity.x, dt), y: step_acceleration(gravity.y, dt) }
}

/// All bodies after a frame of `frame_delta` ticks of a second, taken in
/// `substeps` substeps. A frame of no substeps changes nothing.
pub open spec fn advanced(s: Seq<BodyState>, world: World, frame_delta: int, substeps: nat) -> Seq<
    BodyState,
> {
    if substeps == 0 {
        s
    } else {
        run(
            s,
            substep_acceleration(world.gravity@, substep_duration(frame_delta, substeps as int)),
            world.boundary,
            substeps,
        )
    }
}

/// Moving and constraining keep a body valid.
pub proof fn lemma_moved_valid(b: BodyState, accel: Vector, boundary: Boundary)
    requires
        b.valid(),
    ensures
        moved(b, accel, boundary).valid(),
{
}

/// A substep keeps the number of bodies and their validity.
pub proof fn lemma_substep_valid(s: Seq<BodyState>, accel: Vector, boundary: Boundary)
    requires
        all_valid(s),
    ensures
        substep(s, accel, boundary).len() == s.len(),
        all_valid(substep(s, accel, boundary)),
{
    let m = move_all(s, accel, boundary);
    assert forall|i: int| 0 <= i < m.len() implies (#[trigger] m[i]).valid() by {
        lemma_moved_valid(s[i], accel, boundary);
    }
    lemma_sweep_valid(m);
}

/// Any number of substeps keeps the number of bodies and their validity.
pub proof fn lemma_run_valid(s: Seq<BodyState>, accel: Vector, boundary: Boundary, k: nat)
    requires
        all_valid(s),
    ensures
        run(s, accel, boundary, k).len() == s.len(),
        all_valid(run(s, accel, boundary, k)),
    decreases k,
{
    if k > 0 {
        lemma_run_valid(s, accel, boundary, (k - 1) as nat);
        lemma_substep_valid(run(s, accel, boundary, (k - 1) as nat), accel, boundary);
    }
}

impl BodyStore {
    /// Moves every body one Verlet step under the per-step acceleration
    /// `accel` and enforces the boundary on it.
    pub fn move_bodies(&mut self, accel: Vec2, boundary: Boundary)
        requires
            old(self).wf(),
        ensures
            final(self)@ == move_all(old(self)@, accel@, boundary),
            final(self).wf(),
    {
        let n = self.len();
        let mut i: usize = 0;
        while i < n
            invariant
                i <= n,
                n == self@.len(),
                n == old(self)@.len(),
                self.wf(),
                forall|k: int| 0 <= k < i ==> self@[k] == moved(old(self)@[k], accel@, boundary),
                forall|k: int| i <= k < n ==> self@[k] == old(self)@[k],
            decreases n - i,
        {
            let mut b = self.get(i);
            step_body(&mut b, accel);
            enforce(&mut b, boundary);
            self.set(i, b);
            i += 1;
        }
        assert(self@ =~= move_all(old(self)@, accel@, boundary));
    }

    /// Runs one substep under the per-step acceleration `accel`.
    pub fn substep(&mut self, accel: Vec2, boundary: Boundary)
        requires
            old(self).wf(),
        ensures
            final(self)@ == substep(old(self)@, accel@, boundary),
            final(self)@.len() == old(self)@.len(),
            final(self).wf(),
    {
        self.move_bodies(accel, boundary);
        self.resolve_collisions();
    }

    /// Advances the store by one frame of `frame_delta` ticks of a second, in
    /// `substeps` equal substeps.
    pub fn advance(&mut self, world: &World, frame_delta: i64, substeps: usize)
        requires
            old(self).wf(),
        ensures
            final(self)@ == advanced(old(self)@, *world, frame_delta as int, substeps as nat),
            final(self)@.len() == old(self)@.len(),
            final(self).wf(),
    {
        if substeps == 0 {
            return ;
        }
        let dt: i64 = div_toward_zero(frame_delta as i128, substeps as i128) as i64;
        let accel = Vec2::new(
            acceleration_per_step(world.gravity.x, dt),
            acceleration_per_step(world.gravity.y, dt),
        );
        let mut k: usize = 0;
        while k < substeps
            invariant
                k <= substeps,
                self.wf(),
                self@.len() == old(self)@.len(),
                self@ == run(old(self)@, accel@, world.boundary, k as nat),
            decreases substeps - k,
        {
            self.substep(accel, world.boundary);
            k += 1;
        }
    }
}

} // verus!
