//! A body alone in its store: free fall, and life inside the disk.
//!
//! The fall is stated for a boundary that never binds: none at all, or one
//! that the falling body does not reach.
use crate::body::BodyState;
use crate::boundary::{contained, Boundary};
use crate::integrator::integrate;
use crate::laws::boundary::{lemma_disk_contains, lemma_disk_lets_be, lets_be};
use crate::scalar::{in_world, magnitude, COORD_LIMIT};
use crate::scheduler::{
    advanced, move_all, moved, run, substep, substep_acceleration, substep_duration, World,
};
use crate::sweep::{sweep_first, sweep_one};
use crate::vector::{Vec2, Vector};
use vstd::prelude::*;

verus! {

/// A store of one body has nothing to sweep: a substep moves the body and
/// enforces the boundary on it.
pub proof fn lemma_lone_substep(b: BodyState, accel: Vector, boundary: Boundary)
    requires
        b.valid(),
    ensures
        substep(seq![b], accel, boundary) == seq![moved(b, accel, boundary)],
{
    let s = seq![b];
    let m = move_all(s, accel, boundary);
    assert(m =~= seq![moved(b, accel, boundary)]);
    assert(sweep_first(m, 0) == m);
    assert(sweep_one(m, 0, 1) == m);
    assert(sweep_first(m, 1) == m);
}

/// The state of a body that is alone in its store, after `k` substeps.
pub open spec fn alone(b: BodyState, accel: Vector, boundary: Boundary, k: nat) -> BodyState
    decreases k,
{
    if k == 0 {
        b
    } else {
        moved(alone(b, accel, boundary, (k - 1) as nat), accel, boundary)
    }
}

/// A store of one body holds, after `k` substeps, that body moved `k` times.
pub proof fn lemma_lone_run(b: BodyState, accel: Vector, boundary: Boundary, k: nat)
    requires
        b.valid(),
    ensures
        run(seq![b], accel, boundary, k) == seq![alone(b, accel, boundary, k)],
        alone(b, accel, boundary, k).valid(),
    decreases k,
{
    if k > 0 {
        lemma_lone_run(b, accel, boundary, (k - 1) as nat);
        lemma_lone_substep(alone(b, accel, boundary, (k - 1) as nat), accel, boundary);
    }
}

/// Under the disk policy a body that is alone in its store, and no larger than
/// the disk, lies inside the disk after every substep, up to two ticks of
/// rounding, whatever its position and velocity were.
pub proof fn lemma_lone_body_contained(b: BodyState, accel: Vector, radius: i64, k: nat)
    requires
        b.valid(),
        b.radius <= radius,
        k >= 1,
    ensures
        run(seq![b], accel, Boundary::Disk { radius }, k).len() == 1,
        contained(run(seq![b], accel, Boundary::Disk { radius }, k)[0], radius as int, 2),
{
    let boundary = Boundary::Disk { radius };
    lemma_lone_run(b, accel, boundary, k);
    lemma_lone_run(b, accel, boundary, (k - 1) as nat);
    let before = alone(b, accel, boundary, (k - 1) as nat);
    lemma_alone_keeps_radius(b, accel, boundary, (k - 1) as nat);
    lemma_disk_contains(integrate(before, accel), radius as int);
}

/// Moving a body alone changes neither its radius nor its colour.
proof fn lemma_alone_keeps_radius(b: BodyState, accel: Vector, boundary: Boundary, k: nat)
    ensures
        alone(b, accel, boundary, k).radius == b.radius,
        alone(b, accel, boundary, k).color == b.color,
    decreases k,
{
    if k > 0 {
        lemma_alone_keeps_radius(b, accel, boundary, (k - 1) as nat);
    }
}

/// Free fall. A body that starts at rest, alone and with no boundary to stop
/// it, has after `n` steps under the per-step acceleration `accel` been
/// displaced by `accel * n * (n + 1) / 2`, as long as that is inside the
/// world. Over a time `t` of `n` steps of length `dt`, where `accel` is
/// `g * dt²`, that is `g * t² / 2` and one `n`-th of it more: the more steps
/// the time is cut into, the closer the fall comes to `g * t² / 2`.
pub proof fn lemma_free_fall(b: BodyState, accel: Vector, n: nat)
    requires
        b.valid(),
        b.at_rest(),
        2 * magnitude(b.position.x) + magnitude(accel.x) * n * (n + 1) <= 2 * COORD_LIMIT,
        2 * magnitude(b.position.y) + magnitude(accel.y) * n * (n + 1) <= 2 * COORD_LIMIT,
    ensures
        run(seq![b], accel, Boundary::Unbounded, n) == seq![
            alone(b, accel, Boundary::Unbounded, n),
        ],
        2 * (alone(b, accel, Boundary::Unbounded, n).position.x - b.position.x) == accel.x * n * (n
            + 1),
        2 * (alone(b, accel, Boundary::Unbounded, n).position.y - b.position.y) == accel.y * n * (n
            + 1),
        2 * (alone(b, accel, Boundary::Unbounded, n).previous.x - b.position.x) == accel.x * (n
            - 1) * n,
        2 * (alone(b, accel, Boundary::Unbounded, n).previous.y - b.position.y) == accel.y * (n
            - 1) * n,
    decreases n,
{
    lemma_lone_run(b, accel, Boundary::Unbounded, n);
    if n > 0 {
        let k = (n - 1) as nat;
        lemma_fall_fits(b.position.x, accel.x, n);
        lemma_fall_fits(b.position.y, accel.y, n);
        lemma_free_fall(b, accel, k);
        let before = alone(b, accel, Boundary::Unbounded, k);
        lemma_fall_step(b.position.x, accel.x, before.position.x, before.previous.x, n);
        lemma_fall_step(b.position.y, accel.y, before.position.y, before.previous.y, n);
    } else {
        assert(accel.x * 0 * 1 == 0 && accel.x * (0 - 1) * 0 == 0) by (nonlinear_arith);
        assert(accel.y * 0 * 1 == 0 && accel.y * (0 - 1) * 0 == 0) by (nonlinear_arith);
    }
}

/// A fall that fits in the world after `n` steps fits after `n - 1`.
proof fn lemma_fall_fits(p: int, a: int, n: nat)
    requires
        n >= 1,
        2 * magnitude(p) + magnitude(a) * n * (n + 1) <= 2 * COORD_LIMIT,
    ensures
        2 * magnitude(p) + magnitude(a) * (n - 1) as nat * ((n - 1) as nat + 1) <= 2 * COORD_LIMIT,
{
    let m = magnitude(a);
    let k = (n - 1) as nat;
    assert(m * k * (k + 1) <= m * n * (n + 1)) by (nonlinear_arith)
        requires
            m >= 0,
            n >= 1,
            k == n - 1,
    ;
}

/// One coordinate of one step of a fall.
proof fn lemma_fall_step(p: int, a: int, position: int, previous: int, n: nat)
    requires
        n >= 1,
        2 * (position - p) == a * (n - 1) as nat * ((n - 1) as nat + 1),
        2 * (previous - p) == a * ((n - 1) as nat - 1) * (n - 1) as nat,
        2 * magnitude(p) + magnitude(a) * n * (n + 1) <= 2 * COORD_LIMIT,
    ensures
        in_world(2 * position - previous + a),
        2 * (2 * position - previous + a - p) == a * n * (n + 1),
        2 * (position - p) == a * (n - 1) * n,
{
    let k = n - 1;
    let next = 2 * position - previous + a;
    assert(a * (n - 1) as nat * ((n - 1) as nat + 1) == a * k * (k + 1));
    assert(a * ((n - 1) as nat - 1) * (n - 1) as nat == a * (k - 1) * k);
    assert(a * k * (k + 1) == a * (n - 1) * n) by (nonlinear_arith)
        requires
            k == n - 1,
    ;
    assert(2 * (next - p) == a * n * (n + 1)) by (nonlinear_arith)
        requires
            next == 2 * position - previous + a,
            2 * (position - p) == a * k * (k + 1),
            2 * (previous - p) == a * (k - 1) * k,
            k == n - 1,
    ;
    let m = magnitude(a);
    assert(magnitude(a * n * (n + 1)) == m * n * (n + 1)) by (nonlinear_arith)
        requires
            m == magnitude(a),
            n >= 1,
    ;
}

/// Whether the boundary never binds a body that falls from rest for `n`
/// steps: it leaves the body alone wherever the free fall takes it.
pub open spec fn unhindered(b: BodyState, accel: Vector, boundary: Boundary, n: nat) -> bool {
    forall|j: nat| 1 <= j <= n ==> lets_be(boundary, #[trigger] alone(b, accel, Boundary::Unbounded, j))
}

/// A boundary that never binds makes no difference: the body falls as it
/// would without one.
pub proof fn lemma_falls_as_if_unbounded(b: BodyState, accel: Vector, boundary: Boundary, n: nat)
    requires
        b.valid(),
        unhindered(b, accel, boundary, n),
    ensures
        alone(b, accel, boundary, n) == alone(b, accel, Boundary::Unbounded, n),
        run(seq![b], accel, boundary, n) == seq![alone(b, accel, Boundary::Unbounded, n)],
    decreases n,
{
    lemma_lone_run(b, accel, boundary, n);
    if n > 0 {
        lemma_falls_as_if_unbounded(b, accel, boundary, (n - 1) as nat);
        assert(lets_be(boundary, alone(b, accel, Boundary::Unbounded, n)));
    }
}

/// Free fall inside a boundary that never binds. A body that starts at rest
/// and alone has after `n` steps under the per-step acceleration `accel` been
/// displaced by `accel * n * (n + 1) / 2`, whatever the boundary, as long as
/// the boundary leaves it alone on its way.
pub proof fn lemma_free_fall_unhindered(b: BodyState, accel: Vector, boundary: Boundary, n: nat)
    requires
        b.valid(),
        b.at_rest(),
        2 * magnitude(b.position.x) + magnitude(accel.x) * n * (n + 1) <= 2 * COORD_LIMIT,
        2 * magnitude(b.position.y) + magnitude(accel.y) * n * (n + 1) <= 2 * COORD_LIMIT,
        unhindered(b, accel, boundary, n),
    ensures
        run(seq![b], accel, boundary, n).len() == 1,
        2 * (run(seq![b], accel, boundary, n)[0].position.x - b.position.x) == accel.x * n * (n
            + 1),
        2 * (run(seq![b], accel, boundary, n)[0].position.y - b.position.y) == accel.y * n * (n
            + 1),
{
    lemma_falls_as_if_unbounded(b, accel, boundary, n);
    lemma_free_fall(b, accel, n);
}

/// No boundary never binds.
pub proof fn lemma_unbounded_unhindered(b: BodyState, accel: Vector, n: nat)
    ensures
        unhindered(b, accel, Boundary::Unbounded, n),
{
}

/// A disk never binds a body that falls from rest where the fall, measured
/// along the axes, does not take the body to the rim.
pub proof fn lemma_disk_unhindered(b: BodyState, accel: Vector, radius: i64, n: nat)
    requires
        b.valid(),
        b.at_rest(),
        2 * magnitude(b.position.x) + magnitude(accel.x) * n * (n + 1) <= 2 * COORD_LIMIT,
        2 * magnitude(b.position.y) + magnitude(accel.y) * n * (n + 1) <= 2 * COORD_LIMIT,
        2 * (magnitude(b.position.x) + magnitude(b.position.y) + b.radius) + (magnitude(accel.x)
            + magnitude(accel.y)) * n * (n + 1) <= 2 * radius,
    ensures
        unhindered(b, accel, Boundary::Disk { radius }, n),
{
    let boundary = Boundary::Disk { radius };
    assert forall|j: nat| 1 <= j <= n implies lets_be(
        boundary,
        #[trigger] alone(b, accel, Boundary::Unbounded, j),
    ) by {
        let mx = magnitude(accel.x);
        let my = magnitude(accel.y);
        assert(mx * j * (j + 1) <= mx * n * (n + 1) && my * j * (j + 1) <= my * n * (n + 1) && (mx
            + my) * n * (n + 1) == mx * n * (n + 1) + my * n * (n + 1) && magnitude(
            accel.x * j * (j + 1),
        ) == mx * j * (j + 1) && magnitude(accel.y * j * (j + 1)) == my * j * (j + 1))
            by (nonlinear_arith)
            requires
                mx == magnitude(accel.x),
                my == magnitude(accel.y),
                1 <= j <= n,
        ;
        lemma_free_fall(b, accel, j);
        let s = alone(b, accel, Boundary::Unbounded, j);
        lemma_alone_keeps_radius(b, accel, Boundary::Unbounded, j);
        lemma_disk_lets_be(s, radius);
    }
}

/// Free fall over a frame. A body at rest, alone and inside a boundary that
/// never binds, falls in a frame of `n` substeps by `n * (n + 1) / 2` times
/// what gravity gives in one substep. Over a frame of length `t`, where
/// gravity gives `g * (t / n)²` in a substep, that is `g * t² / 2` and one
/// `n`-th of it more.
pub proof fn lemma_free_fall_in_a_frame(
    b: BodyState,
    world: World,
    frame_delta: int,
    substeps: nat,
)
    requires
        b.valid(),
        b.at_rest(),
        substeps >= 1,
        ({
            let accel = substep_acceleration(
                world.gravity@,
                substep_duration(frame_delta, substeps as int),
            );
            &&& 2 * magnitude(b.position.x) + magnitude(accel.x) * substeps * (substeps + 1) <= 2
                * COORD_LIMIT
            &&& 2 * magnitude(b.position.y) + magnitude(accel.y) * substeps * (substeps + 1) <= 2
                * COORD_LIMIT
            &&& unhindered(b, accel, world.boundary, substeps)
        }),
    ensures
        ({
            let accel = substep_acceleration(
                world.gravity@,
                substep_duration(frame_delta, substeps as int),
            );
            let after = advanced(seq![b], world, frame_delta, substeps);
            &&& after.len() == 1
            &&& 2 * (after[0].position.x - b.position.x) == accel.x * substeps * (substeps + 1)
            &&& 2 * (after[0].position.y - b.position.y) == accel.y * substeps * (substeps + 1)
        }),
{
    let accel = substep_acceleration(
        world.gravity@,
        substep_duration(frame_delta, substeps as int),
    );
    lemma_free_fall_unhindered(b, accel, world.boundary, substeps);
}

/// The disk over a frame. Under the disk policy a body that is alone in its
/// store, and no larger than the disk, lies inside the disk after every frame
/// of at least one substep, up to two ticks of rounding.
pub proof fn lemma_lone_body_contained_in_a_frame(
    b: BodyState,
    gravity: Vec2,
    radius: i64,
    frame_delta: int,
    substeps: nat,
)
    requires
        b.valid(),
        b.radius <= radius,
        substeps >= 1,
    ensures
        ({
            let world = World { gravity, boundary: Boundary::Disk { radius } };
            let after = advanced(seq![b], world, frame_delta, substeps);
            after.len() == 1 && contained(after[0], radius as int, 2)
        }),
{
    let accel = substep_acceleration(gravity@, substep_duration(frame_delta, substeps as int));
    lemma_lone_body_contained(b, accel, radius, substeps);
}

} // verus!
