//! Two bodies that overlap come apart and stay apart.
//!
//! This is stated for bodies on which nothing acts but each other: gravity is
//! off, and the boundary, if there is one, is out of their reach.
use crate::body::BodyState;
use crate::boundary::{constrain, Boundary};
use crate::collision::{distance, push_of_first, push_of_second, resolve_pair};
use crate::integrator::integrate;
use crate::laws::boundary::{lemma_disk_lets_be, lets_be};
use crate::laws::pairs::{
    lemma_mass_weighted_split, lemma_pair_separated, lemma_pushes_point_apart, room_to_resolve,
};
use crate::scalar::{lemma_isqrt_monotone, magnitude, COORD_LIMIT, ONE};
use crate::scheduler::{
    advanced, move_all, run, substep, substep_acceleration, substep_duration, World,
};
use crate::sweep::{resolve_at, sweep, sweep_first, sweep_one};
use crate::vector::{Vec2, Vector};
use vstd::prelude::*;

verus! {

/// Whether, along one axis, two bodies move away from each other or not at
/// all: `gap` is the coordinate of the second less that of the first, and
/// `first` and `second` are their velocities.
pub open spec fn receding(gap: int, first: int, second: int) -> bool {
    (gap >= 0 && first <= 0 && second >= 0) || (gap <= 0 && first >= 0 && second <= 0)
}

/// Whether `a` and `b` recede from each other along both axes.
pub open spec fn pair_receding(a: BodyState, b: BodyState) -> bool {
    &&& receding(b.position.x - a.position.x, a.velocity().x, b.velocity().x)
    &&& receding(b.position.y - a.position.y, a.velocity().y, b.velocity().y)
}

/// Whether a body is within `reach` of where it was, `was`, and no faster
/// than `speed` along either axis.
pub open spec fn within(b: BodyState, was: BodyState, reach: int, speed: int) -> bool {
    &&& b.radius == was.radius
    &&& magnitude(b.position.x) <= magnitude(was.position.x) + reach
    &&& magnitude(b.position.y) <= magnitude(was.position.y) + reach
    &&& magnitude(b.velocity().x) <= speed
    &&& magnitude(b.velocity().y) <= speed
}

/// Whether a body that moves for `k` substeps, gaining up to `limit` of speed
/// in each, stays inside the world.
pub open spec fn has_room(b: BodyState, limit: int, k: int) -> bool {
    &&& magnitude(b.position.x) + limit * (k * k) <= COORD_LIMIT
    &&& magnitude(b.position.y) + limit * (k * k) <= COORD_LIMIT
}

/// Whether the boundary leaves alone every body of the radius of `was` that is
/// within `reach` of where `was` is, along both axes.
pub open spec fn leaves_room(boundary: Boundary, was: BodyState, reach: int) -> bool {
    forall|s: BodyState|
        #![trigger constrain(s, boundary)]
        s.radius == was.radius && magnitude(s.position.x) <= magnitude(was.position.x) + reach
            && magnitude(s.position.y) <= magnitude(was.position.y) + reach ==> lets_be(
            boundary,
            s,
        )
}

/// No boundary leaves room without end.
pub proof fn lemma_unbounded_leaves_room(was: BodyState, reach: int)
    ensures
        leaves_room(Boundary::Unbounded, was, reach),
{
}

/// A disk leaves room as far as a body can go, measured along the axes,
/// without reaching the rim.
pub proof fn lemma_disk_leaves_room(radius: i64, was: BodyState, reach: int)
    requires
        magnitude(was.position.x) + magnitude(was.position.y) + 2 * reach + was.radius <= radius,
    ensures
        leaves_room(Boundary::Disk { radius }, was, reach),
{
    let boundary = Boundary::Disk { radius };
    assert forall|s: BodyState|
        #![trigger constrain(s, boundary)]
        s.radius == was.radius && magnitude(s.position.x) <= magnitude(was.position.x) + reach
            && magnitude(s.position.y) <= magnitude(was.position.y) + reach implies lets_be(
        boundary,
        s,
    ) by {
        lemma_disk_lets_be(s, radius);
    }
}

/// A boundary that leaves room leaves the room that lies within it.
pub proof fn lemma_leaves_less_room(boundary: Boundary, was: BodyState, less: int, reach: int)
    requires
        less <= reach,
        leaves_room(boundary, was, reach),
    ensures
        leaves_room(boundary, was, less),
{
}

/// A sweep over two bodies resolves their one pair.
pub proof fn lemma_sweep_of_two(a: BodyState, b: BodyState)
    ensures
        sweep(seq![a, b]) == seq![resolve_pair(a, b).0, resolve_pair(a, b).1],
{
    let s = seq![a, b];
    assert(sweep_first(s, 0) == s);
    assert(sweep_one(s, 0, 1) == s);
    assert(sweep_one(s, 0, 2) == resolve_at(s, 0, 1));
    assert(sweep_first(s, 1) == resolve_at(s, 0, 1));
    let t = resolve_at(s, 0, 1);
    assert(t.len() == 2);
    assert(sweep_one(t, 1, 2) == t);
    assert(sweep_first(s, 2) == t);
    assert(t =~= seq![resolve_pair(a, b).0, resolve_pair(a, b).1]);
}

/// One substep of two bodies on which nothing acts but each other.
pub proof fn lemma_substep_of_two(a: BodyState, b: BodyState, boundary: Boundary)
    requires
        lets_be(boundary, integrate(a, Vector::zero())),
        lets_be(boundary, integrate(b, Vector::zero())),
    ensures
        substep(seq![a, b], Vector::zero(), boundary) == seq![
            resolve_pair(integrate(a, Vector::zero()), integrate(b, Vector::zero())).0,
            resolve_pair(integrate(a, Vector::zero()), integrate(b, Vector::zero())).1,
        ],
{
    let zero = Vector::zero();
    let m = move_all(seq![a, b], zero, boundary);
    assert(m =~= seq![integrate(a, zero), integrate(b, zero)]);
    lemma_sweep_of_two(integrate(a, zero), integrate(b, zero));
}

/// Along one axis: bodies that recede, and are then pushed apart along the
/// gap between them, recede still, and the gap has not shrunk.
proof fn lemma_axis_recedes(gap: int, va: int, vb: int, first: int, second: int)
    requires
        receding(gap, va, vb),
        gap + vb - va >= 0 ==> first >= 0 && second >= 0,
        gap + vb - va < 0 ==> first <= 0 && second <= 0,
    ensures
        receding(gap + vb - va + first + second, va - first, vb + second),
        magnitude(gap + vb - va + first + second) >= magnitude(gap),
{
}

/// Along one axis: a body that was within `reach` of a place and no faster
/// than `speed`, and is then moved by its velocity and a push of at most
/// `limit`, is within `reach + speed + limit` and no faster than
/// `speed + limit`.
proof fn lemma_axis_within(p: int, v: int, push: int, was: int, reach: int, speed: int, limit: int)
    requires
        magnitude(p) <= magnitude(was) + reach,
        magnitude(v) <= speed,
        magnitude(push) <= limit,
    ensures
        magnitude(p + v) <= magnitude(was) + reach + speed,
        magnitude(p + v + push) <= magnitude(was) + reach + speed + limit,
        magnitude(v + push) <= speed + limit,
{
}

/// The step of the induction: two valid bodies that recede from each other,
/// with room to move, recede after one more substep, are then apart but for
/// two ticks of rounding, and no closer than they were.
pub proof fn lemma_receding_step(
    a: BodyState,
    b: BodyState,
    boundary: Boundary,
    was_a: BodyState,
    was_b: BodyState,
    reach: int,
    speed: int,
)
    requires
        leaves_room(boundary, was_a, reach + speed),
        leaves_room(boundary, was_b, reach + speed),
        a.valid(),
        b.valid(),
        was_a.valid(),
        was_b.valid(),
        pair_receding(a, b),
        reach >= 0,
        speed >= 0,
        within(a, was_a, reach, speed),
        within(b, was_b, reach, speed),
        magnitude(was_a.position.x) + reach + speed + was_a.radius + was_b.radius <= COORD_LIMIT,
        magnitude(was_a.position.y) + reach + speed + was_a.radius + was_b.radius <= COORD_LIMIT,
        magnitude(was_b.position.x) + reach + speed + was_a.radius + was_b.radius <= COORD_LIMIT,
        magnitude(was_b.position.y) + reach + speed + was_a.radius + was_b.radius <= COORD_LIMIT,
    ensures
        ({
            let next = substep(seq![a, b], Vector::zero(), boundary);
            let limit = a.radius + b.radius;
            &&& next.len() == 2
            &&& next[0].valid()
            &&& next[1].valid()
            &&& pair_receding(next[0], next[1])
            &&& within(next[0], was_a, reach + speed + limit, speed + limit)
            &&& within(next[1], was_b, reach + speed + limit, speed + limit)
            &&& distance(next[0], next[1]) >= limit - 2
            &&& distance(next[0], next[1]) >= distance(a, b)
        }),
{
    let zero = Vector::zero();
    let limit = a.radius + b.radius;
    let ma = integrate(a, zero);
    let mb = integrate(b, zero);
    let first = push_of_first(ma, mb);
    let second = push_of_second(ma, mb);
    let va = a.velocity();
    let vb = b.velocity();
    // The bodies after the Verlet step.
    lemma_axis_within(a.position.x, va.x, 0, was_a.position.x, reach, speed, limit);
    lemma_axis_within(a.position.y, va.y, 0, was_a.position.y, reach, speed, limit);
    lemma_axis_within(b.position.x, vb.x, 0, was_b.position.x, reach, speed, limit);
    lemma_axis_within(b.position.y, vb.y, 0, was_b.position.y, reach, speed, limit);
    assert(ma == (BodyState { position: a.position.plus(va), previous: a.position, ..a }));
    assert(mb == (BodyState { position: b.position.plus(vb), previous: b.position, ..b }));
    assert(ma.valid() && mb.valid());
    // Their pushes.
    lemma_pushes_point_apart(ma, mb);
    lemma_axis_within(a.position.x, va.x, -first.x, was_a.position.x, reach, speed, limit);
    lemma_axis_within(a.position.y, va.y, -first.y, was_a.position.y, reach, speed, limit);
    lemma_axis_within(b.position.x, vb.x, second.x, was_b.position.x, reach, speed, limit);
    lemma_axis_within(b.position.y, vb.y, second.y, was_b.position.y, reach, speed, limit);
    assert(room_to_resolve(ma, mb));
    lemma_mass_weighted_split(ma, mb);
    lemma_pair_separated(ma, mb);
    let na = resolve_pair(ma, mb).0;
    let nb = resolve_pair(ma, mb).1;
    assert(na == ma.moved_to(ma.position.minus(first)));
    assert(nb == mb.moved_to(mb.position.plus(second)));
    assert(lets_be(boundary, ma) && lets_be(boundary, mb));
    lemma_substep_of_two(a, b, boundary);
    let next = substep(seq![a, b], zero, boundary);
    assert(next[0] == na && next[1] == nb);
    // Axis by axis.
    lemma_axis_recedes(b.position.x - a.position.x, va.x, vb.x, first.x, second.x);
    lemma_axis_recedes(b.position.y - a.position.y, va.y, vb.y, first.y, second.y);
    assert(pair_receding(na, nb));
    assert(within(na, was_a, reach + speed + limit, speed + limit));
    assert(within(nb, was_b, reach + speed + limit, speed + limit));
    lemma_longer(b.position.minus(a.position), nb.position.minus(na.position));
}

/// A vector that is at least as long as another along both axes is at least
/// as long.
pub proof fn lemma_longer(short: Vector, long: Vector)
    requires
        magnitude(long.x) >= magnitude(short.x),
        magnitude(long.y) >= magnitude(short.y),
    ensures
        long.length() >= short.length(),
{
    let a = magnitude(short.x);
    let b = magnitude(short.y);
    let c = magnitude(long.x);
    let d = magnitude(long.y);
    assert(short.length_squared() == a * a + b * b && long.length_squared() == c * c + d * d && a
        * a + b * b <= c * c + d * d && 0 <= a * a + b * b) by (nonlinear_arith)
        requires
            a == short.x || a == -short.x,
            b == short.y || b == -short.y,
            c == long.x || c == -long.x,
            d == long.y || d == -long.y,
            0 <= a <= c,
            0 <= b <= d,
            short.length_squared() == short.x * short.x + short.y * short.y,
            long.length_squared() == long.x * long.x + long.y * long.y,
    ;
    lemma_isqrt_monotone(short.length_squared(), long.length_squared());
}

/// What holds of a pair after `k` substeps on its own: both bodies are valid,
/// they recede from each other, and neither has gone farther or become faster
/// than `k` corrections allow.
pub open spec fn settled(s: Seq<BodyState>, a: BodyState, b: BodyState, k: int) -> bool {
    let limit = a.radius + b.radius;
    &&& s.len() == 2
    &&& s[0].valid()
    &&& s[1].valid()
    &&& pair_receding(s[0], s[1])
    &&& within(s[0], a, limit * (k * k), limit * k)
    &&& within(s[1], b, limit * (k * k), limit * k)
}

/// Two bodies that start at rest, with nothing acting on them but each other,
/// are apart after the first substep, whether they overlapped, touched or
/// coincided, and stay apart: after every substep the distance of their
/// centres is the sum of their radii or more, up to two ticks of rounding, and
/// it never shrinks. This holds for as many substeps as the bodies have room
/// for, in the world and inside the boundary.
pub proof fn lemma_pair_stays_apart(a: BodyState, b: BodyState, boundary: Boundary, k: nat)
    requires
        a.valid(),
        b.valid(),
        a.at_rest(),
        b.at_rest(),
        has_room(a, a.radius + b.radius, k as int),
        has_room(b, a.radius + b.radius, k as int),
        leaves_room(boundary, a, (a.radius + b.radius) * (k * k)),
        leaves_room(boundary, b, (a.radius + b.radius) * (k * k)),
    ensures
        settled(run(seq![a, b], Vector::zero(), boundary, k), a, b, k as int),
        k >= 1 ==> distance(
            run(seq![a, b], Vector::zero(), boundary, k)[0],
            run(seq![a, b], Vector::zero(), boundary, k)[1],
        ) >= a.radius + b.radius - 2,
        k >= 1 ==> distance(
            run(seq![a, b], Vector::zero(), boundary, k)[0],
            run(seq![a, b], Vector::zero(), boundary, k)[1],
        ) >= distance(
            run(seq![a, b], Vector::zero(), boundary, (k - 1) as nat)[0],
            run(seq![a, b], Vector::zero(), boundary, (k - 1) as nat)[1],
        ),
    decreases k,
{
    let zero = Vector::zero();
    let limit = a.radius + b.radius;
    if k == 0 {
        assert(limit * (0 * 0) == 0 && limit * 0 == 0) by (nonlinear_arith);
    } else {
        let j = (k - 1) as nat;
        let kk = k as int;
        let jj = j as int;
        assert(limit * (jj * jj) >= 0 && limit * jj >= 0 && limit * (jj * jj) + limit * jj + limit
            <= limit * (kk * kk) && limit * jj + limit == limit * kk) by (nonlinear_arith)
            requires
                limit > 0,
                jj >= 0,
                kk == jj + 1,
        ;
        lemma_leaves_less_room(boundary, a, limit * (jj * jj), limit * (kk * kk));
        lemma_leaves_less_room(boundary, b, limit * (jj * jj), limit * (kk * kk));
        lemma_leaves_less_room(boundary, a, limit * (jj * jj) + limit * jj, limit * (kk * kk));
        lemma_leaves_less_room(boundary, b, limit * (jj * jj) + limit * jj, limit * (kk * kk));
        lemma_pair_stays_apart(a, b, boundary, j);
        let s = run(seq![a, b], zero, boundary, j);
        assert(s =~= seq![s[0], s[1]]);
        lemma_receding_step(s[0], s[1], boundary, a, b, limit * (jj * jj), limit * jj);
    }
}

/// Two bodies over a frame. With gravity off, two bodies that start at rest
/// are apart after a frame of at least one substep, up to two ticks of
/// rounding, whatever the frame's length, as long as they have room in the
/// world and inside the boundary.
pub proof fn lemma_pair_stays_apart_in_a_frame(
    a: BodyState,
    b: BodyState,
    boundary: Boundary,
    frame_delta: int,
    substeps: nat,
)
    requires
        a.valid(),
        b.valid(),
        a.at_rest(),
        b.at_rest(),
        substeps >= 1,
        has_room(a, a.radius + b.radius, substeps as int),
        has_room(b, a.radius + b.radius, substeps as int),
        leaves_room(boundary, a, (a.radius + b.radius) * (substeps * substeps)),
        leaves_room(boundary, b, (a.radius + b.radius) * (substeps * substeps)),
    ensures
        ({
            let world = World { gravity: Vec2 { x: 0, y: 0 }, boundary };
            let after = advanced(seq![a, b], world, frame_delta, substeps);
            after.len() == 2 && distance(after[0], after[1]) >= a.radius + b.radius - 2
        }),
{
    let dt = substep_duration(frame_delta, substeps as int);
    let gravity = Vec2 { x: 0, y: 0 };
    assert(substep_acceleration(gravity@, dt) == Vector::zero()) by {
        assert(0 * (dt * dt) == 0) by (nonlinear_arith);
        assert((ONE as int) * (ONE as int) == 18446744073709551616) by (nonlinear_arith)
            requires
                ONE == 4294967296,
        ;
    }
    lemma_pair_stays_apart(a, b, boundary, substeps);
}

} // verus!
