//! One pair of bodies: how its correction is split, and that it ends apart,
//! and no farther apart than its radii ask.
use crate::body::BodyState;
use crate::collision::{
    correction, distance, fine_length, lemma_correction_bounds, lemma_fine_length,
    lemma_length_dominates, lemma_resolve_apart, lemma_share_bounds, overlapping, push_of_first,
    push_of_second, resolve_pair, share, FINE,
};
use crate::scalar::{
    lemma_isqrt_is, lemma_isqrt_is_root, lemma_isqrt_monotone, lemma_isqrt_of_square,
    lemma_trunc_div_bounds, magnitude,
};
use crate::vector::Vector;
use vstd::prelude::*;

verus! {

/// Whether resolving the pair moves neither body to the edge of the world:
/// both bodies then move by exactly their part of the correction.
pub open spec fn room_to_resolve(a: BodyState, b: BodyState) -> bool {
    &&& a.position.minus(push_of_first(a, b)).in_world()
    &&& b.position.plus(push_of_second(a, b)).in_world()
}

/// Two bodies whose centres coincide are resolved like any other pair: they
/// are pushed apart along the x axis until their centres are exactly the sum
/// of their radii apart, and neither leaves its line.
pub proof fn lemma_coincident_pair_separates(a: BodyState, b: BodyState)
    requires
        a.valid(),
        b.valid(),
        a.position == b.position,
        room_to_resolve(a, b),
    ensures
        resolve_pair(a, b).1.position.x - resolve_pair(a, b).0.position.x == a.radius + b.radius,
        resolve_pair(a, b).0.position.y == a.position.y,
        resolve_pair(a, b).1.position.y == b.position.y,
        resolve_pair(a, b).0.position.x <= a.position.x,
        resolve_pair(a, b).1.position.x >= b.position.x,
        distance(resolve_pair(a, b).0, resolve_pair(a, b).1) == a.radius + b.radius,
{
    let diff = b.position.minus(a.position);
    let limit = a.radius + b.radius;
    assert(diff == Vector::zero());
    assert(diff.length_squared() == 0) by (nonlinear_arith)
        requires
            diff.x == 0,
            diff.y == 0,
            diff.length_squared() == diff.x * diff.x + diff.y * diff.y,
    ;
    lemma_isqrt_is(0, 0);
    assert(correction(diff, limit) == (Vector { x: limit, y: 0 }));
    lemma_share_bounds(limit, a.radius, b.radius);
    lemma_share_bounds(0, a.radius, b.radius);
    let after = resolve_pair(a, b);
    let gap = after.1.position.minus(after.0.position);
    assert(gap == (Vector { x: limit, y: 0 }));
    assert(gap.length_squared() == limit * limit) by (nonlinear_arith)
        requires
            gap.x == limit,
            gap.y == 0,
            gap.length_squared() == gap.x * gap.x + gap.y * gap.y,
    ;
    lemma_isqrt_of_square(limit);
}

/// The correction of a pair is split by mass, the square of the radius
/// standing for the mass. The second body takes the fraction
/// `ra² / (ra² + rb²)` of each component, exact to less than one tick, the
/// first body takes the rest, and the two parts add up to the correction. Where
/// there is room, each centre moves by exactly its part, the first against the
/// correction and the second along it, and the previous centres stay.
pub proof fn lemma_mass_weighted_split(a: BodyState, b: BodyState)
    requires
        a.valid(),
        b.valid(),
    ensures
        ({
            let w = correction(b.position.minus(a.position), a.radius + b.radius);
            let first = push_of_first(a, b);
            let second = push_of_second(a, b);
            let ma = a.radius * a.radius;
            let mb = b.radius * b.radius;
            &&& first.plus(second) == w
            &&& magnitude((ma + mb) * second.x - ma * w.x) < ma + mb
            &&& magnitude((ma + mb) * second.y - ma * w.y) < ma + mb
            &&& magnitude((ma + mb) * first.x - mb * w.x) < ma + mb
            &&& magnitude((ma + mb) * first.y - mb * w.y) < ma + mb
            &&& room_to_resolve(a, b) ==> {
                &&& resolve_pair(a, b).0 == a.moved_to(a.position.minus(first))
                &&& resolve_pair(a, b).1 == b.moved_to(b.position.plus(second))
            }
        }),
{
    let w = correction(b.position.minus(a.position), a.radius + b.radius);
    lemma_share_exact(w.x, a.radius, b.radius);
    lemma_share_exact(w.y, a.radius, b.radius);
}

/// The share of a push misses the exact fraction by less than one tick, and
/// so does what is left of the push.
pub proof fn lemma_share_exact(w: int, ra: int, rb: int)
    requires
        ra > 0,
        rb > 0,
    ensures
        magnitude((ra * ra + rb * rb) * share(w, ra, rb) - (ra * ra) * w) < ra * ra + rb * rb,
        magnitude((ra * ra + rb * rb) * (w - share(w, ra, rb)) - (rb * rb) * w) < ra * ra + rb
            * rb,
{
    let ma = ra * ra;
    let mb = rb * rb;
    let s = ma + mb;
    assert(ma > 0 && mb > 0) by (nonlinear_arith)
        requires
            ra > 0,
            rb > 0,
            ma == ra * ra,
            mb == rb * rb,
    ;
    let q = share(w, ra, rb);
    lemma_trunc_div_bounds(w * ma, s);
    assert(w * ma == ma * w) by (nonlinear_arith);
    assert(w >= 0 ==> w * ma >= 0) by (nonlinear_arith)
        requires
            ma > 0,
    ;
    assert(w <= 0 ==> w * ma <= 0) by (nonlinear_arith)
        requires
            ma > 0,
    ;
    assert(s * (w - q) - mb * w == -(s * q - ma * w)) by (nonlinear_arith)
        requires
            s == ma + mb,
    ;
}

/// Where two centres are apart but closer than `limit`, the correction points
/// along the line from the first to the second: each component has the sign of
/// the matching component of `diff` and is that component scaled by the depth
/// of the overlap over the length of `diff`, both measured in parts of a tick,
/// exact to less than one tick.
pub proof fn lemma_correction_along_normal(diff: Vector, limit: int)
    requires
        0 < diff.length() < limit,
    ensures
        ({
            let fine = fine_length(diff);
            let w = correction(diff, limit);
            &&& magnitude(fine * w.x - (limit * FINE - fine) * diff.x) < fine
            &&& magnitude(fine * w.y - (limit * FINE - fine) * diff.y) < fine
            &&& diff.x >= 0 ==> w.x >= 0 && fine * w.x <= (limit * FINE - fine) * diff.x
            &&& diff.x <= 0 ==> w.x <= 0 && fine * w.x >= (limit * FINE - fine) * diff.x
            &&& diff.y >= 0 ==> w.y >= 0 && fine * w.y <= (limit * FINE - fine) * diff.y
            &&& diff.y <= 0 ==> w.y <= 0 && fine * w.y >= (limit * FINE - fine) * diff.y
        }),
{
    lemma_fine_length(diff, limit);
    let fine = fine_length(diff);
    let pen = limit * FINE - fine;
    lemma_trunc_div_bounds(pen * diff.x, fine);
    lemma_trunc_div_bounds(pen * diff.y, fine);
    assert(diff.x >= 0 ==> pen * diff.x >= 0) by (nonlinear_arith)
        requires
            pen > 0,
    ;
    assert(diff.x <= 0 ==> pen * diff.x <= 0) by (nonlinear_arith)
        requires
            pen > 0,
    ;
    assert(diff.y >= 0 ==> pen * diff.y >= 0) by (nonlinear_arith)
        requires
            pen > 0,
    ;
    assert(diff.y <= 0 ==> pen * diff.y <= 0) by (nonlinear_arith)
        requires
            pen > 0,
    ;
}

/// One component of a gap after its correction has been added, where `fine`
/// is the fine length of the gap and `reach` the fine length that it should
/// have: it is the old component scaled by `reach / fine`, or up to one tick
/// less.
proof fn lemma_component_grows(c: int, w: int, fine: int, reach: int)
    requires
        0 < fine < reach,
        magnitude(fine * w - (reach - fine) * c) < fine,
        c >= 0 ==> w >= 0 && fine * w <= (reach - fine) * c,
        c <= 0 ==> w <= 0 && fine * w >= (reach - fine) * c,
    ensures
        fine * (magnitude(c + w) + 1) >= reach * magnitude(c),
        fine * magnitude(c + w) <= reach * magnitude(c),
        magnitude(c + w) >= magnitude(c),
{
    let u = magnitude(c);
    let g = magnitude(c + w);
    let pc = (reach - fine) * c;
    let fw = fine * w;
    assert(fine * (c + w) == fine * c + fw && pc == reach * c - fine * c) by (nonlinear_arith)
        requires
            fw == fine * w,
            pc == (reach - fine) * c,
    ;
    assert(reach * (-c) == -(reach * c) && fine * (-(c + w)) == -(fine * (c + w)) && fine * (g + 1)
        == fine * g + fine) by (nonlinear_arith);
}

/// Two non-negative numbers whose successors have squares that add up to at
/// least `limit²` have squares that add up to at least `(limit - 2)²`.
proof fn lemma_squares_near(g: int, h: int, limit: int)
    requires
        g >= 0,
        h >= 0,
        limit >= 2,
        (g + 1) * (g + 1) + (h + 1) * (h + 1) >= limit * limit,
    ensures
        g * g + h * h >= (limit - 2) * (limit - 2),
{
    let m = limit - 2;
    let n = g * g + h * h;
    if n < m * m {
        assert((g + 1) * (g + 1) + (h + 1) * (h + 1) == n + 2 * (g + h) + 2) by (nonlinear_arith)
            requires
                n == g * g + h * h,
        ;
        assert(limit * limit == m * m + 4 * m + 4) by (nonlinear_arith)
            requires
                m == limit - 2,
        ;
        assert(g + h >= 2 * m + 2);
        assert((g + h) * (g + h) >= (2 * m + 2) * (2 * m + 2)) by (nonlinear_arith)
            requires
                g + h >= 2 * m + 2,
                m >= 0,
        ;
        assert((g + h) * (g + h) <= 2 * n) by (nonlinear_arith)
            requires
                n == g * g + h * h,
        ;
        assert((2 * m + 2) * (2 * m + 2) > 2 * (m * m)) by (nonlinear_arith)
            requires
                m >= 0,
        ;
        assert(false);
    }
}

/// A number whose square is below that of `limit * (fine + 1) / fine`, where
/// `fine` is `FINE` or more, is at most `limit + limit / FINE`.
proof fn lemma_not_overshot(r: int, fine: int, limit: int)
    requires
        r >= 0,
        limit > 0,
        fine >= FINE,
        (fine * fine) * (r * r) < (limit * limit) * ((fine + 1) * (fine + 1)),
    ensures
        r <= limit + limit / (FINE as int),
{
    let f = FINE as int;
    let e = limit / f;
    if r > limit + e {
        let fr = fine * r;
        let lf = limit * (fine + 1);
        assert(fr * fr == (fine * fine) * (r * r) && lf * lf == (limit * limit) * ((fine + 1) * (
            fine + 1))) by (nonlinear_arith)
            requires
                fr == fine * r,
                lf == limit * (fine + 1),
        ;
        if fr >= lf {
            assert(fr * fr >= lf * lf) by (nonlinear_arith)
                requires
                    fr >= lf,
                    lf >= 0,
            ;
        }
        assert(lf >= 0) by (nonlinear_arith)
            requires
                lf == limit * (fine + 1),
                limit > 0,
                fine > 0,
        ;
        assert(fr < lf);
        assert(limit < f * (e + 1)) by (nonlinear_arith)
            requires
                e == limit / f,
                f > 0,
                limit > 0,
        ;
        assert(fine * r >= fine * limit + f * (e + 1)) by (nonlinear_arith)
            requires
                r >= limit + e + 1,
                fine >= f,
                f > 0,
                e >= 0,
        ;
        assert(e >= 0) by (nonlinear_arith)
            requires
                e == limit / f,
                f > 0,
                limit > 0,
        ;
        assert(lf == fine * limit + limit) by (nonlinear_arith)
            requires
                lf == limit * (fine + 1),
        ;
        assert(false);
    }
}

/// A gap that is shorter than `limit` but not zero is, after its correction
/// has been added, `limit` long: at least `limit - 2`, for the rounding of
/// its components, and at most `limit` and one part in `FINE` of it, for the
/// rounding of its length. No component of it has shrunk.
pub proof fn lemma_corrected_gap(diff: Vector, limit: int)
    requires
        0 < diff.length() < limit,
    ensures
        diff.plus(correction(diff, limit)).length() >= limit - 2,
        diff.plus(correction(diff, limit)).length() <= limit + limit / (FINE as int),
        magnitude(diff.x + correction(diff, limit).x) >= magnitude(diff.x),
        magnitude(diff.y + correction(diff, limit).y) >= magnitude(diff.y),
{
    let f = FINE as int;
    let fine = fine_length(diff);
    let reach = limit * f;
    let w = correction(diff, limit);
    let gap = diff.plus(w);
    lemma_fine_length(diff, limit);
    lemma_correction_along_normal(diff, limit);
    lemma_component_grows(diff.x, w.x, fine, reach);
    lemma_component_grows(diff.y, w.y, fine, reach);
    lemma_length_dominates(gap);
    lemma_isqrt_is_root(gap.length_squared());
    let u = magnitude(diff.x);
    let v = magnitude(diff.y);
    let g = magnitude(gap.x);
    let h = magnitude(gap.y);
    let n = diff.length_squared();
    let m = gap.length_squared();
    assert(u * u + v * v == n && g * g + h * h == m) by (nonlinear_arith)
        requires
            u == diff.x || u == -diff.x,
            v == diff.y || v == -diff.y,
            g == gap.x || g == -gap.x,
            h == gap.y || h == -gap.y,
            n == diff.x * diff.x + diff.y * diff.y,
            m == gap.x * gap.x + gap.y * gap.y,
    ;
    let ru = reach * u;
    let rv = reach * v;
    assert(ru >= 0 && rv >= 0) by (nonlinear_arith)
        requires
            ru == reach * u,
            rv == reach * v,
            reach > 0,
            u >= 0,
            v >= 0,
    ;
    let ll = limit * limit;
    let rr = reach * reach;
    assert(ru * ru == rr * (u * u) && rv * rv == rr * (v * v)) by (nonlinear_arith)
        requires
            ru == reach * u,
            rv == reach * v,
            rr == reach * reach,
    ;
    assert(rr == ll * (f * f)) by (nonlinear_arith)
        requires
            rr == reach * reach,
            reach == limit * f,
            ll == limit * limit,
    ;
    assert(rr * (u * u) + rr * (v * v) == rr * n) by (nonlinear_arith)
        requires
            n == u * u + v * v,
    ;
    assert(rr * n == ll * (n * (f * f))) by (nonlinear_arith)
        requires
            rr == ll * (f * f),
    ;
    assert(ru * ru + rv * rv == ll * (n * (f * f)));
    assert(ll > 0) by (nonlinear_arith)
        requires
            ll == limit * limit,
            limit > 0,
    ;
    // From below.
    if limit >= 2 {
        let p = fine * (g + 1);
        let q = fine * (h + 1);
        assert(p * p + q * q >= ru * ru + rv * rv) by (nonlinear_arith)
            requires
                p >= ru,
                q >= rv,
                ru >= 0,
                rv >= 0,
        ;
        let t = (g + 1) * (g + 1) + (h + 1) * (h + 1);
        assert(p * p + q * q == (fine * fine) * t) by (nonlinear_arith)
            requires
                p == fine * (g + 1),
                q == fine * (h + 1),
                t == (g + 1) * (g + 1) + (h + 1) * (h + 1),
        ;
        assert(ll * (n * (f * f)) >= ll * (fine * fine)) by (nonlinear_arith)
            requires
                n * (f * f) >= fine * fine,
                ll > 0,
        ;
        assert(t >= ll) by (nonlinear_arith)
            requires
                (fine * fine) * t >= ll * (fine * fine),
                fine > 0,
        ;
        lemma_squares_near(g, h, limit);
        lemma_isqrt_monotone((limit - 2) * (limit - 2), m);
        lemma_isqrt_of_square(limit - 2);
    }
    // From above.
    let p = fine * g;
    let q = fine * h;
    assert(p >= 0 && q >= 0) by (nonlinear_arith)
        requires
            p == fine * g,
            q == fine * h,
            fine > 0,
            g >= 0,
            h >= 0,
    ;
    assert(p * p + q * q <= ru * ru + rv * rv) by (nonlinear_arith)
        requires
            0 <= p <= ru,
            0 <= q <= rv,
    ;
    assert(p * p + q * q == (fine * fine) * m) by (nonlinear_arith)
        requires
            p == fine * g,
            q == fine * h,
            m == g * g + h * h,
    ;
    assert(ll * (n * (f * f)) < ll * ((fine + 1) * (fine + 1))) by (nonlinear_arith)
        requires
            n * (f * f) < (fine + 1) * (fine + 1),
            ll > 0,
    ;
    let r = gap.length();
    assert((fine * fine) * (r * r) <= (fine * fine) * m) by (nonlinear_arith)
        requires
            r * r <= m,
    ;
    lemma_not_overshot(r, fine, limit);
}

/// Resolving a pair leaves it apart, and no farther apart than it has to be.
/// Whatever the two bodies, and however deep their overlap, the distance of
/// their centres afterwards is the sum of their radii or more, up to two ticks
/// of rounding; and where they did overlap, it is the sum of their radii or
/// less, up to one part in `FINE` of that sum. This holds wherever there was
/// room to move the bodies.
pub proof fn lemma_pair_separated(a: BodyState, b: BodyState)
    requires
        a.valid(),
        b.valid(),
        room_to_resolve(a, b),
    ensures
        distance(resolve_pair(a, b).0, resolve_pair(a, b).1) >= a.radius + b.radius - 2,
        overlapping(a, b) ==> distance(resolve_pair(a, b).0, resolve_pair(a, b).1) <= a.radius
            + b.radius + (a.radius + b.radius) / (FINE as int),
        !overlapping(a, b) ==> resolve_pair(a, b) == (a, b),
{
    let diff = b.position.minus(a.position);
    let limit = a.radius + b.radius;
    let d = diff.length();
    lemma_length_dominates(diff);
    lemma_isqrt_is_root(diff.length_squared());
    lemma_mass_weighted_split(a, b);
    if d >= limit {
        lemma_resolve_apart(a, b);
    } else if d == 0 {
        assert(diff.x == 0 && diff.y == 0);
        assert(a.position == b.position);
        lemma_coincident_pair_separates(a, b);
        assert(limit / (FINE as int) >= 0) by (nonlinear_arith)
            requires
                limit > 0,
                FINE > 0,
        ;
    } else {
        lemma_corrected_gap(diff, limit);
        let after = resolve_pair(a, b);
        assert(after.1.position.minus(after.0.position) == diff.plus(correction(diff, limit)));
    }
}

/// The two pushes of a pair point the same way as the gap between the bodies,
/// axis by axis, so that the bodies, of which the first moves against its push
/// and the second along it, move away from each other; and no push is longer
/// along an axis than the sum of the radii.
pub proof fn lemma_pushes_point_apart(a: BodyState, b: BodyState)
    requires
        a.valid(),
        b.valid(),
    ensures
        ({
            let diff = b.position.minus(a.position);
            let limit = a.radius + b.radius;
            let first = push_of_first(a, b);
            let second = push_of_second(a, b);
            &&& magnitude(first.x) <= limit
            &&& magnitude(first.y) <= limit
            &&& magnitude(second.x) <= limit
            &&& magnitude(second.y) <= limit
            &&& diff.x >= 0 ==> first.x >= 0 && second.x >= 0
            &&& diff.x < 0 ==> first.x <= 0 && second.x <= 0
            &&& diff.y >= 0 ==> first.y >= 0 && second.y >= 0
            &&& diff.y < 0 ==> first.y <= 0 && second.y <= 0
        }),
{
    let diff = b.position.minus(a.position);
    let limit = a.radius + b.radius;
    let w = correction(diff, limit);
    lemma_correction_bounds(diff, limit);
    lemma_share_bounds(w.x, a.radius, b.radius);
    lemma_share_bounds(w.y, a.radius, b.radius);
    lemma_length_dominates(diff);
    lemma_isqrt_is_root(diff.length_squared());
    if 0 < diff.length() < limit {
        lemma_correction_along_normal(diff, limit);
    }
}

} // verus!
