//! Pairwise overlap resolution.
//!
//! Two bodies overlap where their centres are closer than the sum of their
//! radii. Resolving a pair pushes the centres apart along the line that joins
//! them, by the depth of the overlap; the push is split between the two in
//! proportion to the squares of the radii, so that the larger body moves less.
//! Centres that coincide are pushed apart along the x axis.
//!
//! The direction of the push is the gap over its length. A length rounded to
//! a whole tick would be too coarse for centres that are a few ticks apart, so
//! the length is measured in parts of a tick, `FINE` to the tick.
use crate::body::{Body, BodyState};
use crate::scalar::{
    div_toward_zero, integer_sqrt, isqrt, lemma_isqrt_is_root, lemma_isqrt_monotone,
    lemma_isqrt_of_square, lemma_trunc_div_bounds, lemma_trunc_div_magnitude, magnitude,
    saturating_coord, trunc_div, RADIUS_LIMIT,
};
use crate::vector::{Vec2, Vector};
use vstd::prelude::*;

verus! {

/// The distance between the centres of `a` and `b`, rounded down to a tick.
pub open spec fn distance(a: BodyState, b: BodyState) -> int {
    b.position.minus(a.position).length()
}

/// Whether the two bodies overlap.
pub open spec fn overlapping(a: BodyState, b: BodyState) -> bool {
    distance(a, b) < a.radius + b.radius
}

/// The number of parts into which a tick is divided where the length of a gap
/// is measured for a correction: two to the power of 22.
pub const FINE: i64 = 4194304;

/// The length of `diff` in parts of a tick, `FINE` to the tick, rounded down.
pub open spec fn fine_length(diff: Vector) -> int {
    isqrt(diff.length_squared() * (FINE * FINE))
}

/// The displacement that takes two centres, `diff` apart, to the distance
/// `limit`: `diff` scaled by the depth of the overlap over the length of
/// `diff`, both in parts of a tick, each component rounded toward zero. It is
/// zero where the centres are `limit` apart or more, and `limit` along the x
/// axis where they coincide.
pub open spec fn correction(diff: Vector, limit: int) -> Vector {
    let d = diff.length();
    let fine = fine_length(diff);
    if d >= limit {
        Vector::zero()
    } else if d == 0 {
        Vector { x: limit, y: 0 }
    } else {
        Vector {
            x: trunc_div((limit * FINE - fine) * diff.x, fine),
            y: trunc_div((limit * FINE - fine) * diff.y, fine),
        }
    }
}

/// The part of the push `w` taken by the second body of a pair with radii
/// `ra` and `rb`: the fraction `ra² / (ra² + rb²)` of it, rounded toward zero.
pub open spec fn share(w: int, ra: int, rb: int) -> int {
    trunc_div(w * (ra * ra), ra * ra + rb * rb)
}

/// The displacement of the second body of the pair.
pub open spec fn push_of_second(a: BodyState, b: BodyState) -> Vector {
    let w = correction(b.position.minus(a.position), a.radius + b.radius);
    Vector { x: share(w.x, a.radius, b.radius), y: share(w.y, a.radius, b.radius) }
}

/// The displacement of the first body of the pair, before it is reversed: what
/// is left of the correction once the second body has taken its share.
pub open spec fn push_of_first(a: BodyState, b: BodyState) -> Vector {
    correction(b.position.minus(a.position), a.radius + b.radius).minus(push_of_second(a, b))
}

/// The pair after resolution. The first body moves against the correction and
/// the second along it; the previous centres stay.
pub open spec fn resolve_pair(a: BodyState, b: BodyState) -> (BodyState, BodyState) {
    (
        a.moved_to(a.position.minus(push_of_first(a, b)).saturated()),
        b.moved_to(b.position.plus(push_of_second(a, b)).saturated()),
    )
}

/// A distance is no shorter than either of its components.
pub proof fn lemma_length_dominates(v: Vector)
    ensures
        v.length() >= magnitude(v.x),
        v.length() >= magnitude(v.y),
        v.length_squared() >= 0,
{
    let xx = v.x * v.x;
    let yy = v.y * v.y;
    assert(xx >= 0 && yy >= 0) by (nonlinear_arith)
        requires
            xx == v.x * v.x,
            yy == v.y * v.y,
    ;
    lemma_isqrt_monotone(xx, xx + yy);
    lemma_isqrt_monotone(yy, xx + yy);
    lemma_isqrt_of_square(v.x);
    lemma_isqrt_of_square(v.y);
}

/// The fine length of a gap that is shorter than `limit` but not zero: it is
/// `FINE` or more and less than `limit * FINE`; it is the integer square root
/// that it is said to be; and no component of the gap, in parts of a tick,
/// exceeds it.
pub proof fn lemma_fine_length(diff: Vector, limit: int)
    requires
        0 < diff.length() < limit,
    ensures
        FINE <= fine_length(diff) < limit * FINE,
        fine_length(diff) * fine_length(diff) <= diff.length_squared() * (FINE * FINE),
        diff.length_squared() * (FINE * FINE) < (fine_length(diff) + 1) * (fine_length(diff) + 1),
        FINE * magnitude(diff.x) <= fine_length(diff),
        FINE * magnitude(diff.y) <= fine_length(diff),
        0 < diff.length_squared() < limit * limit,
{
    let n = diff.length_squared();
    let d = diff.length();
    let f = FINE as int;
    let fine = fine_length(diff);
    lemma_length_dominates(diff);
    lemma_isqrt_is_root(n);
    assert(0 < n < limit * limit) by (nonlinear_arith)
        requires
            0 < d < limit,
            d * d <= n < (d + 1) * (d + 1),
    ;
    assert(n * (f * f) >= f * f && n * (f * f) < (limit * f) * (limit * f)) by (nonlinear_arith)
        requires
            0 < n < limit * limit,
            f > 0,
    ;
    lemma_isqrt_is_root(n * (f * f));
    lemma_isqrt_monotone(f * f, n * (f * f));
    lemma_isqrt_of_square(f);
    if fine >= limit * f {
        assert(fine * fine >= (limit * f) * (limit * f)) by (nonlinear_arith)
            requires
                fine >= limit * f,
                limit * f > 0,
        ;
    }
    let u = magnitude(diff.x);
    let v = magnitude(diff.y);
    assert((f * u) * (f * u) <= n * (f * f) && (f * v) * (f * v) <= n * (f * f) && f * u >= 0 && f
        * v >= 0) by (nonlinear_arith)
        requires
            n == diff.x * diff.x + diff.y * diff.y,
            u == diff.x || u == -diff.x,
            v == diff.y || v == -diff.y,
            u >= 0,
            v >= 0,
            f > 0,
    ;
    if f * u > fine {
        assert((f * u) * (f * u) >= (fine + 1) * (fine + 1)) by (nonlinear_arith)
            requires
                f * u >= fine + 1,
                fine >= 0,
        ;
    }
    if f * v > fine {
        assert((f * v) * (f * v) >= (fine + 1) * (fine + 1)) by (nonlinear_arith)
            requires
                f * v >= fine + 1,
                fine >= 0,
        ;
    }
}

/// No component of the correction exceeds `limit` in magnitude, and there is
/// no correction where the centres are `limit` apart or more.
pub proof fn lemma_correction_bounds(diff: Vector, limit: int)
    requires
        limit > 0,
    ensures
        magnitude(correction(diff, limit).x) <= limit,
        magnitude(correction(diff, limit).y) <= limit,
        diff.length() >= limit ==> correction(diff, limit) == Vector::zero(),
{
    lemma_length_dominates(diff);
    lemma_isqrt_is_root(diff.length_squared());
    let d = diff.length();
    if 0 < d < limit {
        lemma_fine_length(diff, limit);
        lemma_component_push(limit, diff.x, fine_length(diff));
        lemma_component_push(limit, diff.y, fine_length(diff));
    }
}

/// A component `c` of a gap of fine length `fine`, scaled by the depth of the
/// overlap over the length, is at most `limit` in magnitude.
proof fn lemma_component_push(limit: int, c: int, fine: int)
    requires
        0 < fine < limit * FINE,
        FINE * magnitude(c) <= fine,
    ensures
        magnitude((limit * FINE - fine) * c) <= limit * fine,
        magnitude(trunc_div((limit * FINE - fine) * c, fine)) <= limit,
{
    let m = magnitude(c);
    let pen = limit * FINE - fine;
    let f = FINE as int;
    assert(magnitude(pen * c) == pen * m && pen * m <= limit * fine) by (nonlinear_arith)
        requires
            pen == limit * f - fine,
            0 < fine < limit * f,
            m == magnitude(c),
            m >= 0,
            f * m <= fine,
            f > 0,
    ;
    assert(limit >= 0) by (nonlinear_arith)
        requires
            0 < limit * f,
            f > 0,
    ;
    lemma_trunc_div_magnitude(pen * c, fine, limit);
}

/// The share of a push is no larger than the push and has its sign.
pub proof fn lemma_share_bounds(w: int, ra: int, rb: int)
    requires
        ra > 0,
        rb > 0,
    ensures
        w >= 0 ==> 0 <= share(w, ra, rb) <= w,
        w <= 0 ==> w <= share(w, ra, rb) <= 0,
        magnitude(w * (ra * ra)) <= magnitude(w) * (ra * ra + rb * rb),
{
    let ma = ra * ra;
    let mb = rb * rb;
    let s = ma + mb;
    let m = magnitude(w);
    assert(ma > 0 && mb > 0 && magnitude(w * ma) == m * ma && m * ma <= m * (ma + mb))
        by (nonlinear_arith)
        requires
            ra > 0,
            rb > 0,
            ma == ra * ra,
            mb == rb * rb,
            m == magnitude(w),
    ;
    lemma_trunc_div_magnitude(w * ma, s, m);
    lemma_trunc_div_bounds(w * ma, s);
    assert(w >= 0 ==> w * ma >= 0) by (nonlinear_arith)
        requires
            ma > 0,
    ;
    assert(w <= 0 ==> w * ma <= 0) by (nonlinear_arith)
        requires
            ma > 0,
    ;
}

/// Resolving a pair that does not overlap changes nothing.
pub proof fn lemma_resolve_apart(a: BodyState, b: BodyState)
    requires
        a.valid(),
        b.valid(),
        !overlapping(a, b),
    ensures
        resolve_pair(a, b) == (a, b),
{
    lemma_share_bounds(0, a.radius, b.radius);
}

/// Resolving a pair keeps both bodies valid.
pub proof fn lemma_resolve_valid(a: BodyState, b: BodyState)
    requires
        a.valid(),
        b.valid(),
    ensures
        resolve_pair(a, b).0.valid(),
        resolve_pair(a, b).1.valid(),
{
}

/// Resolves the overlap of `a` and `b`, if there is one.
pub fn resolve(a: &mut Body, b: &mut Body)
    requires
        old(a).wf(),
        old(b).wf(),
    ensures
        (final(a)@, final(b)@) == resolve_pair(old(a)@, old(b)@),
        final(a).wf(),
        final(b).wf(),
{
    let pa = a.position();
    let pb = b.position();
    let ra: i128 = a.radius() as i128;
    let rb: i128 = b.radius() as i128;
    let dx: i128 = pb.x as i128 - pa.x as i128;
    let dy: i128 = pb.y as i128 - pa.y as i128;
    let limit: i128 = ra + rb;
    let ghost diff = Vector { x: dx as int, y: dy as int };
    proof {
        assert(diff == b@.position.minus(a@.position));
        lemma_length_dominates(diff);
        lemma_isqrt_is_root(diff.length_squared());
    }
    if dx >= limit || dx <= -limit || dy >= limit || dy <= -limit {
        proof {
            lemma_resolve_apart(a@, b@);
        }
        return ;
    }
    assert(0 <= dx * dx <= limit * limit && 0 <= dy * dy <= limit * limit && limit * limit <= 4
        * (RADIUS_LIMIT * RADIUS_LIMIT)) by (nonlinear_arith)
        requires
            -limit < dx < limit,
            -limit < dy < limit,
            0 < limit <= 2 * RADIUS_LIMIT,
    ;
    let d: i128 = integer_sqrt((dx * dx + dy * dy) as u128) as i128;
    assert(d == diff.length());
    if d >= limit {
        proof {
            lemma_resolve_apart(a@, b@);
        }
        return ;
    }
    let mut wx: i128 = limit;
    let mut wy: i128 = 0;
    if d != 0 {
        proof {
            lemma_fine_length(diff, limit as int);
            assert((dx * dx + dy * dy) * (FINE * FINE) < (limit * FINE) * (limit * FINE) && (limit
                * FINE) * (limit * FINE) <= 340282366920938463463374607431768211456)
                by (nonlinear_arith)
                requires
                    0 <= dx * dx + dy * dy < limit * limit,
                    0 < limit <= 4398046511104,
                    FINE == 4194304,
            ;
        }
        let fine: i128 = integer_sqrt(((dx * dx + dy * dy) as u128) * 17592186044416) as i128;
        let pen: i128 = limit * (FINE as i128) - fine;
        proof {
            lemma_component_push(limit as int, dx as int, fine as int);
            lemma_component_push(limit as int, dy as int, fine as int);
            assert(limit * fine <= 85070591730234615865843651857942052864) by (nonlinear_arith)
                requires
                    0 < limit <= 4398046511104,
                    0 < fine < limit * 4194304,
            ;
        }
        wx = div_toward_zero(pen * dx, fine);
        wy = div_toward_zero(pen * dy, fine);
    }
    proof {
        lemma_correction_bounds(diff, limit as int);
        assert(wx == correction(diff, limit as int).x);
        assert(wy == correction(diff, limit as int).y);
        lemma_share_bounds(wx as int, ra as int, rb as int);
        lemma_share_bounds(wy as int, ra as int, rb as int);
        assert(0 < ra * ra <= RADIUS_LIMIT * RADIUS_LIMIT && 0 < rb * rb <= RADIUS_LIMIT
            * RADIUS_LIMIT) by (nonlinear_arith)
            requires
                0 < ra <= RADIUS_LIMIT,
                0 < rb <= RADIUS_LIMIT,
        ;
    }
    let ma: i128 = ra * ra;
    let mb: i128 = rb * rb;
    let s: i128 = ma + mb;
    proof {
        assert(magnitude(wx as int) * (ma + mb) <= 2 * RADIUS_LIMIT * (2 * (RADIUS_LIMIT
            * RADIUS_LIMIT))) by (nonlinear_arith)
            requires
                0 <= magnitude(wx as int) <= 2 * RADIUS_LIMIT,
                0 <= ma + mb <= 2 * (RADIUS_LIMIT * RADIUS_LIMIT),
        ;
        assert(magnitude(wy as int) * (ma + mb) <= 2 * RADIUS_LIMIT * (2 * (RADIUS_LIMIT
            * RADIUS_LIMIT))) by (nonlinear_arith)
            requires
                0 <= magnitude(wy as int) <= 2 * RADIUS_LIMIT,
                0 <= ma + mb <= 2 * (RADIUS_LIMIT * RADIUS_LIMIT),
        ;
    }
    let bx: i128 = div_toward_zero(wx * ma, s);
    let by: i128 = div_toward_zero(wy * ma, s);
    let ax: i128 = wx - bx;
    let ay: i128 = wy - by;
    let na = Vec2::new(saturating_coord(pa.x as i128 - ax), saturating_coord(pa.y as i128 - ay));
    let nb = Vec2::new(saturating_coord(pb.x as i128 + bx), saturating_coord(pb.y as i128 + by));
    a.set_position(na);
    b.set_position(nb);
}

} // verus!
