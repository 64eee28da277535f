//! The boundary: what it holds, and what the sweep can undo.
use crate::body::BodyState;
use crate::boundary::{
    constrain, constrain_disk, constrain_rectangle, contained, excess, Boundary,
};
use crate::collision::lemma_length_dominates;
use crate::integrator::integrate;
use crate::scalar::{
    lemma_isqrt_is_root, lemma_isqrt_monotone, lemma_isqrt_of_square, lemma_trunc_div_bounds,
    magnitude, trunc_div,
};
use crate::scheduler::{lemma_moved_valid, move_all, substep};
use crate::store::all_valid;
use crate::sweep::{
    lemma_sweep_first_valid, lemma_sweep_one_valid, sweep, sweep_first, sweep_one,
};
use crate::vector::Vector;
use vstd::prelude::*;

verus! {

/// One coordinate of a centre at distance `d` that is pulled toward the origin
/// by `e` out of `d`: it keeps its sign, does not grow, and is at most the old
/// coordinate scaled by `(d - e) / d`, plus one tick.
proof fn lemma_component_shrinks(c: int, e: int, d: int)
    requires
        0 < e <= d,
        magnitude(c) <= d,
    ensures
        magnitude(c - trunc_div(c * e, d)) <= magnitude(c),
        d * magnitude(c - trunc_div(c * e, d)) <= magnitude(c) * (d - e) + d,
{
    let q = trunc_div(c * e, d);
    let u = magnitude(c);
    lemma_trunc_div_bounds(c * e, d);
    assert(c >= 0 ==> c * e >= 0) by (nonlinear_arith)
        requires
            e > 0,
    ;
    assert(c <= 0 ==> c * e <= 0) by (nonlinear_arith)
        requires
            e > 0,
    ;
    assert(magnitude(q) <= u) by (nonlinear_arith)
        requires
            0 < e <= d,
            (c >= 0 && q >= 0 && d * q <= c * e && u == c && magnitude(q) == q) || (c <= 0 && q
                <= 0 && c * e <= d * q && u == -c && magnitude(q) == -q),
    ;
    assert(d * magnitude(c - q) <= u * (d - e) + d) by (nonlinear_arith)
        requires
            0 < e <= d,
            (c >= 0 && q >= 0 && q <= c && c * e < d * q + d && u == c && magnitude(c - q) == c
                - q) || (c <= 0 && q <= 0 && c <= q && d * q - d < c * e && u == -c && magnitude(
                c - q,
            ) == q - c),
    ;
}

/// Two non-negative numbers `g` and `h` that come from `u` and `v` by scaling
/// with `m / d`, up to one tick each, where `u² + v²` is less than `(d + 1)²`,
/// have squares that add up to less than `(m + 3)²`.
proof fn lemma_squares_within(u: int, v: int, g: int, h: int, d: int, m: int)
    requires
        0 <= m < d,
        0 <= u <= d,
        0 <= v <= d,
        u * u + v * v < (d + 1) * (d + 1),
        0 <= g,
        0 <= h,
        d * g <= u * m + d,
        d * h <= v * m + d,
    ensures
        g * g + h * h < (m + 3) * (m + 3),
{
    let p = u * m + d;
    let q = v * m + d;
    let dg = d * g;
    let dh = d * h;
    assert(0 <= p && 0 <= q) by (nonlinear_arith)
        requires
            p == u * m + d,
            q == v * m + d,
            u >= 0,
            v >= 0,
            m >= 0,
            d > 0,
    ;
    assert(dg >= 0 && dh >= 0) by (nonlinear_arith)
        requires
            dg == d * g,
            dh == d * h,
            d > 0,
            g >= 0,
            h >= 0,
    ;
    assert(dg * dg + dh * dh <= p * p + q * q) by (nonlinear_arith)
        requires
            0 <= dg <= p,
            0 <= dh <= q,
    ;
    assert(dg * dg + dh * dh == (d * d) * (g * g + h * h)) by (nonlinear_arith)
        requires
            dg == d * g,
            dh == d * h,
    ;
    let um = u * m;
    let vm = v * m;
    let mm = m * m;
    let dd = d * d;
    let md = m * d;
    let uv = u * u + v * v;
    assert(p * p == um * um + 2 * (um * d) + dd && q * q == vm * vm + 2 * (vm * d) + dd)
        by (nonlinear_arith)
        requires
            p == um + d,
            q == vm + d,
            dd == d * d,
    ;
    assert(um * um + vm * vm == mm * uv) by (nonlinear_arith)
        requires
            um == u * m,
            vm == v * m,
            mm == m * m,
            uv == u * u + v * v,
    ;
    assert(um * d + vm * d == md * (u + v)) by (nonlinear_arith)
        requires
            um == u * m,
            vm == v * m,
            md == m * d,
    ;
    assert(md * (u + v) <= 2 * (m * dd)) by (nonlinear_arith)
        requires
            0 <= u <= d,
            0 <= v <= d,
            m >= 0,
            d > 0,
            md == m * d,
            dd == d * d,
    ;
    assert(mm * uv <= mm * dd + 2 * (m * dd)) by (nonlinear_arith)
        requires
            uv < (d + 1) * (d + 1),
            0 <= m < d,
            mm == m * m,
            dd == d * d,
    ;
    let n = g * g + h * h;
    let t = (m + 3) * (m + 3);
    assert(dd * t == mm * dd + 6 * (m * dd) + 9 * dd) by (nonlinear_arith)
        requires
            t == (m + 3) * (m + 3),
            mm == m * m,
    ;
    assert(dd > 0 && m * dd >= 0) by (nonlinear_arith)
        requires
            d > 0,
            m >= 0,
            dd == d * d,
    ;
    assert(dd * n < dd * t);
    assert(n < t) by (nonlinear_arith)
        requires
            dd * n < dd * t,
            dd > 0,
    ;
}

/// The disk holds what it is asked to hold: a body that is no larger than the
/// disk lies inside it once the disk has been enforced, up to two ticks of
/// rounding, wherever it was before. Its centre moves toward the origin or not
/// at all.
pub proof fn lemma_disk_contains(b: BodyState, radius: int)
    requires
        b.valid(),
        b.radius <= radius,
    ensures
        contained(constrain_disk(b, radius), radius, 2),
        magnitude(constrain_disk(b, radius).position.x) <= magnitude(b.position.x),
        magnitude(constrain_disk(b, radius).position.y) <= magnitude(b.position.y),
        constrain_disk(b, radius).valid(),
{
    let d = b.position.length();
    let e = excess(b, radius);
    lemma_length_dominates(b.position);
    lemma_isqrt_is_root(b.position.length_squared());
    if e > 0 && d != 0 {
        let x = b.position.x;
        let y = b.position.y;
        let m = d - e;
        lemma_component_shrinks(x, e, d);
        lemma_component_shrinks(y, e, d);
        let nx = x - trunc_div(x * e, d);
        let ny = y - trunc_div(y * e, d);
        let after = constrain_disk(b, radius);
        assert(after.position == (Vector { x: nx, y: ny }));
        let u = magnitude(x);
        let v = magnitude(y);
        let g = magnitude(nx);
        let h = magnitude(ny);
        assert(u * u + v * v == b.position.length_squared() && g * g + h * h
            == after.position.length_squared()) by (nonlinear_arith)
            requires
                u == x || u == -x,
                v == y || v == -y,
                g == nx || g == -nx,
                h == ny || h == -ny,
                b.position.length_squared() == x * x + y * y,
                after.position.length_squared() == nx * nx + ny * ny,
        ;
        assert(u * (d - e) == u * m && v * (d - e) == v * m);
        lemma_squares_within(u, v, g, h, d, m);
        lemma_length_dominates(after.position);
        lemma_isqrt_is_root(after.position.length_squared());
        let r = after.position.length();
        if r >= m + 3 {
            assert(r * r >= (m + 3) * (m + 3)) by (nonlinear_arith)
                requires
                    r >= m + 3,
                    m >= 0,
            ;
        }
    }
}

/// Whether two states are the same body, possibly with its centre elsewhere.
pub open spec fn same_body(a: BodyState, b: BodyState) -> bool {
    a.moved_to(b.position) == b
}

/// Resolving one body against later ones moves centres and nothing else.
proof fn lemma_sweep_one_moves_centres(s: Seq<BodyState>, i: int, j: int)
    requires
        all_valid(s),
        0 <= i,
        j <= s.len(),
    ensures
        forall|k: int| 0 <= k < s.len() ==> same_body(s[k], #[trigger] sweep_one(s, i, j)[k]),
    decreases j - i,
{
    lemma_sweep_one_valid(s, i, j);
    if j > i + 1 {
        lemma_sweep_one_moves_centres(s, i, j - 1);
        lemma_sweep_one_valid(s, i, j - 1);
        let t = sweep_one(s, i, j - 1);
        assert forall|k: int| 0 <= k < s.len() implies same_body(
            s[k],
            #[trigger] sweep_one(s, i, j)[k],
        ) by {
            assert(same_body(s[k], t[k]));
        }
    }
}

/// A sweep over the first `i` bodies moves centres and nothing else.
proof fn lemma_sweep_first_moves_centres(s: Seq<BodyState>, i: int)
    requires
        all_valid(s),
        i <= s.len(),
    ensures
        forall|k: int| 0 <= k < s.len() ==> same_body(s[k], #[trigger] sweep_first(s, i)[k]),
    decreases i,
{
    lemma_sweep_first_valid(s, i);
    if i > 0 {
        lemma_sweep_first_moves_centres(s, i - 1);
        lemma_sweep_first_valid(s, i - 1);
        let t = sweep_first(s, i - 1);
        lemma_sweep_one_moves_centres(t, i - 1, t.len() as int);
        assert forall|k: int| 0 <= k < s.len() implies same_body(
            s[k],
            #[trigger] sweep_first(s, i)[k],
        ) by {
            assert(same_body(s[k], t[k]));
            assert(same_body(t[k], sweep_one(t, i - 1, t.len() as int)[k]));
        }
    }
}

/// A sweep moves the centres of bodies and changes nothing else: every body
/// keeps its place in the order, its radius, its previous centre and its
/// colour.
pub proof fn lemma_sweep_moves_only_centres(s: Seq<BodyState>)
    requires
        all_valid(s),
    ensures
        sweep(s).len() == s.len(),
        forall|k: int| 0 <= k < s.len() ==> same_body(s[k], #[trigger] sweep(s)[k]),
{
    lemma_sweep_first_valid(s, s.len() as int);
    lemma_sweep_first_moves_centres(s, s.len() as int);
}

/// Under the disk policy, a substep leaves inside the disk, up to two ticks of
/// rounding, every body that is no larger than the disk and that the sweep did
/// not push. (A body that the sweep pushed may end the substep outside: the
/// boundary is enforced before the sweep, not after it.)
pub proof fn lemma_substep_contains(s: Seq<BodyState>, accel: Vector, radius: i64, i: int)
    requires
        all_valid(s),
        0 <= i < s.len(),
        s[i].radius <= radius,
        substep(s, accel, Boundary::Disk { radius })[i].position == move_all(
            s,
            accel,
            Boundary::Disk { radius },
        )[i].position,
    ensures
        contained(substep(s, accel, Boundary::Disk { radius })[i], radius as int, 2),
{
    let boundary = Boundary::Disk { radius };
    let m = move_all(s, accel, boundary);
    assert forall|k: int| 0 <= k < m.len() implies (#[trigger] m[k]).valid() by {
        lemma_moved_valid(s[k], accel, boundary);
    }
    lemma_sweep_moves_only_centres(m);
    assert(same_body(m[i], sweep(m)[i]));
    lemma_disk_contains(integrate(s[i], accel), radius as int);
}

/// The rectangle holds what it is asked to hold: a body that is no wider and
/// no higher than the rectangle lies inside it once the rectangle has been
/// enforced, wherever it was before.
pub proof fn lemma_rectangle_contains(b: BodyState, half_width: int, half_height: int)
    requires
        b.valid(),
        b.radius <= half_width,
        b.radius <= half_height,
    ensures
        magnitude(constrain_rectangle(b, half_width, half_height).position.x) + b.radius
            <= half_width,
        magnitude(constrain_rectangle(b, half_width, half_height).position.y) + b.radius
            <= half_height,
        constrain_rectangle(b, half_width, half_height).valid(),
{
}

/// Whether the boundary leaves the body where it is.
pub open spec fn lets_be(boundary: Boundary, b: BodyState) -> bool {
    constrain(b, boundary) == b
}

/// A vector is no longer than its two components together.
pub proof fn lemma_length_at_most_sum(v: Vector)
    ensures
        v.length() <= magnitude(v.x) + magnitude(v.y),
{
    let u = magnitude(v.x);
    let w = magnitude(v.y);
    assert(0 <= v.length_squared() <= (u + w) * (u + w)) by (nonlinear_arith)
        requires
            u == v.x || u == -v.x,
            w == v.y || w == -v.y,
            u >= 0,
            w >= 0,
            v.length_squared() == v.x * v.x + v.y * v.y,
    ;
    lemma_isqrt_monotone(v.length_squared(), (u + w) * (u + w));
    lemma_isqrt_of_square(u + w);
}

/// The disk leaves alone a body that, even measured along the axes, does not
/// reach its rim.
pub proof fn lemma_disk_lets_be(b: BodyState, radius: i64)
    requires
        magnitude(b.position.x) + magnitude(b.position.y) + b.radius <= radius,
    ensures
        lets_be(Boundary::Disk { radius }, b),
{
    lemma_length_at_most_sum(b.position);
}

/// The rectangle leaves alone a valid body that lies inside it.
pub proof fn lemma_rectangle_lets_be(b: BodyState, half_width: i64, half_height: i64)
    requires
        b.valid(),
        magnitude(b.position.x) + b.radius <= half_width,
        magnitude(b.position.y) + b.radius <= half_height,
    ensures
        lets_be(Boundary::Rectangle { half_width, half_height }, b),
{
}

} // verus!
