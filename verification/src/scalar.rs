//! Fixed-point scalars.
//!
//! Every length, coordinate and time of the simulation is an integer number of
//! ticks, `ONE` ticks making one unit. The functions here are the few
//! operations on ticks that are not plain addition: division rounded toward
//! zero, saturation at the edge of the world, and the integer square root.
use vstd::prelude::*;

verus! {

/// One unit, in ticks: two to the power of 32.
pub const ONE: i64 = 4294967296;

/// Largest magnitude of a coordinate, in ticks. Positions saturate here.
pub const COORD_LIMIT: i64 = 1152921504606846976;

/// Largest radius of a body, in ticks: 512 units. This is the largest power
/// of two for which the gap between the centres of two overlapping bodies, in
/// the parts of a tick in which a correction measures it, has a square that
/// fits into 128 bits.
pub const RADIUS_LIMIT: i64 = 2199023255552;

/// Absolute value.
pub open spec fn magnitude(v: int) -> int {
    if v < 0 {
        -v
    } else {
        v
    }
}

/// Quotient of `a` by a positive `b`, rounded toward zero.
pub open spec fn trunc_div(a: int, b: int) -> int {
    if a >= 0 {
        a / b
    } else {
        -((-a) / b)
    }
}

/// `v` limited to the interval from `lo` to `hi`. Where the interval is empty
/// (`hi < lo`), values below `lo` go to `lo` and all others to `hi`.
pub open spec fn clamp(v: int, lo: int, hi: int) -> int {
    if v < lo {
        lo
    } else if v > hi {
        hi
    } else {
        v
    }
}

/// Whether `v` is a coordinate inside the world.
pub open spec fn in_world(v: int) -> bool {
    -COORD_LIMIT <= v <= COORD_LIMIT
}

/// `v` saturated at the edge of the world.
pub open spec fn saturate(v: int) -> int {
    clamp(v, -(COORD_LIMIT as int), COORD_LIMIT as int)
}

/// Whether `r` is the integer square root of `n`: the largest integer whose
/// square does not exceed `n`.
pub open spec fn is_isqrt(n: int, r: int) -> bool {
    0 <= r && r * r <= n < (r + 1) * (r + 1)
}

/// The integer square root of a non-negative `n`.
pub open spec fn isqrt(n: int) -> int {
    choose|r: int| is_isqrt(n, r)
}

/// Every non-negative integer has an integer square root.
pub proof fn lemma_isqrt_exists(n: int)
    requires
        n >= 0,
    ensures
        exists|r: int| is_isqrt(n, r),
    decreases n,
{
    if n == 0 {
        assert(is_isqrt(0, 0));
    } else {
        let m = n - 1;
        lemma_isqrt_exists(m);
        let r = choose|r: int| is_isqrt(m, r);
        if (r + 1) * (r + 1) <= n {
            assert((r + 1) * (r + 1) < (r + 2) * (r + 2)) by (nonlinear_arith)
                requires
                    r >= 0,
            ;
            assert(is_isqrt(n, r + 1));
        } else {
            assert(is_isqrt(n, r));
        }
    }
}

/// The integer square root is unique.
pub proof fn lemma_isqrt_unique(n: int, r1: int, r2: int)
    requires
        is_isqrt(n, r1),
        is_isqrt(n, r2),
    ensures
        r1 == r2,
{
    if r1 < r2 {
        assert((r1 + 1) * (r1 + 1) <= r2 * r2) by (nonlinear_arith)
            requires
                0 <= r1,
                r1 + 1 <= r2,
        ;
    }
    if r2 < r1 {
        assert((r2 + 1) * (r2 + 1) <= r1 * r1) by (nonlinear_arith)
            requires
                0 <= r2,
                r2 + 1 <= r1,
        ;
    }
}

/// `isqrt(n)` is the integer square root of a non-negative `n`.
pub proof fn lemma_isqrt_is_root(n: int)
    requires
        n >= 0,
    ensures
        is_isqrt(n, isqrt(n)),
{
    lemma_isqrt_exists(n);
}

/// An integer that brackets `n` between its square and the next is `isqrt(n)`.
pub proof fn lemma_isqrt_is(n: int, r: int)
    requires
        is_isqrt(n, r),
    ensures
        isqrt(n) == r,
{
    lemma_isqrt_unique(n, r, isqrt(n));
}

/// The integer square root does not decrease when its argument grows.
pub proof fn lemma_isqrt_monotone(m: int, n: int)
    requires
        0 <= m <= n,
    ensures
        isqrt(m) <= isqrt(n),
{
    lemma_isqrt_is_root(m);
    lemma_isqrt_is_root(n);
    let a = isqrt(m);
    let b = isqrt(n);
    if b < a {
        assert((b + 1) * (b + 1) <= a * a) by (nonlinear_arith)
            requires
                0 <= b,
                b + 1 <= a,
        ;
    }
}

/// The integer square root of a square is the magnitude of its base.
pub proof fn lemma_isqrt_of_square(v: int)
    ensures
        isqrt(v * v) == magnitude(v),
{
    let m = magnitude(v);
    assert(m * m == v * v && m * m < (m + 1) * (m + 1)) by (nonlinear_arith)
        requires
            m == v || m == -v,
            m >= 0,
    ;
    lemma_isqrt_is(v * v, m);
}

/// What rounding toward zero means: the quotient has the sign of the dividend
/// and misses the exact quotient by less than one.
pub proof fn lemma_trunc_div_bounds(a: int, b: int)
    requires
        b > 0,
    ensures
        a >= 0 ==> 0 <= trunc_div(a, b) && b * trunc_div(a, b) <= a < b * trunc_div(a, b) + b,
        a <= 0 ==> trunc_div(a, b) <= 0 && b * trunc_div(a, b) - b < a <= b * trunc_div(a, b),
        trunc_div(-a, b) == -trunc_div(a, b),
{
    if a >= 0 {
        let q = a / b;
        assert(0 <= q && b * q <= a < b * q + b) by (nonlinear_arith)
            requires
                a >= 0,
                b > 0,
                q == a / b,
        ;
    }
    if a <= 0 {
        let m = -a;
        let q = m / b;
        assert(0 <= q && b * q <= m < b * q + b) by (nonlinear_arith)
            requires
                m >= 0,
                b > 0,
                q == m / b,
        ;
        assert(b * (-q) == -(b * q)) by (nonlinear_arith);
    }
}

/// A quotient rounded toward zero is no larger in magnitude than `k` where the
/// dividend is no larger in magnitude than `k * b`.
pub proof fn lemma_trunc_div_magnitude(a: int, b: int, k: int)
    requires
        b > 0,
        k >= 0,
        magnitude(a) <= k * b,
    ensures
        magnitude(trunc_div(a, b)) <= k,
{
    lemma_trunc_div_bounds(a, b);
    let q = trunc_div(a, b);
    let m = magnitude(q);
    assert(b * m <= magnitude(a)) by (nonlinear_arith)
        requires
            b > 0,
            m == q || m == -q,
            (a >= 0 && b * q <= a && magnitude(a) == a && m == q) || (a <= 0 && a <= b * q
                && magnitude(a) == -a && m == -q),
    ;
    assert(m <= k) by (nonlinear_arith)
        requires
            b > 0,
            k >= 0,
            m >= 0,
            b * m <= k * b,
    ;
}

/// `a / b` rounded toward zero, for a positive divisor.
pub fn div_toward_zero(a: i128, b: i128) -> (q: i128)
    requires
        b > 0,
    ensures
        q == trunc_div(a as int, b as int),
{
    a / b
}

/// A wide value brought back into the world.
pub fn saturating_coord(v: i128) -> (r: i64)
    ensures
        r == saturate(v as int),
        in_world(r as int),
{
    if v < -(COORD_LIMIT as i128) {
        -COORD_LIMIT
    } else if v > COORD_LIMIT as i128 {
        COORD_LIMIT
    } else {
        v as i64
    }
}

/// The integer square root, by bisection.
pub fn integer_sqrt(n: u128) -> (r: u64)
    ensures
        r == isqrt(n as int),
        is_isqrt(n as int, r as int),
{
    let mut lo: u128 = 0;
    let mut hi: u128 = 18446744073709551616;
    assert(n < hi * hi) by (nonlinear_arith)
        requires
            hi == 18446744073709551616,
            n <= u128::MAX,
    ;
    while hi - lo > 1
        invariant
            lo < hi <= 18446744073709551616,
            lo * lo <= n < hi * hi,
        decreases hi - lo,
    {
        let mid: u128 = lo + (hi - lo) / 2;
        assert(mid * mid <= u128::MAX) by (nonlinear_arith)
            requires
                0 <= mid <= 18446744073709551615,
        ;
        if mid * mid <= n {
            lo = mid;
        } else {
            hi = mid;
        }
    }
    proof {
        assert(hi == lo + 1);
        lemma_isqrt_is(n as int, lo as int);
    }
    lo as u64
}

} // verus!
