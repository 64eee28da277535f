//! The Verlet step.
//!
//! A body carries no velocity of its own: its velocity is the displacement
//! over the last step. One step repeats that displacement, adds the
//! displacement that the acceleration gives in one step, and remembers the
//! centre that the body leaves.
use crate::body::{Body, BodyState};
use crate::scalar::{magnitude, saturate, saturating_coord, trunc_div, COORD_LIMIT, ONE};
use crate::vector::{Vec2, Vector};
use vstd::prelude::*;

verus! {

/// The body one step later, under the per-step acceleration `accel`: the new
/// centre is `2 * position - previous + accel`, saturated at the edge of the
/// world, and the new previous centre is the old centre.
pub open spec fn integrate(b: BodyState, accel: Vector) -> BodyState {
    BodyState {
        position: Vector {
            x: saturate(2 * b.position.x - b.previous.x + accel.x),
            y: saturate(2 * b.position.y - b.previous.y + accel.y),
        },
        previous: b.position,
        ..b
    }
}

/// The displacement, in ticks, that the acceleration `g` (ticks per second
/// squared) gives in one step of `dt` ticks of a second: `g * dt² / ONE²`,
/// rounded toward zero and saturated at the edge of the world.
pub open spec fn step_acceleration(g: int, dt: int) -> int {
    saturate(trunc_div(g * (dt * dt), ONE * ONE))
}

/// Advances `body` by one step under the per-step acceleration `accel`.
pub fn step_body(body: &mut Body, accel: Vec2)
    requires
        old(body).wf(),
    ensures
        final(body)@ == integrate(old(body)@, accel@),
        final(body).wf(),
{
    let p = body.position();
    let q = body.previous();
    let x = saturating_coord(2 * (p.x as i128) - q.x as i128 + accel.x as i128);
    let y = saturating_coord(2 * (p.y as i128) - q.y as i128 + accel.y as i128);
    body.advance_to(Vec2::new(x, y));
}

/// The magnitude of a signed value.
fn magnitude_of(v: i64) -> (m: u128)
    ensures
        m == magnitude(v as int),
{
    if v >= 0 {
        v as u128
    } else {
        (-(v as i128)) as u128
    }
}

/// The per-step displacement that the acceleration `g` gives over a step of
/// `dt`.
pub fn acceleration_per_step(g: i64, dt: i64) -> (a: i64)
    ensures
        a == step_acceleration(g as int, dt as int),
{
    let mg: u128 = magnitude_of(g);
    let md: u128 = magnitude_of(dt);
    assert(md * md <= 85070591730234615865843651857942052864) by (nonlinear_arith)
        requires
            0 <= md <= 9223372036854775808,
    ;
    let dd: u128 = md * md;
    let ghost exact: int = g as int * (dt as int * dt as int);
    let ghost scale: int = ONE as int * ONE as int;
    proof {
        assert(dd == dt as int * dt as int) by (nonlinear_arith)
            requires
                md == dt as int || md == -(dt as int),
                dd == md * md,
        ;
        assert(magnitude(exact) == mg * dd) by (nonlinear_arith)
            requires
                exact == g as int * (dt as int * dt as int),
                dd == dt as int * dt as int,
                mg == magnitude(g as int),
                dd >= 0,
        ;
        assert(g >= 0 ==> exact >= 0) by (nonlinear_arith)
            requires
                exact == g as int * (dt as int * dt as int),
                dd == dt as int * dt as int,
                dd >= 0,
        ;
        assert(g <= 0 ==> exact <= 0) by (nonlinear_arith)
            requires
                exact == g as int * (dt as int * dt as int),
                dd == dt as int * dt as int,
                dd >= 0,
        ;
        assert(scale == 18446744073709551616) by (nonlinear_arith)
            requires
                scale == ONE as int * ONE as int,
                ONE == 4294967296,
        ;
    }
    let quotient: u128 = match mg.checked_mul(dd) {
        Some(product) => product / 18446744073709551616,
        None => {
            proof {
                assert((mg * dd) / 18446744073709551616 > COORD_LIMIT) by (nonlinear_arith)
                    requires
                        mg * dd > u128::MAX,
                        COORD_LIMIT == 1152921504606846976,
                ;
            }
            COORD_LIMIT as u128 + 1
        },
    };
    // Where the product did not fit, the quotient lies beyond the edge of the world.
    if quotient > COORD_LIMIT as u128 {
        if g >= 0 {
            COORD_LIMIT
        } else {
            -COORD_LIMIT
        }
    } else if g >= 0 {
        quotient as i64
    } else {
        -(quotient as i64)
    }
}

} // verus!
