//! The containment region.
//!
//! A simulation has one boundary policy: none, a rectangle centred on the
//! origin, or a disk centred on the origin. Enforcing it moves the centre of a
//! body and leaves its previous centre alone, so that a body that is stopped
//! by the boundary loses the velocity with which it struck it.
use crate::body::{Body, BodyState};
use crate::collision::lemma_length_dominates;
use crate::scalar::{
    clamp, div_toward_zero, integer_sqrt, lemma_isqrt_is_root, magnitude, saturating_coord,
    trunc_div, COORD_LIMIT,
};
use crate::vector::{Vec2, Vector};
use vstd::prelude::*;

verus! {

/// A boundary policy. Lengths are in ticks.
#[derive(Clone, Copy, Debug, PartialEq, Eq, Structural)]
pub enum Boundary {
    /// No boundary but the edge of the world.
    Unbounded,
    /// The rectangle that reaches `half_width` to either side of the origin
    /// and `half_height` above and below it.
    Rectangle { half_width: i64, half_height: i64 },
    /// The disk of the given radius around the origin.
    Disk { radius: i64 },
}

/// The body held inside the rectangle: each coordinate of the centre is
/// limited to the interval that keeps the whole body inside.
pub open spec fn constrain_rectangle(b: BodyState, half_width: int, half_height: int) -> BodyState {
    b.moved_to(
        Vector {
            x: clamp(b.position.x, -half_width + b.radius, half_width - b.radius),
            y: clamp(b.position.y, -half_height + b.radius, half_height - b.radius),
        }.saturated(),
    )
}

/// By how much the body reaches beyond the disk of the given radius: its
/// distance from the origin plus its own radius, less the radius of the disk.
pub open spec fn excess(b: BodyState, radius: int) -> int {
    b.position.length() + b.radius - radius
}

/// The body held inside the disk: where it reaches beyond the disk, its centre
/// moves toward the origin by the excess, each component rounded toward zero.
/// A body centred on the origin has no direction to move in and stays.
pub open spec fn constrain_disk(b: BodyState, radius: int) -> BodyState {
    let d = b.position.length();
    let e = excess(b, radius);
    if e <= 0 || d == 0 {
        b
    } else {
        b.moved_to(
            Vector {
                x: b.position.x - trunc_div(b.position.x * e, d),
                y: b.position.y - trunc_div(b.position.y * e, d),
            }.saturated(),
        )
    }
}

/// The body after the boundary policy has been enforced on it.
pub open spec fn constrain(b: BodyState, boundary: Boundary) -> BodyState {
    match boundary {
        Boundary::Unbounded => b,
        Boundary::Rectangle { half_width, half_height } => constrain_rectangle(
            b,
            half_width as int,
            half_height as int,
        ),
        Boundary::Disk { radius } => constrain_disk(b, radius as int),
    }
}

/// Whether the body lies inside the disk of the given radius, up to `slack`
/// ticks.
pub open spec fn contained(b: BodyState, radius: int, slack: int) -> bool {
    b.position.length() + b.radius <= radius + slack
}

/// Enforces the rectangle on `body`.
pub fn clamp_rectangle(body: &mut Body, half_width: i64, half_height: i64)
    requires
        old(body).wf(),
    ensures
        final(body)@ == constrain_rectangle(old(body)@, half_width as int, half_height as int),
        final(body).wf(),
{
    let p = body.position();
    let r: i128 = body.radius() as i128;
    let x = saturating_coord(
        limit_to(p.x as i128, -(half_width as i128) + r, half_width as i128 - r),
    );
    let y = saturating_coord(
        limit_to(p.y as i128, -(half_height as i128) + r, half_height as i128 - r),
    );
    body.set_position(Vec2::new(x, y));
}

/// `v` limited to the interval from `lo` to `hi`.
fn limit_to(v: i128, lo: i128, hi: i128) -> (r: i128)
    ensures
        r == clamp(v as int, lo as int, hi as int),
{
    if v < lo {
        lo
    } else if v > hi {
        hi
    } else {
        v
    }
}

/// Enforces the disk of the given radius on `body`.
pub fn clamp_circle(body: &mut Body, radius: i64)
    requires
        old(body).wf(),
    ensures
        final(body)@ == constrain_disk(old(body)@, radius as int),
        final(body).wf(),
{
    let p = body.position();
    let x: i128 = p.x as i128;
    let y: i128 = p.y as i128;
    assert(0 <= x * x <= COORD_LIMIT * COORD_LIMIT && 0 <= y * y <= COORD_LIMIT * COORD_LIMIT
        && COORD_LIMIT * COORD_LIMIT == 1329227995784915872903807060280344576)
        by (nonlinear_arith)
        requires
            -COORD_LIMIT <= x <= COORD_LIMIT,
            -COORD_LIMIT <= y <= COORD_LIMIT,
            COORD_LIMIT == 1152921504606846976,
    ;
    let d: i128 = integer_sqrt((x * x + y * y) as u128) as i128;
    proof {
        lemma_length_dominates(body@.position);
        lemma_isqrt_is_root(body@.position.length_squared());
        assert(d == body@.position.length());
        assert(d <= 2 * COORD_LIMIT) by (nonlinear_arith)
            requires
                d >= 0,
                d * d <= x * x + y * y,
                x * x + y * y <= 2 * (COORD_LIMIT * COORD_LIMIT),
                COORD_LIMIT == 1152921504606846976,
        ;
    }
    let e: i128 = d + body.radius() as i128 - radius as i128;
    if e <= 0 || d == 0 {
        return ;
    }
    assert(magnitude(x * e) <= COORD_LIMIT * 13835058055282163712 && magnitude(y * e)
        <= COORD_LIMIT * 13835058055282163712) by (nonlinear_arith)
        requires
            -COORD_LIMIT <= x <= COORD_LIMIT,
            -COORD_LIMIT <= y <= COORD_LIMIT,
            0 < e <= 13835058055282163712,
            COORD_LIMIT == 1152921504606846976,
    ;
    let nx = saturating_coord(x - div_toward_zero(x * e, d));
    let ny = saturating_coord(y - div_toward_zero(y * e, d));
    body.set_position(Vec2::new(nx, ny));
}

/// Enforces the boundary policy on `body`.
pub fn enforce(body: &mut Body, boundary: Boundary)
    requires
        old(body).wf(),
    ensures
        final(body)@ == constrain(old(body)@, boundary),
        final(body).wf(),
{
    match boundary {
        Boundary::Unbounded => {},
        Boundary::Rectangle { half_width, half_height } => {
            clamp_rectangle(body, half_width, half_height);
        },
        Boundary::Disk { radius } => {
            clamp_circle(body, radius);
        },
    }
}

} // verus!
