//! A simulated body: a disk that remembers where it was one step ago.
use crate::scalar::{COORD_LIMIT, RADIUS_LIMIT};
use crate::vector::{Vec2, Vector};
use vstd::prelude::*;

verus! {

/// A colour handle. The simulation carries it along and never looks inside.
#[derive(Clone, Copy, Debug, PartialEq, Eq, Structural)]
pub struct Color {
    pub r: u8,
    pub g: u8,
    pub b: u8,
}

/// Why a body could not be made.
#[derive(Clone, Copy, Debug, PartialEq, Eq, Structural)]
pub enum BodyError {
    /// The radius is zero or negative.
    NonPositiveRadius,
    /// The radius exceeds `RADIUS_LIMIT`.
    RadiusTooLarge,
    /// A coordinate of the position or of the previous position exceeds
    /// `COORD_LIMIT` in magnitude.
    OutsideWorld,
}

/// A disk with its current centre, its centre one integration step ago, its
/// radius and its colour. The difference of the two centres is the body's
/// implicit velocity.
#[derive(Clone, Copy, Debug, PartialEq, Eq, Structural)]
pub struct Body {
    position: Vec2,
    previous: Vec2,
    radius: i64,
    color: Color,
}

/// The mathematical value of a `Body`.
pub struct BodyState {
    pub position: Vector,
    pub previous: Vector,
    pub radius: int,
    pub color: Color,
}

impl BodyState {
    /// Both centres lie in the world and the radius is positive and within
    /// `RADIUS_LIMIT`.
    pub open spec fn valid(self) -> bool {
        &&& self.position.in_world()
        &&& self.previous.in_world()
        &&& 0 < self.radius <= RADIUS_LIMIT
    }

    /// The same body with its centre at `p`.
    pub open spec fn moved_to(self, p: Vector) -> BodyState {
        BodyState { position: p, ..self }
    }

    /// The implicit velocity: the displacement over the last step.
    pub open spec fn velocity(self) -> Vector {
        self.position.minus(self.previous)
    }

    /// Whether the body has no implicit velocity.
    pub open spec fn at_rest(self) -> bool {
        self.position == self.previous
    }
}

/// Which error, if any, the given values draw from `Body::new`.
pub open spec fn body_error(position: Vector, previous: Vector, radius: int) -> Option<BodyError> {
    if radius <= 0 {
        Some(BodyError::NonPositiveRadius)
    } else if radius > RADIUS_LIMIT {
        Some(BodyError::RadiusTooLarge)
    } else if !position.in_world() || !previous.in_world() {
        Some(BodyError::OutsideWorld)
    } else {
        None
    }
}

impl View for Body {
    type V = BodyState;

    closed spec fn view(&self) -> BodyState {
        BodyState {
            position: self.position@,
            previous: self.previous@,
            radius: self.radius as int,
            color: self.color,
        }
    }
}

impl Body {
    /// Whether the body satisfies the invariant of `BodyState::valid`.
    pub open spec fn wf(&self) -> bool {
        self@.valid()
    }

    /// A body with the given centres, radius and colour, or the reason why
    /// these values make none.
    pub fn new(position: Vec2, previous: Vec2, radius: i64, color: Color) -> (r: Result<
        Body,
        BodyError,
    >)
        ensures
            match body_error(position@, previous@, radius as int) {
                Some(e) => r == Err::<Body, BodyError>(e),
                None => r is Ok && r->Ok_0.wf() && r->Ok_0@ == (BodyState {
                    position: position@,
                    previous: previous@,
                    radius: radius as int,
                    color,
                }),
            },
    {
        if radius <= 0 {
            Err(BodyError::NonPositiveRadius)
        } else if radius > RADIUS_LIMIT {
            Err(BodyError::RadiusTooLarge)
        } else if !coord_ok(position.x) || !coord_ok(position.y) || !coord_ok(previous.x)
            || !coord_ok(previous.y) {
            Err(BodyError::OutsideWorld)
        } else {
            Ok(Body { position, previous, radius, color })
        }
    }

    /// A body at rest: its previous centre is its centre.
    pub fn at_rest(position: Vec2, radius: i64, color: Color) -> (r: Result<Body, BodyError>)
        ensures
            match body_error(position@, position@, radius as int) {
                Some(e) => r == Err::<Body, BodyError>(e),
                None => r is Ok && r->Ok_0.wf() && r->Ok_0@.at_rest() && r->Ok_0@ == (BodyState {
                    position: position@,
                    previous: position@,
                    radius: radius as int,
                    color,
                }),
            },
    {
        Body::new(position, position, radius, color)
    }

    /// The current centre.
    pub fn position(&self) -> (p: Vec2)
        ensures
            p@ == self@.position,
    {
        self.position
    }

    /// The centre one integration step ago.
    pub fn previous(&self) -> (p: Vec2)
        ensures
            p@ == self@.previous,
    {
        self.previous
    }

    /// The radius.
    pub fn radius(&self) -> (r: i64)
        ensures
            r == self@.radius,
    {
        self.radius
    }

    /// The colour.
    pub fn color(&self) -> (c: Color)
        ensures
            c == self@.color,
    {
        self.color
    }

    /// Moves the centre to `p` and leaves the previous centre as it is.
    pub(crate) fn set_position(&mut self, p: Vec2)
        requires
            old(self).wf(),
            p@.in_world(),
        ensures
            final(self)@ == old(self)@.moved_to(p@),
            final(self).wf(),
    {
        self.position = p;
    }

    /// Takes one step: the centre becomes `p` and the old centre becomes the
    /// previous one.
    pub(crate) fn advance_to(&mut self, p: Vec2)
        requires
            old(self).wf(),
            p@.in_world(),
        ensures
            final(self)@ == (BodyState {
                position: p@,
                previous: old(self)@.position,
                ..old(self)@
            }),
            final(self).wf(),
    {
        self.previous = self.position;
        self.position = p;
    }
}

/// Whether `v` is a coordinate inside the world.
fn coord_ok(v: i64) -> (ok: bool)
    ensures
        ok == crate::scalar::in_world(v as int),
{
    -COORD_LIMIT <= v && v <= COORD_LIMIT
}

} // verus!
