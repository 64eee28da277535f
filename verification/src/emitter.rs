//! Emitters: where new bodies come from.
//!
//! An emitter sits on a circle around the origin and turns by a fixed angle
//! every frame. Every `period`-th time it is asked, and as long as there is a
//! colour left, it launches a body from its place on the circle toward the
//! origin. Angles are binary: `FULL_TURN` steps make one turn, and an angle
//! that passes a full turn starts again at zero.
use crate::body::{Body, BodyError, BodyState, Color};
use crate::rng::draw;
use crate::scalar::{
    div_toward_zero, saturate, saturating_coord, trunc_div, COORD_LIMIT, ONE, RADIUS_LIMIT,
};
use crate::vector::{Vec2, Vector};
use rand::rngs::SmallRng;
use std::collections::VecDeque;
use vstd::prelude::*;

verus! {

/// The number of angle steps in a full turn.
pub const FULL_TURN: u64 = 4294967296;

/// How bodies are launched.
#[derive(Clone, Copy, Debug, PartialEq, Eq, Structural)]
pub struct Launch {
    distance: i64,
    power: i64,
    min_radius: i64,
    max_radius: i64,
}

/// The mathematical value of a `Launch`. Lengths are in ticks.
pub struct LaunchValues {
    /// The distance from the origin at which a body appears.
    pub distance: int,
    /// How far beyond `distance` the previous centre of a new body lies: the
    /// body starts with this much inward displacement per step.
    pub power: int,
    /// The smallest radius of a new body.
    pub min_radius: int,
    /// The bound that the radius of a new body stays below.
    pub max_radius: int,
}

impl LaunchValues {
    /// The radii that may be drawn are those of valid bodies, and there is at
    /// least one; the launch distances are inside the world.
    pub open spec fn valid(self) -> bool {
        &&& 0 < self.min_radius < self.max_radius <= RADIUS_LIMIT + 1
        &&& 0 <= self.distance <= COORD_LIMIT
        &&& 0 <= self.power <= COORD_LIMIT
    }
}

impl View for Launch {
    type V = LaunchValues;

    closed spec fn view(&self) -> LaunchValues {
        LaunchValues {
            distance: self.distance as int,
            power: self.power as int,
            min_radius: self.min_radius as int,
            max_radius: self.max_radius as int,
        }
    }
}

impl Launch {
    /// Whether the values satisfy the invariant of `LaunchValues::valid`.
    pub open spec fn wf(&self) -> bool {
        self@.valid()
    }

    /// The launch with the given values, or `None` where they are not those
    /// of `LaunchValues::valid`.
    pub fn new(distance: i64, power: i64, min_radius: i64, max_radius: i64) -> (r: Option<Launch>)
        ensures
            r is Some <==> (LaunchValues {
                distance: distance as int,
                power: power as int,
                min_radius: min_radius as int,
                max_radius: max_radius as int,
            }).valid(),
            r is Some ==> r->Some_0.wf() && r->Some_0@ == (LaunchValues {
                distance: distance as int,
                power: power as int,
                min_radius: min_radius as int,
                max_radius: max_radius as int,
            }),
    {
        if 0 < min_radius && min_radius < max_radius && max_radius <= RADIUS_LIMIT + 1 && 0
            <= distance && distance <= COORD_LIMIT && 0 <= power && power <= COORD_LIMIT {
            Some(Launch { distance, power, min_radius, max_radius })
        } else {
            None
        }
    }
}

/// The vector `direction`, whose length is in units of `ONE`, stretched to
/// the length `length`: each component is `direction * length / ONE`, rounded
/// toward zero and saturated at the edge of the world.
pub open spec fn stretched(direction: Vector, length: int) -> Vector {
    Vector {
        x: saturate(trunc_div(direction.x * length, ONE as int)),
        y: saturate(trunc_div(direction.y * length, ONE as int)),
    }
}

/// The body that is launched in the given direction with the given radius and
/// colour: it appears at `distance` from the origin, and its previous centre
/// lies `power` farther out, so that it moves inward.
pub open spec fn launched(launch: LaunchValues, direction: Vector, radius: int, color: Color) -> BodyState {
    BodyState {
        position: stretched(direction, launch.distance),
        previous: stretched(direction, launch.distance + launch.power),
        radius,
        color,
    }
}

/// `direction` stretched to `length`.
fn stretch(direction: Vec2, length: i128) -> (v: Vec2)
    requires
        0 <= length <= 2 * COORD_LIMIT,
    ensures
        v@ == stretched(direction@, length as int),
        v@.in_world(),
{
    let dx: i128 = direction.x as i128;
    let dy: i128 = direction.y as i128;
    assert(-170141183460469231731687303715884105728 < dx * length
        < 170141183460469231731687303715884105728 && -170141183460469231731687303715884105728
        < dy * length < 170141183460469231731687303715884105728) by (nonlinear_arith)
        requires
            -9223372036854775808 <= dx <= 9223372036854775807,
            -9223372036854775808 <= dy <= 9223372036854775807,
            0 <= length <= 2305843009213693952,
    ;
    Vec2::new(
        saturating_coord(div_toward_zero(dx * length, ONE as i128)),
        saturating_coord(div_toward_zero(dy * length, ONE as i128)),
    )
}

/// Launches a body in the given direction with the given radius and colour.
/// The radius must be that of a valid body.
pub fn launch_body(launch: &Launch, direction: Vec2, radius: i64, color: Color) -> (r: Result<
    Body,
    BodyError,
>)
    requires
        launch.wf(),
    ensures
        radius <= 0 ==> r == Err::<Body, BodyError>(BodyError::NonPositiveRadius),
        radius > RADIUS_LIMIT ==> r == Err::<Body, BodyError>(BodyError::RadiusTooLarge),
        0 < radius <= RADIUS_LIMIT ==> r is Ok && r->Ok_0.wf() && r->Ok_0@ == launched(
            launch@,
            direction@,
            radius as int,
            color,
        ),
{
    let position = stretch(direction, launch.distance as i128);
    let previous = stretch(direction, launch.distance as i128 + launch.power as i128);
    Body::new(position, previous, radius, color)
}

/// An emitter: its angle, the angle it turns by in a frame, its period, and
/// how often it has been asked.
#[derive(Clone, Copy, Debug, PartialEq, Eq, Structural)]
pub struct Emitter {
    period: usize,
    count: usize,
    theta: u32,
    omega: u32,
}

/// The mathematical value of an `Emitter`.
pub struct EmitterState {
    /// Every `period`-th request fires.
    pub period: int,
    /// The number of requests that the emitter has had.
    pub count: int,
    /// The angle, in steps of which `FULL_TURN` make a turn.
    pub theta: int,
    /// The angle that the emitter turns by in a frame.
    pub omega: int,
}

impl EmitterState {
    /// The period is not zero, the counter is one that a machine can hold,
    /// and both angles are below a full turn.
    pub open spec fn valid(self) -> bool {
        &&& 1 <= self.period
        &&& 0 <= self.count <= usize::MAX
        &&& 0 <= self.theta < FULL_TURN
        &&& 0 <= self.omega < FULL_TURN
    }

    /// The emitter one frame later: turned by `omega`.
    pub open spec fn turned(self) -> EmitterState {
        EmitterState { theta: (self.theta + self.omega) % (FULL_TURN as int), ..self }
    }

    /// Whether the next request fires, colours permitting: it does where it
    /// is the `period`-th, or the `period`-th after one that fired.
    pub open spec fn due(self) -> bool {
        (self.count + 1) % self.period == 0
    }

    /// The emitter after one more request: the request has been counted. A
    /// counter that stands at the largest number a machine can hold starts
    /// again, at the remainder of the next number by the period, so that the
    /// emitter keeps firing on every `period`-th request.
    pub open spec fn asked(self) -> EmitterState {
        EmitterState {
            count: if self.count < usize::MAX {
                self.count + 1
            } else {
                (self.count + 1) % self.period
            },
            ..self
        }
    }
}

impl View for Emitter {
    type V = EmitterState;

    closed spec fn view(&self) -> EmitterState {
        EmitterState {
            period: self.period as int,
            count: self.count as int,
            theta: self.theta as int,
            omega: self.omega as int,
        }
    }
}

impl Emitter {
    /// Whether the emitter satisfies the invariant of `EmitterState::valid`.
    pub open spec fn wf(&self) -> bool {
        self@.valid()
    }

    /// An emitter at angle `theta` that turns by `omega` each frame and fires
    /// on every `period`-th request, or `None` where `period` is zero.
    pub fn new(period: usize, theta: u32, omega: u32) -> (e: Option<Emitter>)
        ensures
            period == 0 ==> e is None,
            period > 0 ==> e is Some && e->Some_0.wf() && e->Some_0@ == (EmitterState {
                period: period as int,
                count: 0,
                theta: theta as int,
                omega: omega as int,
            }),
    {
        if period == 0 {
            None
        } else {
            Some(Emitter { period, count: 0, theta, omega })
        }
    }

    /// An emitter at a random angle, with a random turn per frame from
    /// `min_omega` up to, but not including, `max_omega`. `None` where
    /// `period` is zero or no such turn exists.
    pub fn random(rng: &mut SmallRng, period: usize, min_omega: u32, max_omega: u32) -> (e: Option<
        Emitter,
    >)
        ensures
            (period == 0 || min_omega >= max_omega) ==> e is None,
            (period > 0 && min_omega < max_omega) ==> e is Some && e->Some_0.wf() && e->Some_0@.period
                == period && e->Some_0@.count == 0 && min_omega <= e->Some_0@.omega < max_omega,
    {
        if period == 0 || min_omega >= max_omega {
            return None;
        }
        let theta = draw(rng, 0, 4294967296) as u32;
        let omega = draw(rng, min_omega as i64, max_omega as i64) as u32;
        Some(Emitter { period, count: 0, theta, omega })
    }

    /// The angle, in steps of which `FULL_TURN` make a turn.
    pub fn theta(&self) -> (t: u32)
        ensures
            t == self@.theta,
    {
        self.theta
    }

    /// The angle that the emitter turns by in a frame.
    pub fn omega(&self) -> (t: u32)
        ensures
            t == self@.omega,
    {
        self.omega
    }

    /// The number of requests that the emitter has had.
    pub fn count(&self) -> (n: usize)
        ensures
            n == self@.count,
    {
        self.count
    }

    /// Every `period`-th request fires.
    pub fn period(&self) -> (n: usize)
        ensures
            n == self@.period,
    {
        self.period
    }

    /// Turns the emitter by one frame.
    pub fn update(&mut self)
        requires
            old(self).wf(),
        ensures
            final(self)@ == old(self)@.turned(),
            final(self).wf(),
    {
        let sum: u64 = self.theta as u64 + self.omega as u64;
        self.theta = (sum % FULL_TURN) as u32;
    }

    /// Asks the emitter for a body, and counts the request. It launches one,
    /// in the given direction, on every `period`-th request if a colour is
    /// left: the body takes the first colour of the supply and a radius drawn
    /// from the launch's range. Otherwise the supply is left alone and no
    /// number is drawn.
    pub fn emit(
        &mut self,
        launch: &Launch,
        colors: &mut VecDeque<Color>,
        rng: &mut SmallRng,
        direction: Vec2,
    ) -> (out: Option<Body>)
        requires
            old(self).wf(),
            launch.wf(),
        ensures
            final(self)@ == old(self)@.asked(),
            final(self).wf(),
            out is Some <==> old(self)@.due() && old(colors)@.len() > 0,
            out is Some ==> {
                let b = out->Some_0;
                &&& b.wf()
                &&& launch@.min_radius <= b@.radius < launch@.max_radius
                &&& b@ == launched(launch@, direction@, b@.radius, old(colors)@[0])
                &&& final(colors)@ == old(colors)@.skip(1)
            },
            out is None ==> final(colors)@ == old(colors)@,
            out is None ==> *final(rng) == *old(rng),
    {
        let next: u128 = self.count as u128 + 1;
        let due = next % (self.period as u128) == 0;
        if self.count < usize::MAX {
            self.count = self.count + 1;
        } else {
            self.count = (next % (self.period as u128)) as usize;
        }
        if !due {
            return None;
        }
        match colors.pop_front() {
            None => None,
            Some(color) => {
                let radius = draw(rng, launch.min_radius, launch.max_radius);
                launch_body(launch, direction, radius, color).ok()
            },
        }
    }
}

} // verus!
