//! A whole simulation: bodies, emitters, the colours still to be given out,
//! and the random source.
//!
//! A frame has three parts. The emitters turn. Then each emitter is asked for
//! a body; because the direction of an emitter is the cosine and sine of its
//! angle, which this library does not compute, the caller asks beforehand for
//! the angles that the emitters will have after the turn and hands the
//! directions in. Last, the bodies advance by the frame's time. `frame` does
//! the three in this order.
use crate::body::{Body, BodyState, Color};
use crate::emitter::{launched, Emitter, EmitterState, Launch, LaunchValues};
use crate::rng::seeded;
use crate::sampling::{average_color, get_colors, Image};
use crate::scheduler::{advanced, World};
use crate::store::{all_valid, BodyStore};
use crate::vector::Vec2;
use rand::rngs::SmallRng;
use std::collections::VecDeque;
use vstd::prelude::*;

verus! {

/// How many emitters a simulation has and how they are made.
#[derive(Clone, Copy, Debug, PartialEq, Eq, Structural)]
pub struct EmitterPlan {
    /// The number of emitters.
    pub count: usize,
    /// Each emitter fires on every `period`-th request.
    pub period: usize,
    /// The smallest turn per frame of an emitter, in angle steps.
    pub min_omega: u32,
    /// The bound that the turn per frame of an emitter stays below.
    pub max_omega: u32,
}

impl EmitterPlan {
    /// The period is not zero and some turn per frame can be drawn.
    pub open spec fn wf(&self) -> bool {
        self.period > 0 && self.min_omega < self.max_omega
    }

    /// Whether the values satisfy `wf`.
    pub fn is_valid(&self) -> (ok: bool)
        ensures
            ok == self.wf(),
    {
        self.period > 0 && self.min_omega < self.max_omega
    }
}

/// Why a simulation could not be made or a request not be met.
#[derive(Clone, Copy, Debug, PartialEq, Eq, Structural)]
pub enum ModelError {
    /// The emitter plan is not that of `EmitterPlan::wf`.
    BadPlan,
    /// There is not one direction for each emitter.
    DirectionCount,
}

/// A simulation.
pub struct Model {
    colors: VecDeque<Color>,
    balls: BodyStore,
    emitters: Vec<Emitter>,
    rng: SmallRng,
    world: World,
    launch: Launch,
}

/// The mathematical value of a `Model`: everything but the state of the
/// random source.
pub struct ModelState {
    pub colors: Seq<Color>,
    pub balls: Seq<BodyState>,
    pub emitters: Seq<EmitterState>,
    pub world: World,
    pub launch: LaunchValues,
}

/// Whether every emitter of the sequence is valid.
pub open spec fn emitters_valid(s: Seq<EmitterState>) -> bool {
    forall|i: int| 0 <= i < s.len() ==> (#[trigger] s[i]).valid()
}

/// The indices, in order, of those of the first `i` emitters that fire on
/// their next request.
pub open spec fn due_before(emitters: Seq<EmitterState>, i: int) -> Seq<int>
    decreases i,
{
    if i <= 0 {
        Seq::empty()
    } else if emitters[i - 1].due() {
        due_before(emitters, i - 1).push(i - 1)
    } else {
        due_before(emitters, i - 1)
    }
}

/// How many bodies the first `i` emitters launch when each is asked once and
/// `colors` colours are left: one for each emitter that is due, until the
/// colours run out.
pub open spec fn launch_count(emitters: Seq<EmitterState>, i: int, colors: int) -> int {
    if due_before(emitters, i).len() <= colors {
        due_before(emitters, i).len() as int
    } else {
        colors
    }
}

impl ModelState {
    /// The bodies and the emitters are valid, and so are the launch values.
    pub open spec fn valid(self) -> bool {
        &&& all_valid(self.balls)
        &&& emitters_valid(self.emitters)
        &&& self.launch.valid()
    }

    /// Whether a frame begins by turning the emitters and asking them for
    /// bodies: it does as long as a colour is left.
    pub open spec fn spawning(self) -> bool {
        self.colors.len() > 0
    }

    /// The simulation after its emitters have turned by one frame, which
    /// they do as long as a colour is left.
    pub open spec fn turned(self) -> ModelState {
        if self.spawning() {
            ModelState { emitters: self.emitters.map_values(|e: EmitterState| e.turned()), ..self }
        } else {
            self
        }
    }

    /// The simulation after its bodies have advanced by one frame.
    pub open spec fn stepped(self, frame_delta: int, substeps: nat) -> ModelState {
        ModelState { balls: advanced(self.balls, self.world, frame_delta, substeps), ..self }
    }

    /// Whether `after` is what the second part of a frame can leave behind:
    /// as long as a colour is left, each emitter is asked once; after that,
    /// nothing happens.
    pub open spec fn asked(self, directions: Seq<Vec2>, after: ModelState) -> bool {
        if self.spawning() {
            self.spawned(directions, after)
        } else {
            after == self
        }
    }

    /// Whether `after` is what one whole frame can leave behind: the emitters
    /// turn, then each is asked for a body, then the bodies advance.
    pub open spec fn framed(
        self,
        directions: Seq<Vec2>,
        frame_delta: int,
        substeps: nat,
        after: ModelState,
    ) -> bool {
        exists|mid: ModelState| #[trigger]
            self.turned().asked(directions, mid) && after == mid.stepped(frame_delta, substeps)
    }

    /// Whether `after` is what asking each emitter once, with the given
    /// directions, can leave behind. The emitters have all been asked. Those
    /// that were due have each launched a body, in order, until the colours
    /// ran out: the new bodies stand behind the old ones, each in the
    /// direction of its emitter, with the next colour of the supply and a
    /// radius of the launch's range.
    pub open spec fn spawned(self, directions: Seq<Vec2>, after: ModelState) -> bool {
        let due = due_before(self.emitters, self.emitters.len() as int);
        let n = launch_count(self.emitters, self.emitters.len() as int, self.colors.len() as int);
        &&& after.world == self.world
        &&& after.launch == self.launch
        &&& after.emitters.len() == self.emitters.len()
        &&& forall|k: int|
            0 <= k < self.emitters.len() ==> #[trigger] after.emitters[k]
                == self.emitters[k].asked()
        &&& after.colors == self.colors.skip(n)
        &&& after.balls.len() == self.balls.len() + n
        &&& forall|k: int| 0 <= k < self.balls.len() ==> #[trigger] after.balls[k] == self.balls[k]
        &&& forall|j: int|
            0 <= j < n ==> {
                let b = #[trigger] after.balls[self.balls.len() + j];
                &&& self.launch.min_radius <= b.radius < self.launch.max_radius
                &&& b == launched(self.launch, directions[due[j]]@, b.radius, self.colors[j])
            }
    }
}

/// The indices of the emitters that are due are indices of emitters, and
/// asking one more emitter only adds to them.
pub proof fn lemma_due_before(emitters: Seq<EmitterState>, i: int)
    requires
        0 <= i <= emitters.len(),
    ensures
        due_before(emitters, i).len() <= i,
        forall|j: int|
            0 <= j < due_before(emitters, i).len() ==> 0 <= #[trigger] due_before(emitters, i)[j]
                < i,
    decreases i,
{
    if i > 0 {
        lemma_due_before(emitters, i - 1);
    }
}

impl View for Model {
    type V = ModelState;

    closed spec fn view(&self) -> ModelState {
        ModelState {
            colors: self.colors@,
            balls: self.balls@,
            emitters: self.emitters@.map_values(|e: Emitter| e@),
            world: self.world,
            launch: self.launch@,
        }
    }
}

/// `count` emitters made to the plan, each at a random angle and with a
/// random turn per frame.
fn random_emitters(rng: &mut SmallRng, plan: &EmitterPlan) -> (out: Vec<Emitter>)
    requires
        plan.wf(),
    ensures
        out@.len() == plan.count,
        forall|i: int|
            0 <= i < out@.len() ==> {
                let e = #[trigger] out@[i];
                &&& e.wf()
                &&& e@.period == plan.period
                &&& e@.count == 0
                &&& plan.min_omega <= e@.omega < plan.max_omega
            },
{
    let mut out: Vec<Emitter> = Vec::new();
    let mut i: usize = 0;
    while i < plan.count
        invariant
            plan.wf(),
            i <= plan.count,
            out@.len() == i,
            forall|k: int|
                0 <= k < out@.len() ==> {
                    let e = #[trigger] out@[k];
                    &&& e.wf()
                    &&& e@.period == plan.period
                    &&& e@.count == 0
                    &&& plan.min_omega <= e@.omega < plan.max_omega
                },
        decreases plan.count - i,
    {
        if let Some(e) = Emitter::random(rng, plan.period, plan.min_omega, plan.max_omega) {
            out.push(e);
        }
        i += 1;
    }
    out
}

impl Model {
    /// Whether the simulation satisfies the invariant of `ModelState::valid`.
    pub open spec fn wf(&self) -> bool {
        self@.valid()
    }

    /// A simulation with no bodies, the given supply of colours, a random
    /// source started from `seed`, and emitters made to the plan.
    pub fn new(
        world: World,
        launch: Launch,
        plan: EmitterPlan,
        colors: VecDeque<Color>,
        seed: [u8; 16],
    ) -> (r: Result<Model, ModelError>)
        requires
            launch.wf(),
        ensures
            !plan.wf() ==> r == Err::<Model, ModelError>(ModelError::BadPlan),
            plan.wf() ==> r is Ok && {
                let m = r->Ok_0;
                &&& m.wf()
                &&& m@.world == world
                &&& m@.launch == launch@
                &&& m@.colors == colors@
                &&& m@.balls == Seq::<BodyState>::empty()
                &&& m@.emitters.len() == plan.count
                &&& forall|i: int|
                    0 <= i < plan.count ==> {
                        let e = #[trigger] m@.emitters[i];
                        &&& e.period == plan.period
                        &&& e.count == 0
                        &&& plan.min_omega <= e.omega < plan.max_omega
                    }
            },
    {
        if !plan.is_valid() {
            return Err(ModelError::BadPlan);
        }
        let mut rng = seeded(seed);
        let emitters = random_emitters(&mut rng, &plan);
        Ok(Model { colors, balls: BodyStore::new(), emitters, rng, world, launch })
    }

    /// The bodies.
    pub fn balls(&self) -> (b: &BodyStore)
        ensures
            b@ == self@.balls,
    {
        &self.balls
    }

    /// The number of colours that are left.
    pub fn colors_left(&self) -> (n: usize)
        ensures
            n == self@.colors.len(),
    {
        self.colors.len()
    }

    /// The angle of each emitter, in angle steps.
    pub fn angles(&self) -> (out: Vec<u32>)
        ensures
            out@.len() == self@.emitters.len(),
            forall|i: int| 0 <= i < out@.len() ==> out@[i] == self@.emitters[i].theta,
    {
        let mut out: Vec<u32> = Vec::new();
        let n = self.emitters.len();
        let mut i: usize = 0;
        while i < n
            invariant
                i <= n,
                n == self.emitters@.len(),
                out@.len() == i,
                forall|k: int| 0 <= k < i ==> out@[k] == self@.emitters[k].theta,
            decreases n - i,
        {
            out.push(self.emitters[i].theta());
            i += 1;
        }
        out
    }

    /// Adds a body behind the others.
    pub fn add_body(&mut self, body: Body)
        requires
            old(self).wf(),
            body.wf(),
        ensures
            final(self)@ == (ModelState { balls: old(self)@.balls.push(body@), ..old(self)@ }),
            final(self).wf(),
    {
        self.balls.append(body);
    }

    /// Turns every emitter by one frame, if a colour is left.
    pub fn turn(&mut self)
        requires
            old(self).wf(),
        ensures
            final(self).wf(),
            final(self)@ == old(self)@.turned(),
    {
        if self.colors.len() == 0 {
            return ;
        }
        let n = self.emitters.len();
        let mut i: usize = 0;
        while i < n
            invariant
                i <= n,
                n == self.emitters@.len(),
                n == old(self)@.emitters.len(),
                self.wf(),
                self@.colors == old(self)@.colors,
                self@.balls == old(self)@.balls,
                self@.world == old(self)@.world,
                self@.launch == old(self)@.launch,
                forall|k: int| 0 <= k < i ==> self@.emitters[k] == old(self)@.emitters[k].turned(),
                forall|k: int| i <= k < n ==> self@.emitters[k] == old(self)@.emitters[k],
            decreases n - i,
        {
            let ghost emitters = self@.emitters;
            let mut e = self.emitters[i];
            assert(e@ == emitters[i as int]);
            e.update();
            self.emitters.set(i, e);
            assert(self@.emitters =~= emitters.update(i as int, e@));
            i += 1;
        }
        assert(self@.emitters =~= old(self)@.emitters.map_values(|e: EmitterState| e.turned()));
    }

    /// Asks every emitter once for a body, if a colour is left, and puts the
    /// bodies behind the others. `directions` holds the direction of each
    /// emitter, as a vector of length `ONE`. Returns the number of new bodies.
    pub fn spawn(&mut self, directions: &Vec<Vec2>) -> (r: Result<usize, ModelError>)
        requires
            old(self).wf(),
        ensures
            final(self).wf(),
            directions@.len() != old(self)@.emitters.len() ==> r == Err::<usize, ModelError>(
                ModelError::DirectionCount,
            ) && final(self)@ == old(self)@,
            directions@.len() == old(self)@.emitters.len() && !old(self)@.spawning() ==> r == Ok::<
                usize,
                ModelError,
            >(0) && final(self)@ == old(self)@,
            directions@.len() == old(self)@.emitters.len() && old(self)@.spawning() ==> r is Ok
                && r->Ok_0 == launch_count(
                old(self)@.emitters,
                old(self)@.emitters.len() as int,
                old(self)@.colors.len() as int,
            ) && old(self)@.spawned(directions@, final(self)@),
            directions@.len() == old(self)@.emitters.len() ==> old(self)@.asked(
                directions@,
                final(self)@,
            ) && r->Ok_0 + old(self)@.balls.len() == final(self)@.balls.len(),
    {
        let n = self.emitters.len();
        if directions.len() != n {
            return Err(ModelError::DirectionCount);
        }
        if self.colors.len() == 0 {
            return Ok(0);
        }
        let ghost before = self@;
        let ghost base = before.balls.len() as int;
        let mut made: usize = 0;
        let mut i: usize = 0;
        while i < n
            invariant
                i <= n,
                n == self.emitters@.len(),
                n == before.emitters.len(),
                n == directions@.len(),
                before == old(self)@,
                before.valid(),
                base == before.balls.len(),
                self.wf(),
                self@.world == before.world,
                self@.launch == before.launch,
                forall|k: int| 0 <= k < i ==> self@.emitters[k] == before.emitters[k].asked(),
                forall|k: int| i <= k < n ==> self@.emitters[k] == before.emitters[k],
                made == launch_count(before.emitters, i as int, before.colors.len() as int),
                made <= i,
                self@.colors == before.colors.skip(made as int),
                self@.balls.len() == base + made,
                forall|k: int| 0 <= k < base ==> self@.balls[k] == before.balls[k],
                forall|j: int|
                    0 <= j < made ==> {
                        let b = #[trigger] self@.balls[base + j];
                        &&& before.launch.min_radius <= b.radius < before.launch.max_radius
                        &&& b == launched(
                            before.launch,
                            directions@[due_before(before.emitters, i as int)[j]]@,
                            b.radius,
                            before.colors[j],
                        )
                    },
            decreases n - i,
        {
            proof {
                lemma_due_before(before.emitters, i as int);
            }
            let ghost due = due_before(before.emitters, i as int);
            let ghost balls_before = self@.balls;
            let ghost emitters = self@.emitters;
            let mut e = self.emitters[i];
            assert(e@ == emitters[i as int]);
            let out = e.emit(&self.launch, &mut self.colors, &mut self.rng, directions[i]);
            self.emitters.set(i, e);
            assert(self@.emitters =~= emitters.update(i as int, e@));
            match out {
                Some(b) => {
                    self.balls.append(b);
                    made += 1;
                    proof {
                        let next = due_before(before.emitters, i + 1);
                        assert(next == due.push(i as int));
                        assert forall|j: int| 0 <= j < made implies {
                            let b = #[trigger] self@.balls[base + j];
                            &&& before.launch.min_radius <= b.radius < before.launch.max_radius
                            &&& b == launched(
                                before.launch,
                                directions@[next[j]]@,
                                b.radius,
                                before.colors[j],
                            )
                        } by {
                            if j < made - 1 {
                                assert(self@.balls[base + j] == balls_before[base + j]);
                                assert(next[j] == due[j]);
                            }
                        }
                    }
                },
                None => {
                    proof {
                        let next = due_before(before.emitters, i + 1);
                        assert forall|j: int| 0 <= j < made implies next[j] == due[j] by {}
                    }
                },
            }
            i += 1;
        }
        Ok(made)
    }

    /// Advances the bodies by one frame of `frame_delta` ticks of a second,
    /// in `substeps` equal substeps.
    pub fn step(&mut self, frame_delta: i64, substeps: usize)
        requires
            old(self).wf(),
        ensures
            final(self).wf(),
            final(self)@ == old(self)@.stepped(frame_delta as int, substeps as nat),
            final(self)@.balls.len() == old(self)@.balls.len(),
    {
        let world = self.world;
        self.balls.advance(&world, frame_delta, substeps);
    }

    /// One whole frame: the emitters turn, each is asked for a body in the
    /// direction given for it, and the bodies advance by `frame_delta` ticks
    /// of a second in `substeps` substeps. The directions are those of the
    /// emitters after the turn, which `angles_after_turn` gives beforehand.
    /// Returns the number of new bodies.
    pub fn frame(&mut self, directions: &Vec<Vec2>, frame_delta: i64, substeps: usize) -> (r:
        Result<usize, ModelError>)
        requires
            old(self).wf(),
        ensures
            final(self).wf(),
            directions@.len() != old(self)@.emitters.len() ==> r == Err::<usize, ModelError>(
                ModelError::DirectionCount,
            ) && final(self)@ == old(self)@,
            directions@.len() == old(self)@.emitters.len() ==> r is Ok && old(self)@.framed(
                directions@,
                frame_delta as int,
                substeps as nat,
                final(self)@,
            ) && r->Ok_0 + old(self)@.balls.len() == final(self)@.balls.len(),
    {
        if directions.len() != self.emitters.len() {
            return Err(ModelError::DirectionCount);
        }
        self.turn();
        let made = self.spawn(directions);
        let ghost mid = self@;
        self.step(frame_delta, substeps);
        proof {
            assert(old(self)@.turned().asked(directions@, mid));
        }
        made
    }

    /// The angle that each emitter will have after the turn of the next
    /// frame, in angle steps.
    pub fn angles_after_turn(&self) -> (out: Vec<u32>)
        requires
            self.wf(),
        ensures
            out@.len() == self@.emitters.len(),
            forall|i: int| 0 <= i < out@.len() ==> out@[i] == self@.turned().emitters[i].theta,
    {
        if self.colors.len() == 0 {
            return self.angles();
        }
        let mut out: Vec<u32> = Vec::new();
        let n = self.emitters.len();
        let mut i: usize = 0;
        while i < n
            invariant
                i <= n,
                n == self.emitters@.len(),
                self.wf(),
                self@.spawning(),
                out@.len() == i,
                forall|k: int| 0 <= k < i ==> out@[k] == self@.emitters[k].turned().theta,
            decreases n - i,
        {
            let mut e = self.emitters[i];
            assert(e@ == self@.emitters[i as int]);
            e.update();
            out.push(e.theta());
            i += 1;
        }
        out
    }

    /// The emitter at index `i`, or `None` where there is none.
    pub fn emitter(&self, i: usize) -> (e: Option<Emitter>)
        ensures
            i < self@.emitters.len() ==> e is Some && e->Some_0@ == self@.emitters[i as int],
            i >= self@.emitters.len() ==> e is None,
    {
        if i < self.emitters.len() {
            Some(self.emitters[i])
        } else {
            None
        }
    }

    /// Starts the simulation over with the given supply of colours: the
    /// bodies are removed, the random source is started from `seed`, and new
    /// emitters are made to the plan.
    pub fn restart(&mut self, plan: EmitterPlan, colors: VecDeque<Color>, seed: [u8; 16]) -> (r:
        Result<(), ModelError>)
        requires
            old(self).wf(),
        ensures
            final(self).wf(),
            !plan.wf() ==> r == Err::<(), ModelError>(ModelError::BadPlan) && final(self)@ == old(
                self,
            )@,
            plan.wf() ==> r is Ok && {
                let m = final(self)@;
                &&& m.world == old(self)@.world
                &&& m.launch == old(self)@.launch
                &&& m.balls == Seq::<BodyState>::empty()
                &&& m.colors == colors@
                &&& m.emitters.len() == plan.count
                &&& forall|i: int|
                    0 <= i < plan.count ==> {
                        let e = #[trigger] m.emitters[i];
                        &&& e.period == plan.period
                        &&& e.count == 0
                        &&& plan.min_omega <= e.omega < plan.max_omega
                    }
            },
    {
        if !plan.is_valid() {
            return Err(ModelError::BadPlan);
        }
        self.colors = colors;
        self.balls.clear();
        self.rng = seeded(seed);
        self.emitters = random_emitters(&mut self.rng, &plan);
        Ok(())
    }

    /// Starts the simulation over with colours from a picture. The colour that
    /// each body covers in the picture becomes the colour of the body that
    /// will be launched in its turn: the new supply holds, in store order, the
    /// average colour under each body. Otherwise as `restart`.
    pub fn reset(&mut self, image: &Image, plan: EmitterPlan, seed: [u8; 16]) -> (r: Result<
        (),
        ModelError,
    >)
        requires
            old(self).wf(),
            image.wf(),
        ensures
            final(self).wf(),
            !plan.wf() ==> r == Err::<(), ModelError>(ModelError::BadPlan) && final(self)@ == old(
                self,
            )@,
            plan.wf() ==> r is Ok && {
                let m = final(self)@;
                &&& m.world == old(self)@.world
                &&& m.launch == old(self)@.launch
                &&& m.balls == Seq::<BodyState>::empty()
                &&& m.colors.len() == old(self)@.balls.len()
                &&& forall|i: int|
                    0 <= i < m.colors.len() ==> #[trigger] m.colors[i] == average_color(
                        image@,
                        old(self)@.balls[i],
                    )
                &&& m.emitters.len() == plan.count
                &&& forall|i: int|
                    0 <= i < plan.count ==> {
                        let e = #[trigger] m.emitters[i];
                        &&& e.period == plan.period
                        &&& e.count == 0
                        &&& plan.min_omega <= e.omega < plan.max_omega
                    }
            },
    {
        if !plan.is_valid() {
            return Err(ModelError::BadPlan);
        }
        let colors = get_colors(&self.balls, image);
        self.restart(plan, colors, seed)
    }
}

} // verus!
