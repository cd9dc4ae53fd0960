//! Following particles through a medium of constant cross sections.
//!
//! The geometry, the random numbers and the arithmetic come from outside. What
//! happens next to a particle, and what is counted, is decided here: each step
//! takes what was asked for and says what to do.

use crate::binary64::Binary64;
use crate::geometry::{BoundaryCondition, Vec3};
use vstd::prelude::*;

verus! {

/// An axis.
#[derive(Clone, Copy, Debug, PartialEq, Eq, Structural)]
pub enum Axis {
    X,
    Y,
    Z,
}

/// The surface ahead of a particle.
#[derive(Clone, Copy, Debug, PartialEq, Eq, Structural)]
pub struct Hit {
    pub distance: Binary64,
    pub bc: BoundaryCondition,
    /// The axis that the surface is a plane across, where it is one.
    pub across: Option<Axis>,
    /// Whether there is a cell behind the surface.
    pub has_next: bool,
}

/// What fills the place of a particle.
#[derive(Clone, Copy, Debug, PartialEq, Eq, Structural)]
pub enum Medium {
    Void,
    Material(usize),
}

/// How a history ended.
#[derive(Clone, Copy, Debug, PartialEq, Eq, Structural)]
pub enum End {
    /// The particle left the geometry, was born outside, or met a medium without
    /// cross section.
    Leaked,
    Absorbed,
    /// The limit of events was reached.
    Exhausted,
}

/// What a history waits for.
#[derive(Clone, Copy, Debug, PartialEq, Eq, Structural)]
pub enum Stage {
    /// Whether the place of birth is in the geometry.
    Unborn,
    /// What fills the place.
    AtEvent,
    /// The surface ahead, in a void.
    InVoid,
    /// The total cross section of a material.
    InMedium(usize),
    /// The sampled flight and the surface ahead.
    InFlight(usize),
    /// The reaction number, after a collision.
    Collided(usize),
    /// The fission number, after an absorption.
    Absorbed(usize),
    /// The number of fission neutrons.
    Fissioned(usize),
    Ended(End),
}

/// What a history is told.
#[derive(Clone, Copy, Debug, PartialEq, Eq, Structural)]
pub enum Input {
    Located(bool),
    Filled(Medium),
    Traced(Option<Hit>),
    Total(Binary64),
    Flight { d_collide: Binary64, hit: Option<Hit> },
    /// A random number times the total cross section, with the absorption cross
    /// section.
    Reaction { xi: Binary64, sigma_a: Binary64 },
    /// A random number, with the share of absorptions that are fissions.
    FissionDraw { xi: Binary64, share: Binary64 },
    Yield { neutrons: i32, site: Vec3 },
}

/// What a history does.
#[derive(Clone, Copy, Debug, PartialEq, Eq, Structural)]
pub enum Motion {
    /// Nothing yet.
    Wait,
    /// Go to the surface and turn the direction round on the axis, where there is
    /// one.
    Reflect { distance: Binary64, across: Option<Axis> },
    /// Go through the surface into the next cell.
    Pass { distance: Binary64 },
    /// Go to the place of collision.
    Collide,
    /// Take a new direction.
    Scatter,
    /// Nothing more.
    Stop(End),
}

/// What a crossing comes to.
pub open spec fn crossing(hit: Option<Hit>) -> Motion {
    match hit {
        None => Motion::Stop(End::Leaked),
        Some(h) => match h.bc {
            BoundaryCondition::Vacuum => Motion::Stop(End::Leaked),
            BoundaryCondition::Reflective => Motion::Reflect { distance: h.distance, across: h.across },
            BoundaryCondition::Transmission => if h.has_next {
                Motion::Pass { distance: h.distance }
            } else {
                Motion::Stop(End::Leaked)
            },
        },
    }
}

/// The input is what the stage waits for.
pub open spec fn expects(stage: Stage, input: Input) -> bool {
    match stage {
        Stage::Unborn => input is Located,
        Stage::AtEvent => input is Filled,
        Stage::InVoid => input is Traced,
        Stage::InMedium(_) => input is Total,
        Stage::InFlight(_) => input is Flight,
        Stage::Collided(_) => input is Reaction,
        Stage::Absorbed(_) => input is FissionDraw,
        Stage::Fissioned(_) => input is Yield,
        Stage::Ended(_) => false,
    }
}

/// A flight ends in a collision: the particle collides before the surface.
pub open spec fn collides(d_collide: Binary64, hit: Option<Hit>) -> bool {
    hit is Some && d_collide.less(hit->0.distance)
}

/// What a history does on an input.
pub open spec fn motion_on(stage: Stage, input: Input, left: nat) -> Motion {
    match (stage, input) {
        (Stage::Unborn, Input::Located(found)) => if !found {
            Motion::Stop(End::Leaked)
        } else if left == 0 {
            Motion::Stop(End::Exhausted)
        } else {
            Motion::Wait
        },
        (Stage::InVoid, Input::Traced(hit)) => crossing(hit),
        (Stage::InMedium(_), Input::Total(sigma_t)) => if sigma_t.at_most(Binary64 { bits: 0 }) {
            Motion::Stop(End::Leaked)
        } else {
            Motion::Wait
        },
        (Stage::InFlight(_), Input::Flight { d_collide, hit }) => if collides(d_collide, hit) {
            Motion::Collide
        } else {
            crossing(hit)
        },
        (Stage::Collided(_), Input::Reaction { xi, sigma_a }) => if !xi.less(sigma_a) {
            Motion::Scatter
        } else if (Binary64 { bits: 0 }).less(sigma_a) {
            Motion::Wait
        } else {
            Motion::Stop(End::Absorbed)
        },
        (Stage::Absorbed(_), Input::FissionDraw { xi, share }) => if xi.less(share) {
            Motion::Wait
        } else {
            Motion::Stop(End::Absorbed)
        },
        (Stage::Fissioned(_), Input::Yield { .. }) => Motion::Stop(End::Absorbed),
        _ => Motion::Wait,
    }
}

/// The next event, or the end where the limit is reached.
pub open spec fn resumed(left: nat) -> Stage {
    if left == 0 {
        Stage::Ended(End::Exhausted)
    } else {
        Stage::AtEvent
    }
}

/// What a history waits for after an input.
pub open spec fn stage_after(stage: Stage, input: Input, left: nat) -> Stage {
    match motion_on(stage, input, left) {
        Motion::Stop(end) => Stage::Ended(end),
        Motion::Reflect { .. } => resumed(left),
        Motion::Pass { .. } => resumed(left),
        Motion::Scatter => resumed(left),
        Motion::Collide => match stage {
            Stage::InFlight(m) => Stage::Collided(m),
            _ => stage,
        },
        Motion::Wait => match stage {
            Stage::Unborn => Stage::AtEvent,
            Stage::AtEvent => match input->Filled_0 {
                Medium::Void => Stage::InVoid,
                Medium::Material(m) => Stage::InMedium(m),
            },
            Stage::InMedium(m) => Stage::InFlight(m),
            Stage::Collided(m) => Stage::Absorbed(m),
            Stage::Absorbed(m) => Stage::Fissioned(m),
            _ => stage,
        },
    }
}

/// Neutrons that an input puts in the bank.
pub open spec fn neutrons_of(stage: Stage, input: Input) -> nat {
    match (stage, input) {
        (Stage::Fissioned(_), Input::Yield { neutrons, .. }) => if neutrons > 0 {
            neutrons as nat
        } else {
            0
        },
        _ => 0,
    }
}

/// One where a thing happened.
pub open spec fn once(happened: bool) -> int {
    if happened {
        1
    } else {
        0
    }
}

/// A history was started, and how it ends is not counted yet.
pub open spec fn under_way(stage: Stage) -> bool {
    match stage {
        Stage::AtEvent => true,
        Stage::InVoid => true,
        Stage::InMedium(_) => true,
        Stage::InFlight(_) => true,
        Stage::Collided(_) => true,
        _ => false,
    }
}

/// The run of a batch of particles.
pub struct Transport {
    /// Events allowed to each history.
    pub max_events: u32,
    pub stage: Stage,
    /// Events left to the current history.
    pub left: u32,
    /// Histories that were started.
    pub histories: u64,
    /// Histories that ended because no event was left to them.
    pub exhausted: u64,
    pub collisions: u64,
    pub absorptions: u64,
    pub fissions: u64,
    pub leakage: u64,
    /// Where fission neutrons were born.
    pub bank: Vec<Vec3>,
}

impl Transport {
    /// Counts are consistent: every history that was started and is no longer under
    /// way was absorbed, leaked or exhausted, and is counted once. No more are
    /// absorbed than collide, there is one banked site for each fission neutron, and
    /// an event is left wherever one is about to start.
    pub open spec fn wf(self) -> bool {
        &&& self.histories == self.absorptions + self.leakage + self.exhausted + once(under_way(self.stage))
        &&& self.absorptions <= self.collisions
        &&& self.fissions == self.bank@.len()
        &&& self.left <= self.max_events
        &&& self.stage == Stage::AtEvent ==> self.left > 0
        &&& self.stage == Stage::Unborn ==> self.left == self.max_events
        &&& self.stage is Collided ==> self.absorptions < self.collisions
    }

    /// No counter is about to overflow.
    pub open spec fn has_room(self) -> bool {
        &&& self.histories < u64::MAX
        &&& self.collisions < u64::MAX
        &&& self.fissions + i32::MAX <= u64::MAX
    }

    /// A run that followed nothing yet.
    pub fn new(max_events: u32) -> (r: Self)
        ensures
            r.wf(),
            r.max_events == max_events,
            r.stage == Stage::Unborn,
            r.histories == 0 && r.exhausted == 0,
            r.collisions == 0 && r.absorptions == 0 && r.fissions == 0 && r.leakage == 0,
            r.bank@.len() == 0,
    {
        Transport {
            max_events,
            stage: Stage::Unborn,
            left: max_events,
            histories: 0,
            exhausted: 0,
            collisions: 0,
            absorptions: 0,
            fissions: 0,
            leakage: 0,
            bank: Vec::new(),
        }
    }

    /// Gets ready for the next history, where none is going on.
    pub fn next_history(&mut self)
        requires
            old(self).wf(),
            old(self).stage is Ended || old(self).stage == Stage::Unborn,
        ensures
            final(self).wf(),
            *final(self) == (Transport { stage: Stage::Unborn, left: old(self).max_events, ..*old(self) }),
    {
        self.stage = Stage::Unborn;
        self.left = self.max_events;
    }

    /// Takes an input, counts what it means, and says what to do.
    pub fn step(&mut self, input: Input) -> (r: Motion)
        requires
            old(self).wf(),
            old(self).has_room(),
            expects(old(self).stage, input),
        ensures
            final(self).wf(),
            final(self).max_events == old(self).max_events,
            r == motion_on(old(self).stage, input, old(self).left as nat),
            final(self).stage == stage_after(old(self).stage, input, old(self).left as nat),
            final(self).left == old(self).left - once(old(self).stage == Stage::AtEvent),
            final(self).histories == old(self).histories + once(old(self).stage == Stage::Unborn),
            final(self).exhausted == old(self).exhausted + once(final(self).stage == Stage::Ended(End::Exhausted)),
            final(self).collisions == old(self).collisions + once(r == Motion::Collide),
            final(self).absorptions == old(self).absorptions + once(
                old(self).stage is Collided && r != Motion::Scatter,
            ),
            final(self).leakage == old(self).leakage + once(r == Motion::Stop(End::Leaked)),
            final(self).fissions == old(self).fissions + neutrons_of(old(self).stage, input),
            final(self).bank@.len() == old(self).bank@.len() + neutrons_of(old(self).stage, input),
            final(self).bank@.take(old(self).bank@.len() as int) == old(self).bank@,
            forall|i: int|
                old(self).bank@.len() <= i < final(self).bank@.len() ==> #[trigger] final(self).bank@[i]
                    == input->Yield_site,
    {
        assert(self.bank@.take(self.bank@.len() as int) =~= self.bank@);
        let stage = self.stage;
        match stage {
            Stage::Unborn => {
                let found: bool = match input {
                    Input::Located(found) => found,
                    _ => false,
                };
                self.histories = self.histories + 1;
                if !found {
                    return self.stop(End::Leaked);
                }
                if self.left == 0 {
                    return self.stop(End::Exhausted);
                }
                self.stage = Stage::AtEvent;
                Motion::Wait
            },
            Stage::AtEvent => {
                self.left = self.left - 1;
                match input {
                    Input::Filled(Medium::Material(m)) => {
                        self.stage = Stage::InMedium(m);
                    },
                    _ => {
                        self.stage = Stage::InVoid;
                    },
                }
                Motion::Wait
            },
            Stage::InVoid => {
                let hit = match input {
                    Input::Traced(hit) => hit,
                    _ => None,
                };
                self.cross(hit)
            },
            Stage::InMedium(m) => {
                let empty: bool = match input {
                    Input::Total(sigma_t) => sigma_t.le(Binary64::zero()),
                    _ => false,
                };
                if empty {
                    return self.stop(End::Leaked);
                }
                self.stage = Stage::InFlight(m);
                Motion::Wait
            },
            Stage::InFlight(m) => {
                let (before, hit): (bool, Option<Hit>) = match input {
                    Input::Flight { d_collide, hit } => (
                        match hit {
                            Some(h) => d_collide.lt(h.distance),
                            None => false,
                        },
                        hit,
                    ),
                    _ => (false, None),
                };
                if before {
                    self.collisions = self.collisions + 1;
                    self.stage = Stage::Collided(m);
                    return Motion::Collide;
                }
                self.cross(hit)
            },
            Stage::Collided(m) => {
                let (absorbed, can_fission): (bool, bool) = match input {
                    Input::Reaction { xi, sigma_a } => (xi.lt(sigma_a), Binary64::zero().lt(sigma_a)),
                    _ => (false, false),
                };
                if !absorbed {
                    self.resume();
                    return Motion::Scatter;
                }
                self.absorptions = self.absorptions + 1;
                if !can_fission {
                    return self.stop(End::Absorbed);
                }
                self.stage = Stage::Absorbed(m);
                Motion::Wait
            },
            Stage::Absorbed(m) => {
                let fission: bool = match input {
                    Input::FissionDraw { xi, share } => xi.lt(share),
                    _ => false,
                };
                if !fission {
                    return self.stop(End::Absorbed);
                }
                self.stage = Stage::Fissioned(m);
                Motion::Wait
            },
            Stage::Fissioned(_) => {
                if let Input::Yield { neutrons, site } = input {
                    self.bank_neutrons(neutrons, site);
                }
                self.stop(End::Absorbed)
            },
            Stage::Ended(_) => Motion::Wait,
        }
    }

    fn stop(&mut self, end: End) -> (r: Motion)
        requires
            end == End::Leaked ==> old(self).leakage < u64::MAX,
            end == End::Exhausted ==> old(self).exhausted < u64::MAX,
        ensures
            r == Motion::Stop(end),
            *final(self) == (Transport {
                stage: Stage::Ended(end),
                leakage: (old(self).leakage + once(end == End::Leaked)) as u64,
                exhausted: (old(self).exhausted + once(end == End::Exhausted)) as u64,
                ..*old(self)
            }),
    {
        match end {
            End::Leaked => {
                self.leakage = self.leakage + 1;
            },
            End::Exhausted => {
                self.exhausted = self.exhausted + 1;
            },
            End::Absorbed => {},
        }
        self.stage = Stage::Ended(end);
        Motion::Stop(end)
    }

    fn resume(&mut self)
        requires
            old(self).exhausted < u64::MAX,
        ensures
            *final(self) == (Transport {
                stage: resumed(old(self).left as nat),
                exhausted: (old(self).exhausted + once(old(self).left == 0)) as u64,
                ..*old(self)
            }),
    {
        if self.left == 0 {
            self.exhausted = self.exhausted + 1;
            self.stage = Stage::Ended(End::Exhausted);
        } else {
            self.stage = Stage::AtEvent;
        }
    }

    fn cross(&mut self, hit: Option<Hit>) -> (r: Motion)
        requires
            old(self).leakage < u64::MAX,
            old(self).exhausted < u64::MAX,
        ensures
            r == crossing(hit),
            *final(self) == (Transport {
                stage: match crossing(hit) {
                    Motion::Stop(end) => Stage::Ended(end),
                    _ => resumed(old(self).left as nat),
                },
                leakage: (old(self).leakage + once(crossing(hit) == Motion::Stop(End::Leaked))) as u64,
                exhausted: (old(self).exhausted + once(!(crossing(hit) is Stop) && old(self).left == 0)) as u64,
                ..*old(self)
            }),
    {
        match hit {
            None => self.stop(End::Leaked),
            Some(h) => match h.bc {
                BoundaryCondition::Vacuum => self.stop(End::Leaked),
                BoundaryCondition::Reflective => {
                    self.resume();
                    Motion::Reflect { distance: h.distance, across: h.across }
                },
                BoundaryCondition::Transmission => {
                    if h.has_next {
                        self.resume();
                        Motion::Pass { distance: h.distance }
                    } else {
                        self.stop(End::Leaked)
                    }
                },
            },
        }
    }

    fn bank_neutrons(&mut self, neutrons: i32, site: Vec3)
        requires
            old(self).fissions == old(self).bank@.len(),
            old(self).fissions + i32::MAX <= u64::MAX,
        ensures
            ({
                let n: int = if neutrons > 0 {
                    neutrons as int
                } else {
                    0
                };
                &&& final(self).fissions == old(self).fissions + n
                &&& final(self).bank@.len() == old(self).bank@.len() + n
            }),
            final(self).bank@.take(old(self).bank@.len() as int) == old(self).bank@,
            forall|i: int|
                old(self).bank@.len() <= i < final(self).bank@.len() ==> #[trigger] final(self).bank@[i] == site,
            *final(self) == (Transport {
                fissions: final(self).fissions,
                bank: final(self).bank,
                ..*old(self)
            }),
    {
        let mut k: i32 = 0;
        assert(self.bank@.take(old(self).bank@.len() as int) =~= old(self).bank@);
        while k < neutrons
            invariant
                0 <= k,
                k <= neutrons || k == 0,
                old(self).fissions == old(self).bank@.len(),
                old(self).fissions + i32::MAX <= u64::MAX,
                self.fissions == old(self).fissions + k,
                self.bank@.len() == old(self).bank@.len() + k,
                self.bank@.take(old(self).bank@.len() as int) == old(self).bank@,
                forall|i: int|
                    old(self).bank@.len() <= i < self.bank@.len() ==> #[trigger] self.bank@[i] == site,
                *self == (Transport { fissions: self.fissions, bank: self.bank, ..*old(self) }),
            decreases neutrons - k,
        {
            self.bank.push(site);
            self.fissions = self.fissions + 1;
            k = k + 1;
            assert(self.bank@.take(old(self).bank@.len() as int) =~= old(self).bank@);
        }
    }
}

/// A history ends in exactly one way, and a leak is counted exactly where it ends
/// in one.
pub proof fn law_leak_is_counted_once(stage: Stage, input: Input, left: nat)
    requires
        expects(stage, input),
    ensures
        motion_on(stage, input, left) == Motion::Stop(End::Leaked) <==> stage_after(stage, input, left)
            == Stage::Ended(End::Leaked),
        stage_after(stage, input, left) == Stage::Ended(End::Absorbed) ==> stage is Collided || stage is Absorbed
            || stage is Fissioned,
{
}

/// Every history that was started is under way, or ended once: in an absorption,
/// in a leak or with its events used up. So absorptions and leaks together never
/// exceed the histories that were started.
pub proof fn law_each_history_ends_once(t: Transport)
    requires
        t.wf(),
    ensures
        t.absorptions + t.leakage <= t.histories,
        t.absorptions + t.leakage + t.exhausted <= t.histories <= t.absorptions + t.leakage + t.exhausted + 1,
        t.stage is Ended ==> t.histories == t.absorptions + t.leakage + t.exhausted,
{
}

/// Neutrons are born only in an absorption that fissions, which ends the history.
pub proof fn law_fission_ends_the_history(stage: Stage, input: Input, left: nat)
    requires
        expects(stage, input),
        neutrons_of(stage, input) > 0,
    ensures
        stage is Fissioned,
        stage_after(stage, input, left) == Stage::Ended(End::Absorbed),
{
}

/// An upper bound on the inputs that a history can still take.
pub open spec fn inputs_left(stage: Stage, left: nat) -> nat {
    8 * left + match stage {
        Stage::Unborn => 7nat,
        Stage::InMedium(_) => 6nat,
        Stage::InFlight(_) => 5nat,
        Stage::Collided(_) => 4nat,
        Stage::Absorbed(_) => 3nat,
        Stage::Fissioned(_) => 2nat,
        Stage::InVoid => 1nat,
        Stage::AtEvent => 0nat,
        Stage::Ended(_) => 0nat,
    }
}

/// Every history ends: each input brings the bound on further inputs down.
pub proof fn law_histories_end(stage: Stage, input: Input, left: nat)
    requires
        expects(stage, input),
        stage == Stage::AtEvent ==> left > 0,
    ensures
        inputs_left(stage_after(stage, input, left), (left - once(stage == Stage::AtEvent)) as nat) < inputs_left(
            stage,
            left,
        ),
{
}

/// The input tells of a surface that a particle reaches: the one ahead in a void, or
/// the one ahead of a flight that does not end before it.
pub open spec fn reaches_surface(stage: Stage, input: Input, h: Hit) -> bool {
    ||| stage is InVoid && input == Input::Traced(Some(h))
    ||| stage is InFlight && input is Flight && input->hit == Some(h) && !input->d_collide.less(h.distance)
}

/// Nothing was counted but what the history of the particle goes on with.
pub open spec fn counts_nothing(before: Transport, after: Transport) -> bool {
    &&& after.histories == before.histories
    &&& after.collisions == before.collisions
    &&& after.absorptions == before.absorptions
    &&& after.fissions == before.fissions
    &&& after.leakage == before.leakage
    &&& after.bank@ == before.bank@
}

/// A particle that reaches a transmitting surface with a cell behind it goes through
/// it, by the distance of the surface. Nothing is counted, and the history goes on
/// as long as events are left to it.
pub proof fn law_particle_passes_into_the_next_cell(t: &mut Transport, input: Input, h: Hit, r: Motion)
    requires
        call_ensures(Transport::step, (t, input), r),
        old(t).wf(),
        reaches_surface(old(t).stage, input, h),
        h.bc == BoundaryCondition::Transmission,
        h.has_next,
    ensures
        r == (Motion::Pass { distance: h.distance }),
        counts_nothing(*old(t), *final(t)),
        final(t).stage == if old(t).left > 0 {
            Stage::AtEvent
        } else {
            Stage::Ended(End::Exhausted)
        },
{
    assert(final(t).bank@ =~= final(t).bank@.take(old(t).bank@.len() as int));
}

/// A particle that reaches a mirror is turned round on the axis of the mirror, with
/// nothing counted, and the history goes on as long as events are left to it.
pub proof fn law_mirror_turns_particles_round(t: &mut Transport, input: Input, h: Hit, r: Motion)
    requires
        call_ensures(Transport::step, (t, input), r),
        old(t).wf(),
        reaches_surface(old(t).stage, input, h),
        h.bc == BoundaryCondition::Reflective,
    ensures
        r == (Motion::Reflect { distance: h.distance, across: h.across }),
        counts_nothing(*old(t), *final(t)),
        final(t).stage == if old(t).left > 0 {
            Stage::AtEvent
        } else {
            Stage::Ended(End::Exhausted)
        },
{
    assert(final(t).bank@ =~= final(t).bank@.take(old(t).bank@.len() as int));
}

/// A leak happens where a particle is born outside, where it meets a medium without
/// cross section, and where it finds no surface ahead, or one that is a vacuum
/// boundary, or one that transmits with no cell behind it: there and nowhere else.
/// It ends the history and is counted by one.
pub proof fn law_particles_leak_only_at_the_edge(t: &mut Transport, input: Input, r: Motion)
    requires
        call_ensures(Transport::step, (t, input), r),
        old(t).wf(),
        expects(old(t).stage, input),
    ensures
        r == Motion::Stop(End::Leaked) <==> {
            ||| input == Input::Located(false)
            ||| input is Total && !input->Total_0.nan() && input->Total_0.scaled() <= 0
            ||| input == Input::Traced(None)
            ||| input is Flight && input->hit is None
            ||| exists|h: Hit| #[trigger]
                reaches_surface(old(t).stage, input, h) && (h.bc == BoundaryCondition::Vacuum || (h.bc
                    == BoundaryCondition::Transmission && !h.has_next))
        },
        final(t).leakage == old(t).leakage + (if r == Motion::Stop(End::Leaked) {
            1int
        } else {
            0int
        }),
        r == Motion::Stop(End::Leaked) <==> final(t).stage == Stage::Ended(End::Leaked),
{
    match input {
        Input::Traced(Some(h)) => {
            assert(reaches_surface(old(t).stage, input, h));
        },
        Input::Flight { d_collide, hit: Some(h) } => {
            assert(reaches_surface(old(t).stage, input, h) <==> !d_collide.less(h.distance));
        },
        _ => {},
    }
}

/// A flight ends in a collision exactly where it is shorter than the way to the
/// surface ahead. The collision is counted by one, in the medium of the flight.
pub proof fn law_collision_comes_before_the_surface(
    t: &mut Transport,
    d_collide: Binary64,
    hit: Option<Hit>,
    medium: usize,
    r: Motion,
)
    requires
        call_ensures(Transport::step, (t, (Input::Flight { d_collide, hit })), r),
        old(t).stage == Stage::InFlight(medium),
    ensures
        r == Motion::Collide <==> hit is Some && !d_collide.nan() && !hit->0.distance.nan() && d_collide.scaled()
            < hit->0.distance.scaled(),
        r == Motion::Collide <==> final(t).stage == Stage::Collided(medium),
        final(t).collisions == old(t).collisions + (if r == Motion::Collide {
            1int
        } else {
            0int
        }),
{
}

/// After a collision the particle is absorbed exactly where the number lies below
/// the absorption cross section, and scatters otherwise. An absorption is counted by
/// one and never lets the particle go on.
pub proof fn law_collision_absorbs_or_scatters(
    t: &mut Transport,
    xi: Binary64,
    sigma_a: Binary64,
    medium: usize,
    r: Motion,
)
    requires
        call_ensures(Transport::step, (t, (Input::Reaction { xi, sigma_a })), r),
        old(t).stage == Stage::Collided(medium),
    ensures
        r == Motion::Scatter <==> !(!xi.nan() && !sigma_a.nan() && xi.scaled() < sigma_a.scaled()),
        final(t).absorptions == old(t).absorptions + (if r == Motion::Scatter {
            0int
        } else {
            1int
        }),
        final(t).leakage == old(t).leakage && final(t).collisions == old(t).collisions,
        r == Motion::Scatter ==> final(t).stage == if old(t).left > 0 {
            Stage::AtEvent
        } else {
            Stage::Ended(End::Exhausted)
        },
        r != Motion::Scatter ==> final(t).stage == if sigma_a.scaled() > 0 {
            Stage::Absorbed(medium)
        } else {
            Stage::Ended(End::Absorbed)
        },
{
}

/// An absorbed particle makes a fission exactly where the number lies below the
/// share of fissions; its history is over either way, and a fission banks as many
/// neutrons as it yields, all of them at its site, behind those that were there.
pub proof fn law_fission_banks_its_yield(t: &mut Transport, input: Input, r: Motion)
    requires
        call_ensures(Transport::step, (t, input), r),
        expects(old(t).stage, input),
        old(t).wf(),
        input is FissionDraw || input is Yield,
    ensures
        input is FissionDraw ==> (final(t).stage is Fissioned <==> !input->FissionDraw_xi.nan()
            && !input->share.nan() && input->FissionDraw_xi.scaled() < input->share.scaled()),
        input is FissionDraw && !(final(t).stage is Fissioned) ==> final(t).stage == Stage::Ended(End::Absorbed),
        input is FissionDraw ==> final(t).bank@ == old(t).bank@,
        input is Yield ==> final(t).stage == Stage::Ended(End::Absorbed),
        input is Yield ==> final(t).bank@ == old(t).bank@ + Seq::new(
            (if input->neutrons > 0 {
                input->neutrons as int
            } else {
                0int
            }) as nat,
            |i: int| input->site,
        ),
        final(t).fissions == final(t).bank@.len(),
        final(t).absorptions == old(t).absorptions && final(t).leakage == old(t).leakage,
{
    let kept = final(t).bank@.take(old(t).bank@.len() as int);
    assert(kept == old(t).bank@);
    assert forall|i: int| 0 <= i < old(t).bank@.len() implies final(t).bank@[i] == old(t).bank@[i] by {
        assert(kept[i] == final(t).bank@[i]);
    }
    if input is FissionDraw {
        assert(final(t).bank@ =~= old(t).bank@);
    } else {
        assert(final(t).bank@ =~= old(t).bank@ + Seq::new(
            (if input->neutrons > 0 {
                input->neutrons as int
            } else {
                0int
            }) as nat,
            |i: int| input->site,
        ));
    }
}

/// A history that is born inside the geometry starts with its first event, and an
/// event takes one from those that are left; a material is flown through as the
/// material that it is.
pub proof fn law_history_goes_from_event_to_event(t: &mut Transport, input: Input, medium: usize, r: Motion)
    requires
        call_ensures(Transport::step, (t, input), r),
        old(t).wf(),
    ensures
        old(t).stage == Stage::Unborn && input == Input::Located(true) ==> final(t).histories == old(t).histories + 1
            && final(t).left == old(t).left && final(t).stage == if old(t).left > 0 {
            Stage::AtEvent
        } else {
            Stage::Ended(End::Exhausted)
        },
        old(t).stage == Stage::AtEvent && input == Input::Filled(Medium::Material(medium)) ==> final(t).stage
            == Stage::InMedium(medium) && final(t).left == old(t).left - 1,
        old(t).stage == Stage::AtEvent && input == Input::Filled(Medium::Void) ==> final(t).stage == Stage::InVoid
            && final(t).left == old(t).left - 1,
        old(t).stage == Stage::InMedium(medium) && input is Total && input->Total_0.scaled() > 0
            && !input->Total_0.nan() ==> final(t).stage == Stage::InFlight(medium),
{
}

/// A run starts with nothing counted, and every history with all of its events; what was
/// counted and banked before stays.
pub proof fn law_history_starts_with_all_its_events(max_events: u32, fresh: Transport, t: &mut Transport)
    requires
        call_ensures(Transport::new, (max_events,), fresh),
        call_ensures(Transport::next_history, (t,), ()),
    ensures
        fresh.stage == Stage::Unborn && fresh.left == max_events && fresh.max_events == max_events,
        fresh.histories == 0 && fresh.exhausted == 0 && fresh.collisions == 0 && fresh.absorptions == 0,
        fresh.fissions == 0 && fresh.leakage == 0 && fresh.bank@.len() == 0,
        final(t).stage == Stage::Unborn && final(t).left == old(t).max_events,
        counts_nothing(*old(t), *final(t)) && final(t).exhausted == old(t).exhausted,
        final(t).max_events == old(t).max_events,
{
}

} // verus!
