//! Step-by-step traces of a particle, and what their rows record.

use crate::binary64::{is_quotient, lemma_below_one, Binary64, EXPONENT_WEIGHT};
use crate::const_transport::Hit;
use crate::geometry::{BoundaryCondition, Vec3};
use vstd::arithmetic::power2::{lemma2_to64, pow2};
use vstd::prelude::*;

verus! {

/// What happened in a step.
#[derive(Clone, Copy, Debug, PartialEq, Eq, Structural)]
pub enum TraceEvent {
    Elastic,
    Inelastic,
    TwoNeutrons,
    ThreeNeutrons,
    Fission,
    Capture,
    Reflected,
    Crossed,
    /// The particle left, or the trace cannot go on.
    Lost,
    Void,
}

/// The number of an event in a trace row.
pub open spec fn event_number(e: TraceEvent) -> int {
    match e {
        TraceEvent::Elastic => 0,
        TraceEvent::Inelastic => 1,
        TraceEvent::TwoNeutrons => 2,
        TraceEvent::ThreeNeutrons => 3,
        TraceEvent::Fission => 4,
        TraceEvent::Capture => 5,
        TraceEvent::Reflected => 6,
        TraceEvent::Crossed => 7,
        TraceEvent::Lost => 8,
        TraceEvent::Void => 9,
    }
}

/// The number of an event in a trace row.
pub fn event_code(e: TraceEvent) -> (r: i32)
    ensures
        r == event_number(e),
{
    match e {
        TraceEvent::Elastic => 0,
        TraceEvent::Inelastic => 1,
        TraceEvent::TwoNeutrons => 2,
        TraceEvent::ThreeNeutrons => 3,
        TraceEvent::Fission => 4,
        TraceEvent::Capture => 5,
        TraceEvent::Reflected => 6,
        TraceEvent::Crossed => 7,
        TraceEvent::Lost => 8,
        TraceEvent::Void => 9,
    }
}

/// Events are told apart by their numbers.
pub proof fn law_event_numbers_differ(a: TraceEvent, b: TraceEvent)
    requires
        event_number(a) == event_number(b),
    ensures
        a == b,
{
}

/// After the event the particle goes on.
pub open spec fn survives(e: TraceEvent) -> bool {
    !(e is Fission || e is Capture || e is Lost)
}

/// Steps in a row through voids after which a trace is given up.
pub const MAX_VOID_CROSSINGS: u32 = 100;

/// What a step in a void comes to, as crossing number `crossings` in a row.
pub open spec fn void_event(crossings: int, hit: Option<Hit>) -> TraceEvent {
    if crossings > MAX_VOID_CROSSINGS || passage(hit) is Lost {
        TraceEvent::Lost
    } else {
        TraceEvent::Void
    }
}

/// What meeting a surface comes to.
pub open spec fn passage(hit: Option<Hit>) -> TraceEvent {
    match hit {
        None => TraceEvent::Lost,
        Some(h) => match h.bc {
            BoundaryCondition::Vacuum => TraceEvent::Lost,
            BoundaryCondition::Reflective => TraceEvent::Reflected,
            BoundaryCondition::Transmission => if h.has_next {
                TraceEvent::Crossed
            } else {
                TraceEvent::Lost
            },
        },
    }
}

/// What a flight in a medium comes to: nothing where the particle collides first.
/// A medium without cross section loses the particle.
pub open spec fn flight_event(macro_total: Binary64, d_coll: Binary64, hit: Option<Hit>) -> Option<TraceEvent> {
    if macro_total.at_most(Binary64 { bits: 0 }) {
        Some(TraceEvent::Lost)
    } else if hit is Some && hit->0.distance.less(d_coll) {
        Some(passage(hit))
    } else {
        None
    }
}

/// Sums of cross sections, each reaction added to those before it.
#[derive(Clone, Copy, Debug, PartialEq, Eq, Structural)]
pub struct Channels {
    pub elastic: Binary64,
    pub inelastic: Binary64,
    pub two_neutrons: Binary64,
    pub three_neutrons: Binary64,
    pub fission: Binary64,
}

/// The reaction that a number falls on.
pub open spec fn channel_event(xi: Binary64, c: Channels) -> TraceEvent {
    if xi.less(c.elastic) {
        TraceEvent::Elastic
    } else if xi.less(c.inelastic) {
        TraceEvent::Inelastic
    } else if xi.less(c.two_neutrons) {
        TraceEvent::TwoNeutrons
    } else if xi.less(c.three_neutrons) {
        TraceEvent::ThreeNeutrons
    } else if xi.less(c.fission) {
        TraceEvent::Fission
    } else {
        TraceEvent::Capture
    }
}

/// The reaction of a collision. With thermal scattering the number falls on that
/// or on capture.
pub open spec fn collision_event(xi: Binary64, thermal: Binary64, c: Channels) -> TraceEvent {
    if (Binary64 { bits: 0 }).less(thermal) {
        if xi.less(thermal) {
            TraceEvent::Elastic
        } else {
            TraceEvent::Capture
        }
    } else {
        channel_event(xi, c)
    }
}

/// Columns of a trace row.
pub const TRACE_COLS: usize = 17;

/// The bits of 1e20, the distance that a row records where no surface lies ahead.
pub const NO_SURFACE_BITS: u64 = 0x4415_af1d_78b5_8c40;

/// A column of a row.
#[derive(Clone, Copy, Debug, PartialEq, Eq, Structural)]
pub enum Column {
    Number(Binary64),
    Count(usize),
    Code(i32),
}

/// What a step records.
#[derive(Clone, Copy, Debug, PartialEq, Eq, Structural)]
pub struct TraceRow {
    /// Energy and position before the step.
    pub energy: Binary64,
    pub pos: Vec3,
    pub cell: usize,
    /// The material, or none in a void, which is written as -1.
    pub material: Option<usize>,
    pub macro_total: Binary64,
    pub d_coll: Binary64,
    pub d_surf: Binary64,
    /// The number of what happened.
    pub event: i32,
    pub hit_nuclide: usize,
    pub elastic: Binary64,
    pub inelastic: Binary64,
    pub fission: Binary64,
    pub capture: Binary64,
    /// Energy after the step.
    pub out_energy: Binary64,
    pub rng_xi: Binary64,
}

/// A row in which nothing is recorded.
pub open spec fn blank_row() -> TraceRow {
    let z = Binary64 { bits: 0 };
    TraceRow {
        energy: z,
        pos: Vec3 { x: z, y: z, z },
        cell: 0,
        material: Some(0),
        macro_total: z,
        d_coll: z,
        d_surf: z,
        event: 0,
        hit_nuclide: 0,
        elastic: z,
        inelastic: z,
        fission: z,
        capture: z,
        out_energy: z,
        rng_xi: z,
    }
}

/// The columns of a row, in order.
pub open spec fn row_columns(row: TraceRow) -> Seq<Column> {
    seq![
        Column::Number(row.energy),
        Column::Number(row.pos.x),
        Column::Number(row.pos.y),
        Column::Number(row.pos.z),
        Column::Count(row.cell),
        match row.material {
            Some(m) => Column::Count(m),
            None => Column::Code(-1i32),
        },
        Column::Number(row.macro_total),
        Column::Number(row.d_coll),
        Column::Number(row.d_surf),
        Column::Code(row.event),
        Column::Count(row.hit_nuclide),
        Column::Number(row.elastic),
        Column::Number(row.inelastic),
        Column::Number(row.fission),
        Column::Number(row.capture),
        Column::Number(row.out_energy),
        Column::Number(row.rng_xi),
    ]
}

impl TraceRow {
    /// A row in which nothing is recorded.
    pub fn blank() -> (r: Self)
        ensures
            r == blank_row(),
    {
        let z: Binary64 = Binary64::zero();
        TraceRow {
            energy: z,
            pos: Vec3 { x: z, y: z, z },
            cell: 0,
            material: Some(0),
            macro_total: z,
            d_coll: z,
            d_surf: z,
            event: 0,
            hit_nuclide: 0,
            elastic: z,
            inelastic: z,
            fission: z,
            capture: z,
            out_energy: z,
            rng_xi: z,
        }
    }

    /// The columns of the row, in order.
    pub fn columns(&self) -> (r: Vec<Column>)
        ensures
            r@ == row_columns(*self),
            r@.len() == TRACE_COLS,
    {
        let material: Column = match self.material {
            Some(m) => Column::Count(m),
            None => Column::Code(-1),
        };
        let v: Vec<Column> = vec![
            Column::Number(self.energy),
            Column::Number(self.pos.x),
            Column::Number(self.pos.y),
            Column::Number(self.pos.z),
            Column::Count(self.cell),
            material,
            Column::Number(self.macro_total),
            Column::Number(self.d_coll),
            Column::Number(self.d_surf),
            Column::Code(self.event),
            Column::Count(self.hit_nuclide),
            Column::Number(self.elastic),
            Column::Number(self.inelastic),
            Column::Number(self.fission),
            Column::Number(self.capture),
            Column::Number(self.out_energy),
            Column::Number(self.rng_xi),
        ];
        assert(v@ =~= row_columns(*self));
        v
    }
}

/// Where a particle starts.
#[derive(Clone, Copy, Debug, PartialEq, Eq, Structural)]
pub struct TraceSource {
    pub energy: Binary64,
    pub pos: Vec3,
    pub cell: usize,
}

/// Where a step takes a particle that goes on: its place, and the cell behind the
/// surface for one that passes it.
#[derive(Clone, Copy, Debug, PartialEq, Eq, Structural)]
pub struct Arrival {
    pub pos: Vec3,
    pub next_cell: usize,
}

/// A flight in a medium.
#[derive(Clone, Copy, Debug, PartialEq, Eq, Structural)]
pub struct TraceFlight {
    pub material: usize,
    pub macro_total: Binary64,
    /// The random number that the distance was drawn with.
    pub rng_xi: Binary64,
    pub d_coll: Binary64,
    pub hit: Option<Hit>,
}

/// A collision: the nuclide that was hit with its cross sections, and the energy
/// that a scattered particle leaves with.
#[derive(Clone, Copy, Debug, PartialEq, Eq, Structural)]
pub struct TraceCollision {
    pub nuclide: usize,
    pub elastic: Binary64,
    pub inelastic: Binary64,
    pub fission: Binary64,
    pub capture: Binary64,
    /// The random number times the total cross section.
    pub xi: Binary64,
    /// The thermal cross section, zero without thermal data.
    pub thermal: Binary64,
    pub channels: Channels,
    pub scattered_energy: Binary64,
    pub pos: Vec3,
}

/// The trace of one particle.
pub struct Trace {
    pub source: TraceSource,
    pub alive: bool,
    /// Steps in a row through voids.
    pub void_crossings: u32,
    /// What happened in each step.
    pub events: Vec<TraceEvent>,
    /// What each step recorded.
    pub rows: Vec<TraceRow>,
    /// Energy, place and cell of the particle.
    pub energy: Binary64,
    pub pos: Vec3,
    pub cell: usize,
    /// The row of a flight that ends in a collision, until the collision is known.
    pub pending: Option<TraceRow>,
    /// The last step was in a place that is neither void nor a material.
    pub nowhere: bool,
    pub max_steps: usize,
}

/// Row `i` begins with the energy that the row before it left.
pub open spec fn follows(rows: Seq<TraceRow>, i: int) -> bool {
    rows[i].energy == rows[i - 1].out_energy
}

/// How many rows, from the first on, begin where the particle was.
pub open spec fn followed_rows(t: Trace) -> int {
    if t.nowhere {
        t.rows@.len() - 1
    } else {
        t.rows@.len() as int
    }
}

/// The row of a step in a void: no material, no cross section, and the distance to
/// the surface ahead, if there is one. A trace that is given up records neither the
/// distance nor the energy after the step.
pub open spec fn void_row(t: Trace, hit: Option<Hit>) -> TraceRow {
    let start = TraceRow { energy: t.energy, pos: t.pos, cell: t.cell, material: None, ..blank_row() };
    if t.void_crossings + 1 > MAX_VOID_CROSSINGS {
        TraceRow { event: event_number(TraceEvent::Lost) as i32, ..start }
    } else {
        TraceRow {
            event: event_number(void_event(t.void_crossings + 1, hit)) as i32,
            d_surf: match hit {
                Some(h) => h.distance,
                None => Binary64 { bits: 0 },
            },
            out_energy: t.energy,
            ..start
        }
    }
}

/// The row of a flight in a medium, before it is known how it ends.
pub open spec fn flight_row(t: Trace, f: TraceFlight) -> TraceRow {
    TraceRow {
        energy: t.energy,
        pos: t.pos,
        cell: t.cell,
        material: Some(f.material),
        macro_total: f.macro_total,
        d_coll: f.d_coll,
        d_surf: match f.hit {
            Some(h) => h.distance,
            None => Binary64 { bits: NO_SURFACE_BITS },
        },
        rng_xi: f.rng_xi,
        ..blank_row()
    }
}

/// The row of a flight that ends at a surface, or in a medium without cross section,
/// where neither distance is drawn.
pub open spec fn ended_flight_row(t: Trace, f: TraceFlight, e: TraceEvent) -> TraceRow {
    if f.macro_total.at_most(Binary64 { bits: 0 }) {
        TraceRow {
            energy: t.energy,
            pos: t.pos,
            cell: t.cell,
            material: Some(f.material),
            macro_total: f.macro_total,
            event: event_number(e) as i32,
            ..blank_row()
        }
    } else {
        TraceRow { event: event_number(e) as i32, out_energy: t.energy, ..flight_row(t, f) }
    }
}

/// The energy after a collision: that of the scattered particle, or the one before
/// where it does not scatter.
pub open spec fn energy_after(before: Binary64, c: TraceCollision, e: TraceEvent) -> Binary64 {
    if e is Elastic || e is Inelastic {
        c.scattered_energy
    } else {
        before
    }
}

/// The row of a collision: that of its flight, with the nuclide, its cross sections
/// and the energy after it.
pub open spec fn collision_row(flight: TraceRow, c: TraceCollision, e: TraceEvent) -> TraceRow {
    TraceRow {
        event: event_number(e) as i32,
        hit_nuclide: c.nuclide,
        elastic: c.elastic,
        inelastic: c.inelastic,
        fission: c.fission,
        capture: c.capture,
        out_energy: energy_after(flight.energy, c, e),
        ..flight
    }
}

impl Trace {
    /// The rows stay within the limit, every row but the last was survived, and the
    /// particle lives exactly as long as the last was. The first row holds the
    /// source, each row begins with the energy that the one before it left, and
    /// each records the number of its event.
    pub open spec fn wf(self) -> bool {
        &&& self.events@.len() <= self.max_steps
        &&& self.void_crossings <= MAX_VOID_CROSSINGS + 1
        &&& forall|i: int| 0 <= i < self.events@.len() - 1 ==> survives(#[trigger] self.events@[i])
        &&& self.alive <==> (self.events@.len() == 0 || survives(self.events@.last()))
        &&& self.void_crossings > MAX_VOID_CROSSINGS ==> !self.alive
        &&& self.rows@.len() == self.events@.len()
        &&& forall|i: int|
            0 <= i < self.rows@.len() ==> (#[trigger] self.rows@[i]).event == event_number(self.events@[i])
        &&& followed_rows(self) > 0 ==> self.rows@[0].energy == self.source.energy && self.rows@[0].pos
            == self.source.pos && self.rows@[0].cell == self.source.cell
        &&& forall|i: int| 1 <= i < followed_rows(self) ==> #[trigger] follows(self.rows@, i)
        &&& if self.rows@.len() == 0 {
            self.energy == self.source.energy && self.pos == self.source.pos && self.cell == self.source.cell
        } else {
            self.alive ==> self.energy == self.rows@.last().out_energy
        }
        &&& self.nowhere ==> !self.alive && self.rows@.len() > 0
        &&& self.pending matches Some(row) ==> {
            &&& self.alive && self.events@.len() < self.max_steps
            &&& self.void_crossings == 0
            &&& row.energy == self.energy && row.pos == self.pos && row.cell == self.cell
        }
    }

    /// A particle about to start.
    pub fn new(source: TraceSource, max_steps: usize) -> (r: Self)
        ensures
            r.wf(),
            r.source == source,
            r.alive,
            r.void_crossings == 0,
            r.events@.len() == 0,
            r.rows@.len() == 0,
            r.energy == source.energy && r.pos == source.pos && r.cell == source.cell,
            r.pending is None,
            !r.nowhere,
            r.max_steps == max_steps,
    {
        Trace {
            source,
            alive: true,
            void_crossings: 0,
            events: Vec::new(),
            rows: Vec::new(),
            energy: source.energy,
            pos: source.pos,
            cell: source.cell,
            pending: None,
            nowhere: false,
            max_steps,
        }
    }

    /// Another step is to be taken.
    pub open spec fn runs(self) -> bool {
        self.alive && self.events@.len() < self.max_steps
    }

    /// A step begins: none is under way.
    pub open spec fn at_step(self) -> bool {
        self.wf() && self.runs() && self.pending is None
    }

    /// Whether another step is to be taken.
    pub fn running(&self) -> (r: bool)
        ensures
            r == self.runs(),
    {
        self.alive && self.events.len() < self.max_steps
    }

    /// `after` is `before` with one more step: its event and its row.
    pub open spec fn stepped(before: Trace, after: Trace, e: TraceEvent, row: TraceRow) -> bool {
        &&& after.wf()
        &&& after.source == before.source
        &&& after.max_steps == before.max_steps
        &&& after.events@ == before.events@.push(e)
        &&& after.rows@ == before.rows@.push(row)
        &&& after.alive == survives(e)
        &&& after.pending is None
    }

    fn record(&mut self, e: TraceEvent, row: TraceRow, void_crossings: u32, energy: Binary64, pos: Vec3, cell: usize)
        requires
            old(self).wf(),
            old(self).runs(),
            void_crossings <= MAX_VOID_CROSSINGS + 1,
            void_crossings > MAX_VOID_CROSSINGS ==> !survives(e),
            row.event == event_number(e),
            row.energy == old(self).energy && row.pos == old(self).pos && row.cell == old(self).cell,
            survives(e) ==> energy == row.out_energy,
        ensures
            Trace::stepped(*old(self), *final(self), e, row),
            final(self).void_crossings == void_crossings,
            final(self).energy == energy && final(self).pos == pos && final(self).cell == cell,
            !final(self).nowhere,
    {
        let ghost before = *self;
        self.push(e, row, void_crossings);
        self.energy = energy;
        self.pos = pos;
        self.cell = cell;
        proof {
            assert forall|i: int| 1 <= i < followed_rows(*self) implies #[trigger] follows(self.rows@, i) by {
                if i < before.rows@.len() {
                    assert(follows(before.rows@, i));
                } else {
                    assert(before.rows@.last() == self.rows@[i - 1]);
                }
            }
        }
    }

    /// Puts an event and its row behind the others.
    fn push(&mut self, e: TraceEvent, row: TraceRow, void_crossings: u32)
        requires
            old(self).wf(),
            old(self).runs(),
            row.event == event_number(e),
        ensures
            final(self).events@ == old(self).events@.push(e),
            final(self).rows@ == old(self).rows@.push(row),
            forall|i: int| 0 <= i < final(self).events@.len() - 1 ==> survives(#[trigger] final(self).events@[i]),
            forall|i: int|
                0 <= i < final(self).rows@.len() ==> (#[trigger] final(self).rows@[i]).event == event_number(
                    final(self).events@[i],
                ),
            *final(self) == (Trace {
                events: final(self).events,
                rows: final(self).rows,
                alive: survives(e),
                void_crossings,
                pending: None,
                ..*old(self)
            }),
    {
        let ghost before = *self;
        self.events.push(e);
        self.rows.push(row);
        self.void_crossings = void_crossings;
        self.pending = None;
        self.alive = match e {
            TraceEvent::Fission | TraceEvent::Capture | TraceEvent::Lost => false,
            _ => true,
        };
        proof {
            assert forall|i: int| 0 <= i < self.events@.len() - 1 implies survives(#[trigger] self.events@[i]) by {
                assert(self.events@[i] == before.events@[i]);
                if i == before.events@.len() - 1 {
                    assert(before.events@.last() == before.events@[i]);
                }
            }
            assert forall|i: int| 0 <= i < self.rows@.len() implies (#[trigger] self.rows@[i]).event == event_number(
                self.events@[i],
            ) by {
                if i < before.rows@.len() {
                    assert(self.rows@[i] == before.rows@[i]);
                    assert(self.events@[i] == before.events@[i]);
                }
            }
        }
    }

    /// Whether a step in a void still looks for the surface ahead: it does unless
    /// it is one crossing too many.
    pub fn looks_ahead(&self) -> (r: bool)
        requires
            self.wf(),
            self.runs(),
        ensures
            r == (self.void_crossings < MAX_VOID_CROSSINGS),
    {
        self.void_crossings < MAX_VOID_CROSSINGS
    }

    /// Records a step in a void, given the surface ahead and where the step leads.
    /// Where the step does not look ahead any more the surface does not matter.
    pub fn step_void(&mut self, hit: Option<Hit>, to: Arrival) -> (r: TraceEvent)
        requires
            old(self).at_step(),
        ensures
            r == void_event(old(self).void_crossings + 1, hit),
            Trace::stepped(*old(self), *final(self), r, void_row(*old(self), hit)),
            final(self).void_crossings == old(self).void_crossings + 1,
            final(self).energy == old(self).energy,
            final(self).pos == to.pos,
            final(self).cell == if passage(hit) is Crossed {
                to.next_cell
            } else {
                old(self).cell
            },
            !final(self).nowhere,
    {
        let crossings: u32 = self.void_crossings + 1;
        let energy: Binary64 = self.energy;
        let mut row = TraceRow::blank();
        row.energy = energy;
        row.pos = self.pos;
        row.cell = self.cell;
        row.material = None;
        let passed = pass(hit);
        let cell: usize = match passed {
            TraceEvent::Crossed => to.next_cell,
            _ => self.cell,
        };
        if crossings > MAX_VOID_CROSSINGS {
            row.event = event_code(TraceEvent::Lost);
            self.record(TraceEvent::Lost, row, crossings, energy, to.pos, cell);
            return TraceEvent::Lost;
        }
        let e = match passed {
            TraceEvent::Lost => TraceEvent::Lost,
            _ => TraceEvent::Void,
        };
        row.event = event_code(e);
        row.out_energy = energy;
        if let Some(h) = hit {
            row.d_surf = h.distance;
        }
        self.record(e, row, crossings, energy, to.pos, cell);
        e
    }

    /// Records a step in a place that is neither void nor a material: the particle
    /// is lost, and nothing else is recorded.
    pub fn step_nowhere(&mut self) -> (r: TraceEvent)
        requires
            old(self).at_step(),
        ensures
            r == TraceEvent::Lost,
            Trace::stepped(
                *old(self),
                *final(self),
                r,
                (TraceRow { event: event_number(r) as i32, ..blank_row() }),
            ),
            final(self).nowhere,
            !final(self).alive,
    {
        let ghost before = *self;
        let mut row = TraceRow::blank();
        row.event = event_code(TraceEvent::Lost);
        let crossings: u32 = self.void_crossings;
        self.push(TraceEvent::Lost, row, crossings);
        self.nowhere = true;
        proof {
            assert forall|i: int| 1 <= i < followed_rows(*self) implies #[trigger] follows(self.rows@, i) by {
                assert(follows(before.rows@, i));
            }
        }
        TraceEvent::Lost
    }

    /// Records a flight in a medium that ends at a surface or nowhere, given where it
    /// leads. Where the particle collides first its row waits for the collision, and
    /// the streak of voids is over.
    pub fn step_flight(&mut self, f: TraceFlight, to: Arrival) -> (r: Option<TraceEvent>)
        requires
            old(self).at_step(),
        ensures
            r == flight_event(f.macro_total, f.d_coll, f.hit),
            final(self).void_crossings == 0,
            final(self).energy == old(self).energy,
            !final(self).nowhere,
            r matches Some(e) ==> {
                &&& Trace::stepped(*old(self), *final(self), e, ended_flight_row(*old(self), f, e))
                &&& final(self).pos == to.pos
                &&& final(self).cell == if e is Crossed {
                    to.next_cell
                } else {
                    old(self).cell
                }
            },
            r is None ==> {
                &&& final(self).wf() && final(self).runs()
                &&& *final(self) == (Trace {
                    void_crossings: 0,
                    pending: Some(flight_row(*old(self), f)),
                    ..*old(self)
                })
            },
    {
        let energy: Binary64 = self.energy;
        let here: usize = self.cell;
        let mut row = TraceRow::blank();
        row.energy = energy;
        row.pos = self.pos;
        row.cell = here;
        row.material = Some(f.material);
        row.macro_total = f.macro_total;
        if f.macro_total.le(Binary64::zero()) {
            row.event = event_code(TraceEvent::Lost);
            self.record(TraceEvent::Lost, row, 0, energy, to.pos, here);
            return Some(TraceEvent::Lost);
        }
        row.rng_xi = f.rng_xi;
        row.d_coll = f.d_coll;
        row.d_surf = match f.hit {
            Some(h) => h.distance,
            None => Binary64::from_bits(NO_SURFACE_BITS),
        };
        let first: bool = match f.hit {
            Some(h) => h.distance.lt(f.d_coll),
            None => false,
        };
        if first {
            let e = pass(f.hit);
            row.event = event_code(e);
            row.out_energy = energy;
            let cell: usize = match e {
                TraceEvent::Crossed => to.next_cell,
                _ => here,
            };
            self.record(e, row, 0, energy, to.pos, cell);
            return Some(e);
        }
        self.void_crossings = 0;
        self.pending = Some(row);
        None
    }

    /// Records the collision that a flight ended in.
    pub fn step_collision(&mut self, c: TraceCollision) -> (r: TraceEvent)
        requires
            old(self).wf(),
            old(self).pending is Some,
        ensures
            r == collision_event(c.xi, c.thermal, c.channels),
            Trace::stepped(*old(self), *final(self), r, collision_row(old(self).pending->0, c, r)),
            final(self).void_crossings == 0,
            final(self).energy == energy_after(old(self).energy, c, r),
            final(self).pos == c.pos,
            final(self).cell == old(self).cell,
            !final(self).nowhere,
    {
        let mut row: TraceRow = match self.pending {
            Some(row) => row,
            None => TraceRow::blank(),
        };
        let e = pick_reaction(c.xi, c.thermal, c.channels);
        let energy: Binary64 = match e {
            TraceEvent::Elastic | TraceEvent::Inelastic => c.scattered_energy,
            _ => self.energy,
        };
        let cell: usize = self.cell;
        row.event = event_code(e);
        row.hit_nuclide = c.nuclide;
        row.elastic = c.elastic;
        row.inelastic = c.inelastic;
        row.fission = c.fission;
        row.capture = c.capture;
        row.out_energy = energy;
        self.record(e, row, 0, energy, c.pos, cell);
        e
    }
}

/// What a trace through materials and voids records: no more rows than steps are
/// allowed, the source in the first row, in each further row the energy that the row
/// before it left, and fission, capture or a loss in the last row alone. A trace that
/// ends otherwise took all its steps.
pub proof fn law_rows_follow_the_particle(t: Trace, i: int)
    requires
        t.wf(),
        !t.nowhere,
        0 <= i < t.rows@.len(),
    ensures
        t.rows@.len() <= t.max_steps,
        t.rows@[0].energy == t.source.energy,
        t.rows@[0].pos == t.source.pos,
        i + 1 < t.rows@.len() ==> t.rows@[i + 1].energy == t.rows@[i].out_energy,
        t.rows@[i].event == 4 || t.rows@[i].event == 5 || t.rows@[i].event == 8 ==> i == t.rows@.len() - 1,
        ({
            let last = t.rows@.last().event;
            !t.runs() && last != 4 && last != 5 && last != 8 ==> t.rows@.len() == t.max_steps
        }),
{
    if i + 1 < t.rows@.len() {
        assert(follows(t.rows@, i + 1));
        assert(survives(t.events@[i]));
    }
    assert(t.rows@[i].event == event_number(t.events@[i]));
    assert(t.rows@[t.rows@.len() - 1].event == event_number(t.events@[t.rows@.len() - 1]));
    assert(t.events@.last() == t.events@[t.rows@.len() - 1]);
}

fn pass(hit: Option<Hit>) -> (r: TraceEvent)
    ensures
        r == passage(hit),
{
    match hit {
        None => TraceEvent::Lost,
        Some(h) => match h.bc {
            BoundaryCondition::Vacuum => TraceEvent::Lost,
            BoundaryCondition::Reflective => TraceEvent::Reflected,
            BoundaryCondition::Transmission => if h.has_next {
                TraceEvent::Crossed
            } else {
                TraceEvent::Lost
            },
        },
    }
}

fn pick_reaction(xi: Binary64, thermal: Binary64, c: Channels) -> (r: TraceEvent)
    ensures
        r == collision_event(xi, thermal, c),
{
    if Binary64::zero().lt(thermal) {
        if xi.lt(thermal) {
            TraceEvent::Elastic
        } else {
            TraceEvent::Capture
        }
    } else if xi.lt(c.elastic) {
        TraceEvent::Elastic
    } else if xi.lt(c.inelastic) {
        TraceEvent::Inelastic
    } else if xi.lt(c.two_neutrons) {
        TraceEvent::TwoNeutrons
    } else if xi.lt(c.three_neutrons) {
        TraceEvent::ThreeNeutrons
    } else if xi.lt(c.fission) {
        TraceEvent::Fission
    } else {
        TraceEvent::Capture
    }
}

/// A reaction without cross section is never picked: where two neighbouring sums
/// are the same number, the later reaction does not happen.
pub proof fn law_empty_channel_is_never_picked(xi: Binary64, c: Channels)
    requires
        !xi.nan(),
        c.elastic.at_most(c.inelastic),
        c.inelastic.at_most(c.two_neutrons),
        c.two_neutrons.at_most(c.three_neutrons),
        c.three_neutrons.at_most(c.fission),
    ensures
        c.elastic.same_number(c.inelastic) ==> !(channel_event(xi, c) is Inelastic),
        c.inelastic.same_number(c.two_neutrons) ==> !(channel_event(xi, c) is TwoNeutrons),
        c.two_neutrons.same_number(c.three_neutrons) ==> !(channel_event(xi, c) is ThreeNeutrons),
        c.three_neutrons.same_number(c.fission) ==> !(channel_event(xi, c) is Fission),
{
}

/// No trace crosses more than one void too many, and a particle that does is lost.
pub proof fn law_void_streak_is_bounded(t: Trace)
    requires
        t.wf(),
        t.alive,
    ensures
        t.void_crossings <= MAX_VOID_CROSSINGS,
{
}

/// Seed and stream of the random numbers of a particle.
pub fn trace_seed(pid: u64) -> (r: (u64, u64))
    requires
        42 + pid * 100_000 <= u64::MAX,
    ensures
        r.0 == 42 + pid * 100_000,
        r.1 == pid,
{
    (42 + pid * 100_000, pid)
}

/// Traces of different particles draw from different seeds.
pub proof fn law_trace_seeds_differ(p: u64, q: u64)
    requires
        p != q,
    ensures
        42 + p * 100_000 != 42 + q * 100_000,
{
}

/// Whether thermal data apply at an energy: it is positive and below their limit.
pub fn takes_thermal(energy: Binary64, energy_max: Binary64) -> (r: bool)
    ensures
        r == (energy.less(energy_max) && (Binary64 { bits: 0 }).less(energy)),
{
    energy.lt(energy_max) && Binary64::zero().lt(energy)
}

/// Where step `s` of particle `pid` begins in a flat trace.
pub open spec fn row_base(pid: int, s: int, max_steps: int) -> int {
    (pid * max_steps + s) * TRACE_COLS
}

/// Where step `s` of particle `pid` begins in a flat trace of `max_steps` rows for
/// each particle.
pub fn trace_row(pid: usize, s: usize, max_steps: usize) -> (r: usize)
    requires
        s < max_steps,
        row_base(pid as int, s as int, max_steps as int) <= usize::MAX,
    ensures
        r == row_base(pid as int, s as int, max_steps as int),
{
    assert(pid * max_steps <= pid * max_steps + s) by (nonlinear_arith);
    assert(pid * max_steps * TRACE_COLS <= (pid * max_steps + s) * TRACE_COLS) by (nonlinear_arith);
    assert((pid * max_steps) * TRACE_COLS + s * TRACE_COLS == (pid * max_steps + s) * TRACE_COLS)
        by (nonlinear_arith);
    assert(0 <= pid * max_steps) by (nonlinear_arith);
    pid * max_steps * TRACE_COLS + s * TRACE_COLS
}

/// Rows of different steps do not overlap.
pub proof fn law_trace_rows_are_disjoint(p: int, s: int, q: int, t: int, max_steps: int)
    requires
        0 <= s < max_steps,
        0 <= t < max_steps,
        0 <= p,
        0 <= q,
        (p, s) != (q, t),
    ensures
        row_base(p, s, max_steps) + TRACE_COLS <= row_base(q, t, max_steps) || row_base(q, t, max_steps) + TRACE_COLS
            <= row_base(p, s, max_steps),
{
    let a = p * max_steps + s;
    let b = q * max_steps + t;
    assert(a != b) by {
        if p < q {
            assert(p * max_steps + max_steps <= q * max_steps) by (nonlinear_arith)
                requires
                    p + 1 <= q,
                    max_steps > 0,
            ;
        } else if q < p {
            assert(q * max_steps + max_steps <= p * max_steps) by (nonlinear_arith)
                requires
                    q + 1 <= p,
                    max_steps > 0,
            ;
        }
    }
    if a < b {
        assert((a + 1) * TRACE_COLS <= b * TRACE_COLS) by (nonlinear_arith)
            requires
                a + 1 <= b,
        ;
    } else {
        assert((b + 1) * TRACE_COLS <= a * TRACE_COLS) by (nonlinear_arith)
            requires
                b + 1 <= a,
        ;
    }
}

/// What one step of two traces says: the events, and whether the energies and the
/// cross sections are further apart than the tolerance.
#[derive(Clone, Copy, Debug, PartialEq, Eq, Structural)]
pub struct StepPair {
    pub device_event: i32,
    pub host_event: i32,
    /// Relative difference of the energies.
    pub energy_gap: Binary64,
    /// Relative difference of the cross sections.
    pub total_gap: Binary64,
}

/// The bits of 0.01, the accepted relative difference.
pub const GAP_BITS: u64 = 0x3f84_7ae1_47ae_147b;

/// The two traces differ in a step.
pub open spec fn differs(p: StepPair) -> bool {
    let tolerance = Binary64 { bits: GAP_BITS };
    p.device_event != p.host_event || tolerance.less(p.energy_gap) || tolerance.less(p.total_gap)
}

/// The first step in which two traces differ.
pub fn first_divergence(steps: &Vec<StepPair>) -> (r: Option<usize>)
    ensures
        r is None <==> forall|i: int| 0 <= i < steps@.len() ==> !differs(#[trigger] steps@[i]),
        r matches Some(s) ==> {
            &&& s < steps@.len()
            &&& differs(steps@[s as int])
            &&& forall|i: int| 0 <= i < s ==> !differs(#[trigger] steps@[i])
        },
        r is Some <==> diverges()(*steps),
        r matches Some(s) ==> first_differing(steps@, s as int),
{
    let tolerance = Binary64::from_bits(GAP_BITS);
    let mut i: usize = 0;
    while i < steps.len()
        invariant
            i <= steps@.len(),
            tolerance.bits == GAP_BITS,
            forall|k: int| 0 <= k < i ==> !differs(#[trigger] steps@[k]),
        decreases steps@.len() - i,
    {
        let p: StepPair = steps[i];
        if p.device_event != p.host_event || tolerance.lt(p.energy_gap) || tolerance.lt(p.total_gap) {
            return Some(i);
        }
        i += 1;
    }
    None
}

/// The relative difference that counts against a value: `quotient` where the value
/// is positive, and none otherwise.
pub fn relative_gap(reference: Binary64, quotient: Binary64) -> (r: Binary64)
    ensures
        r == if (Binary64 { bits: 0 }).less(reference) {
            quotient
        } else {
            Binary64 { bits: 0 }
        },
{
    if Binary64::zero().lt(reference) {
        quotient
    } else {
        Binary64::zero()
    }
}

/// `s` is the first step that differs.
pub open spec fn first_differing(steps: Seq<StepPair>, s: int) -> bool {
    &&& 0 <= s < steps.len()
    &&& differs(steps[s])
    &&& forall|i: int| 0 <= i < s ==> !differs(#[trigger] steps[i])
}

/// How many traces are looked at, at most.
pub const COMPARED_TRACES: usize = 20;

/// Two traces of a particle differ in some step.
pub open spec fn diverges() -> spec_fn(Vec<StepPair>) -> bool {
    |steps: Vec<StepPair>| exists|i: int| 0 <= i < steps@.len() && differs(#[trigger] steps@[i])
}

/// How the traces of particles compare.
#[derive(Clone, Copy, Debug, PartialEq, Eq)]
pub struct TraceComparison {
    pub matching: usize,
    pub diverging: usize,
    /// The first particle that diverges, and the step in which it does.
    pub first: Option<(usize, usize)>,
}

/// Particle `p` is the first that diverges, in step `s`.
pub open spec fn first_diverging(traces: Seq<Vec<StepPair>>, p: int, s: int) -> bool {
    &&& 0 <= p < traces.len()
    &&& 0 <= s < traces[p]@.len()
    &&& differs(traces[p]@[s])
    &&& forall|i: int| 0 <= i < s ==> !differs(#[trigger] traces[p]@[i])
    &&& forall|q: int| 0 <= q < p ==> !diverges()(#[trigger] traces[q])
}

/// The traces that are looked at.
pub open spec fn compared(traces: Seq<Vec<StepPair>>) -> Seq<Vec<StepPair>> {
    if traces.len() <= COMPARED_TRACES {
        traces
    } else {
        traces.take(COMPARED_TRACES as int)
    }
}

/// Compares the traces of the first particles step by step.
pub fn compare_traces(traces: &Vec<Vec<StepPair>>) -> (r: TraceComparison)
    ensures
        r.diverging == compared(traces@).filter(diverges()).len(),
        r.matching + r.diverging == compared(traces@).len(),
        r.first is None <==> r.diverging == 0,
        r.first matches Some(f) ==> first_diverging(compared(traces@), f.0 as int, f.1 as int),
{
    let n: usize = if traces.len() <= COMPARED_TRACES {
        traces.len()
    } else {
        COMPARED_TRACES
    };
    let ghost all = compared(traces@);
    let mut out = TraceComparison { matching: 0, diverging: 0, first: None };
    let mut p: usize = 0;
    proof {
        reveal(Seq::filter);
    }
    while p < n
        invariant
            n == all.len(),
            n <= traces@.len(),
            forall|q: int| 0 <= q < n ==> all[q] == traces@[q],
            p <= n,
            out.diverging == all.take(p as int).filter(diverges()).len(),
            out.matching + out.diverging == p,
            out.first is None <==> out.diverging == 0,
            out.first is None ==> forall|q: int| 0 <= q < p ==> !diverges()(#[trigger] all[q]),
            out.first matches Some(f) ==> first_diverging(all, f.0 as int, f.1 as int),
        decreases n - p,
    {
        proof {
            crate::pipeline::lemma_filter_step(all, diverges(), p as int);
        }
        match first_divergence(&traces[p]) {
            Some(s) => {
                assert(differs(all[p as int]@[s as int]));
                assert(diverges()(all[p as int]));
                if out.first.is_none() {
                    out.first = Some((p, s));
                }
                out.diverging = out.diverging + 1;
            },
            None => {
                assert(!diverges()(all[p as int]));
                out.matching = out.matching + 1;
            },
        }
        p += 1;
    }
    assert(all.take(p as int) =~= all);
    out
}

/// The steps to show around a divergence: three before it and one after, as far as
/// there are any.
pub fn detail_range(s: usize, steps: usize) -> (r: (usize, usize))
    requires
        s < steps,
    ensures
        r.0 == if s > 3 {
            s - 3
        } else {
            0
        },
        r.1 == if s + 2 < steps {
            s + 2
        } else {
            steps as int
        },
        r.0 <= s < r.1 <= steps,
{
    let start: usize = if s > 3 {
        s - 3
    } else {
        0
    };
    let end: usize = if steps - s > 2 {
        s + 2
    } else {
        steps
    };
    (start, end)
}

proof fn lemma_gap()
    ensures
        is_quotient(Binary64 { bits: GAP_BITS }, 1, 100),
{
    let x = Binary64 { bits: GAP_BITS };
    assert(x.bits as int / EXPONENT_WEIGHT as int == 1016 && x.bits as int % EXPONENT_WEIGHT as int == 1261007895663739);
    let p = lemma_below_one(x, 7);
    lemma2_to64();
    assert(pow2(7) == 128);
    assert(pow2(7) * p == 128 * p);
}

/// A step in a void: the particle is lost where it has crossed more than a hundred
/// voids in a row, or where no cell lies behind the surface, and streams on otherwise
/// with its energy; only a transmitting surface leads into the next cell.
pub proof fn law_void_is_streamed_through(t: &mut Trace, hit: Option<Hit>, to: Arrival, r: TraceEvent)
    requires
        call_ensures(Trace::step_void, (t, hit, to), r),
        old(t).at_step(),
    ensures
        ({
            let edge = hit is None || hit->0.bc == BoundaryCondition::Vacuum || (hit->0.bc
                == BoundaryCondition::Transmission && !hit->0.has_next);
            &&& r == TraceEvent::Lost <==> old(t).void_crossings >= 100 || edge
            &&& r != TraceEvent::Lost ==> r == TraceEvent::Void
            &&& final(t).alive <==> r == TraceEvent::Void
            &&& final(t).cell == if hit is Some && hit->0.bc == BoundaryCondition::Transmission && hit->0.has_next {
                to.next_cell
            } else {
                old(t).cell
            }
        }),
        final(t).energy == old(t).energy && final(t).pos == to.pos,
        final(t).events@ == old(t).events@.push(r),
        final(t).rows@.len() == old(t).rows@.len() + 1,
        ({
            let row = final(t).rows@.last();
            &&& row.energy == old(t).energy && row.pos == old(t).pos && row.cell == old(t).cell
            &&& row.material is None
            &&& r == TraceEvent::Void ==> row.event == 9 && row.out_energy == old(t).energy && row.d_surf
                == hit->0.distance
            &&& r == TraceEvent::Lost ==> row.event == 8
        }),
{
}

/// A flight through a material: it is lost where the material has no cross section,
/// ends at the surface where that is nearer than the collision, and else waits for the
/// collision with nothing recorded yet.
pub proof fn law_flight_ends_at_the_nearer(t: &mut Trace, f: TraceFlight, to: Arrival, r: Option<TraceEvent>)
    requires
        call_ensures(Trace::step_flight, (t, f, to), r),
        old(t).at_step(),
        !f.macro_total.nan(),
        !f.d_coll.nan(),
        f.hit matches Some(h) ==> !h.distance.nan(),
    ensures
        ({
            let empty = f.macro_total.scaled() <= 0;
            let surface = f.hit is Some && f.hit->0.distance.scaled() < f.d_coll.scaled();
            &&& empty ==> r == Some(TraceEvent::Lost)
            &&& r is None <==> !empty && !surface
            &&& !empty && surface ==> match f.hit->0.bc {
                BoundaryCondition::Vacuum => r == Some(TraceEvent::Lost),
                BoundaryCondition::Reflective => r == Some(TraceEvent::Reflected),
                BoundaryCondition::Transmission => r == Some(
                    if f.hit->0.has_next {
                        TraceEvent::Crossed
                    } else {
                        TraceEvent::Lost
                    },
                ),
            }
        }),
        final(t).energy == old(t).energy,
        r is None ==> final(t).rows@ == old(t).rows@ && final(t).pos == old(t).pos && final(t).cell == old(t).cell
            && final(t).alive,
        r matches Some(e) ==> final(t).rows@.len() == old(t).rows@.len() + 1 && final(t).pos == to.pos && (final(t).cell == if e == TraceEvent::Crossed {
            to.next_cell
        } else {
            old(t).cell
        }) && (final(t).alive <==> e != TraceEvent::Lost),
        r matches Some(e) ==> {
            let row = final(t).rows@.last();
            &&& row.energy == old(t).energy && row.pos == old(t).pos && row.cell == old(t).cell
            &&& row.material == Some(f.material) && row.macro_total == f.macro_total
            &&& f.macro_total.scaled() > 0 ==> row.out_energy == old(t).energy && row.d_coll == f.d_coll && row.rng_xi
                == f.rng_xi && row.d_surf == f.hit->0.distance
        },
{
}

/// A collision: thermal scattering leaves the choice of scattering or capture; without
/// it the reaction is the first whose running total lies above the number, and capture
/// where none does. Only scattering changes the energy, and fission and capture end the
/// trace.
pub proof fn law_collision_picks_its_reaction(t: &mut Trace, c: TraceCollision, r: TraceEvent)
    requires
        call_ensures(Trace::step_collision, (t, c), r),
        old(t).wf(),
        old(t).pending is Some,
        !c.xi.nan(),
        !c.thermal.nan(),
        !c.channels.elastic.nan() && !c.channels.inelastic.nan() && !c.channels.two_neutrons.nan()
            && !c.channels.three_neutrons.nan() && !c.channels.fission.nan(),
    ensures
        ({
            let x = c.xi.scaled();
            let n = c.channels;
            let thermal = c.thermal.scaled() > 0;
            &&& thermal ==> r == if x < c.thermal.scaled() {
                TraceEvent::Elastic
            } else {
                TraceEvent::Capture
            }
            &&& !thermal ==> (r == TraceEvent::Elastic <==> x < n.elastic.scaled())
            &&& !thermal && r == TraceEvent::Inelastic ==> n.elastic.scaled() <= x < n.inelastic.scaled()
            &&& !thermal && r == TraceEvent::TwoNeutrons ==> n.inelastic.scaled() <= x < n.two_neutrons.scaled()
            &&& !thermal && r == TraceEvent::ThreeNeutrons ==> n.two_neutrons.scaled() <= x < n.three_neutrons.scaled()
            &&& !thermal && r == TraceEvent::Fission ==> n.three_neutrons.scaled() <= x < n.fission.scaled()
            &&& !thermal && r == TraceEvent::Capture ==> n.fission.scaled() <= x
            &&& r == TraceEvent::Elastic || r == TraceEvent::Inelastic || r == TraceEvent::TwoNeutrons || r
                == TraceEvent::ThreeNeutrons || r == TraceEvent::Fission || r == TraceEvent::Capture
        }),
        final(t).alive <==> r != TraceEvent::Fission && r != TraceEvent::Capture,
        final(t).energy == if r == TraceEvent::Elastic || r == TraceEvent::Inelastic {
            c.scattered_energy
        } else {
            old(t).energy
        },
        final(t).pos == c.pos && final(t).cell == old(t).cell,
        final(t).rows@.len() == old(t).rows@.len() + 1,
        ({
            let row = final(t).rows@.last();
            let flight = old(t).pending->0;
            &&& row.hit_nuclide == c.nuclide && row.elastic == c.elastic && row.inelastic == c.inelastic
            &&& row.fission == c.fission && row.capture == c.capture
            &&& row.energy == flight.energy && row.pos == flight.pos && row.material == flight.material
            &&& row.out_energy == final(t).energy
        }),
{
}

/// A particle that is in no cell is lost.
pub proof fn law_particle_nowhere_is_lost(t: &mut Trace, r: TraceEvent)
    requires
        call_ensures(Trace::step_nowhere, (t,), r),
        old(t).at_step(),
    ensures
        r == TraceEvent::Lost && !final(t).alive,
        final(t).events@ == old(t).events@.push(TraceEvent::Lost),
        final(t).rows@.last().event == 8,
{
}

/// The columns of a row: energy, place, cell and material, the cross section and the
/// two distances, the event and the nuclide, the four reactions, the energy after and
/// the random number.
pub proof fn law_columns_of_a_row(row: &TraceRow, r: Vec<Column>)
    requires
        call_ensures(TraceRow::columns, (row,), r),
    ensures
        r@.len() == 17,
        r@[0] == Column::Number(row.energy) && r@[1] == Column::Number(row.pos.x) && r@[2] == Column::Number(row.pos.y)
            && r@[3] == Column::Number(row.pos.z),
        r@[4] == Column::Count(row.cell),
        row.material matches Some(m) ==> r@[5] == Column::Count(m),
        row.material is None ==> r@[5] == Column::Code(-1i32),
        r@[6] == Column::Number(row.macro_total) && r@[7] == Column::Number(row.d_coll) && r@[8] == Column::Number(
            row.d_surf,
        ),
        r@[9] == Column::Code(row.event) && r@[10] == Column::Count(row.hit_nuclide),
        r@[11] == Column::Number(row.elastic) && r@[12] == Column::Number(row.inelastic) && r@[13] == Column::Number(
            row.fission,
        ) && r@[14] == Column::Number(row.capture),
        r@[15] == Column::Number(row.out_energy) && r@[16] == Column::Number(row.rng_xi),
{
}

/// The rows of different steps do not overlap, and particles have different seeds; a
/// thermal table is used between zero and its upper end.
pub proof fn law_steps_have_their_own_rows(
    p: usize,
    s: usize,
    q: usize,
    u: usize,
    max_steps: usize,
    a: usize,
    b: usize,
    energy: Binary64,
    top: Binary64,
    thermal: bool,
)
    requires
        call_ensures(trace_row, (p, s, max_steps), a),
        call_ensures(trace_row, (q, u, max_steps), b),
        call_ensures(takes_thermal, (energy, top), thermal),
        s < max_steps,
        u < max_steps,
    ensures
        (p, s) != (q, u) ==> a + 17 <= b || b + 17 <= a,
        p == q && u == s + 1 ==> b == a + 17,
        thermal <==> !energy.nan() && !top.nan() && 0 < energy.scaled() < top.scaled(),
{
    if (p, s) != (q, u) {
        law_trace_rows_are_disjoint(p as int, s as int, q as int, u as int, max_steps as int);
    }
    if p == q && u == s + 1 {
        let base = p * max_steps;
        assert((base + u) * 17 == (base + s) * 17 + 17);
    }
}

/// Two traces part at the first step where their events differ, or their energies or
/// cross sections by more than one percent.
pub proof fn law_traces_part_at_the_first_difference(steps: &Vec<StepPair>, r: Option<usize>, i: int)
    requires
        call_ensures(first_divergence, (steps,), r),
        0 <= i < steps@.len(),
    ensures
        is_quotient(Binary64 { bits: GAP_BITS }, 1, 100),
        ({
            let limit = (Binary64 { bits: GAP_BITS }).scaled();
            let p = steps@[i];
            let off = p.device_event != p.host_event || (!p.energy_gap.nan() && p.energy_gap.scaled() > limit) || (
            !p.total_gap.nan() && p.total_gap.scaled() > limit);
            &&& off ==> r is Some && r->0 <= i
            &&& r == Some(i as usize) ==> off
        }),
{
    lemma_gap();
    assert(steps.len() == steps@.len());
    if differs(steps@[i]) {
        assert(diverges()(*steps));
    }
}

/// A relative gap is taken only to a positive reference; the details of a step are
/// shown from three steps before it to one after, as far as there are any.
pub proof fn law_gap_and_details(reference: Binary64, quotient: Binary64, gap: Binary64, s: usize, n: usize, r: (usize, usize))
    requires
        call_ensures(relative_gap, (reference, quotient), gap),
        call_ensures(detail_range, (s, n), r),
        s < n,
    ensures
        !reference.nan() && reference.scaled() > 0 ==> gap == quotient,
        reference.nan() || reference.scaled() <= 0 ==> gap.scaled() == 0 && !gap.nan(),
        r.0 <= s < r.1 <= n,
        s >= 3 ==> r.0 + 3 == s,
        s < 3 ==> r.0 == 0,
        s + 2 <= n ==> r.1 == s + 2,
{
}

/// The numbers of the events: the six reactions from zero on, then what happens at a
/// surface, the loss of a particle and the way through a void.
pub proof fn law_event_numbers_are_fixed(e: TraceEvent, r: i32)
    requires
        call_ensures(event_code, (e,), r),
    ensures
        r == 0 <==> e == TraceEvent::Elastic,
        r == 1 <==> e == TraceEvent::Inelastic,
        r == 2 <==> e == TraceEvent::TwoNeutrons,
        r == 3 <==> e == TraceEvent::ThreeNeutrons,
        r == 4 <==> e == TraceEvent::Fission,
        r == 5 <==> e == TraceEvent::Capture,
        r == 6 <==> e == TraceEvent::Reflected,
        r == 7 <==> e == TraceEvent::Crossed,
        r == 8 <==> e == TraceEvent::Lost,
        r == 9 <==> e == TraceEvent::Void,
{
}

/// At most the first twenty traces are compared; each of them matches or diverges, and
/// the first divergence that is told is that of the first trace that has one.
pub proof fn law_first_traces_are_compared(traces: &Vec<Vec<StepPair>>, r: TraceComparison, p: int, s: int)
    requires
        call_ensures(compare_traces, (traces,), r),
        0 <= p < traces@.len(),
        p < 20,
        0 <= s < traces@[p]@.len(),
    ensures
        r.matching + r.diverging == if traces@.len() < 20 {
            traces@.len() as int
        } else {
            20
        },
        r.first is Some <==> r.diverging > 0,
        traces@[p]@[s].device_event != traces@[p]@[s].host_event ==> r.first is Some && (r.first->0).0 <= p,
        r.first matches Some(f) ==> f.0 < traces@.len() && f.1 < traces@[f.0 as int]@.len() && differs(
            traces@[f.0 as int]@[f.1 as int],
        ),
{
    broadcast use vstd::seq_lib::group_filter_ensures;

    let seen = compared(traces@);
    assert(seen[p] == traces@[p]);
    if differs(traces@[p]@[s]) {
        assert(diverges()(seen[p]));
        assert(seen.filter(diverges()).contains(seen[p]));
        if let Some(f) = r.first {
            if p < f.0 {
                assert(!diverges()(seen[p]));
            }
        }
    }
}

/// A new trace starts at its source with nothing recorded, and runs while the particle
/// lives and steps are left; particles have different seeds.
pub proof fn law_trace_starts_at_its_source(
    source: TraceSource,
    max_steps: usize,
    t: Trace,
    running: bool,
    p: u64,
    q: u64,
    a: (u64, u64),
    b: (u64, u64),
)
    requires
        call_ensures(Trace::new, (source, max_steps), t),
        call_ensures(Trace::running, (&t,), running),
        call_ensures(trace_seed, (p,), a),
        call_ensures(trace_seed, (q,), b),
    ensures
        t.energy == source.energy && t.pos == source.pos && t.cell == source.cell,
        t.rows@.len() == 0 && t.events@.len() == 0 && t.void_crossings == 0,
        running <==> max_steps > 0,
        a.0 == 100_000 * p + 42 && a.1 == p,
        a.0 == b.0 <==> p == q,
{
}

/// A blank row holds nothing but zeros.
pub proof fn law_blank_row_is_zero(r: TraceRow, columns: Vec<Column>, i: int)
    requires
        call_ensures(TraceRow::blank, (), r),
        call_ensures(TraceRow::columns, (&r,), columns),
        0 <= i < columns@.len(),
    ensures
        match columns@[i] {
            Column::Number(x) => x.bits == 0,
            Column::Count(n) => n == 0,
            Column::Code(c) => c == 0,
        },
{
}

/// The surface ahead is looked for as long as fewer than a hundred voids were crossed in
/// a row.
pub proof fn law_surface_is_looked_for(t: &Trace, r: bool)
    requires
        call_ensures(Trace::looks_ahead, (t,), r),
    ensures
        r <==> t.void_crossings < 100,
{
}

} // verus!
