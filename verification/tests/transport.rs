use criticality_bench::binary64::Binary64;
use criticality_bench::const_transport::{Axis, End, Hit, Input, Medium, Motion, Stage, Transport};
use criticality_bench::geometry::{BoundaryCondition, Vec3};
use criticality_bench::lattice::{LatticeCell, LatticeFill};
use criticality_bench::parity::{
    cell_histogram, count_disagreements, finish_comparison, host_answer, largest_gap, mismatches, no_surface,
    sample_cell, starts_ray, to_device_index, RayAnswer, RayHit, RayPair,
};
use criticality_bench::photon_bench::{
    counts_text, layer_places, map_text, peak_flux, total_collisions, PhotonHistory, MAX_DRAWS,
};
use criticality_bench::region::build_region;
use criticality_bench::raybox::{count_hits, hit_of, interval, launch_blocks, nearest_box, Slabs};
use criticality_bench::trace::{
    compare_traces, detail_range, event_code, first_divergence, relative_gap, takes_thermal, trace_row, trace_seed,
    Arrival, Channels, Column, StepPair, Trace, TraceCollision, TraceEvent, TraceFlight, TraceRow, TraceSource,
    TRACE_COLS,
};

fn number(x: f64) -> Binary64 {
    Binary64::from_bits(x.to_bits())
}

fn float(x: Binary64) -> f64 {
    f64::from_bits(x.bits)
}

fn hit(distance: f64, bc: BoundaryCondition) -> Option<Hit> {
    Some(Hit { distance: number(distance), bc, across: Some(Axis::X), has_next: true })
}

fn site() -> Vec3 {
    Vec3 { x: number(1.0), y: number(2.0), z: number(3.0) }
}

fn in_medium(t: &mut Transport) {
    t.next_history();
    assert_eq!(t.step(Input::Located(true)), Motion::Wait);
    assert_eq!(t.step(Input::Filled(Medium::Material(0))), Motion::Wait);
    assert_eq!(t.step(Input::Total(number(1.0))), Motion::Wait);
}

#[test]
fn fission_banks_its_neutrons_and_ends_the_history() {
    let mut t = Transport::new(100);
    in_medium(&mut t);
    let flight = Input::Flight { d_collide: number(0.5), hit: hit(2.0, BoundaryCondition::Vacuum) };
    assert_eq!(t.step(flight), Motion::Collide);
    assert_eq!(t.step(Input::Reaction { xi: number(0.1), sigma_a: number(0.5) }), Motion::Wait);
    assert_eq!(t.step(Input::FissionDraw { xi: number(0.1), share: number(0.8) }), Motion::Wait);
    assert_eq!(t.step(Input::Yield { neutrons: 3, site: site() }), Motion::Stop(End::Absorbed));
    assert_eq!((t.collisions, t.absorptions, t.fissions, t.leakage), (1, 1, 3, 0));
    assert_eq!(t.bank, vec![site(); 3]);
    assert_eq!(t.stage, Stage::Ended(End::Absorbed));
}

#[test]
fn leak_is_counted_once() {
    let mut t = Transport::new(100);
    in_medium(&mut t);
    let flight = Input::Flight { d_collide: number(5.0), hit: hit(2.0, BoundaryCondition::Vacuum) };
    assert_eq!(t.step(flight), Motion::Stop(End::Leaked));
    assert_eq!((t.collisions, t.leakage), (0, 1));
    t.next_history();
    assert_eq!(t.step(Input::Located(false)), Motion::Stop(End::Leaked));
    assert_eq!(t.leakage, 2);
}

#[test]
fn reflection_and_scattering_go_on() {
    let mut t = Transport::new(100);
    in_medium(&mut t);
    let mirror = Input::Flight { d_collide: number(5.0), hit: hit(2.0, BoundaryCondition::Reflective) };
    assert_eq!(t.step(mirror), Motion::Reflect { distance: number(2.0), across: Some(Axis::X) });
    assert_eq!(t.step(Input::Filled(Medium::Material(0))), Motion::Wait);
    assert_eq!(t.step(Input::Total(number(1.0))), Motion::Wait);
    let flight = Input::Flight { d_collide: number(0.5), hit: hit(2.0, BoundaryCondition::Vacuum) };
    assert_eq!(t.step(flight), Motion::Collide);
    assert_eq!(t.step(Input::Reaction { xi: number(0.9), sigma_a: number(0.5) }), Motion::Scatter);
    assert_eq!(t.stage, Stage::AtEvent);
}

#[test]
fn history_is_given_up_after_its_events() {
    let mut t = Transport::new(1);
    in_medium(&mut t);
    let mirror = Input::Flight { d_collide: number(5.0), hit: hit(2.0, BoundaryCondition::Reflective) };
    t.step(mirror);
    assert_eq!(t.stage, Stage::Ended(End::Exhausted));
    assert_eq!((t.histories, t.exhausted, t.leakage), (1, 1, 0));
}

#[test]
fn every_started_history_is_counted_once() {
    let mut t = Transport::new(1);
    assert_eq!((t.histories, t.exhausted), (0, 0));
    in_medium(&mut t);
    assert_eq!((t.histories, t.absorptions, t.leakage, t.exhausted), (1, 0, 0, 0));
    t.step(Input::Flight { d_collide: number(0.5), hit: hit(2.0, BoundaryCondition::Vacuum) });
    t.step(Input::Reaction { xi: number(0.1), sigma_a: number(0.5) });
    assert_eq!((t.histories, t.absorptions, t.leakage, t.exhausted), (1, 1, 0, 0));
    t.step(Input::FissionDraw { xi: number(0.9), share: number(0.8) });
    in_medium(&mut t);
    t.step(Input::Flight { d_collide: number(5.0), hit: hit(2.0, BoundaryCondition::Vacuum) });
    in_medium(&mut t);
    t.step(Input::Flight { d_collide: number(5.0), hit: hit(2.0, BoundaryCondition::Reflective) });
    assert_eq!((t.histories, t.absorptions, t.leakage, t.exhausted), (3, 1, 1, 1));
}

fn channels() -> Channels {
    Channels {
        elastic: number(0.2),
        inelastic: number(0.4),
        two_neutrons: number(0.5),
        three_neutrons: number(0.55),
        fission: number(0.8),
    }
}

fn at(x: f64) -> Vec3 {
    Vec3 { x: number(x), y: number(0.0), z: number(0.0) }
}

fn started(max_steps: usize) -> Trace {
    Trace::new(TraceSource { energy: number(2.0e6), pos: at(0.0), cell: 3 }, max_steps)
}

fn to(x: f64, next_cell: usize) -> Arrival {
    Arrival { pos: at(x), next_cell }
}

fn flight(macro_total: f64, d_coll: f64, hit: Option<Hit>) -> TraceFlight {
    TraceFlight { material: 1, macro_total: number(macro_total), rng_xi: number(0.25), d_coll: number(d_coll), hit }
}

fn collision(xi: f64, thermal: f64) -> TraceCollision {
    TraceCollision {
        nuclide: 7,
        elastic: number(0.2),
        inelastic: number(0.2),
        fission: number(0.25),
        capture: number(0.1),
        xi: number(xi),
        thermal: number(thermal),
        channels: channels(),
        scattered_energy: number(1.0e5),
        pos: at(0.5),
    }
}

#[test]
fn collision_picks_its_channel() {
    let picks = [
        (0.1, TraceEvent::Elastic, 1.0e5),
        (0.3, TraceEvent::Inelastic, 1.0e5),
        (0.45, TraceEvent::TwoNeutrons, 2.0e6),
        (0.52, TraceEvent::ThreeNeutrons, 2.0e6),
        (0.7, TraceEvent::Fission, 2.0e6),
        (0.9, TraceEvent::Capture, 2.0e6),
    ];
    for (xi, event, energy) in picks {
        let mut t = started(10);
        assert_eq!(t.step_flight(flight(1.0, 0.5, None), to(0.0, 0)), None);
        assert_eq!(t.step_collision(collision(xi, 0.0)), event);
        assert_eq!(t.rows[0].out_energy, number(energy));
        assert_eq!(t.rows[0].event, event_code(event));
    }
    let mut t = started(10);
    assert_eq!(t.step_flight(flight(1.0, 0.5, None), to(0.0, 0)), None);
    assert_eq!(t.step_collision(collision(0.3, 0.5)), TraceEvent::Elastic);
    assert_eq!(t.events, vec![TraceEvent::Elastic]);
    let row = t.rows[0];
    assert_eq!((row.energy, row.pos, row.cell, row.material), (number(2.0e6), at(0.0), 3, Some(1)));
    assert_eq!((row.d_coll, row.d_surf, row.rng_xi), (number(0.5), number(1.0e20), number(0.25)));
    assert_eq!((row.hit_nuclide, row.fission, row.capture), (7, number(0.25), number(0.1)));
}

#[test]
fn rows_follow_the_particle() {
    let mut t = started(3);
    assert_eq!(t.step_void(hit(1.0, BoundaryCondition::Transmission), to(1.0, 4)), TraceEvent::Void);
    assert_eq!((t.cell, t.pos, t.energy), (4, at(1.0), number(2.0e6)));
    assert_eq!(t.step_flight(flight(1.0, 0.5, hit(2.0, BoundaryCondition::Vacuum)), to(0.0, 0)), None);
    assert_eq!(t.step_collision(collision(0.1, 0.0)), TraceEvent::Elastic);
    assert_eq!(
        t.step_flight(flight(1.0, 5.0, hit(2.0, BoundaryCondition::Reflective)), to(2.5, 9)),
        Some(TraceEvent::Reflected)
    );
    assert!(!t.running());
    assert_eq!(t.rows.len(), 3);
    assert_eq!((t.rows[0].energy, t.rows[0].pos, t.rows[0].material), (number(2.0e6), at(0.0), None));
    assert_eq!(t.rows[0].columns()[5], Column::Code(-1));
    assert_eq!((t.rows[0].d_surf, t.rows[0].event), (number(1.0), 9));
    for i in 1..3 {
        assert_eq!(t.rows[i].energy, t.rows[i - 1].out_energy);
    }
    assert_eq!((t.rows[2].cell, t.rows[2].pos, t.rows[2].out_energy), (4, at(0.5), number(1.0e5)));
    assert_eq!(t.cell, 4);
}

#[test]
fn trace_ends_when_lost() {
    let mut t = started(10);
    assert!(t.running() && t.looks_ahead());
    let pass = hit(1.0, BoundaryCondition::Transmission);
    assert_eq!(t.step_void(pass, to(1.0, 4)), TraceEvent::Void);
    assert_eq!(t.step_flight(flight(1.0, 5.0, pass), to(2.0, 5)), Some(TraceEvent::Crossed));
    assert_eq!(t.step_flight(flight(0.0, 0.5, None), to(2.0, 5)), Some(TraceEvent::Lost));
    assert!(!t.running());
    assert_eq!((t.rows[2].d_coll, t.rows[2].d_surf, t.rows[2].cell), (number(0.0), number(0.0), 5));
    let mut t = started(10);
    assert_eq!(t.step_nowhere(), TraceEvent::Lost);
    assert!(!t.running() && t.nowhere);
    assert_eq!(t.rows[0].energy, number(0.0));
}

#[test]
fn endless_voids_are_given_up() {
    let mut t = started(1000);
    for i in 0..100 {
        assert_eq!(t.step_void(hit(1.0, BoundaryCondition::Transmission), to(i as f64, 4)), TraceEvent::Void);
    }
    assert!(!t.looks_ahead());
    assert_eq!(t.step_void(None, to(0.0, 0)), TraceEvent::Lost);
    assert!(!t.running());
    assert_eq!(t.rows[100].out_energy, number(0.0));
}

#[test]
fn rows_and_codes_of_traces() {
    assert_eq!(event_code(TraceEvent::Elastic), 0);
    assert_eq!(event_code(TraceEvent::Void), 9);
    assert_eq!(trace_row(2, 3, 10), (2 * 10 + 3) * TRACE_COLS);
    assert_eq!(detail_range(1, 10), (0, 3));
    assert_eq!(detail_range(9, 10), (6, 10));
}

#[test]
fn divergence_is_the_first_difference() {
    let pair = |device: i32, host: i32, gap: f64| StepPair {
        device_event: device,
        host_event: host,
        energy_gap: number(gap),
        total_gap: number(0.0),
    };
    assert_eq!(first_divergence(&vec![pair(1, 1, 0.0), pair(2, 2, 0.001)]), None);
    assert_eq!(first_divergence(&vec![pair(1, 1, 0.0), pair(2, 2, 0.5), pair(1, 2, 0.0)]), Some(1));
    assert_eq!(first_divergence(&vec![pair(1, 2, 0.0)]), Some(0));
}

#[test]
fn ray_enters_and_leaves_a_box() {
    let s = Slabs {
        x0: number(1.0),
        x1: number(4.0),
        y0: number(5.0),
        y1: number(2.0),
        z0: number(-1.0),
        z1: number(3.0),
    };
    let (low, high) = interval(&s);
    assert_eq!((float(low), float(high)), (2.0, 3.0));
    assert_eq!(hit_of(low, high), Some(number(2.0)));
    assert_eq!(hit_of(number(-1.0), number(3.0)), Some(number(3.0)));
    assert_eq!(hit_of(number(-5.0), number(-3.0)), None);
    assert_eq!(hit_of(number(4.0), number(3.0)), None);
}

#[test]
fn nearest_box_is_the_first_of_the_closest() {
    let hits = vec![None, Some(number(5.0)), Some(number(2.0)), Some(number(2.0))];
    assert_eq!(nearest_box(&hits), 2);
    assert_eq!(nearest_box(&vec![None, None]), -1);
    assert_eq!(count_hits(&vec![-1, 0, 7, -1]), 2);
    assert_eq!(launch_blocks(1_000_000, 256), 3907);
    assert_eq!(launch_blocks(512, 256), 2);
}

#[test]
fn devices_are_compared() {
    assert_eq!(mismatches(&vec![1, 2, 3], &vec![1, 5, 4]), vec![1, 2]);
    let same = RayAnswer { surface: 3, bc: 0, next_cell: 7 };
    let other = RayAnswer { surface: 4, bc: 0, next_cell: -1 };
    let d = count_disagreements(&vec![
        RayPair { host: same, device: same, distance_gap: number(1e-12) },
        RayPair { host: same, device: other, distance_gap: number(1e-3) },
    ]);
    assert_eq!((d.distance, d.surface, d.bc, d.next_cell), (1, 1, 0, 1));
    assert_eq!(no_surface(), RayAnswer { surface: -1, bc: 1, next_cell: -1 });
    assert_eq!(cell_histogram(&vec![3, 1, 3, -1]), vec![(-1, 1), (1, 1), (3, 2)]);
}

#[test]
fn photon_stops_at_the_cutoff_or_the_limit() {
    let mut p = PhotonHistory::new(number(1.0e6));
    assert!(p.goes_on());
    assert!(!p.draw(number(0.9), number(0.5), number(5.0e5)));
    assert_eq!((p.collisions, p.draws), (0, 1));
    assert!(p.draw(number(0.4), number(0.5), number(5.0e5)));
    assert_eq!((p.collisions, p.draws, float(p.energy)), (1, 0, 5.0e5));
    for _ in 1..64 {
        assert!(p.goes_on());
        assert!(p.draw(number(0.0), number(1.0), number(5.0e5)));
    }
    assert!(!p.goes_on());
    assert!(!PhotonHistory::new(number(1000.0)).goes_on());
}

#[test]
fn photon_keeps_its_last_draw() {
    let mut p = PhotonHistory::new(number(1.0e6));
    for _ in 0..MAX_DRAWS - 1 {
        assert!(!p.draw(number(1.0), number(0.0), number(1.0)));
    }
    assert!(p.draw(number(1.0), number(0.0), number(7.0)));
    assert_eq!((p.collisions, float(p.energy)), (1, 7.0));
}

#[test]
fn importance_map_is_written() {
    assert_eq!(total_collisions(&vec![3, 0, 61]), 64);
    assert_eq!(layer_places(2, 3), vec![6, 7, 8]);
    assert_eq!(peak_flux(&vec![number(0.5), number(2.0), number(f64::NAN)]), Some(number(2.0)));
    assert_eq!(peak_flux(&vec![number(0.0), number(-1.0)]), None);
    assert_eq!(counts_text(&vec![]), "");
    assert_eq!(counts_text(&vec![1000000, 0, 42]), "1000000,0,42");
    assert_eq!(
        map_text("100", 3, &vec![1000000, 0, 42]),
        r#"{"thickness_cm":100,"n_z_bins":3,"counts":[1000000,0,42]}"#
    );
}

#[test]
fn trace_rows_have_their_columns() {
    assert_eq!(trace_seed(3), (300_042, 3));
    let mut row = TraceRow::blank();
    row.energy = number(2.0);
    row.event = 5;
    row.rng_xi = number(0.25);
    let columns = row.columns();
    assert_eq!(columns.len(), TRACE_COLS);
    assert_eq!(
        (columns[0], columns[9], columns[16]),
        (Column::Number(number(2.0)), Column::Code(5), Column::Number(number(0.25)))
    );
    assert_eq!(columns[10], Column::Count(0));
}

#[test]
fn thermal_data_have_a_range() {
    assert!(takes_thermal(number(1.0), number(4.0)));
    assert!(!takes_thermal(number(4.0), number(4.0)));
    assert!(!takes_thermal(number(0.0), number(4.0)));
    assert_eq!(relative_gap(number(2.0), number(0.5)), number(0.5));
    assert_eq!(relative_gap(number(0.0), number(0.5)), number(0.0));
}

#[test]
fn traces_are_compared_up_to_a_limit() {
    let step = |device: i32, host: i32| StepPair {
        device_event: device,
        host_event: host,
        energy_gap: number(0.0),
        total_gap: number(0.0),
    };
    let same = vec![step(1, 1), step(5, 5)];
    let other = vec![step(1, 1), step(5, 4)];
    let mut traces = vec![same.clone(), other.clone(), other.clone()];
    let c = compare_traces(&traces);
    assert_eq!((c.matching, c.diverging, c.first), (1, 2, Some((1, 1))));
    traces = vec![same; 20];
    traces.push(other);
    let c = compare_traces(&traces);
    assert_eq!((c.matching, c.diverging, c.first), (20, 0, None));
}

#[test]
fn host_answers_are_written_like_device_answers() {
    assert_eq!(host_answer(None), no_surface());
    let hit = RayHit { surface: Some(4), bc: BoundaryCondition::Reflective, next_cell: None };
    assert_eq!(host_answer(Some(hit)), RayAnswer { surface: 4, bc: 2, next_cell: -1 });
    assert_eq!(to_device_index(Some(7)), 7);
    assert_eq!(to_device_index(None), -1);
    assert!(starts_ray(Some(2)) && !starts_ray(Some(1)) && !starts_ray(None));
}

#[test]
fn points_are_drawn_from_the_first_lattice() {
    let cell = |fill: LatticeFill| LatticeCell { region: build_region("-a", &vec!["a".to_string()]).ok().expect("a region"), fill, kelvin: None };
    let cells = vec![cell(LatticeFill::Void), cell(LatticeFill::HexLattice(0)), cell(LatticeFill::Lattice(0))];
    assert_eq!(sample_cell(&cells), Some(2));
    assert_eq!(sample_cell(&vec![cell(LatticeFill::Material(1))]), None);
}

#[test]
fn gaps_and_mismatches_are_summed_up() {
    let pair = |gap: f64| RayPair { host: no_surface(), device: no_surface(), distance_gap: number(gap) };
    assert_eq!(largest_gap(&vec![pair(1e-12), pair(f64::NAN), pair(0.5), pair(0.25)]), number(0.5));
    assert_eq!(largest_gap(&vec![]), number(0.0));
    assert_eq!(finish_comparison(&vec![]), (0, vec![]));
    let many: Vec<usize> = (0..30).collect();
    assert_eq!(finish_comparison(&many), (1, (0..10).collect()));
}
