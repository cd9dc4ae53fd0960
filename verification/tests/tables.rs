use criticality_bench::batches::{
    assembly_source_seed, counted_histories, geometry_code, is_active, normalize_bank, pin_seeds, pin_source_seed,
    reported_spread, site_capacity, split_batches, thermal_index, Site, SourceLoop,
};
use criticality_bench::binary64::Binary64;
use criticality_bench::burnup::{
    build_chain, burnup_nuclides, check_composition, check_matrix, feed_chain, fission_outgoing_at, pin_materials,
    preload_nuclide_cache_weights, start_composition, step_seed, BurnupError, CacheWeight, ChainReaction, Collapsed,
    FissionYields, FluxFeedback, Product, SpectrumError, SpectrumSize,
};
use criticality_bench::device_load::{
    any_multipole, covered, device_error, device_slots, first_slot, load_svd, load_table, sphere_runs,
    table_temperature, SphereLoad, SphereMode, SphereRequest, XsSource,
};
use criticality_bench::features::{
    energies_within, features_to_show, history_count, host_sampling, is_printed, link_devices, parse, parse_flag,
    parse_number, validation_exit, Feature, FlagError,
};
use criticality_bench::lattice::{
    assembly_cells, assembly_universe_cells, assembly_universes, hex_cells, hex_core, hex_universe_cells,
    const_xs_cells, small_lattice_cells, small_lattice_universe_cells, westinghouse_layout, LatticeFill, Surroundings, TubeChoice,
};
use criticality_bench::region::Region;
use criticality_bench::samples::{
    basis_entry, basis_sources, benchmarked, build_tensor, coefficient_entry, decomposition_bytes,
    generate_random_indices, is_level, keep_levels, kept_coefficients, kept_rank, neighbours, nuclide_name,
    per_level_bytes, positive_range, reduced_energies, table_bytes, warm_up, KernelForm, LevelRead, MemoryTotals,
    TableShape,
};
use criticality_bench::search::{
    cdf_bin, choose_angle_inversion, choose_device_inversion, choose_host_inversion, grid_index, interval_of,
    locate_bin, pick_angular, pick_bin, AngularPick, BinPlace, Inversion, Step,
};
use criticality_bench::spectrum::{
    argmax_bin_range, compared_bins, find_compton_edge, histogram, judge, shell_counts, shell_index, PulseSpectrum,
};
use criticality_bench::text::{
    are_bytes_before, chars_of, contains_text, decimal_text, holds_text, same_text,
};
use criticality_bench::xs_compare::{
    angle_probes, angles_agree, compare_all, difference_kind, first_samples_same, host_grid_place, reaction_place,
    xs_agree, Difference,
};

fn number(x: f64) -> Binary64 {
    Binary64::from_bits(x.to_bits())
}

fn float(x: Binary64) -> f64 {
    f64::from_bits(x.bits)
}

fn numbers(list: &[f64]) -> Vec<Binary64> {
    list.iter().map(|x| number(*x)).collect()
}

fn strings(list: &[&str]) -> Vec<String> {
    list.iter().map(|s| s.to_string()).collect()
}

#[test]
fn order_of_numbers_is_that_of_floats() {
    let list = [f64::NEG_INFINITY, -1.5, -1.0e-310, -0.0, 0.0, 5.0e-324, 1.0, 1.0e300, f64::INFINITY, f64::NAN];
    for a in list {
        for b in list {
            assert_eq!(number(a).lt(number(b)), a < b);
            assert_eq!(number(a).le(number(b)), a <= b);
            assert_eq!(number(a).equals(number(b)), a == b);
            if a.is_nan() && b.is_nan() {
                assert!(number(a).max(number(b)).is_nan());
            } else {
                assert_eq!(float(number(a).max(number(b))), a.max(b));
                assert_eq!(float(number(a).min(number(b))), a.min(b));
            }
        }
    }
}

#[test]
fn signs_are_dropped_and_turned() {
    assert_eq!(float(number(-2.5).abs()), 2.5);
    assert_eq!(float(number(2.5).negate()), -2.5);
    assert!(Binary64::quiet_nan().is_nan());
    assert_eq!(float(Binary64::infinity()), f64::INFINITY);
    assert_eq!(float(Binary64::negative_infinity()), f64::NEG_INFINITY);
    assert_eq!(float(Binary64::zero()), 0.0);
}

#[test]
fn texts_are_compared_and_searched() {
    assert_eq!(chars_of("a\u{e9}z"), vec!['a', '\u{e9}', 'z']);
    assert!(same_text("abc", "abc") && !same_text("abc", "abd"));
    assert!(contains_text("heu-met-fast-001", "met") && !contains_text("heu", "heu-"));
    assert!(contains_text("heu", ""));
    assert!(are_bytes_before(&b"ab".to_vec(), &b"b".to_vec()) && !are_bytes_before(&b"b".to_vec(), &b"ab".to_vec()));
    assert!(are_bytes_before(&b"a".to_vec(), &b"ab".to_vec()));
    assert_eq!(decimal_text(0), "0");
    assert_eq!(decimal_text(u64::MAX), "18446744073709551615");
    assert!(holds_text(&strings(&["x", "y"]), "y") && !holds_text(&strings(&["x"]), "y"));
}

fn inside(r: &Region, sides: &[bool]) -> bool {
    match r {
        Region::Inside(i) => !sides[*i],
        Region::Outside(i) => sides[*i],
        Region::Complement(a) => !inside(a, sides),
        Region::Intersection(a, b) => inside(a, sides) && inside(b, sides),
        Region::Union(a, b) => inside(a, sides) || inside(b, sides),
    }
}

#[test]
fn assembly_holds_25_tubes() {
    let layout = westinghouse_layout();
    let tubes: Vec<(usize, usize)> = (0..17)
        .flat_map(|r| (0..17).map(move |c| (r, c)))
        .filter(|(r, c)| layout[*r][*c])
        .collect();
    let wanted = [
        (2, 5), (2, 8), (2, 11), (3, 3), (3, 13), (5, 2), (5, 5), (5, 8), (5, 11), (5, 14), (8, 2), (8, 5), (8, 8),
        (8, 11), (8, 14), (11, 2), (11, 5), (11, 8), (11, 11), (11, 14), (13, 3), (13, 13), (14, 5), (14, 8), (14, 11),
    ];
    assert_eq!(tubes, wanted);
    for r in 0..17 {
        for c in 0..17 {
            assert_eq!(layout[r][c], layout[c][r]);
            assert_eq!(layout[r][c], layout[16 - r][c]);
        }
    }
}

#[test]
fn assembly_universes_follow_the_choice() {
    let plain = assembly_universes(TubeChoice { no_tubes: false, all_tubes: false });
    assert_eq!(plain.len(), 289);
    assert_eq!(plain.iter().filter(|u| **u == 2).count(), 25);
    assert_eq!(plain[2 * 17 + 5], 2);
    let none = assembly_universes(TubeChoice { no_tubes: true, all_tubes: false });
    assert!(none.iter().all(|u| *u == 1));
    let all = assembly_universes(TubeChoice { no_tubes: true, all_tubes: true });
    assert!(all.iter().all(|u| *u == 2));
}

#[test]
fn hexagonal_core_has_the_right_pins() {
    for (rings, pins) in [(0, 1), (1, 7), (2, 19), (3, 37)] {
        let core = hex_core(rings);
        assert_eq!(core.pins, pins);
        assert_eq!(core.stride, 2 * rings + 3);
        assert_eq!(core.universes.len(), core.stride * core.stride);
        assert_eq!(core.universes.iter().filter(|u| **u == 1).count(), pins);
    }
    let core = hex_core(1);
    assert_eq!(core.universes[2 * 5 + 2], 1);
    assert_eq!(core.universes[3 * 5 + 3], 2);
    assert_eq!(core.universes[3 * 5 + 1], 1);
}

#[test]
fn every_point_lies_in_one_cell() {
    let cells = assembly_cells(true, Surroundings::Everything);
    assert_eq!(cells[0].kelvin, Some(900));
    assert_eq!(cells[7].fill, LatticeFill::Lattice(0));
    let universes = assembly_universe_cells();
    for depth in 0..4 {
        let mut sides = vec![true; 9];
        for cylinder in 3 - depth..3 {
            sides[cylinder] = false;
        }
        for u in [1, 2] {
            let held = universes[u].iter().filter(|c| inside(&cells[**c].region, &sides)).count();
            assert_eq!(held, 1);
        }
    }
}

#[test]
fn sides_leave_out_what_lies_above() {
    let whole = assembly_cells(false, Surroundings::Everything);
    let beside = assembly_cells(false, Surroundings::Sides);
    assert_eq!(whole[0].kelvin, None);
    let above = vec![true, true, true, true, false, true, false, true, true];
    assert!(inside(&whole[8].region, &above) && !inside(&whole[7].region, &above));
    assert!(!inside(&beside[8].region, &above) && !inside(&beside[7].region, &above));
    let within = vec![true, true, true, true, false, true, false, true, false];
    assert!(inside(&beside[7].region, &within) && !inside(&whole[8].region, &within));
}

#[test]
fn small_and_hexagonal_cells() {
    let small = small_lattice_cells();
    assert_eq!(small.len(), 4);
    assert_eq!(small[2].fill, LatticeFill::Lattice(0));
    let constant = const_xs_cells();
    assert_eq!(constant.len(), 4);
    assert_eq!(small_lattice_universe_cells(), vec![vec![2, 3], vec![0, 1]]);
    let above = vec![true, true, false, true, false, true, true];
    assert!(!inside(&small[2].region, &above) && !inside(&small[3].region, &above));
    assert!(!inside(&constant[2].region, &above) && inside(&constant[3].region, &above));
    let in_the_box = vec![true, true, false, true, false, true, false];
    assert!(inside(&constant[2].region, &in_the_box) && !inside(&constant[3].region, &in_the_box));
    let hex = hex_cells();
    assert_eq!(hex.len(), 7);
    assert_eq!(hex_universe_cells(), vec![vec![4, 5], vec![0, 1, 2, 3], vec![6]]);
    let mut within = vec![false; 11];
    within[9] = true;
    assert!(inside(&hex[4].region, &within) && !inside(&hex[5].region, &within));
    within[5] = true;
    assert!(!inside(&hex[4].region, &within) && inside(&hex[5].region, &within));
    assert!(inside(&hex[6].region, &within));
}

#[test]
fn batches_are_split_and_counted() {
    let s = split_batches(50, 15);
    assert_eq!((s.inactive, s.active), (15, 35));
    let s = split_batches(10, 10);
    assert_eq!((s.inactive, s.active), (9, 1));
    let s = split_batches(0, 3);
    assert_eq!((s.inactive, s.active), (0, 0));
    assert_eq!(counted_histories(u32::MAX, u32::MAX), 18446744065119617025);
    assert!(is_active(16, 15) && !is_active(15, 15));
    assert_eq!(site_capacity(10), 40);
}

fn site(x: f64) -> Site {
    Site { x: number(x), y: number(0.0), z: number(0.0), energy: number(1.0e6) }
}

#[test]
fn next_source_is_drawn_from_the_bank() {
    let bank = vec![site(1.0), site(2.0)];
    assert_eq!(normalize_bank(&bank, &vec![1, 0, 9], vec![]), vec![site(2.0), site(1.0), site(2.0)]);
    assert_eq!(normalize_bank(&vec![], &vec![1, 0], vec![site(7.0)]), vec![site(7.0)]);
}

#[test]
fn source_loop_keeps_the_active_factors() {
    let mut run = SourceLoop::new(3, 1, 2, vec![site(0.0)]);
    let first = run.order().expect("three batches");
    assert_eq!((first.batch, first.seed, first.active), (1, 2_001_000, false));
    run.finish(number(0.9), &vec![site(1.0)], &vec![0, 0], vec![]);
    assert_eq!(run.source, vec![site(1.0), site(1.0)]);
    assert!(run.order().expect("two are left").active);
    run.finish(number(1.0), &vec![], &vec![], vec![site(5.0)]);
    run.finish(number(1.1), &vec![], &vec![], vec![]);
    assert_eq!(run.order(), None);
    assert_eq!(run.k_active, numbers(&[1.0, 1.1]));
}

#[test]
fn seeds_of_pin_and_assembly_runs() {
    let s = pin_seeds(2, 5, 100);
    assert_eq!((s.batch_id, s.bank), (205, 2_000_205));
    assert_eq!(pin_source_seed(3), 300_000);
    assert_eq!(assembly_source_seed(1), 0xCAFE_BEF0);
    assert_eq!(geometry_code("godiva"), 1);
    assert_eq!(geometry_code("pwr"), 0);
    assert_eq!(reported_spread(1, number(0.5), number(0.7)), number(0.5));
    assert_eq!(reported_spread(2, number(0.5), number(0.7)), number(0.7));
    assert_eq!(thermal_index(true, true, Some(4)), Some(4));
    assert_eq!(thermal_index(true, false, Some(4)), None);
    assert_eq!(thermal_index(false, true, Some(4)), None);
}

#[test]
fn table_searches() {
    let grid = numbers(&[1.0, 2.0, 4.0, 8.0]);
    assert_eq!(interval_of(&grid, number(3.0)), 1);
    assert_eq!(interval_of(&grid, number(0.1)), 0);
    assert_eq!(interval_of(&grid, number(99.0)), 2);
    assert_eq!(grid_index(&grid, number(1.0)), 0);
    assert_eq!(grid_index(&grid, number(2.0)), 1);
    assert_eq!(grid_index(&grid, number(8.0)), 3);
    assert_eq!(pick_angular(&vec![], number(1.0)), AngularPick::Isotropic);
    assert_eq!(pick_angular(&grid, number(0.5)), AngularPick::One(0));
    assert_eq!(pick_angular(&grid, number(9.0)), AngularPick::One(3));
    assert_eq!(pick_angular(&grid, number(5.0)), AngularPick::Two(2));
    assert_eq!(locate_bin(&grid, number(2.0)), BinPlace::At(1));
    assert_eq!(locate_bin(&grid, number(3.0)), BinPlace::Between(1));
    assert_eq!(locate_bin(&grid, number(0.0)), BinPlace::At(0));
    assert_eq!(locate_bin(&grid, number(f64::NAN)), BinPlace::At(3));
    assert_eq!(pick_bin(BinPlace::Between(1), number(0.2), number(0.5)), 2);
    assert_eq!(pick_bin(BinPlace::Between(1), number(0.5), number(0.5)), 1);
    assert_eq!(pick_bin(BinPlace::At(3), number(0.2), number(0.5)), 3);
}

#[test]
fn cumulative_searches_agree() {
    let cdf = numbers(&[0.0, 0.1, 0.4, 0.9, 1.0]);
    for xi in [0.0, 0.05, 0.1, 0.39, 0.4, 0.95, 1.0] {
        assert_eq!(cdf_bin(&cdf, number(xi)), interval_of(&cdf, number(xi)));
    }
    assert_eq!(cdf_bin(&cdf, number(1.0)), 3);
    assert_eq!(cdf_bin(&cdf, number(f64::NAN)), 3);
}

fn step(gap: f64, width: f64, p_lo: f64, p_hi: f64, slope: f64, disc: f64) -> Step {
    Step {
        gap: number(gap),
        width: number(width),
        p_lo: number(p_lo),
        p_hi: number(p_hi),
        slope: number(slope),
        disc: number(disc),
    }
}

#[test]
fn inversions_are_chosen() {
    let root = step(0.1, 1.0, 0.5, 0.7, 0.2, 0.3);
    assert_eq!(choose_host_inversion(root, true), Inversion::Root);
    assert_eq!(choose_device_inversion(root), Inversion::Root);
    assert_eq!(choose_host_inversion(root, false), Inversion::Linear);
    let flat = step(0.1, 1.0, 0.5, 0.5, 0.0, 0.25);
    assert_eq!(choose_host_inversion(flat, true), Inversion::Density);
    assert_eq!(choose_device_inversion(flat), Inversion::Density);
    let no_root = step(0.1, 1.0, 0.5, 0.1, -0.4, -0.1);
    assert_eq!(choose_host_inversion(no_root, true), Inversion::Lower);
    assert_eq!(choose_device_inversion(no_root), Inversion::Linear);
    let nothing = step(0.0, 1.0, 0.5, 0.5, 0.0, 0.0);
    assert_eq!(choose_host_inversion(nothing, true), Inversion::Lower);
    assert_eq!(choose_angle_inversion(nothing), Inversion::Lower);
    assert_eq!(choose_angle_inversion(root), Inversion::Root);
    assert_eq!(choose_angle_inversion(flat), Inversion::Density);
    assert_eq!(choose_angle_inversion(step(0.1, 1.0, 0.0, 0.0, 0.0, 0.0)), Inversion::Linear);
}

#[test]
fn sample_indices_are_always_the_same() {
    let list = generate_random_indices(4, 1000);
    let mut state: u64 = 42;
    for index in &list {
        state = state.wrapping_mul(6364136223846793005).wrapping_add(1);
        assert_eq!(*index, ((state >> 33) % 1000) as i32);
    }
    assert_eq!(list, generate_random_indices(4, 1000));
    assert!(generate_random_indices(50, 7).iter().all(|i| (0..7).contains(i)));
}

#[test]
fn tensor_is_flattened_by_energy() {
    let levels = vec![
        vec![numbers(&[1.0, 2.0, 3.0]), numbers(&[4.0, 5.0, 6.0])],
        vec![numbers(&[7.0, -8.0, 9.0]), numbers(&[10.0, 11.0, 12.0])],
    ];
    let flat: Vec<f64> = build_tensor(&levels, 3, 2).into_iter().map(float).collect();
    assert_eq!(flat, vec![1.0, 7.0, 4.0, 10.0, 2.0, 0.0, 5.0, 11.0, 3.0, 9.0, 6.0, 12.0]);
}

#[test]
fn levels_are_kept_when_they_have_data() {
    let level = |mt: u32, energies: usize| LevelRead {
        mt,
        shape: Some(TableShape { energies, temperatures: 2 }),
    };
    let kept = keep_levels(&vec![level(50, 9), level(51, 9), level(52, 0), LevelRead { mt: 53, shape: None }, level(91, 1)]);
    let mts: Vec<u32> = kept.iter().map(|l| l.mt).collect();
    assert_eq!(mts, vec![51, 91]);
    assert!(is_level(91) && !is_level(92));
    assert_eq!(reduced_energies(200, 1000), 200);
    assert_eq!(reduced_energies(0, 1000), 1000);
    assert_eq!(reduced_energies(200, 100), 100);
}

#[test]
fn ranges_and_neighbours() {
    let r = positive_range(&numbers(&[0.0, 5.0, -3.0, 2.0, 9.0]));
    assert_eq!((float(r.low), float(r.high)), (2.0, 9.0));
    let none = positive_range(&numbers(&[0.0]));
    assert_eq!((float(none.low), float(none.high)), (f64::INFINITY, f64::NEG_INFINITY));
    let grid = numbers(&[1.0, 2.0, 4.0]);
    let n = neighbours(&grid, number(3.0));
    assert_eq!((n.lower, n.upper, n.inside), (1, 2, true));
    let n = neighbours(&grid, number(4.0));
    assert_eq!((n.lower, n.upper, n.inside), (2, 2, false));
}

#[test]
fn memory_is_counted() {
    assert_eq!(per_level_bytes(3, 100, 5), 3 * 105 * 8);
    assert_eq!(decomposition_bytes(2, 100, 5, 3), 2 * 109 * 8);
    assert_eq!(table_bytes(100, 5), 8000);
    assert_eq!(kept_rank(7, 5), 5);
    assert_eq!(basis_sources(2, 2, 3), vec![0, 1, 3, 4]);
    assert_eq!(kept_coefficients(&numbers(&[1.0, 2.0, 3.0, 4.0, 5.0, 6.0]), 2, 2), numbers(&[1.0, 2.0, 3.0, 4.0]));
    let mut m = MemoryTotals::new();
    m.add_nuclide(100, &vec![1, 2, 3, 4, 5, 6], 4);
    assert_eq!(m.by_rank, vec![1, 2, 3, 0, 0, 0]);
    assert_eq!(m.projected(), 3);
    m.add_nuclide(50, &vec![1, 1, 1, 9, 1, 1], 7);
    assert_eq!((m.table, m.projected()), (150, 9));
}

#[test]
fn benchmark_bookkeeping() {
    assert_eq!(benchmarked(&vec![KernelForm::Svd, KernelForm::Missing, KernelForm::Table, KernelForm::Svd]), vec![0, 3]);
    assert_eq!(warm_up(10), 10);
    assert_eq!(warm_up(1_000_000), 1000);
    assert_eq!(nuclide_name("U235.h5"), "U235");
    assert_eq!(nuclide_name("U235.hdf"), "U235.hdf");
    assert_eq!(nuclide_name("h5"), "h5");
    assert_eq!(basis_entry(4), 124 % 97);
    assert_eq!(coefficient_entry(3), 56 % 53);
}

#[test]
fn peaks_and_edges() {
    let hist = vec![9, 1, 5, 5, 2, 0];
    assert_eq!(argmax_bin_range(&hist, 1, 5), 2);
    assert_eq!(argmax_bin_range(&hist, 5, 99), 5);
    assert_eq!(argmax_bin_range(&hist, 7, 9), 7);
    assert_eq!(find_compton_edge(&hist, 1, 99), 3);
    assert_eq!(find_compton_edge(&vec![1, 2, 3], 0, 3), 0);
}

#[test]
fn histograms_count_what_lands() {
    let values = numbers(&[-0.1, 0.0, 0.49, 0.999, 1.0]);
    let counts = histogram(&values, &vec![0, 0, 0, 2, 5], number(0.0), number(1.0), 2);
    assert_eq!(counts, vec![2, 1]);
    assert_eq!(shell_counts(&vec![1, -1, 2, 7], 3), vec![0, 1, 1, 2]);
    assert_eq!(shell_index(0), 0);
    assert_eq!(shell_index(4), 3);
    assert_eq!(compared_bins(&vec![5, 4, 20, 1], &vec![5, 5, 0]), vec![0, 2]);
}

#[test]
fn samples_are_judged() {
    assert!(judge(number(0.001), number(1.5), None));
    assert!(judge(number(0.001), number(f64::NAN), None));
    assert!(!judge(number(0.005), number(1.5), None));
    assert!(!judge(number(0.001), number(2.0), None));
    assert!(!judge(number(0.001), number(1.5), Some(number(0.1))));
}

#[test]
fn pulses_are_recorded() {
    let mut s = PulseSpectrum::new(3);
    s.record(number(999.0), number(1000.0), 0);
    s.record(number(1000.0), number(1000.0), 1);
    s.record(number(1.0e9), number(1000.0), 500);
    assert_eq!(s.counts, vec![0, 1, 1]);
    assert_eq!(s.detected, 2);
}

#[test]
fn comparisons_of_two_devices() {
    let probes = angle_probes(2);
    assert_eq!(probes.len(), 100);
    assert!(probes[0].half_way && !probes[99].half_way);
    assert_eq!((probes[57].entry, probes[57].part), (1, 7));
    assert_eq!(angle_probes(100).len(), 1500);
    assert_eq!(reaction_place(3, 2), 20);
    assert_eq!(difference_kind(number(-1.0), number(0.0)), Difference::Relative);
    assert_eq!(difference_kind(number(0.0), number(1.0)), Difference::Whole);
    assert_eq!(difference_kind(number(0.0), number(1e-31)), Difference::Nothing);
    let c = compare_all(&numbers(&[1e-7, 1e-5, f64::NAN, 0.0]));
    assert_eq!((float(c.largest), c.mismatches), (1e-5, 1));
    assert!(xs_agree(c) && !angles_agree(c));
    assert_eq!(host_grid_place(None, Some(4), Some(5)), 4);
    assert_eq!(host_grid_place(None, None, None), 0);
    assert!(first_samples_same(&numbers(&[0.0, 1e-19])));
    assert!(!first_samples_same(&numbers(&[0.0, 1e-17])));
}

#[test]
fn feature_arguments() {
    let f = parse(&strings(&["--optix", "photon", "--nvlink"])).ok().expect("good arguments");
    assert_eq!(f.photon_dir, "photon");
    assert_eq!(features_to_show(&f), vec![Feature::Nvlink, Feature::Optix]);
    assert!(matches!(parse(&strings(&["photon", "-h"])), Err(FlagError::Help)));
    assert!(matches!(parse(&strings(&["a", "b"])), Err(FlagError::Unknown(t)) if t == "b"));
    assert!(matches!(parse(&strings(&["--what"])), Err(FlagError::Unknown(t)) if t == "--what"));
    assert!(matches!(parse(&strings(&["--optix"])), Err(FlagError::MissingDir)));
    assert_eq!(link_devices(4), 2);
    assert_eq!(link_devices(0), 1);
}

#[test]
fn numbers_in_arguments() {
    assert_eq!(parse_number("0042"), Some(42));
    assert_eq!(parse_number("+7"), Some(7));
    assert_eq!(parse_number(""), None);
    assert_eq!(parse_number("+"), None);
    assert_eq!(parse_number("-1"), None);
    assert_eq!(parse_number("1e3"), None);
    assert_eq!(parse_number("18446744073709551615"), Some(18446744073709551615));
    assert_eq!(parse_number("18446744073709551616"), None);
    for text in ["12", "+12", "007", "9x", "", "99999999999999999999999"] {
        assert_eq!(parse_number(text), text.parse::<usize>().ok());
    }
    let args = strings(&["prog", "--gpu-n", "50", "--gpu-n", "60", "--reps", "x", "--cpu-n"]);
    assert_eq!(parse_flag(&args, "--gpu-n", 1), 50);
    assert_eq!(parse_flag(&args, "--reps", 5), 5);
    assert_eq!(parse_flag(&args, "--cpu-n", 9), 9);
    assert_eq!(history_count(&strings(&["--n", "10", "--n", "20", "--n", "x"]), 200_000), 20);
    assert_eq!(history_count(&strings(&["--m", "10"]), 200_000), 200_000);
}

#[test]
fn sampling_and_printing() {
    let s = host_sampling(1_000_000, 100_000);
    assert_eq!((s.stride, s.count), (10, 100_000));
    let s = host_sampling(5, 0);
    assert_eq!((s.stride, s.count), (5, 1));
    let s = host_sampling(5, 99);
    assert_eq!((s.stride, s.count), (1, 5));
    assert_eq!(energies_within(&numbers(&[0.5, 1.0, 2.0, 3.0]), number(1.0), number(2.0)), numbers(&[1.0, 2.0]));
    assert!(is_printed(0, 100) && is_printed(5, 100) && !is_printed(6, 100) && is_printed(99, 100));
    assert!(is_printed(3, 10));
    assert_eq!(validation_exit(&vec![true, true]), 0);
    assert_eq!(validation_exit(&vec![true, false]), 2);
}

#[test]
fn device_tables() {
    let slots = device_slots(&vec![None, Some(4), None, Some(0)]);
    let pairs: Vec<(usize, usize)> = slots.iter().map(|s| (s.nuclide, s.temperature)).collect();
    assert_eq!(pairs, vec![(1, 4), (3, 0)]);
    assert_eq!(first_slot(&slots), 1);
    assert_eq!(first_slot(&vec![]), -1);
    assert_eq!(float(table_temperature(&vec![])), 294.0);
    assert_eq!(float(table_temperature(&numbers(&[600.0, 900.0]))), 600.0);
    assert!(any_multipole(&vec![false, true]) && !any_multipole(&vec![false]));
    assert_eq!(covered(&vec![true, false, true]), 2);
    assert_eq!(device_error("init", "no device"), "GPU init: no device");
}

#[test]
fn bare_sphere_loads() {
    assert_eq!(sphere_runs(SphereMode::All), vec![XsSource::Svd, XsSource::Table, XsSource::Hybrid]);
    assert_eq!(sphere_runs(SphereMode::Wmp), vec![XsSource::Hybrid]);
    let mut q = SphereRequest {
        present: true,
        target: None,
        discrete_rank: None,
        column: 1,
        temperatures: Some(numbers(&[250.0, 300.0])),
    };
    assert_eq!(load_svd(&q), SphereLoad::Column(1));
    q.discrete_rank = Some(3);
    assert_eq!(load_svd(&q), SphereLoad::At(number(300.0)));
    q.column = 9;
    assert_eq!(load_svd(&q), SphereLoad::At(number(294.0)));
    q.temperatures = None;
    assert_eq!(load_svd(&q), SphereLoad::LeftOut);
    q.target = Some(number(600.0));
    assert_eq!(load_svd(&q), SphereLoad::At(number(600.0)));
    q.present = false;
    assert_eq!(load_svd(&q), SphereLoad::Empty);
    assert_eq!(load_table(true, None, 2), SphereLoad::Column(2));
    assert_eq!(load_table(true, Some(number(1.0)), 2), SphereLoad::At(number(1.0)));
    assert_eq!(load_table(false, None, 2), SphereLoad::Empty);
}

#[test]
fn burnup_nuclides_stand_in_their_materials() {
    let table = burnup_nuclides();
    assert_eq!(table.len(), 24);
    assert_eq!((table[0].zaid, table[8].zaid, table[8].material), (92235, 8016, 2));
    let mut seen = 0;
    for (m, list) in pin_materials().iter().enumerate() {
        for n in list {
            assert_eq!(table[*n].material, m);
            seen += 1;
        }
    }
    assert_eq!(seen, 24);
}

#[test]
fn chain_is_fed_by_the_fuel_only() {
    let yields = FissionYields { iodine: number(0.0639), xenon: number(0.0026) };
    let mut chain = build_chain(number(583.5), number(2.65e6), yields);
    let made = vec![
        Product { zaid: 53135, per_reaction: number(0.0639) },
        Product { zaid: 54135, per_reaction: number(0.0026) },
    ];
    assert_eq!(chain.reactions[0].products, made);
    assert!(chain.reactions[1].products.is_empty());
    assert!(made.iter().all(|p| chain.index_of_zaid(p.zaid).is_some()));
    assert_eq!(chain.nuclides[1].name, "I-135");
    assert_eq!(chain.nuclides[1].daughter, Some(54135));
    assert_eq!(float(chain.nuclides[1].decay), 2.926_400e-5);
    assert_eq!(float(chain.nuclides[2].decay), 2.106_530e-5);
    assert_eq!(chain.index_of_zaid(54135), Some(2));
    assert_eq!(chain.index_of_zaid(94239), None);
    assert!(!chain.follows_actinides());
    let feed = |nuclide: usize, mt: u32, barns: f64| Collapsed { nuclide, mt, barns: number(barns) };
    feed_chain(
        &mut chain.reactions,
        &vec![feed(0, 18, 40.0), feed(9, 102, 1.0e5), feed(3, 102, 9.0), feed(99, 18, 9.0), feed(0, 102, 9.0)],
    );
    assert_eq!(
        chain.reactions,
        vec![
            ChainReaction { zaid: 92235, mt: 18, barns: number(40.0), products: made },
            ChainReaction { zaid: 54135, mt: 102, barns: number(1.0e5), products: vec![] },
        ]
    );
    let mut oxygen = vec![ChainReaction { zaid: 8016, mt: 102, barns: number(1.0), products: vec![] }];
    feed_chain(&mut oxygen, &vec![feed(8, 102, 7.0)]);
    assert_eq!(oxygen[0].barns, number(1.0));
}

#[test]
fn lengths_are_checked() {
    assert!(check_composition(4, 4).is_ok());
    assert!(matches!(
        check_composition(3, 4),
        Err(BurnupError::CompositionLength { given: 3, nuclides: 4 })
    ));
    assert!(check_matrix(9, 3).is_ok());
    assert!(matches!(check_matrix(8, 3), Err(BurnupError::MatrixLength { given: 8, wanted: 9 })));
    assert_eq!(start_composition(3, 1, number(2.0)), numbers(&[0.0, 2.0, 0.0]));
    assert_eq!(step_seed(3), 45);
}

#[test]
fn failed_flux_callback_ends_the_step() {
    let mut f = FluxFeedback::new(number(1.0e14));
    assert!(f.asks());
    assert_eq!(f.take(Some(Ok(number(2.0e14)))), number(2.0e14));
    assert_eq!(f.take(Some(Err("raised".to_string()))), number(1.0e14));
    assert!(!f.asks());
    assert_eq!(f.take(None), number(1.0e14));
    assert!(matches!(f.settle(vec![]), Err(BurnupError::Callback(e)) if e == "raised"));
    assert!(FluxFeedback::new(number(1.0)).settle(numbers(&[1.0])).is_ok());
}

#[test]
fn later_cache_weights_replace_earlier_ones() {
    let w = |key: Option<u64>, weight: u64| CacheWeight { key, weight };
    let (map, resolved) = preload_nuclide_cache_weights(&vec![w(Some(1), 5), w(None, 9), w(Some(2), 6), w(Some(1), 7)]);
    assert_eq!(resolved, 3);
    assert_eq!(map.len(), 2);
    assert_eq!(map.get(&1), Some(&7));
    assert_eq!(map.get(&2), Some(&6));
}

#[test]
fn fission_spectra_have_bounds() {
    let size = Some(SpectrumSize { nodes: 5, distributions: 4 });
    assert_eq!(fission_outgoing_at(size, 3), Ok(3));
    assert_eq!(fission_outgoing_at(size, 4), Err(SpectrumError::OutOfRange { index: 4, nodes: 5 }));
    assert_eq!(fission_outgoing_at(None, 0), Err(SpectrumError::NoSpectrum));
}
