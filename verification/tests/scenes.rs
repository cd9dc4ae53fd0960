use criticality_bench::binary64::Binary64;
use criticality_bench::data_files::{DataFiles, FileFault, UnreadableFile};
use criticality_bench::eigen_plan::{
    load_needs, plan_eigenvalue, report_run, reported_rank, roll_up, usable_multipoles, CellFill, EigenBatch,
    EigenError,
};
use criticality_bench::gamma_plan::{
    bind_photon_materials, electron_material, energy_left, gather_photons, history_seed, pick_event,
    plan_gamma_heating, radiates, radiating_material, share, GammaError, PhotonBatch, PhotonRun, PhotonSourceEvent,
    WaitingPhoton,
};
use criticality_bench::geometry::{
    bc_code, half_space_aabb, parse_bc, Aabb, BoundaryCondition, Shape, Surface, Vec3,
};
use criticality_bench::icsbep::{
    accept_materials, case_label, panic_to_string, passes, preflight, read_icsbep_case, reference_words, report, settle,
    sum_up, Dispatch, Estimate, IcsbepError,
};
use criticality_bench::case_loader::ReferenceSource;
use criticality_bench::data_loader::DataLoadError;
use criticality_bench::materials::{Material, NuclideEntry, ResolvedMaterials, SvdXsProvider};
use criticality_bench::region::{aabb_from_region, build_region, Region, RegionError};
use criticality_bench::burnup::{build_chain, FissionYields};
use criticality_bench::reports::{chain_text, run_statistics, scene_text, table_by_name, FieldValue, RunFigures, Settings};
use criticality_bench::result_processor::Deviation;
use criticality_bench::scene::{
    parse_orientation, wmp_path_for, CellSpec, HexOrientation, HexPrism, MaterialSpec, NuclideSpec,
    PhotonElementSpec, PhotonMaterialSpec, Runner, Scene, SceneError, XsMode,
};

fn number(x: f64) -> Binary64 {
    Binary64::from_bits(x.to_bits())
}

fn float(x: Binary64) -> f64 {
    f64::from_bits(x.bits)
}

fn point(x: f64, y: f64, z: f64) -> Vec3 {
    Vec3 { x: number(x), y: number(y), z: number(z) }
}

fn everywhere() -> Aabb {
    Aabb::infinite()
}

fn plane_x(x0: f64) -> Surface {
    Surface {
        shape: Shape::PlaneX { x0: number(x0) },
        bc: BoundaryCondition::Transmission,
        bounds: everywhere(),
    }
}

fn sphere(r: f64) -> Surface {
    Surface {
        shape: Shape::Sphere { center: point(0.0, 0.0, 0.0), radius: number(r) },
        bc: BoundaryCondition::Vacuum,
        bounds: Aabb { min: point(-r, -r, -r), max: point(r, r, r) },
    }
}

fn names(list: &[&str]) -> Vec<String> {
    list.iter().map(|s| s.to_string()).collect()
}

#[test]
fn boundary_words() {
    assert_eq!(parse_bc("vacuum"), Some(BoundaryCondition::Vacuum));
    assert_eq!(parse_bc("reflective"), Some(BoundaryCondition::Reflective));
    assert_eq!(parse_bc("transmission"), Some(BoundaryCondition::Transmission));
    assert_eq!(parse_bc("mirror"), None);
    let codes: Vec<i32> = [BoundaryCondition::Transmission, BoundaryCondition::Vacuum, BoundaryCondition::Reflective]
        .iter()
        .map(|b| bc_code(*b))
        .collect();
    assert_eq!(codes.len(), 3);
    assert!(codes[0] != codes[1] && codes[1] != codes[2] && codes[0] != codes[2]);
}

#[test]
fn half_spaces_are_bounded_on_their_side() {
    let right = half_space_aabb(&plane_x(2.0), true);
    assert_eq!(float(right.min.x), 2.0);
    assert_eq!(float(right.max.x), f64::INFINITY);
    let left = half_space_aabb(&plane_x(2.0), false);
    assert_eq!(float(left.max.x), 2.0);
    assert_eq!(half_space_aabb(&sphere(3.0), false), sphere(3.0).bounds);
    assert_eq!(half_space_aabb(&sphere(3.0), true), everywhere());
}

#[test]
fn boxes_meet_and_join() {
    let a = Aabb { min: point(0.0, 0.0, 0.0), max: point(2.0, 2.0, 2.0) };
    let b = Aabb { min: point(1.0, -1.0, 0.5), max: point(3.0, 1.0, 1.0) };
    assert_eq!(a.meet(&b), Aabb { min: point(1.0, 0.0, 0.5), max: point(2.0, 1.0, 1.0) });
    assert_eq!(a.join(&b), Aabb { min: point(0.0, -1.0, 0.0), max: point(3.0, 2.0, 2.0) });
}

#[test]
fn box_of_a_region_holds_its_points() {
    let surfaces = vec![sphere(0.3), plane_x(0.1)];
    let known = vec!["ball".to_string(), "wall".to_string()];
    let b = aabb_from_region("-ball +wall", &surfaces, &known);
    let mut held = 0;
    for i in -10..=10 {
        for j in -10..=10 {
            for k in -10..=10 {
                let at = |n: i32| f64::from(n) * 0.03125;
                let (x, y, z) = (at(i), at(j), at(k));
                if x * x + y * y + z * z <= 0.3 * 0.3 && x >= 0.1 {
                    held += 1;
                    assert!(float(b.min.x) <= x && x <= float(b.max.x));
                    assert!(float(b.min.y) <= y && y <= float(b.max.y));
                    assert!(float(b.min.z) <= z && z <= float(b.max.z));
                }
            }
        }
    }
    assert!(held > 100);
}

fn inside(r: &Region, sides: &[bool]) -> bool {
    match r {
        Region::Inside(i) => !sides[*i],
        Region::Outside(i) => sides[*i],
        Region::Complement(a) => !inside(a, sides),
        Region::Intersection(a, b) => inside(a, sides) && inside(b, sides),
        Region::Union(a, b) => inside(a, sides) || inside(b, sides),
    }
}

#[test]
fn region_expression_is_a_union_of_intersections() {
    let known = names(&["a", "b", "c"]);
    let r = build_region("-a +b | ~-c", &known).ok().expect("a region");
    for bits in 0..8u32 {
        let sides = [bits & 1 != 0, bits & 2 != 0, bits & 4 != 0];
        assert_eq!(inside(&r, &sides), (!sides[0] && sides[1]) || sides[2]);
    }
}

#[test]
fn every_bad_region_has_its_error() {
    let known = names(&["a"]);
    assert!(matches!(build_region("   ", &known), Err(RegionError::Empty)));
    assert!(matches!(build_region("a", &known), Err(RegionError::BadToken(t)) if t == "a"));
    assert!(matches!(build_region("-b", &known), Err(RegionError::UnknownSurface(t)) if t == "b"));
    assert!(matches!(build_region("-a | &", &known), Err(RegionError::EmptyGroup)));
    assert!(build_region("-a | ", &known).is_ok());
}

#[test]
fn box_of_a_region_uses_its_half_spaces() {
    let surfaces = vec![sphere(3.0), plane_x(1.0)];
    let known = names(&["ball", "wall"]);
    let b = aabb_from_region("-ball +wall", &surfaces, &known);
    assert_eq!(float(b.min.x), 1.0);
    assert_eq!(float(b.max.x), 3.0);
    assert_eq!(float(b.max.y), 3.0);
}

fn nuclide(file: &str, density: f64, thermal: Option<&str>) -> NuclideSpec {
    NuclideSpec {
        hdf5_file: file.to_string(),
        atom_density: number(density),
        awr: number(233.0),
        nubar: number(2.4),
        thermal_file: thermal.map(|t| t.to_string()),
    }
}

fn fuel() -> MaterialSpec {
    let mut m = MaterialSpec::new("fuel".to_string(), number(900.0), 3);
    m.add_nuclide(nuclide("U235.h5", 0.001, None));
    m.add_nuclide(nuclide("O16.h5", 0.04, None));
    m
}

fn water(thermal: &str) -> MaterialSpec {
    let mut m = MaterialSpec::new("water".to_string(), number(600.0), 2);
    m.add_nuclide(nuclide("H1.h5", 0.05, Some(thermal)));
    m
}

fn cell(name: &str, region: &str, fill: Option<&str>) -> CellSpec {
    CellSpec {
        name: name.to_string(),
        region_expr: region.to_string(),
        fill: fill.map(|f| f.to_string()),
        temperature: number(600.0),
    }
}

fn scene() -> Scene {
    let mut s = Scene::new("data".to_string(), true).ok().expect("the directory is there");
    s.add_material("fuel".to_string(), fuel()).ok().expect("a new name");
    s.add_material("water".to_string(), water("c_H.h5")).ok().expect("a new name");
    s.add_surface("ball".to_string(), sphere(1.0)).ok().expect("a new name");
    s.add_surface("shell".to_string(), sphere(2.0)).ok().expect("a new name");
    s.add_cell(cell("core", "-ball", Some("fuel")));
    s.add_cell(cell("mantle", "+ball -shell", Some("water")));
    s.add_cell(cell("rest", "+shell", None));
    s
}

#[test]
fn consistent_scenes_are_told_apart() {
    assert!(scene().is_consistent());
    let mut repeated = scene();
    repeated.surface_names[1] = "ball".to_string();
    assert!(!repeated.is_consistent());
    let mut short = scene();
    short.material_names.pop();
    assert!(!short.is_consistent());
    let mut empty = scene();
    empty.svd_ranks_per_mt.push((18, 0));
    assert!(!empty.is_consistent());
}

#[test]
fn densities_are_set_and_read_back() {
    let mut m = fuel();
    assert!(m.set_atom_density("O16.h5", number(0.5)));
    assert_eq!(m.atom_density_of("O16.h5"), Some(number(0.5)));
    assert_eq!(m.atom_density_of("U235.h5"), Some(number(0.001)));
    assert!(!m.set_atom_density("Xe135.h5", number(1.0)));
    assert_eq!(m.atom_density_of("Xe135.h5"), None);
}

#[test]
fn every_bad_scene_call_has_its_error() {
    assert!(matches!(Scene::new("gone".to_string(), false), Err(SceneError::MissingDirectory(p)) if p == "gone"));
    let mut s = scene();
    assert!(matches!(s.add_material("fuel".to_string(), fuel()), Err(SceneError::DuplicateMaterial(_))));
    assert!(matches!(s.add_surface("ball".to_string(), sphere(1.0)), Err(SceneError::DuplicateSurface(_))));
    assert!(matches!(s.set_svd_rank(0), Err(SceneError::RankZero)));
    assert!(matches!(s.set_svd_ranks(vec![(2, 5), (18, 0)]), Err(SceneError::RankZeroFor(18))));
    assert!(matches!(
        s.set_photon_data_dir("gone".to_string(), false),
        Err(SceneError::MissingDirectory(_))
    ));
    assert!(matches!(
        s.add_rect_box("box", point(1.0, 1.0, 1.0), "mirror"),
        Err(SceneError::UnknownBoundary(_))
    ));
    assert_eq!(s.svd_ranks_per_mt.len(), 0);
    assert!(s.set_svd_rank(7).is_ok());
    assert_eq!(s.svd_rank, 7);
}

#[test]
fn box_surfaces_enclose_their_inside() {
    let mut s = scene();
    let text = s.add_rect_box("b", point(1.0, 2.0, 3.0), "reflective").ok().expect("a box");
    assert_eq!(s.surfaces.len(), 8);
    let r = build_region(&text, &s.surface_names).ok().expect("a region");
    let mut sides = vec![false; 8];
    for low in [2, 4, 6] {
        sides[low] = true;
    }
    assert!(inside(&r, &sides));
    sides[7] = true;
    assert!(!inside(&r, &sides));
}

#[test]
fn prism_surfaces_enclose_their_inside() {
    let mut s = scene();
    let normals: Vec<Vec3> = (0..6)
        .map(|i| point((i as f64).cos(), (i as f64).sin(), 0.0))
        .collect();
    let prism = HexPrism {
        flat_normals: normals.clone(),
        pointy_normals: normals,
        inradius: number(1.0),
        z_half: number(5.0),
    };
    let text = s
        .add_hex_boundary("h", &prism, "y", "reflective", "vacuum")
        .ok()
        .expect("a prism");
    assert_eq!(s.surfaces.len(), 10);
    let r = build_region(&text, &s.surface_names).ok().expect("a region");
    let mut sides = vec![false; 10];
    sides[8] = true;
    assert!(inside(&r, &sides));
    sides[4] = true;
    assert!(!inside(&r, &sides));
    assert!(matches!(
        s.add_hex_boundary("k", &prism, "z", "vacuum", "vacuum"),
        Err(SceneError::UnknownOrientation(_))
    ));
}

#[test]
fn pin_cylinders_are_named_in_order() {
    let mut s = scene();
    let bounds = vec![everywhere(), everywhere()];
    let made = s
        .add_pin_cylinders("pin", &vec![number(0.4), number(0.5)], &bounds, number(0.0), number(0.0))
        .ok()
        .expect("two cylinders");
    assert_eq!(made.len(), 2);
    assert!(made[0].starts_with("pin") && made[0] != made[1]);
    assert_eq!(s.surface_names[2..], made[..]);
}

#[test]
fn words_of_modes_and_orientations() {
    assert_eq!(XsMode::HybridSvdWmp.name(), "hybrid_svd_wmp");
    assert_eq!(Runner::GpuCuda.name(), "gpu_cuda");
    assert_eq!(Runner::recommended(true), Runner::GpuCuda);
    assert_eq!(Runner::recommended(false), Runner::Cpu);
    assert_eq!(parse_orientation("y"), Some(HexOrientation::Y));
    assert_eq!(parse_orientation("q"), None);
    assert_eq!(wmp_path_for("U238.h5"), Some("092238.h5"));
    assert_eq!(wmp_path_for("H1.h5"), None);
    assert!(XsMode::Svd.uses_svd() && !XsMode::Table.uses_svd());
    assert!(XsMode::HybridTableWmp.uses_wmp() && !XsMode::Svd.uses_wmp());
}

fn holding(files: &[&str]) -> DataFiles {
    DataFiles { present: files.iter().map(|f| f.to_string()).collect(), unreadable: Vec::new() }
}

fn data() -> DataFiles {
    holding(&["U235.h5", "O16.h5", "H1.h5", "c_H.h5", "c_ice.h5"])
}

fn photon_data() -> DataFiles {
    holding(&["H.h5"])
}

fn broken(file: &str) -> UnreadableFile {
    UnreadableFile { file: file.to_string(), cause: "bad header".to_string() }
}

#[test]
fn a_file_is_missing_before_it_is_unreadable() {
    let mut d = holding(&["a"]);
    assert!(d.contains("a") && !d.contains("b"));
    assert!(d.check("a").is_ok());
    d.unreadable = vec![broken("b"), broken("a")];
    assert!(matches!(d.check("b"), Err(FileFault::Missing(f)) if f == "b"));
    assert!(matches!(
        d.check("a"),
        Err(FileFault::Unreadable { file, cause }) if file == "a" && cause == "bad header"
    ));
}

#[test]
fn files_are_looked_for_before_cells_are_built() {
    let mut s = scene();
    s.add_cell(cell("bad", "-moon", None));
    let d = holding(&["U235.h5", "c_H.h5"]);
    assert!(matches!(plan_eigenvalue(&s, &d, false), Err(EigenError::MissingNuclide(f)) if f == "O16.h5"));
    let d = holding(&["U235.h5", "O16.h5", "H1.h5"]);
    assert!(matches!(
        plan_eigenvalue(&s, &d, false),
        Err(EigenError::ThermalFile(FileFault::Missing(f))) if f == "c_H.h5"
    ));
    let mut d = data();
    d.unreadable.push(broken("c_H.h5"));
    assert!(matches!(
        plan_eigenvalue(&s, &d, false),
        Err(EigenError::ThermalFile(FileFault::Unreadable { cause, .. })) if cause == "bad header"
    ));
    assert!(matches!(plan_eigenvalue(&s, &data(), false), Err(EigenError::Region { .. })));
}

#[test]
fn plan_numbers_nuclides_and_cells() {
    let plan = plan_eigenvalue(&scene(), &data(), false).ok().expect("a complete scene");
    let files: Vec<&str> = plan.nuclides.iter().map(|n| n.hdf5_file.as_str()).collect();
    assert_eq!(files, ["U235.h5", "O16.h5", "H1.h5"]);
    assert_eq!(plan.nuclides[2].temp_idx, 2);
    assert_eq!(plan.thermal_files, vec![None, None, Some("c_H.h5".to_string())]);
    assert_eq!(plan.materials[1].nuclides[0].xs_kernel_idx, 2);
    assert_eq!(plan.cells[0].fill, CellFill::Material(0));
    assert_eq!(plan.cells[1].fill, CellFill::Material(1));
    assert_eq!(plan.cells[2].fill, CellFill::Void);
}

#[test]
fn every_bad_plan_has_its_error() {
    let mut s = scene();
    s.add_material("ice".to_string(), water("c_ice.h5")).ok().expect("a new name");
    match plan_eigenvalue(&s, &data(), false) {
        Err(EigenError::ThermalConflict { hdf5_file, existing, other }) => {
            assert_eq!((hdf5_file.as_str(), existing.as_str(), other.as_str()), ("H1.h5", "c_H.h5", "c_ice.h5"));
        }
        _ => panic!("two thermal files for one nuclide"),
    }
    let mut s = scene();
    s.add_cell(cell("bad", "-moon", None));
    assert!(matches!(plan_eigenvalue(&s, &data(), false), Err(EigenError::Region { cell, .. }) if cell == "bad"));
    let mut s = scene();
    s.add_cell(cell("bad", "-ball", Some("gold")));
    assert!(matches!(
        plan_eigenvalue(&s, &data(), false),
        Err(EigenError::UnknownMaterial { material, .. }) if material == "gold"
    ));
    let mut s = scene();
    s.set_runner(Runner::GpuCuda);
    assert!(matches!(plan_eigenvalue(&s, &data(), false), Err(EigenError::NoCuda)));
    assert!(plan_eigenvalue(&s, &data(), true).is_ok());
}

#[test]
fn modes_load_what_they_need() {
    let table = load_needs(XsMode::Table, Runner::Cpu, 5);
    assert!(table.tables && !table.kernels && !table.multipoles);
    let svd = load_needs(XsMode::Svd, Runner::Cpu, 5);
    assert!(svd.kernels && !svd.tables && svd.kernel_rank == 5);
    assert_eq!(reported_rank(XsMode::Svd, 5), 5);
}

fn batch(active: bool, k: f64, collisions: u64) -> EigenBatch {
    EigenBatch {
        active,
        k_eff: number(k),
        shannon_entropy: number(4.0),
        collisions,
        fissions: 2,
        leakage: 1,
    }
}

#[test]
fn tally_rolls_up_active_batches() {
    let t = roll_up(&vec![batch(false, 0.9, 10), batch(true, 1.0, 20), batch(true, 1.1, 30)], 50)
        .ok()
        .expect("two active batches");
    assert_eq!(t.active_k, vec![number(1.0), number(1.1)]);
    assert_eq!(t.active_mask, vec![false, true, true]);
    assert_eq!(t.total_histories, 100);
    assert!(matches!(roll_up(&vec![batch(false, 1.0, 1)], 5), Err(EigenError::NoActiveBatches)));
}

fn photon_scene() -> Scene {
    let mut s = scene();
    s.set_photon_data_dir("photon".to_string(), true).ok().expect("the directory is there");
    s
}

fn photon_material() -> PhotonMaterialSpec {
    PhotonMaterialSpec {
        density_g_per_cm3: number(1.0),
        elements: vec![PhotonElementSpec { hdf5_file: "H.h5".to_string(), atom_density: number(0.06) }],
    }
}

#[test]
fn coupled_run_needs_photon_data() {
    assert!(matches!(plan_gamma_heating(&scene(), &data()), Err(GammaError::NoPhotonDir)));
    let plan = plan_gamma_heating(&photon_scene(), &data()).ok().expect("a complete scene");
    assert_eq!(plan.thermal_files, vec![None, None, Some("c_H.h5".to_string())]);
    assert!(matches!(
        plan_gamma_heating(&photon_scene(), &holding(&["U235.h5"])),
        Err(GammaError::Plan(EigenError::MissingNuclide(f))) if f == "O16.h5"
    ));
}

#[test]
fn coupled_run_settles_thermal_files_as_an_eigenvalue_run_does() {
    assert!(matches!(
        plan_gamma_heating(&photon_scene(), &holding(&["U235.h5", "O16.h5", "H1.h5"])),
        Err(GammaError::Plan(EigenError::ThermalFile(FileFault::Missing(f)))) if f == "c_H.h5"
    ));
    let mut d = data();
    d.unreadable.push(broken("c_H.h5"));
    assert!(matches!(
        plan_gamma_heating(&photon_scene(), &d),
        Err(GammaError::Plan(EigenError::ThermalFile(FileFault::Unreadable { .. })))
    ));
    let mut s = photon_scene();
    s.add_material("ice".to_string(), water("c_ice.h5")).ok().expect("a new name");
    assert!(matches!(
        plan_gamma_heating(&s, &data()),
        Err(GammaError::Plan(EigenError::ThermalConflict { existing, other, .. }))
            if existing == "c_H.h5" && other == "c_ice.h5"
    ));
}

#[test]
fn photon_elements_have_to_load() {
    let mut s = photon_scene();
    s.add_photon_material("mantle".to_string(), photon_material());
    assert!(matches!(
        bind_photon_materials(&s, &holding(&[])),
        Err(GammaError::PhotonFile(FileFault::Missing(f))) if f == "H.h5"
    ));
    let d = DataFiles { present: vec!["H.h5".to_string()], unreadable: vec![broken("H.h5")] };
    assert!(matches!(
        bind_photon_materials(&s, &d),
        Err(GammaError::PhotonFile(FileFault::Unreadable { .. }))
    ));
}

#[test]
fn photon_materials_bind_to_neutron_materials() {
    let mut s = photon_scene();
    s.add_photon_material("mantle".to_string(), photon_material());
    assert_eq!(bind_photon_materials(&s, &photon_data()).ok(), Some(vec![None, Some(0)]));
    s.add_photon_material("rest".to_string(), photon_material());
    assert!(matches!(bind_photon_materials(&s, &photon_data()), Err(GammaError::VoidCell(c)) if c == "rest"));
    let mut s = photon_scene();
    s.add_photon_material("attic".to_string(), photon_material());
    assert!(matches!(bind_photon_materials(&s, &photon_data()), Err(GammaError::UnknownCell(c)) if c == "attic"));
}

#[test]
fn photons_come_from_active_batches() {
    let event = |e: f64| PhotonSourceEvent { pos: point(0.0, 0.0, 0.0), energy: number(e) };
    let batches = vec![
        PhotonBatch { active: false, events: vec![event(1.0)] },
        PhotonBatch { active: true, events: vec![event(2.0), event(3.0)] },
    ];
    let all = gather_photons(&batches).ok().expect("two photons");
    assert_eq!(all.len(), 2);
    assert_eq!(float(all[1].energy), 3.0);
    assert!(matches!(
        gather_photons(&vec![PhotonBatch { active: false, events: vec![event(1.0)] }]),
        Err(GammaError::NoPhotonEvents)
    ));
}

#[test]
fn photon_bookkeeping() {
    assert_eq!(pick_event(3, 10), 3);
    assert_eq!(pick_event(10, 10), 9);
    assert_eq!(history_seed(u64::MAX, 2), 1);
    assert_eq!(radiating_material(CellFill::Material(1), &vec![None, Some(4)]), Some(1));
    assert_eq!(radiating_material(CellFill::Material(0), &vec![None, Some(4)]), None);
    assert_eq!(radiating_material(CellFill::Void, &vec![None]), None);
    assert_eq!(electron_material(&vec![], 0), None);
    assert!(radiates(number(0.1), number(0.05)) && !radiates(number(0.1), number(0.1)));
    assert!(!radiates(number(0.0), number(-1.0)));
    assert_eq!(float(energy_left(number(-2.0))), 0.0);
    assert_eq!(float(energy_left(number(2.0))), 2.0);
    assert_eq!(float(share(number(0.0), number(f64::NAN))), 0.0);
    assert_eq!(float(share(number(4.0), number(0.25))), 0.25);
}

#[test]
fn radiated_photons_are_followed_in_turn() {
    let origin = Vec3 { x: number(0.0), y: number(0.0), z: number(0.0) };
    let photon = |energy: f64, cell: usize| WaitingPhoton { pos: origin, dir: origin, energy: number(energy), cell };
    let mut run = PhotonRun::new();
    assert_eq!(run.next_photon(), None);
    run.start_history(photon(1.0e6, 0));
    assert_eq!(run.next_photon(), Some(photon(1.0e6, 0)));
    assert!(run.take_electron(number(0.5), number(0.1), Some(photon(2.0e5, 1))));
    assert!(!run.take_electron(number(0.5), number(0.9), Some(photon(9.0, 9))));
    assert!(!run.take_electron(number(0.5), number(0.1), None));
    assert!(!run.take_electron(number(0.0), number(0.0), Some(photon(9.0, 9))));
    assert!(run.take_electron(number(0.5), number(0.2), Some(photon(3.0e5, 2))));
    assert_eq!((run.histories, run.radiated, run.followed, run.waiting.len()), (1, 2, 1, 2));
    assert_eq!(run.next_photon(), Some(photon(3.0e5, 2)));
    assert_eq!(run.next_photon(), Some(photon(2.0e5, 1)));
    assert_eq!(run.next_photon(), None);
    assert_eq!((run.histories, run.radiated, run.followed), (1, 2, 3));
}

#[test]
fn handbook_case_is_read() {
    let text = r#"{"scene": {}, "benchmark": {"k_eff_reference": 1.0, "k_eff_sigma": 0.002}}"#;
    let case = read_icsbep_case(text).ok().expect("a complete case");
    assert_eq!(float(case.handbook_k), 1.0);
    assert_eq!(case.reference.source, ReferenceSource::Handbook);
    assert_eq!(reference_words(ReferenceSource::Handbook), "k_eff_reference (ICSBEP handbook)");
    assert!(matches!(read_icsbep_case("["), Err(IcsbepError::Parse(_))));
    assert!(matches!(
        read_icsbep_case(r#"{"runner": {"binary": "godiva"}}"#),
        Err(IcsbepError::NoScene { binary }) if binary == "godiva"
    ));
    assert!(matches!(read_icsbep_case(r#"{"scene": {}}"#), Err(IcsbepError::MissingKRef)));
    assert!(matches!(
        read_icsbep_case(r#"{"scene": {}, "benchmark": {"k_eff_reference": 1.0}}"#),
        Err(IcsbepError::MissingSigma)
    ));
}

#[test]
fn case_and_data_have_to_be_there() {
    let call = |case: bool, data: bool| preflight("c".to_string(), case, "d".to_string(), data);
    assert!(call(true, true).is_ok());
    assert!(matches!(call(false, false), Err(IcsbepError::CaseNotFound(p)) if p == "c"));
    assert!(matches!(call(true, false), Err(IcsbepError::DataDirNotFound(p)) if p == "d"));
}

#[test]
fn engine_failures_are_told_apart() {
    assert!(matches!(settle(Dispatch::Finished(7), Runner::Cpu), Ok(7)));
    assert!(matches!(
        settle::<i32>(Dispatch::Failed("bad".to_string()), Runner::Cpu),
        Err(IcsbepError::Engine(m)) if m == "bad"
    ));
    assert!(matches!(
        settle::<i32>(Dispatch::Panicked(Some("index".to_string())), Runner::Cpu),
        Err(IcsbepError::Panicked(m)) if m.starts_with("engine panic during CPU") && m.contains("index")
    ));
    assert_eq!(panic_to_string(None), "<non-string panic payload>");
    assert!(passes(&Deviation { delta_pcm: number(-100.0), envelope_pcm: number(0.0) }));
    assert!(!passes(&Deviation { delta_pcm: number(200.0), envelope_pcm: number(0.0) }));
}

#[test]
fn too_many_nuclides_stop_a_case() {
    let entry = NuclideEntry { atom_density: number(0.01), xs_kernel_idx: 0 };
    let bound = || ResolvedMaterials {
        provider: SvdXsProvider { nuclides: Vec::new(), thermal: Vec::new() },
        materials: vec![
            Material { name: "thin".to_string(), k_t: number(0.02), nuclides: vec![entry.clone()] },
            Material { name: "rich".to_string(), k_t: number(0.02), nuclides: vec![entry.clone(); 3] },
        ],
    };
    assert_eq!(accept_materials(Ok(bound()), 3).ok().expect("within the limit").materials.len(), 2);
    match accept_materials(Ok(bound()), 2) {
        Err(IcsbepError::Load(DataLoadError::TooManyNuclides { material_idx, material_name, n_nuclides, max_allowed })) => {
            assert_eq!((material_idx, material_name.as_str(), n_nuclides, max_allowed), (1, "rich", 3, 2));
        }
        _ => panic!("a material over the limit"),
    }
    assert!(matches!(
        accept_materials(Err("no such nuclide".to_string()), 2),
        Err(IcsbepError::Load(DataLoadError::Resolve(m))) if m == "no such nuclide"
    ));
}

#[test]
fn a_case_is_reported_with_its_grade() {
    assert_eq!(case_label(Some("hmf-001".to_string())), "hmf-001");
    assert_eq!(case_label(None), "?");
    assert!(matches!(sum_up(&vec![batch(false, 1.0, 1)], 5), Err(IcsbepError::NoActiveBatches)));
    let tally = sum_up(&vec![batch(false, 1.0, 1), batch(true, 1.001, 7), batch(true, 1.001, 8)], 50)
        .ok()
        .expect("two active batches");
    let text = r#"{"scene": {}, "benchmark": {"k_eff_reference": 1.0, "k_eff_sigma": 0.002}}"#;
    let reference = read_icsbep_case(text).ok().expect("a complete case");
    let estimate = Estimate {
        k_eff: number(1.001),
        k_sigma: number(0.0),
        sigma_combined: number(0.002),
        deviation: Deviation { delta_pcm: number(100.0), envelope_pcm: number(400.0) },
        sigma_ratio: number(0.5),
    };
    let r = report("hmf-001".to_string(), reference, Runner::Cpu, &tally, estimate);
    assert!(r.pass_ok);
    assert_eq!(float(r.bound_pcm), 400.0);
    assert_eq!((r.total_collisions, r.total_fissions, r.total_leakage), (15, 4, 2));
    assert_eq!((r.active_batches, r.total_histories), (2, 100));
}

#[test]
fn unusable_multipoles_are_left_out() {
    let asked = vec![Some("092235.h5".to_string()), None, Some("092238.h5".to_string()), Some("092234.h5".to_string())];
    let mut held = holding(&["092235.h5", "092238.h5"]);
    held.unreadable.push(broken("092238.h5"));
    let (kept, covered) = usable_multipoles(&asked, &held);
    assert_eq!(kept, vec![Some("092235.h5".to_string()), None, None, None]);
    assert_eq!(covered, 1);
}

#[test]
fn a_run_reports_its_mode_and_cells() {
    let mut s = scene();
    let tally = roll_up(&vec![batch(true, 1.0, 20)], 50).ok().expect("an active batch");
    let r = report_run(&s, tally, 2);
    assert_eq!((r.mode_used.as_str(), r.svd_rank, r.active_batches), ("table", 0, 1));
    assert_eq!(r.cell_names.len(), s.cells.len());
    assert_eq!(r.cell_names[2], "rest");
    assert_eq!(r.wmp_covered_nuclides, 2);
    s.xs_mode = XsMode::HybridSvdWmp;
    let tally = roll_up(&vec![batch(true, 1.0, 20)], 50).ok().expect("an active batch");
    let r = report_run(&s, tally, 0);
    assert_eq!((r.mode_used.as_str(), r.svd_rank), ("hybrid_svd_wmp", s.svd_rank));
}

#[test]
fn settings_scenes_and_chains_in_words() {
    assert_eq!(Settings::default().text(), "<Settings batches=50 inactive=10 particles=5000 seed=1>");
    let text = scene_text(&scene());
    assert!(text.starts_with("<Scene data_dir=") && text.ends_with(" materials=2 surfaces=2 cells=3>"));
    let chain = build_chain(number(1.0), number(2.0), FissionYields { iodine: number(0.06), xenon: number(0.003) });
    assert!(chain_text("xe", &chain).starts_with("<Chain 'xe': 4 nuclides, "));
    let list = chain.nuclide_list();
    assert_eq!(list.len(), 4);
    assert_eq!(list[0].0, 92235);
    assert_eq!(XsMode::Svd.label(), "XsMode.Svd");
    assert_eq!(Runner::Cpu.label(), "Runner.Cpu");
}

#[test]
fn later_values_replace_earlier_ones() {
    let names = vec!["a".to_string(), "b".to_string(), "a".to_string()];
    let table = table_by_name(&names, &vec![number(1.0), number(2.0), number(3.0)]);
    assert_eq!(table, vec![("a".to_string(), number(3.0)), ("b".to_string(), number(2.0))]);
}

#[test]
fn statistics_of_a_run() {
    let figures = RunFigures {
        k_eff: number(1.0),
        k_sigma: number(0.1),
        load_time_seconds: number(2.0),
        sim_time_seconds: number(3.0),
        runtime_seconds: number(5.0),
        xs_memory_bytes: 1024,
        xs_memory_mib: number(0.001),
        ns_per_history: number(7.0),
    };
    let stats = |particles: u32| {
        let tally = roll_up(&vec![batch(true, 1.0, 20)], particles).ok().expect("an active batch");
        run_statistics(&report_run(&scene(), tally, 2), &figures)
    };
    let fields = stats(50);
    assert_eq!(fields.len(), 17);
    assert_eq!(fields[0].name, "mode");
    assert!(matches!(fields[5].value, FieldValue::Unsigned(50)));
    assert!(matches!(fields[16].value, FieldValue::Number(x) if x == number(7.0)));
    assert!(matches!(stats(0)[16].value, FieldValue::Number(x) if x == number(0.0)));
}

#[test]
fn complemented_list_means_not_in_all() {
    let known = names(&["a", "b"]);
    for text in ["~(-a -b)", "~( -a -b )", "~(-a & -b)", "~(-a\t-b)"] {
        let r = build_region(text, &known).ok().expect("a region");
        for bits in 0..4u32 {
            let sides = [bits & 1 == 1, bits & 2 == 2];
            assert_eq!(inside(&r, &sides), !(!sides[0] && !sides[1]), "{text}");
        }
    }
    let r = build_region("+a ~(-b)", &known).ok().expect("a region");
    assert!(inside(&r, &[true, true]) && !inside(&r, &[true, false]) && !inside(&r, &[false, true]));
    assert!(matches!(build_region("~(-a -b", &known), Err(RegionError::OpenList)));
    assert!(matches!(build_region("~()", &known), Err(RegionError::EmptyGroup)));
    assert!(matches!(build_region("~(a)", &known), Err(RegionError::BadToken(t)) if t == "a"));
    assert!(matches!(build_region("~(-c)", &known), Err(RegionError::UnknownSurface(t)) if t == "c"));
    assert!(matches!(build_region("~(-a ~(-b))", &known), Err(RegionError::BadToken(_))));
}

#[test]
fn ampersand_between_words_changes_nothing() {
    let known = names(&["a", "b"]);
    let plain = build_region("-a +b", &known).ok().expect("a region");
    let joined = build_region("-a & +b", &known).ok().expect("a region");
    assert_eq!(format!("{plain:?}"), format!("{joined:?}"));
}

#[test]
fn unbounded_group_makes_the_box_infinite() {
    let surfaces = vec![sphere(3.0), sphere(5.0)];
    let known = names(&["a", "b"]);
    for text in ["-a | ~-b", "~-b", "-a | ~(-a -b)", "~(+a -b)"] {
        let b = aabb_from_region(text, &surfaces, &known);
        assert_eq!((float(b.min.x), float(b.max.z)), (f64::NEG_INFINITY, f64::INFINITY), "{text}");
    }
    assert_eq!(float(aabb_from_region("-a | -b", &surfaces, &known).max.x), 5.0);
    assert_eq!(float(aabb_from_region("-a |", &surfaces, &known).max.x), 3.0);
    assert_eq!(float(aabb_from_region("-b ~(-a)", &surfaces, &known).max.x), 5.0);
}
