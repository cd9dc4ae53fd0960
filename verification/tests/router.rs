use criticality_bench::binary64::Binary64;
use criticality_bench::case_bundle::Backend;
use criticality_bench::case_loader::{
    CaseSpec, ReferenceSource, RunnerHint, SceneDto, SceneMaterial, SimConfig,
};
use criticality_bench::executor::BackendUsed;
use criticality_bench::pipeline::{
    auto_pick, gpu_launch, pick_backend, route, run_hint, uploads, LATTICE_MATERIAL_THRESHOLD, TINY_WORK_THRESHOLD,
};
use criticality_bench::run_args::RunnerSelection;

fn spec(runner: RunnerHint, particles: u32, thermal: bool) -> CaseSpec {
    let files = if thermal { vec!["c_H_in_H2O.h5".to_string()] } else { vec![] };
    CaseSpec {
        case_id: "c".to_string(),
        seq: 1,
        total: 1,
        k_ref: Binary64::from_bits(1.0f64.to_bits()),
        sigma_exp: Binary64::zero(),
        source: ReferenceSource::Handbook,
        scene: SceneDto {
            materials: vec![SceneMaterial { name: "water".to_string(), thermal_files: files }],
            rect_lattices: 0,
            hex_lattices: 0,
        },
        config: SimConfig {
            batches: 150,
            inactive: 30,
            particles_per_batch: particles,
            seed: 42,
            verbose: false,
            parallel: true,
            survival_biasing: None,
            disable_delayed_neutrons: false,
            gpu_auto_refill: false,
        },
        runner,
        source_path: "c.json".to_string(),
    }
}

#[test]
fn router_rule1_thermal_to_gpu() {
    assert_eq!(auto_pick(true, 1_000, false, 0, true), BackendUsed::Cuda);
}

#[test]
fn router_rule1_thermal_without_gpu_falls_through() {
    assert_eq!(auto_pick(true, 1_000, false, 0, false), BackendUsed::Cpu);
}

#[test]
fn router_rule2_tiny_workload_to_cpu() {
    assert_eq!(auto_pick(false, TINY_WORK_THRESHOLD - 1, false, 0, true), BackendUsed::Cpu);
}

#[test]
fn router_rule3_lattice_to_gpu() {
    assert_eq!(auto_pick(false, 100_000_000, true, 0, true), BackendUsed::Cuda);
}

#[test]
fn router_rule3_many_materials_to_gpu() {
    assert_eq!(auto_pick(false, 100_000_000, false, LATTICE_MATERIAL_THRESHOLD + 1, true), BackendUsed::Cuda);
}

#[test]
fn router_default_to_gpu_when_present() {
    assert_eq!(auto_pick(false, 100_000_000, false, 5, true), BackendUsed::Cuda);
    assert_eq!(auto_pick(false, 100_000_000, false, 5, false), BackendUsed::Cpu);
}

#[test]
fn no_device_means_host() {
    for selection in [RunnerSelection::Cpu, RunnerSelection::Gpu, RunnerSelection::Auto] {
        let picked = pick_backend(&spec(RunnerHint::Auto, 1_000_000, true), selection, false);
        assert_ne!(picked, BackendUsed::Cuda);
    }
}

#[test]
fn run_level_choice_wins() {
    let heavy = spec(RunnerHint::Auto, 1_000_000, true);
    assert_eq!(pick_backend(&heavy, RunnerSelection::Cpu, true), BackendUsed::Cpu);
    assert_eq!(pick_backend(&heavy, RunnerSelection::Gpu, true), BackendUsed::Cuda);
    assert_eq!(pick_backend(&heavy, RunnerSelection::Auto, true), BackendUsed::Cuda);
    let light = spec(RunnerHint::Auto, 10, false);
    assert_eq!(pick_backend(&light, RunnerSelection::Auto, true), BackendUsed::Cpu);
}

#[test]
fn hints_follow_the_selection() {
    assert_eq!(run_hint(RunnerSelection::Cpu), RunnerHint::Cpu);
    assert_eq!(run_hint(RunnerSelection::Gpu), RunnerHint::Gpu);
    assert_eq!(run_hint(RunnerSelection::Auto), RunnerHint::Auto);
}

#[test]
fn only_device_cases_go_to_the_device_queue() {
    assert_eq!(route(BackendUsed::Cuda), Backend::Cuda);
    assert_eq!(route(BackendUsed::Cpu), Backend::Cpu);
    assert_eq!(route(BackendUsed::CpuVramDowngrade), Backend::Cpu);
}

#[test]
fn uploads_need_context_and_stream() {
    assert!(uploads(BackendUsed::Cuda, true, true));
    assert!(!uploads(BackendUsed::Cuda, true, false));
    assert!(!uploads(BackendUsed::Cpu, true, true));
}

#[test]
fn launch_without_data_is_downgraded() {
    assert_eq!(gpu_launch(true, true, true), BackendUsed::Cuda);
    assert_eq!(gpu_launch(true, false, true), BackendUsed::CpuVramDowngrade);
    assert_eq!(gpu_launch(false, true, true), BackendUsed::CpuVramDowngrade);
}
