use criticality_bench::binary64::Binary64;
use criticality_bench::case_loader::{
    case_config, choose_reference, parse_case_json, scene_text, CaseDefaults, CaseParseError, CasePlace, CaseSpec,
    Recommended, ReferenceSource, RunnerHint, SceneDto, SceneFailure, SceneMaterial,
};
use criticality_bench::data_loader::{
    resolve_case, resolve_case_gpu, upload_gpu_bundle, DataLoadError, UploadFailure, UploadStep,
};
use criticality_bench::executor::{BackendUsed, CaseDeadline, CaseSummary, ExecutionResult};
use criticality_bench::materials::{Material, NuclideEntry, ResolvedMaterials, SvdXsProvider};
use criticality_bench::pipeline::{
    active_samples, device_failure, drop_completed, failure_tag, first_thermal_nuclide, list_case_files, load_failure,
    queue_sizes, summarise, wait_failure, BatchResult, CaseFile, Measured, Pipeline, PipelineError, SweepRequest, SweepStep,
};
use criticality_bench::result_processor::{
    read_completed_case_ids, sigma_ratio, CsvWriter, Deviation, RowNumbers, Verdict,
};
use criticality_bench::run_args::{RunArgs, RunnerSelection};
use criticality_bench::runner_setup::{
    looks_like_neutron_dir, pool_threads, resolve_data_dir, slot_count, workspace_root, GivenDir, WorkingDir,
};
use criticality_bench::stats::RunState;
use criticality_bench::telemetry::{
    build_telemetry_extra, CacheUse, DeviceCaches, TelemetryNumbers, TelemetryWriter,
};

fn number(x: f64) -> Binary64 {
    Binary64::from_bits(x.to_bits())
}

fn float(x: Binary64) -> f64 {
    f64::from_bits(x.bits)
}

fn defaults() -> CaseDefaults {
    CaseDefaults {
        particles_per_batch: None,
        batches: None,
        inactive_batches: None,
        base_seed: 42,
        survival_biasing: false,
    }
}

fn place() -> CasePlace {
    CasePlace { path: "bench/heu-1.json".to_string(), stem: Some("heu-1".to_string()), seq: 3, total: 9 }
}

fn scene() -> SceneDto {
    SceneDto {
        materials: vec![SceneMaterial { name: "fuel".to_string(), thermal_files: vec![] }],
        rect_lattices: 0,
        hex_lattices: 0,
    }
}

const CASE: &str = r#"{"scene": {}, "benchmark": {"k_eff_reference": 0.9989, "k_eff_sigma": 0.0011,
    "recommended_settings": {"particles_per_batch": 5000, "batches": 200, "inactive_batches": 50}}}"#;

const OPENMC_CASE: &str = r#"{"scene": {}, "benchmark": {"k_eff_reference": 0.9989, "k_eff_sigma": 0.0011,
    "local_validation": {"openmc_k_eff": 1.0002}}}"#;

fn parsed(text: &str) -> CaseSpec {
    parse_case_json(&place(), text, &defaults(), RunnerHint::Auto, Ok(scene())).expect("the case is complete")
}

#[test]
fn case_file_gives_reference_and_settings() {
    let spec = parsed(CASE);
    assert_eq!(spec.case_id, "heu-1");
    assert_eq!((spec.seq, spec.total), (3, 9));
    assert_eq!(float(spec.k_ref), 0.9989);
    assert_eq!(float(spec.sigma_exp), 0.0011);
    assert_eq!(spec.source, ReferenceSource::Handbook);
    assert_eq!(spec.config.particles_per_batch, 5000);
    assert_eq!(spec.config.batches, 200);
    assert_eq!(spec.config.inactive, 50);
    assert_eq!(spec.config.seed, 42);
    assert_eq!(spec.source_path, "bench/heu-1.json");
    assert_eq!(spec.work_proxy(), 5000 * 200);
    assert_eq!(spec.material_count(), 1);
    assert!(!spec.has_lattice());
    assert!(!spec.has_thermal_scattering());
}

#[test]
fn openmc_reference_is_preferred() {
    let spec = parsed(OPENMC_CASE);
    assert_eq!(spec.source, ReferenceSource::OpenMc);
    assert_eq!(float(spec.k_ref), 1.0002);
    assert_eq!(float(spec.sigma_exp), 0.0011);
}

#[test]
fn openmc_sigma_has_a_floor() {
    let r = choose_reference(number(1.0), number(0.0002), Some(number(0.99)), None);
    assert_eq!(float(r.sigma_exp), 0.001);
    let r = choose_reference(number(1.0), number(0.0002), Some(number(0.99)), Some(number(0.0005)));
    assert_eq!(float(r.sigma_exp), 0.0005);
}

#[test]
fn every_incomplete_case_file_has_its_error() {
    let run = |text: &str| parse_case_json(&place(), text, &defaults(), RunnerHint::Auto, Ok(scene()));
    assert!(matches!(run("{"), Err(CaseParseError::Json { .. })));
    assert!(matches!(run("{}"), Err(CaseParseError::NoSceneBlock { .. })));
    assert!(matches!(run(r#"{"scene": null}"#), Err(CaseParseError::NoSceneBlock { .. })));
    assert!(matches!(run(r#"{"scene": {}}"#), Err(CaseParseError::MissingKRef { .. })));
    assert!(matches!(
        run(r#"{"scene": {}, "benchmark": {"k_eff_reference": 1.0}}"#),
        Err(CaseParseError::MissingSigma { .. })
    ));
    assert!(matches!(
        run(r#"{"scene": {}, "benchmark": {"k_eff_reference": "1.0", "k_eff_sigma": 0.1}}"#),
        Err(CaseParseError::MissingKRef { .. })
    ));
    let failed = parse_case_json(
        &place(),
        CASE,
        &defaults(),
        RunnerHint::Auto,
        Err(SceneFailure::Load("no cells".to_string())),
    );
    match failed {
        Err(CaseParseError::SceneLoad { path, source }) => {
            assert_eq!(path, "bench/heu-1.json");
            assert_eq!(source, "no cells");
        }
        _ => panic!("the scene did not load"),
    }
}

#[test]
fn command_line_beats_file_beats_built_in() {
    let file = Recommended { particles_per_batch: Some(7), batches: Some(8), inactive_batches: None };
    let mut d = defaults();
    d.particles_per_batch = Some(100);
    assert_eq!(d.resolve(&file), (100, 8, 30));
    let none = Recommended { particles_per_batch: None, batches: None, inactive_batches: None };
    assert_eq!(defaults().resolve(&none), (100_000, 150, 30));
    d.survival_biasing = true;
    let biasing = case_config(&d, &file).survival_biasing.expect("biasing was asked for");
    assert_eq!((float(biasing.w_min), float(biasing.w_survive)), (0.25, 1.0));
    assert!(case_config(&defaults(), &file).survival_biasing.is_none());
}

fn file(stem: &str, extension: &str) -> CaseFile {
    let name = format!("{stem}.{extension}");
    CaseFile {
        path: format!("bench/{name}"),
        name: name.into_bytes(),
        stem: Some(stem.to_string()),
        extension: Some(extension.to_string()),
    }
}

fn stems(files: &[CaseFile]) -> Vec<String> {
    files.iter().map(|f| f.stem.clone().expect("stem")).collect()
}

#[test]
fn case_files_are_filtered_and_sorted() {
    let files = || vec![file("pu-2", "json"), file("heu-9", "json"), file("notes", "txt"), file("heu-1", "json")];
    assert_eq!(stems(&list_case_files(files(), &None)), ["heu-1", "heu-9", "pu-2"]);
    assert_eq!(stems(&list_case_files(files(), &Some("heu".to_string()))), ["heu-1", "heu-9"]);
    assert!(list_case_files(files(), &Some("lct".to_string())).is_empty());
}

#[test]
fn resume_drops_the_completed() {
    let files = vec![file("a", "json"), file("b", "json"), file("c", "json")];
    assert_eq!(stems(&drop_completed(files, &vec!["b".to_string()])), ["a", "c"]);
}

fn request(resume: bool, completed: Option<Vec<String>>) -> SweepRequest {
    SweepRequest {
        bench_dir: "bench".to_string(),
        filter: None,
        resume,
        has_csv: completed.is_some(),
        completed,
    }
}

#[test]
fn sweep_loads_cases_in_order_until_the_stop_file() {
    let listing = Some(vec![file("b", "json"), file("a", "json")]);
    let mut sweep = Pipeline::start(listing, request(false, None)).ok().expect("there are cases");
    assert_eq!(sweep.next_step(false), SweepStep::Load { index: 0, seq: 1, total: 2 });
    assert_eq!(sweep.files[0].stem.as_deref(), Some("a"));
    assert_eq!(sweep.next_step(true), SweepStep::Stopped { done: 1, total: 2 });
    assert_eq!(sweep.next_step(false), SweepStep::Finished);
}

#[test]
fn sweep_ends_after_the_last_case() {
    let mut sweep = Pipeline::start(Some(vec![file("a", "json")]), request(false, None)).ok().expect("one case");
    assert_eq!(sweep.next_step(false), SweepStep::Load { index: 0, seq: 1, total: 1 });
    assert_eq!(sweep.next_step(true), SweepStep::Finished);
}

#[test]
fn sweep_without_cases_is_an_error_unless_all_are_done() {
    assert!(matches!(Pipeline::start(None, request(false, None)), Err(PipelineError::BenchDirUnreadable(_))));
    assert!(matches!(Pipeline::start(Some(vec![]), request(false, None)), Err(PipelineError::NoCases(_))));
    assert!(matches!(
        Pipeline::start(Some(vec![file("notes", "txt")]), request(true, Some(vec!["a".to_string()]))),
        Err(PipelineError::NoCases(d)) if d == "bench"
    ));
    let done = Some(vec!["a".to_string()]);
    let sweep = Pipeline::start(Some(vec![file("a", "json")]), request(true, done)).ok().expect("nothing is left");
    assert_eq!(sweep.files.len(), 0);
    assert_eq!(sweep.state.exit_code(), 0);
}

fn summary(id: &str) -> CaseSummary {
    let mut s = CaseSummary::from_spec(&parsed(CASE));
    s.case_id = id.to_string();
    s
}

fn measured(k: f64) -> Measured {
    Measured {
        k_calc: number(k),
        k_sigma: number(0.0002),
        k_track: number(k),
        k_track_sigma: number(0.0003),
        runtime_s: number(12.5),
        load_s: number(1.5),
    }
}

fn deviation(delta: f64, envelope: f64) -> Deviation {
    Deviation { delta_pcm: number(delta), envelope_pcm: number(envelope) }
}

fn result(id: &str, error: Option<&str>) -> ExecutionResult {
    match error {
        Some(e) => ExecutionResult::error(summary(id), e.to_string()),
        None => {
            let mut r = summarise(&parsed(CASE), measured(1.0), 600, BackendUsed::Cpu);
            r.summary.case_id = id.to_string();
            r
        }
    }
}

#[test]
fn verdict_follows_the_wider_bound() {
    let ok = result("a", None);
    assert_eq!(Verdict::classify(&ok, &deviation(150.0, 10.0)), Verdict::Pass);
    assert_eq!(Verdict::classify(&ok, &deviation(150.5, 10.0)), Verdict::Fail);
    assert_eq!(Verdict::classify(&ok, &deviation(-300.0, 300.0)), Verdict::Pass);
    assert_eq!(Verdict::classify(&ok, &deviation(f64::NAN, 300.0)), Verdict::Fail);
    assert_eq!(Verdict::classify(&result("a", Some("boom")), &deviation(0.0, 300.0)), Verdict::Error);
    assert_eq!(float(deviation(0.0, f64::NAN).bound_pcm()), 150.0);
    assert_eq!(float(deviation(0.0, 220.0).bound_pcm()), 220.0);
}

#[test]
fn ratio_of_nothing_is_zero() {
    assert_eq!(float(sigma_ratio(number(0.0), number(f64::NAN))), 0.0);
    assert_eq!(float(sigma_ratio(number(2.0), number(3.5))), 3.5);
}

#[test]
fn tally_counts_each_verdict() {
    let mut state = RunState::default();
    assert_eq!(state.exit_code(), 0);
    state.record(result("a", None), &deviation(1.0, 1.0));
    assert_eq!(state.exit_code(), 0);
    state.record(result("b", None), &deviation(1000.0, 1.0));
    assert_eq!(state.exit_code(), 1);
    state.record(result("c", Some("x")), &deviation(0.0, 0.0));
    assert_eq!(state.exit_code(), 2);
    assert_eq!((state.passes, state.fails, state.errors, state.total()), (1, 1, 1, 3));
}

fn numbers() -> RowNumbers {
    RowNumbers {
        k_calc: "1.000000".to_string(),
        k_sigma: "0.000200".to_string(),
        k_ref: "0.998900".to_string(),
        sigma_exp: "0.001100".to_string(),
        delta_pcm: "110.0".to_string(),
        bound_pcm: "223.6".to_string(),
        sigma_ratio: "0.98".to_string(),
        runtime_s: "12.5".to_string(),
        load_s: "1.5".to_string(),
    }
}

#[test]
fn result_table_has_a_header_and_a_line_per_case() {
    let (writer, header) = CsvWriter::open(None);
    assert_eq!(
        String::from_utf8(header).expect("text"),
        "case,seq,total,verdict,k_calc,k_sigma,k_ref,sigma_exp,delta_pcm,bound_pcm,sigma_ratio,runtime_s,load_s,backend,error\n"
    );
    let line = writer.append(&result("heu-1", None), &deviation(110.0, 223.6), &numbers());
    assert_eq!(
        String::from_utf8(line).expect("text"),
        "heu-1,3,9,PASS,1.000000,0.000200,0.998900,0.001100,110.0,223.6,0.98,12.5,1.5,cpu,\n"
    );
}

#[test]
fn reopened_table_gets_no_second_header() {
    assert!(CsvWriter::open(Some(120)).1.is_empty());
    assert!(!CsvWriter::open(Some(0)).1.is_empty());
}

#[test]
fn recorded_cases_are_read_back() {
    let (writer, mut table) = CsvWriter::open(None);
    for id in ["heu-1", "a \"quoted\", id", "line\nbreak"] {
        table.extend(writer.append(&result(id, Some("a, b")), &deviation(0.0, 0.0), &numbers()));
    }
    assert_eq!(read_completed_case_ids(Some(table)), ["heu-1", "a \"quoted\", id", "line\nbreak"]);
    assert!(read_completed_case_ids(None).is_empty());
}

#[test]
fn ragged_and_repeated_rows_are_tolerated() {
    let text = "case,seq\nx,1\ny\nx,2,3\n";
    let mut ids = read_completed_case_ids(Some(text.as_bytes().to_vec()));
    ids.sort();
    assert_eq!(ids, ["x", "y"]);
}

#[test]
fn rows_that_are_not_text_are_passed_over() {
    let mut table = b"case,seq\nx,1\n".to_vec();
    table.extend([0xff, 0xfe, b',', b'1', b'\n']);
    table.extend(b"y,2\n");
    assert_eq!(read_completed_case_ids(Some(table)), ["x", "y"]);
}

fn telemetry_numbers() -> TelemetryNumbers {
    let json = |x: f64| serde_json::Value::from(x);
    TelemetryNumbers {
        timestamp_unix: json(1.5),
        k_calc: json(1.25),
        k_sigma: json(0.5),
        k_ref: json(1.0),
        sigma_exp: json(0.001),
        delta_pcm: json(5.0),
        k_track: json(f64::NAN),
        k_track_sigma: json(0.25),
        runtime_s: json(3.0),
        load_s: json(4.0),
    }
}

#[test]
fn telemetry_line_is_one_object() {
    let failed = result("heu-1", Some("line one\nline \"two\""));
    let line = TelemetryWriter.append(&failed, &deviation(5.0, 1.0), telemetry_numbers(), build_telemetry_extra(None));
    assert!(line.starts_with('{') && line.ends_with("}\n"));
    assert_eq!(line.matches('\n').count(), 1);
    let row: serde_json::Value = serde_json::from_str(&line).expect("a JSON document");
    assert_eq!(row.as_object().map(|o| o.len()), Some(19));
    assert_eq!(row["case_id"].as_str(), Some("heu-1"));
    assert_eq!(row["seq"].as_u64(), Some(failed.summary.seq as u64));
    assert_eq!(row["total"].as_u64(), Some(failed.summary.total as u64));
    assert_eq!(row["source_path"].as_str(), Some(failed.summary.source_path.as_str()));
    assert_eq!(row["verdict"].as_str(), Some("ERROR"));
    assert_eq!(row["backend"].as_str(), Some("cpu"));
    assert_eq!(row["k_calc"].as_f64(), Some(1.25));
    assert_eq!(row["timestamp_unix"].as_f64(), Some(1.5));
    assert_eq!(row["delta_pcm"].as_f64(), Some(5.0));
    assert!(row["k_track"].is_null());
    assert_eq!(row["n_histories"].as_u64(), Some(0));
    assert_eq!(row["error"].as_str(), Some("line one\nline \"two\""));
    assert!(row["extra"].is_null());
}

#[test]
fn telemetry_line_holds_the_caches_of_the_device() {
    let cache = |n: u64| CacheUse { entries: n, bytes: 100 * n, hits: 10 * n };
    let caches = DeviceCaches { per_nuclide: cache(2), thermal: cache(3) };
    let good = result("heu-1", None);
    let extra = build_telemetry_extra(Some(caches));
    let line = TelemetryWriter.append(&good, &deviation(5.0, 1.0), telemetry_numbers(), extra);
    let row: serde_json::Value = serde_json::from_str(&line).expect("a JSON document");
    assert!(row["error"].is_null());
    assert_eq!(row["n_histories"].as_u64(), Some(600));
    assert_eq!(row["verdict"].as_str(), Some("PASS"));
    assert_eq!(row["extra"]["per_nuclide_cache"]["bytes"].as_u64(), Some(200));
    assert_eq!(row["extra"]["sab_buffer_cache"]["hits"].as_u64(), Some(30));
}

#[test]
fn scene_of_a_case_is_taken_out() {
    let case = r#"{ "scene": { "cells": [1, 2], "a": "b" }, "benchmark": {} }"#;
    assert_eq!(scene_text(case).as_deref(), Some(r#"{"a":"b","cells":[1,2]}"#));
    assert_eq!(scene_text("{}").as_deref(), Some("null"));
    assert_eq!(scene_text("[1]").as_deref(), Some("null"));
    assert_eq!(scene_text("{"), None);
}

#[test]
fn watched_case_reports_its_limit() {
    let r = ExecutionResult::watched(None, summary("slow"), 3600);
    assert_eq!(r.error.as_deref(), Some("timeout after 3600s"));
    assert_eq!(r.summary.case_id, "slow");
    let kept = ExecutionResult::watched(Some(result("fast", None)), summary("fast"), 1);
    assert!(kept.error.is_none());
}

#[test]
fn deadline_of_no_seconds_has_passed() {
    assert!(CaseDeadline::new(0).exceeded());
    let later = CaseDeadline::new(1_000_000);
    assert!(!later.exceeded());
    assert!(later.exceeded_after(1_000_000));
    assert!(!later.exceeded_after(999_999));
}

#[test]
fn only_active_batches_are_sampled() {
    let batch = |n: u32, active: bool, k: f64, track: f64| BatchResult {
        batch: n,
        active,
        k_eff: number(k),
        k_track: number(track),
    };
    let s = active_samples(
        &vec![batch(1, false, 0.5, 0.5), batch(2, true, 1.0, 0.0), batch(3, true, 1.1, 1.2)],
        100,
    );
    assert_eq!(s.k, vec![number(1.0), number(1.1)]);
    assert_eq!(s.track, vec![number(1.2)]);
    assert_eq!(s.n_histories, 200);
}

#[test]
fn queues_scale_with_slots() {
    let q = queue_sizes(1);
    assert_eq!((q.load, q.bundle, q.result), (4, 2, 4));
    let q = queue_sizes(5);
    assert_eq!((q.load, q.bundle, q.result), (10, 5, 10));
}

#[test]
fn device_failure_names_the_case() {
    let r = device_failure(&parsed(CASE), "out of memory");
    assert_eq!(r.error.as_deref(), Some("[gpu-exec] heu-1: out of memory"));
}

#[test]
fn failures_carry_their_stage() {
    assert_eq!(failure_tag(&DataLoadError::Resolve("x".to_string())), "resolve");
    assert_eq!(failure_tag(&DataLoadError::GpuUpload("x".to_string())), "load");
}

#[test]
fn first_thermal_nuclide_or_none() {
    assert_eq!(first_thermal_nuclide(&vec![None, None]), -1);
}

fn resolved(nuclides: usize) -> ResolvedMaterials {
    ResolvedMaterials {
        provider: SvdXsProvider { nuclides: vec![], thermal: vec![] },
        materials: vec![Material {
            name: "fuel".to_string(),
            k_t: number(0.025),
            nuclides: (0..nuclides)
                .map(|i| NuclideEntry { atom_density: number(0.01), xs_kernel_idx: i })
                .collect(),
        }],
    }
}

#[test]
fn case_resolves_within_the_nuclide_limit() {
    let ok = resolve_case(parsed(CASE), Ok(resolved(2)), number(0.5), 2);
    assert_eq!(float(ok.ok().expect("two are allowed").load_s), 0.5);
    assert!(matches!(
        resolve_case(parsed(CASE), Ok(resolved(3)), number(0.5), 2),
        Err(DataLoadError::TooManyNuclides { n_nuclides: 3, max_allowed: 2, .. })
    ));
    assert!(matches!(
        resolve_case(parsed(CASE), Err("no U235".to_string()), number(0.5), 2),
        Err(DataLoadError::Resolve(m)) if m == "no U235"
    ));
}

#[test]
fn failed_upload_names_its_step() {
    let failure = || Some(UploadFailure { step: UploadStep::Thermal, detail: "out of memory".to_string() });
    assert!(matches!(
        upload_gpu_bundle(failure()),
        Err(DataLoadError::GpuUpload(m)) if m == "upload_sab_data: out of memory"
    ));
    let loaded = || resolve_case(parsed(CASE), Ok(resolved(1)), number(0.5), 2);
    assert!(resolve_case_gpu(loaded(), failure(), number(0.9)).is_err());
    let done = resolve_case_gpu(loaded(), None, number(0.9)).ok().expect("everything was put there");
    assert_eq!(float(done.load_s), 0.9);
}

#[test]
fn upload_takes_six_steps() {
    let mut step = Some(UploadStep::Nuclides);
    let mut n = 0;
    while let Some(s) = step {
        n += 1;
        step = s.next();
    }
    assert_eq!(n, 6);
}

#[test]
fn default_arguments() {
    let a = RunArgs::default();
    assert_eq!(a.bench_dir, "bench/icsbep");
    assert_eq!(a.stop_file, "outputs/STOP");
    assert_eq!(a.case_timeout_s, 3600);
    assert_eq!(a.runner, RunnerSelection::Auto);
    assert_eq!(float(a.n_sigma), 2.0);
    assert_eq!(a.base_seed, 42);
    assert_eq!(a.rank, 15);
    assert_eq!(a.case_defaults().base_seed, 42);
}

#[test]
fn threads_and_slots() {
    assert_eq!(pool_threads(4), 2);
    assert_eq!(pool_threads(16), 10);
    assert_eq!(slot_count(Some(9), Some(2), 4), 9);
    assert_eq!(slot_count(None, Some(2), 4), 2);
    assert_eq!(slot_count(None, Some(0), 4), 1);
    assert_eq!(slot_count(None, Some(8), 4), 4);
    assert_eq!(slot_count(None, None, 0), 1);
}

fn given(is_neutron: bool, subdir_is_neutron: bool, discovered: Option<&str>, is_dir: bool) -> Option<GivenDir> {
    Some(GivenDir {
        typed: "lib".to_string(),
        path: "/w/lib".to_string(),
        is_neutron,
        subdir: "/w/lib/neutron".to_string(),
        subdir_is_neutron,
        discovered: discovered.map(|d| d.to_string()),
        is_dir,
    })
}

fn here(discovered: Option<&str>) -> WorkingDir {
    WorkingDir::Known { path: "/w".to_string(), discovered: discovered.map(|d| d.to_string()) }
}

#[test]
fn data_directory_is_looked_for_in_order() {
    assert_eq!(resolve_data_dir(given(true, true, Some("x"), true), here(None)).as_deref(), Ok("/w/lib"));
    assert_eq!(resolve_data_dir(given(false, true, Some("x"), true), here(None)).as_deref(), Ok("/w/lib/neutron"));
    assert_eq!(resolve_data_dir(given(false, false, Some("x"), true), here(None)).as_deref(), Ok("x"));
    let missing = resolve_data_dir(given(false, false, None, false), here(Some("y")));
    assert_eq!(missing, Err("--data-dir lib not found".to_string()));
    assert!(resolve_data_dir(given(false, false, None, true), here(None)).is_err());
    assert_eq!(resolve_data_dir(None, here(Some("y"))).as_deref(), Ok("y"));
    assert!(resolve_data_dir(None, here(None)).is_err());
    assert!(resolve_data_dir(None, WorkingDir::Unknown("gone".to_string())).is_err());
    assert!(looks_like_neutron_dir(false, true));
    assert!(!looks_like_neutron_dir(false, false));
}

#[test]
fn workspace_is_searched_upwards() {
    assert_eq!(workspace_root(&vec![false, true, true]), 1);
    assert_eq!(workspace_root(&vec![false, false]), 1);
    assert_eq!(workspace_root(&vec![true]), 0);
}

#[test]
fn a_case_that_does_not_load_is_counted() {
    let listing = Some(vec![file("a", "json"), file("b", "json")]);
    let mut sweep = Pipeline::start(listing, request(false, None)).ok().expect("two cases");
    assert!(!sweep.awaits_result());
    let grade = Deviation { delta_pcm: number(0.0), envelope_pcm: number(0.0) };
    while let SweepStep::Load { index, seq, total } = sweep.next_step(false) {
        assert!(sweep.awaits_result());
        let place = sweep.place(index);
        assert_eq!((place.seq, place.total), (seq, total));
        let result = if index == 0 {
            load_failure(&place, "not JSON".to_string())
        } else {
            let spec = parse_case_json(&place, CASE, &defaults(), RunnerHint::Auto, Ok(scene()));
            summarise(&spec.expect("the case is complete"), measured(1.0), 10, BackendUsed::Cpu)
        };
        assert!(sweep.record(result, &grade));
    }
    assert!(!sweep.awaits_result());
    assert_eq!((sweep.state.total(), sweep.state.errors, sweep.state.exit_code()), (2, 1, 2));
    let failed = &sweep.state.results[0];
    assert_eq!(failed.error.as_deref(), Some("not JSON"));
    assert_eq!((failed.summary.case_id.as_str(), failed.summary.seq, failed.summary.total), ("a", 1, 2));
    assert!(float(failed.k_calc).is_nan() && float(failed.summary.k_ref).is_nan());
    let nameless = CasePlace { path: "x".to_string(), stem: None, seq: 1, total: 1 };
    assert_eq!(load_failure(&nameless, String::new()).summary.case_id, "?");
}

#[test]
fn results_are_those_of_started_cases() {
    let listing = Some(vec![file("a", "json"), file("b", "json"), file("c", "json")]);
    let mut sweep = Pipeline::start(listing, request(false, None)).ok().expect("three cases");
    let grade = deviation(0.0, 0.0);
    let failure = |sweep: &Pipeline, index: usize| load_failure(&sweep.place(index), "late".to_string());
    let early = failure(&sweep, 0);
    assert!(!sweep.record(early, &grade));
    sweep.next_step(false);
    sweep.next_step(false);
    let (first, second, third) = (failure(&sweep, 0), failure(&sweep, 1), failure(&sweep, 2));
    assert!(!sweep.record(third, &grade));
    let mut renamed = failure(&sweep, 1);
    renamed.summary.case_id = "a".to_string();
    assert!(!sweep.record(renamed, &grade));
    assert!(sweep.record(second, &grade));
    assert!(sweep.record(first, &grade));
    let again = failure(&sweep, 0);
    assert!(!sweep.record(again, &grade));
    assert_eq!(sweep.state.total(), 2);
    sweep.next_step(false);
    let third = failure(&sweep, 2);
    assert!(sweep.record(third, &grade));
    assert_eq!(sweep.next_step(false), SweepStep::Finished);
    let seen: Vec<(usize, &str)> =
        sweep.state.results.iter().map(|r| (r.summary.seq, r.summary.case_id.as_str())).collect();
    assert_eq!(seen, vec![(2, "b"), (1, "a"), (3, "c")]);
}

#[test]
fn failed_waits_have_their_own_words() {
    let spec = parsed(CASE);
    let r = wait_failure(&spec, "lost");
    assert_eq!(r.error.as_deref(), Some("stream_compute.wait(upload_done): lost"));
    assert_eq!(r.summary.case_id, spec.case_id);
}
