//! Planning, routing and recording a sweep.

use crate::binary64::Binary64;
use crate::case_bundle::Backend;
use crate::case_loader::{case_id_of, scene_is_thermal, work_of, CasePlace, CaseSpec, ReferenceSource, RunnerHint};
use crate::data_loader::DataLoadError;
use crate::executor::{summarises, BackendUsed, CaseSummary, ExecutionResult};
use crate::materials::ThermalScatteringData;
use crate::result_processor::{lists, Deviation};
use crate::run_args::RunnerSelection;
use crate::stats::{took_in, RunState};
use crate::text::{
    are_bytes_before, bytes_before, contains_text, holds_text, law_byte_order_is_total,
    law_byte_order_is_transitive, occurs_in, same_text,
};
use std::sync::Arc;
use vstd::prelude::*;

verus! {

/// Why a sweep did not start.
#[derive(Clone, Debug)]
pub enum PipelineError {
    /// The directory of cases could not be read.
    BenchDirUnreadable(String),
    /// No case file matched.
    NoCases(String),
}

/// Cases with fewer particles than this, all batches together, stay on the CPU.
pub const TINY_WORK_THRESHOLD: u64 = 10_000_000;

/// Cases with more materials than this go to the GPU.
pub const LATTICE_MATERIAL_THRESHOLD: usize = 50;

/// The hint that a sweep gives its cases.
pub fn run_hint(sel: RunnerSelection) -> (r: RunnerHint)
    ensures
        r == match sel {
            RunnerSelection::Cpu => RunnerHint::Cpu,
            RunnerSelection::Gpu => RunnerHint::Gpu,
            RunnerSelection::Auto => RunnerHint::Auto,
        },
{
    match sel {
        RunnerSelection::Cpu => RunnerHint::Cpu,
        RunnerSelection::Gpu => RunnerHint::Gpu,
        RunnerSelection::Auto => RunnerHint::Auto,
    }
}

/// The routing rules. A case goes to the GPU exactly where there is one and the
/// case scatters thermally or is not tiny.
pub open spec fn auto_backend(has_thermal: bool, work: int, has_gpu: bool) -> BackendUsed {
    if has_gpu && (has_thermal || work >= TINY_WORK_THRESHOLD) {
        BackendUsed::Cuda
    } else {
        BackendUsed::Cpu
    }
}

/// Applies the routing rules in order: thermal scattering goes to the GPU, a tiny
/// case to the CPU, a lattice or many materials to the GPU, and anything else to
/// the GPU where there is one.
pub fn auto_pick(has_thermal: bool, work: u64, has_lattice: bool, n_materials: usize, has_gpu: bool) -> (r:
    BackendUsed)
    ensures
        r == auto_backend(has_thermal, work as int, has_gpu),
{
    if has_gpu && has_thermal {
        return BackendUsed::Cuda;
    }
    if work < TINY_WORK_THRESHOLD {
        return BackendUsed::Cpu;
    }
    if has_gpu && (has_lattice || n_materials > LATTICE_MATERIAL_THRESHOLD) {
        return BackendUsed::Cuda;
    }
    if has_gpu {
        BackendUsed::Cuda
    } else {
        BackendUsed::Cpu
    }
}

/// Where a case that demands the GPU runs.
pub open spec fn demanded_gpu(has_gpu: bool) -> BackendUsed {
    if has_gpu {
        BackendUsed::Cuda
    } else {
        BackendUsed::CpuVramDowngrade
    }
}

/// Where a case runs: the sweep's own choice wins, then the case's hint, then the
/// routing rules.
pub open spec fn backend_for(spec: CaseSpec, selection: RunnerSelection, has_gpu: bool) -> BackendUsed {
    match selection {
        RunnerSelection::Cpu => BackendUsed::Cpu,
        RunnerSelection::Gpu => demanded_gpu(has_gpu),
        RunnerSelection::Auto => match spec.runner {
            RunnerHint::Cpu => BackendUsed::Cpu,
            RunnerHint::Gpu => demanded_gpu(has_gpu),
            RunnerHint::Auto => auto_backend(
                scene_is_thermal(spec.scene.materials@),
                work_of(spec.config),
                has_gpu,
            ),
        },
    }
}

/// Picks the executor of a case.
pub fn pick_backend(spec: &CaseSpec, selection: RunnerSelection, has_gpu: bool) -> (r: BackendUsed)
    ensures
        r == backend_for(*spec, selection, has_gpu),
{
    let demanded = if has_gpu {
        BackendUsed::Cuda
    } else {
        BackendUsed::CpuVramDowngrade
    };
    match selection {
        RunnerSelection::Cpu => BackendUsed::Cpu,
        RunnerSelection::Gpu => demanded,
        RunnerSelection::Auto => match spec.runner {
            RunnerHint::Cpu => BackendUsed::Cpu,
            RunnerHint::Gpu => demanded,
            RunnerHint::Auto => auto_pick(
                spec.has_thermal_scattering(),
                spec.work_proxy(),
                spec.has_lattice(),
                spec.material_count(),
                has_gpu,
            ),
        },
    }
}

/// Without a GPU no case is sent to one, and a case is marked as downgraded
/// exactly where it demanded the GPU.
pub proof fn law_no_gpu_means_cpu(spec: CaseSpec, selection: RunnerSelection)
    ensures
        backend_for(spec, selection, false) != BackendUsed::Cuda,
        backend_for(spec, selection, false) == BackendUsed::CpuVramDowngrade <==> (selection
            == RunnerSelection::Gpu || (selection == RunnerSelection::Auto && spec.runner == RunnerHint::Gpu)),
{
}

/// With a GPU nothing is ever marked as downgraded.
pub proof fn law_gpu_means_no_downgrade(spec: CaseSpec, selection: RunnerSelection)
    ensures
        backend_for(spec, selection, true) != BackendUsed::CpuVramDowngrade,
{
}

/// The queue that a resolved case goes to.
pub fn route(picked: BackendUsed) -> (r: Backend)
    ensures
        r == if picked == BackendUsed::Cuda {
            Backend::Cuda
        } else {
            Backend::Cpu
        },
{
    match picked {
        BackendUsed::Cuda => Backend::Cuda,
        _ => Backend::Cpu,
    }
}

/// Whether resolving a case includes copying it to the device: it was picked for
/// the GPU, and both the context and the transfer stream are there.
pub fn uploads(picked: BackendUsed, has_context: bool, has_transfer_stream: bool) -> (r: bool)
    ensures
        r == (picked == BackendUsed::Cuda && has_context && has_transfer_stream),
{
    picked == BackendUsed::Cuda && has_context && has_transfer_stream
}

/// The backend that a case taken from the GPU queue really runs on: the GPU where
/// the context, the uploaded data and the compute stream are all there.
pub fn gpu_launch(has_context: bool, has_data: bool, has_compute_stream: bool) -> (r: BackendUsed)
    ensures
        r == demanded_gpu(has_context && has_data && has_compute_stream),
{
    if has_context && has_data && has_compute_stream {
        BackendUsed::Cuda
    } else {
        BackendUsed::CpuVramDowngrade
    }
}

/// The text of a case that failed on the device.
pub open spec fn device_failure_text(case_id: Seq<char>, cause: Seq<char>) -> Seq<char> {
    "[gpu-exec] "@ + case_id + ": "@ + cause
}

/// The result of a case that failed on the device.
pub fn device_failure(spec: &CaseSpec, cause: &str) -> (r: ExecutionResult)
    ensures
        summarises(r.summary, *spec),
        r.error is Some,
        r.error->0@ == device_failure_text(spec.case_id@, cause@),
        r.k_calc.nan() && r.k_sigma.nan() && r.k_track.nan() && r.k_track_sigma.nan(),
        r.runtime_s.bits == 0 && r.load_s.bits == 0,
        r.n_histories == 0,
        r.backend == BackendUsed::Cpu,
{
    let mut msg = "[gpu-exec] ".to_owned();
    msg.append(spec.case_id.as_str());
    msg.append(": ");
    msg.append(cause);
    ExecutionResult::error(CaseSummary::from_spec(spec), msg)
}

/// The text of a case whose data did not arrive on the device.
pub open spec fn wait_failure_text(cause: Seq<char>) -> Seq<char> {
    "stream_compute.wait(upload_done): "@ + cause
}

/// The result of a case whose data did not arrive on the device.
pub fn wait_failure(spec: &CaseSpec, cause: &str) -> (r: ExecutionResult)
    ensures
        summarises(r.summary, *spec),
        r.error is Some,
        r.error->0@ == wait_failure_text(cause@),
        r.k_calc.nan() && r.k_sigma.nan() && r.k_track.nan() && r.k_track_sigma.nan(),
        r.runtime_s.bits == 0 && r.load_s.bits == 0,
        r.n_histories == 0,
        r.backend == BackendUsed::Cpu,
{
    let mut msg = "stream_compute.wait(upload_done): ".to_owned();
    msg.append(cause);
    ExecutionResult::error(CaseSummary::from_spec(spec), msg)
}

/// `summary` is the identity of a case of which only its place is known. It is
/// graded against nothing.
pub open spec fn places_case(summary: CaseSummary, place: CasePlace) -> bool {
    &&& summary.case_id@ == case_id_of(place)
    &&& summary.seq == place.seq
    &&& summary.total == place.total
    &&& summary.source_path@ == place.path@
    &&& summary.k_ref.nan() && summary.sigma_exp.nan()
    &&& summary.source == ReferenceSource::Handbook
}

/// The result of a case that could not be loaded, with the message.
pub fn load_failure(place: &CasePlace, message: String) -> (r: ExecutionResult)
    ensures
        places_case(r.summary, *place),
        r.error == Some(message),
        r.k_calc.nan() && r.k_sigma.nan() && r.k_track.nan() && r.k_track_sigma.nan(),
        r.runtime_s.bits == 0 && r.load_s.bits == 0,
        r.n_histories == 0,
        r.backend == BackendUsed::Cpu,
{
    let case_id = match &place.stem {
        Some(s) => s.clone(),
        None => "?".to_owned(),
    };
    let summary = CaseSummary {
        case_id,
        seq: place.seq,
        total: place.total,
        k_ref: Binary64::quiet_nan(),
        sigma_exp: Binary64::quiet_nan(),
        source: ReferenceSource::Handbook,
        source_path: place.path.clone(),
    };
    ExecutionResult::error(summary, message)
}

/// The word that a failure to load a case is logged under.
pub fn failure_tag(e: &DataLoadError) -> (r: &'static str)
    ensures
        r@ == if e is Resolve {
            "resolve"@
        } else {
            "load"@
        },
{
    match e {
        DataLoadError::Resolve(_) => "resolve",
        _ => "load",
    }
}

/// A file of the case directory.
pub struct CaseFile {
    /// The path, for messages.
    pub path: String,
    /// The bytes of the file's name.
    pub name: Vec<u8>,
    /// The name without its extension, where it is readable text.
    pub stem: Option<String>,
    /// The extension, where there is one that is readable text.
    pub extension: Option<String>,
}

/// The text that a resumed sweep looks for in the result table.
pub open spec fn resume_id(f: CaseFile) -> Seq<char> {
    match f.stem {
        Some(s) => s@,
        None => Seq::empty(),
    }
}

/// The identity of the case in a file: the stem of the file, or a question mark.
pub open spec fn file_id(f: CaseFile) -> Seq<char> {
    match f.stem {
        Some(s) => s@,
        None => "?"@,
    }
}

/// The file holds a case that the filter lets through.
pub open spec fn is_selected(f: CaseFile, filter: Option<Seq<char>>) -> bool {
    &&& f.extension is Some
    &&& f.extension->0@ == "json"@
    &&& match filter {
        None => true,
        Some(needle) => f.stem is Some && occurs_in(f.stem->0@, needle),
    }
}

fn selects(f: &CaseFile, filter: &Option<String>) -> (r: bool)
    ensures
        r == is_selected(*f, text_of(*filter)),
{
    match &f.extension {
        None => false,
        Some(e) => same_text(e.as_str(), "json") && match filter {
            None => true,
            Some(needle) => match &f.stem {
                None => false,
                Some(s) => contains_text(s.as_str(), needle.as_str()),
            },
        },
    }
}

/// The text of an optional string.
pub open spec fn text_of(s: Option<String>) -> Option<Seq<char>> {
    match s {
        Some(x) => Some(x@),
        None => None,
    }
}

/// No file comes after one that its name comes before.
pub open spec fn in_name_order(files: Seq<CaseFile>) -> bool {
    forall|i: int, j: int|
        0 <= i < j < files.len() ==> !bytes_before((#[trigger] files[j]).name@, (#[trigger] files[i]).name@)
}

/// `selection` holds the selected files of a directory, in the order of their
/// names.
pub open spec fn is_selection(selection: Seq<CaseFile>, files: Seq<CaseFile>, filter: Option<Seq<char>>) -> bool {
    &&& in_name_order(selection)
    &&& selection.to_multiset() == files.filter(|f: CaseFile| is_selected(f, filter)).to_multiset()
}

pub(crate) proof fn lemma_filter_step<A>(s: Seq<A>, p: spec_fn(A) -> bool, j: int)
    requires
        0 <= j < s.len(),
    ensures
        s.take(j + 1).filter(p) == if p(s[j]) {
            s.take(j).filter(p).push(s[j])
        } else {
            s.take(j).filter(p)
        },
{
    reveal(Seq::filter);
    assert(s.take(j + 1).drop_last() =~= s.take(j));
    assert(s.take(j + 1).last() == s[j]);
}

/// Sorts files by name.
fn sort_by_name(files: Vec<CaseFile>) -> (r: Vec<CaseFile>)
    ensures
        in_name_order(r@),
        r@.to_multiset() == files@.to_multiset(),
{
    let mut rest = files;
    let mut out: Vec<CaseFile> = Vec::new();
    proof {
        broadcast use vstd::seq_lib::group_to_multiset_ensures;

        assert(out@.to_multiset().add(rest@.to_multiset()) =~= files@.to_multiset()) by {
            assert(out@ =~= Seq::empty());
            assert(out@.to_multiset() =~= vstd::multiset::Multiset::empty());
        }
    }
    while rest.len() > 0
        invariant
            in_name_order(out@),
            out@.to_multiset().add(rest@.to_multiset()) == files@.to_multiset(),
        decreases rest@.len(),
    {
        let ghost before = out@;
        let ghost rest_before = rest@;
        let f = rest.pop().unwrap();
        let mut i: usize = 0;
        while i < out.len() && !are_bytes_before(&f.name, &out[i].name)
            invariant
                out@ == before,
                i <= out@.len(),
                in_name_order(out@),
                forall|k: int| 0 <= k < i ==> !bytes_before(f.name@, (#[trigger] out@[k]).name@),
            decreases out@.len() - i,
        {
            i += 1;
        }
        out.insert(i, f);
        proof {
            broadcast use vstd::seq_lib::group_to_multiset_ensures;

            assert(rest_before =~= rest@.push(f));
            assert(out@.to_multiset().add(rest@.to_multiset()) =~= before.to_multiset().add(
                rest_before.to_multiset(),
            ));
            assert forall|a: int, b: int| 0 <= a < b < out@.len() implies !bytes_before(
                (#[trigger] out@[b]).name@,
                (#[trigger] out@[a]).name@,
            ) by {
                if a == i {
                    assert(out@[b] == before[b - 1]);
                    assert(bytes_before(f.name@, before[i as int].name@));
                    law_byte_order_is_total(f.name@, before[b - 1].name@);
                    if b - 1 > i && bytes_before(before[b - 1].name@, f.name@) {
                        law_byte_order_is_transitive(before[b - 1].name@, f.name@, before[i as int].name@);
                    }
                } else if b == i {
                    assert(out@[a] == before[a]);
                } else {
                    let a0 = if a < i {
                        a
                    } else {
                        a - 1
                    };
                    let b0 = if b < i {
                        b
                    } else {
                        b - 1
                    };
                    assert(out@[a] == before[a0] && out@[b] == before[b0]);
                }
            }
        }
    }
    proof {
        broadcast use vstd::seq_lib::group_to_multiset_ensures;

        assert(rest@ =~= Seq::empty());
        assert(rest@.to_multiset() =~= vstd::multiset::Multiset::empty());
        assert(out@.to_multiset() =~= files@.to_multiset());
    }
    out
}

/// The case files of a directory that the filter lets through, in the order of
/// their names.
pub fn list_case_files(files: Vec<CaseFile>, filter: &Option<String>) -> (r: Vec<CaseFile>)
    ensures
        is_selection(r@, files@, text_of(*filter)),
{
    let mut kept = files;
    let ghost all = files@;
    let ghost p = |f: CaseFile| is_selected(f, text_of(*filter));
    let ghost mut seen: int = 0;
    let mut i: usize = 0;
    proof {
        reveal(Seq::filter);
        assert(all.take(0).filter(p) =~= Seq::empty());
        assert(kept@ =~= all.take(0).filter(p) + all.skip(0));
    }
    while i < kept.len()
        invariant
            p == (|f: CaseFile| is_selected(f, text_of(*filter))),
            0 <= seen <= all.len(),
            i == all.take(seen).filter(p).len(),
            kept@ == all.take(seen).filter(p) + all.skip(seen),
        decreases kept@.len() - i,
    {
        proof {
            lemma_filter_step(all, p, seen);
            assert(kept@[i as int] == all[seen]);
            assert(all.skip(seen) =~= seq![all[seen]] + all.skip(seen + 1));
        }
        let ghost head = all.take(seen).filter(p);
        if selects(&kept[i], filter) {
            i += 1;
            assert(kept@ =~= head.push(all[seen]) + all.skip(seen + 1));
        } else {
            kept.remove(i);
            assert(kept@ =~= head + all.skip(seen + 1));
        }
        proof {
            seen = seen + 1;
        }
    }
    proof {
        assert(seen == all.len());
        assert(all.take(seen) =~= all);
        assert(kept@ =~= all.filter(p));
    }
    sort_by_name(kept)
}

/// Drops the files whose cases a result table holds, and keeps the order of the
/// others.
pub fn drop_completed(files: Vec<CaseFile>, done: &Vec<String>) -> (r: Vec<CaseFile>)
    ensures
        r@ == files@.filter(|f: CaseFile| !lists(done@, resume_id(f))),
{
    let mut kept = files;
    let ghost all = files@;
    let ghost p = |f: CaseFile| !lists(done@, resume_id(f));
    let ghost mut seen: int = 0;
    let mut i: usize = 0;
    proof {
        reveal(Seq::filter);
        assert(all.take(0).filter(p) =~= Seq::empty());
        assert(kept@ =~= all.take(0).filter(p) + all.skip(0));
    }
    while i < kept.len()
        invariant
            p == (|f: CaseFile| !lists(done@, resume_id(f))),
            0 <= seen <= all.len(),
            i == all.take(seen).filter(p).len(),
            kept@ == all.take(seen).filter(p) + all.skip(seen),
        decreases kept@.len() - i,
    {
        proof {
            lemma_filter_step(all, p, seen);
            assert(kept@[i as int] == all[seen]);
            assert(all.skip(seen) =~= seq![all[seen]] + all.skip(seen + 1));
        }
        let ghost head = all.take(seen).filter(p);
        let known = match &kept[i].stem {
            Some(s) => holds_text(done, s.as_str()),
            None => {
                proof {
                    reveal_strlit("");
                    assert(""@ =~= Seq::empty());
                }
                holds_text(done, "")
            },
        };
        if known {
            kept.remove(i);
            assert(kept@ =~= head + all.skip(seen + 1));
        } else {
            i += 1;
            assert(kept@ =~= head.push(all[seen]) + all.skip(seen + 1));
        }
        proof {
            seen = seen + 1;
        }
    }
    proof {
        assert(seen == all.len());
        assert(all.take(seen) =~= all);
        assert(kept@ =~= all.filter(p));
    }
    kept
}

/// A case that is dropped on resuming is in the result table, and one that is
/// not in the table is kept.
pub proof fn law_resume_drops_exactly_the_completed(files: Seq<CaseFile>, done: Seq<String>, f: CaseFile)
    requires
        files.contains(f),
    ensures
        files.filter(|g: CaseFile| !lists(done, resume_id(g))).contains(f) <==> !lists(done, resume_id(f)),
{
    let p = |g: CaseFile| !lists(done, resume_id(g));
    broadcast use vstd::seq_lib::group_filter_ensures;

    let i = choose|i: int| 0 <= i < files.len() && files[i] == f;
    if p(f) {
        assert(p(files[i]));
    }
    if files.filter(p).contains(f) {
        let j = choose|j: int| 0 <= j < files.filter(p).len() && files.filter(p)[j] == f;
        assert(p(files.filter(p)[j]));
    }
}

/// What a sweep is asked to do.
pub struct SweepRequest {
    /// The directory of cases, for messages.
    pub bench_dir: String,
    pub filter: Option<String>,
    pub resume: bool,
    /// Whether there is a result table at all.
    pub has_csv: bool,
    /// The cases that the result table holds, where it could be read.
    pub completed: Option<Vec<String>>,
}

/// The files that are left of a selection.
pub open spec fn remaining(selection: Seq<CaseFile>, request: SweepRequest) -> Seq<CaseFile> {
    if request.resume && request.has_csv && request.completed is Some {
        selection.filter(|f: CaseFile| !lists(request.completed->0@, resume_id(f)))
    } else {
        selection
    }
}

/// What has to be done next in a sweep.
#[derive(Clone, Copy, Debug, PartialEq, Eq, Structural)]
pub enum SweepStep {
    /// Load the file at `index` as case `seq` of `total`.
    Load { index: usize, seq: usize, total: usize },
    /// The stop file is there; `done` of `total` cases were started.
    Stopped { done: usize, total: usize },
    /// Every case was started.
    Finished,
}

/// The step of a sweep that started `next` of `total` cases.
pub open spec fn step_at(next: int, stopped: bool, total: int, stop_present: bool) -> SweepStep {
    if stopped || next == total {
        SweepStep::Finished
    } else if stop_present {
        SweepStep::Stopped { done: next as usize, total: total as usize }
    } else {
        SweepStep::Load { index: next as usize, seq: (next + 1) as usize, total: total as usize }
    }
}

/// A sweep over case files.
pub struct Pipeline {
    pub files: Vec<CaseFile>,
    /// How many files were started.
    pub next: usize,
    /// The stop file was seen.
    pub stopped: bool,
    pub state: RunState,
}

/// The place of the file at `index` in a sweep over the files.
pub open spec fn is_place(place: CasePlace, files: Seq<CaseFile>, index: int) -> bool {
    &&& 0 <= index < files.len()
    &&& place.path@ == files[index].path@
    &&& case_id_of(place) == file_id(files[index])
    &&& place.seq == index + 1
    &&& place.total == files.len()
}

/// `summary` is the identity of one of the first `started` files: that at its
/// number.
pub open spec fn is_of_file(summary: CaseSummary, files: Seq<CaseFile>, started: int) -> bool {
    &&& 1 <= summary.seq <= started
    &&& summary.total == files.len()
    &&& summary.case_id@ == file_id(files[summary.seq - 1])
    &&& summary.source_path@ == files[summary.seq - 1].path@
}

/// One of the results has this number.
pub open spec fn has_number(results: Seq<ExecutionResult>, seq: int) -> bool {
    exists|i: int| 0 <= i < results.len() && (#[trigger] results[i]).summary.seq == seq
}

/// The results are those of different cases among the first `started` files.
pub open spec fn are_of_cases(results: Seq<ExecutionResult>, files: Seq<CaseFile>, started: int) -> bool {
    &&& forall|i: int|
        0 <= i < results.len() ==> is_of_file((#[trigger] results[i]).summary, files, started)
    &&& forall|i: int, j: int|
        0 <= i < j < results.len() ==> (#[trigger] results[i]).summary.seq != (#[trigger] results[j]).summary.seq
}

/// Different cases among the first `started` files are no more than those; where
/// they are as many, every one of those files has its result.
proof fn lemma_results_of_cases(results: Seq<ExecutionResult>, files: Seq<CaseFile>, started: int)
    requires
        0 <= started,
        are_of_cases(results, files, started),
    ensures
        results.len() <= started,
        results.len() == started ==> forall|k: int| 1 <= k <= started ==> #[trigger] has_number(results, k),
{
    let numbers = results.map_values(|r: ExecutionResult| r.summary.seq as int);
    let all = vstd::set_lib::set_int_range(1, started + 1);
    assert(numbers.no_duplicates()) by {
        assert forall|i: int, j: int| 0 <= i < numbers.len() && 0 <= j < numbers.len() && i != j implies numbers[i]
            != numbers[j] by {
            assert(results[i].summary.seq != results[j].summary.seq);
        }
    }
    numbers.unique_seq_to_set();
    vstd::set_lib::lemma_int_range(1, started + 1);
    assert(numbers.to_set().subset_of(all)) by {
        assert forall|k: int| numbers.to_set().contains(k) implies all.contains(k) by {
            let i = choose|i: int| 0 <= i < numbers.len() && numbers[i] == k;
            assert(is_of_file(results[i].summary, files, started));
        }
    }
    vstd::set_lib::lemma_len_subset(numbers.to_set(), all);
    if results.len() == started {
        vstd::set_lib::lemma_subset_equality(numbers.to_set(), all);
        assert forall|k: int| 1 <= k <= started implies #[trigger] has_number(results, k) by {
            assert(all.contains(k));
            assert(numbers.to_set().contains(k));
            let i = choose|i: int| 0 <= i < numbers.len() && numbers[i] == k;
            assert(results[i].summary.seq == k);
        }
    }
}

impl Pipeline {
    /// No more cases were started than there are, every result is that of a case
    /// that was started, and no case has more than one.
    pub open spec fn wf(self) -> bool {
        &&& self.next <= self.files@.len()
        &&& are_of_cases(self.state.results@, self.files@, self.next as int)
        &&& self.state.wf()
    }

    /// How many cases were started and have no result yet.
    pub open spec fn outstanding(self) -> int {
        self.next - self.state.results@.len()
    }

    /// `summary` is the identity of a case that was started and has no result yet.
    pub open spec fn awaits(self, summary: CaseSummary) -> bool {
        &&& is_of_file(summary, self.files@, self.next as int)
        &&& !has_number(self.state.results@, summary.seq as int)
    }

    /// Plans a sweep over the files of a directory, or over nothing where it could
    /// not be read. A directory without a matching case is an error. Where a sweep
    /// is resumed and all of its cases are in the result table, there is nothing
    /// left to do.
    pub fn start(listing: Option<Vec<CaseFile>>, request: SweepRequest) -> (r: Result<Self, PipelineError>)
        ensures
            listing is None ==> {
                &&& r is Err
                &&& r->Err_0 is BenchDirUnreadable
                &&& r->Err_0->BenchDirUnreadable_0 == request.bench_dir
            },
            listing is Some ==> exists|selection: Seq<CaseFile>| #[trigger]
                is_selection(selection, listing->0@, text_of(request.filter)) && {
                    if selection.len() == 0 {
                        &&& r is Err
                        &&& r->Err_0 is NoCases
                        &&& r->Err_0->NoCases_0 == request.bench_dir
                    } else {
                        &&& r is Ok
                        &&& remaining(selection, request).len() == 0 ==> request.resume && request.has_csv
                        &&& r->Ok_0.files@ == remaining(selection, request)
                        &&& r->Ok_0.next == 0
                        &&& !r->Ok_0.stopped
                        &&& r->Ok_0.wf()
                        &&& r->Ok_0.state.results@.len() == 0
                    }
                },
    {
        let files = match listing {
            None => {
                return Err(PipelineError::BenchDirUnreadable(request.bench_dir));
            },
            Some(files) => files,
        };
        let selection = list_case_files(files, &request.filter);
        if selection.len() == 0 {
            return Err(PipelineError::NoCases(request.bench_dir));
        }
        let ghost chosen = selection@;
        let cases = match &request.completed {
            Some(done) => if request.resume && request.has_csv {
                drop_completed(selection, done)
            } else {
                selection
            },
            None => selection,
        };
        assert(cases@ == remaining(chosen, request));
        Ok(Pipeline { files: cases, next: 0, stopped: false, state: RunState::default() })
    }

    /// Decides the next step, given whether the stop file is there. Cases are
    /// started in order and numbered from one; the stop file is heeded between
    /// cases, and no case starts after it was seen.
    pub fn next_step(&mut self, stop_present: bool) -> (r: SweepStep)
        requires
            old(self).wf(),
        ensures
            final(self).wf(),
            final(self).files@ == old(self).files@,
            final(self).state == old(self).state,
            final(self).outstanding() == old(self).outstanding() + (if r is Load {
                1int
            } else {
                0int
            }),
            r == step_at(old(self).next as int, old(self).stopped, old(self).files@.len() as int, stop_present),
            final(self).next == old(self).next + (if r is Load {
                1int
            } else {
                0int
            }),
            final(self).stopped == (old(self).stopped || r is Stopped),
    {
        let total: usize = self.files.len();
        if self.stopped || self.next == total {
            return SweepStep::Finished;
        }
        if stop_present {
            self.stopped = true;
            return SweepStep::Stopped { done: self.next, total };
        }
        let index: usize = self.next;
        self.next = index + 1;
        SweepStep::Load { index, seq: index + 1, total }
    }

    /// The place of the file at `index`.
    pub fn place(&self, index: usize) -> (r: CasePlace)
        requires
            index < self.files@.len(),
        ensures
            is_place(r, self.files@, index as int),
            r.path@ == self.files@[index as int].path@,
            r.stem is Some <==> self.files@[index as int].stem is Some,
    {
        let f = &self.files[index];
        let stem: Option<String> = match &f.stem {
            Some(s) => Some(s.clone()),
            None => None,
        };
        let total: usize = self.files.len();
        CasePlace { path: f.path.clone(), stem, seq: index + 1, total }
    }

    /// Whether some case was started and has no result yet.
    pub fn awaits_result(&self) -> (r: bool)
        requires
            self.wf(),
        ensures
            r == (self.outstanding() > 0),
    {
        self.state.results.len() < self.next
    }

    fn is_awaited(&self, summary: &CaseSummary) -> (r: bool)
        requires
            self.wf(),
        ensures
            r == self.awaits(*summary),
    {
        if summary.seq < 1 || summary.seq > self.next || summary.total != self.files.len() {
            return false;
        }
        let f = &self.files[summary.seq - 1];
        let named: bool = match &f.stem {
            Some(s) => same_text(&summary.case_id, s),
            None => same_text(&summary.case_id, "?"),
        };
        if !named || !same_text(&summary.source_path, &f.path) {
            return false;
        }
        let mut i: usize = 0;
        while i < self.state.results.len()
            invariant
                i <= self.state.results@.len(),
                forall|k: int| 0 <= k < i ==> (#[trigger] self.state.results@[k]).summary.seq != summary.seq,
            decreases self.state.results@.len() - i,
        {
            if self.state.results[i].summary.seq == summary.seq {
                return false;
            }
            i += 1;
        }
        true
    }

    /// Takes the result of a case into the tally, whether it ran or could not be
    /// loaded, and says whether it did. A result that does not belong to a case
    /// that was started, or whose case has one already, changes nothing.
    pub fn record(&mut self, result: ExecutionResult, deviation: &Deviation) -> (r: bool)
        requires
            old(self).wf(),
        ensures
            final(self).wf(),
            r == old(self).awaits(result.summary),
            !r ==> *final(self) == *old(self),
            r ==> {
                &&& old(self).outstanding() > 0
                &&& final(self).outstanding() == old(self).outstanding() - 1
                &&& final(self).files@ == old(self).files@
                &&& final(self).next == old(self).next
                &&& final(self).stopped == old(self).stopped
                &&& took_in(old(self).state, final(self).state, result, *deviation)
            },
    {
        if !self.is_awaited(&result.summary) {
            return false;
        }
        self.state.record(result, deviation);
        proof {
            let before = old(self).state.results@;
            let after = self.state.results@;
            assert forall|i: int, j: int| 0 <= i < j < after.len() implies (#[trigger] after[i]).summary.seq != (
            #[trigger] after[j]).summary.seq by {
                assert(after[i] == before[i]);
                if j == before.len() {
                    assert(!has_number(before, result.summary.seq as int));
                } else {
                    assert(after[j] == before[j]);
                }
            }
            assert forall|i: int| 0 <= i < after.len() implies is_of_file(
                (#[trigger] after[i]).summary,
                self.files@,
                self.next as int,
            ) by {
                if i < before.len() {
                    assert(after[i] == before[i]);
                }
            }
            lemma_results_of_cases(after, self.files@, self.next as int);
        }
        true
    }
}

/// Where no result is awaited, every case that was started is counted once; where
/// the sweep came to its end without being stopped, that is every case.
pub proof fn law_every_started_case_is_counted(p: Pipeline, stop_present: bool)
    requires
        p.wf(),
        p.outstanding() == 0,
    ensures
        p.state.passes + p.state.fails + p.state.errors == p.next,
        !p.stopped && step_at(p.next as int, p.stopped, p.files@.len() as int, stop_present) == SweepStep::Finished
            ==> p.state.passes + p.state.fails + p.state.errors == p.files@.len(),
{
}

/// No more results are kept than cases were started.
pub proof fn law_no_result_without_a_start(p: Pipeline)
    requires
        p.wf(),
    ensures
        p.outstanding() >= 0,
{
    lemma_results_of_cases(p.state.results@, p.files@, p.next as int);
}

/// Where no result is awaited and the sweep came to its end without being stopped,
/// the numbers of the results are those from one to the number of cases, each once,
/// and the result of number `seq` is that of the file at that place.
pub proof fn law_results_are_those_of_the_cases(p: Pipeline, stop_present: bool, seq: int)
    requires
        p.wf(),
        p.outstanding() == 0,
        !p.stopped,
        step_at(p.next as int, p.stopped, p.files@.len() as int, stop_present) == SweepStep::Finished,
        1 <= seq <= p.files@.len(),
    ensures
        p.state.results@.len() == p.files@.len(),
        exists|i: int|
            0 <= i < p.state.results@.len() && (#[trigger] p.state.results@[i]).summary.seq == seq
                && p.state.results@[i].summary.case_id@ == file_id(p.files@[seq - 1])
                && p.state.results@[i].summary.source_path@ == p.files@[seq - 1].path@,
        forall|i: int, j: int|
            0 <= i < p.state.results@.len() && 0 <= j < p.state.results@.len() && (
            #[trigger] p.state.results@[i]).summary.seq == (#[trigger] p.state.results@[j]).summary.seq ==> i == j,
{
    let results = p.state.results@;
    lemma_results_of_cases(results, p.files@, p.next as int);
    assert(has_number(results, seq));
    let i = choose|i: int| 0 <= i < results.len() && (#[trigger] results[i]).summary.seq == seq;
    assert(is_of_file(results[i].summary, p.files@, p.next as int));
}

/// What the library makes of a case that was started is awaited as its result, as
/// long as the case has none: the failure to load it, and whatever carries the
/// identity of the case that was read.
pub proof fn law_started_cases_are_awaited(p: Pipeline, place: CasePlace, index: int, summary: CaseSummary, spec: CaseSpec)
    requires
        p.wf(),
        is_place(place, p.files@, index),
        index < p.next,
        !has_number(p.state.results@, index + 1),
        places_case(summary, place) || (summarises(summary, spec) && spec.case_id@ == case_id_of(place) && spec.seq
            == place.seq && spec.total == place.total && spec.source_path@ == place.path@),
    ensures
        p.awaits(summary),
{
}

/// The steps of a sweep of `total` cases that finds the stop file as `stops` says,
/// from the point where it started `next` of them.
pub open spec fn steps_from(next: int, stopped: bool, total: int, stops: Seq<bool>) -> Seq<SweepStep>
    decreases stops.len(),
{
    if stops.len() == 0 {
        Seq::empty()
    } else {
        let step = step_at(next, stopped, total, stops[0]);
        seq![step] + steps_from(
            next + (if step is Load {
                1int
            } else {
                0int
            }),
            stopped || step is Stopped,
            total,
            stops.skip(1),
        )
    }
}

/// As long as the stop file is not there, a sweep starts its cases one by one in
/// order, the first as number one, and then finishes.
pub proof fn law_cases_start_in_order(next: int, total: int, stops: Seq<bool>, i: int)
    requires
        0 <= next <= total,
        0 <= i < stops.len(),
        forall|k: int| 0 <= k <= i ==> !#[trigger] stops[k],
    ensures
        steps_from(next, false, total, stops).len() == stops.len(),
        steps_from(next, false, total, stops)[i] == step_at(
            if next + i < total {
                next + i
            } else {
                total
            },
            false,
            total,
            false,
        ),
    decreases stops.len(),
{
    lemma_steps_len(next, false, total, stops);
    if i > 0 {
        let step = step_at(next, false, total, stops[0]);
        let after = next + (if step is Load {
            1int
        } else {
            0int
        });
        assert(!stops[0]);
        law_cases_start_in_order(after, total, stops.skip(1), i - 1);
    }
}

/// Once the stop file was seen, no case starts any more.
pub proof fn law_nothing_starts_after_stop(next: int, total: int, stops: Seq<bool>, i: int)
    requires
        0 <= i < stops.len(),
    ensures
        steps_from(next, true, total, stops).len() == stops.len(),
        steps_from(next, true, total, stops)[i] == SweepStep::Finished,
    decreases stops.len(),
{
    lemma_steps_len(next, true, total, stops);
    if i > 0 {
        law_nothing_starts_after_stop(next, total, stops.skip(1), i - 1);
    }
}

proof fn lemma_steps_len(next: int, stopped: bool, total: int, stops: Seq<bool>)
    ensures
        steps_from(next, stopped, total, stops).len() == stops.len(),
    decreases stops.len(),
{
    if stops.len() > 0 {
        let step = step_at(next, stopped, total, stops[0]);
        lemma_steps_len(
            next + (if step is Load {
                1int
            } else {
                0int
            }),
            stopped || step is Stopped,
            total,
            stops.skip(1),
        );
    }
}

/// Sizes of the queues between the stages of a parallel sweep.
#[derive(Clone, Copy, Debug, PartialEq, Eq, Structural)]
pub struct QueueSizes {
    pub load: usize,
    pub bundle: usize,
    pub result: usize,
}

/// At least two cases are in flight; the queues at either end hold twice as many.
pub fn queue_sizes(n_slots: usize) -> (r: QueueSizes)
    requires
        2 * n_slots <= usize::MAX,
    ensures
        r.bundle == if n_slots > 2 {
            n_slots
        } else {
            2
        },
        r.load == 2 * r.bundle,
        r.result == 2 * r.bundle,
{
    let n: usize = if n_slots > 2 {
        n_slots
    } else {
        2
    };
    QueueSizes { load: n * 2, bundle: n, result: n * 2 }
}

/// One batch of a simulation.
#[derive(Clone, Copy, Debug, PartialEq, Eq, Structural)]
pub struct BatchResult {
    pub batch: u32,
    pub active: bool,
    pub k_eff: Binary64,
    pub k_track: Binary64,
}

/// The batch counts towards the track-length estimate.
pub open spec fn has_track(b: BatchResult) -> bool {
    b.active && (Binary64 { bits: 0 }).less(b.k_track)
}

/// The samples that a result is made of.
pub struct ActiveSamples {
    pub k: Vec<Binary64>,
    pub track: Vec<Binary64>,
    pub n_histories: u64,
}

/// Picks the active batches: their collision estimates, their track-length
/// estimates where positive, and the histories they followed.
pub fn active_samples(batches: &Vec<BatchResult>, particles_per_batch: u32) -> (r: ActiveSamples)
    requires
        batches@.filter(|b: BatchResult| b.active).len() * particles_per_batch <= u64::MAX,
    ensures
        r.k@ == batches@.filter(|b: BatchResult| b.active).map_values(|b: BatchResult| b.k_eff),
        r.track@ == batches@.filter(|b: BatchResult| has_track(b)).map_values(|b: BatchResult| b.k_track),
        r.n_histories == batches@.filter(|b: BatchResult| b.active).len() * particles_per_batch,
{
    let ghost active = |b: BatchResult| b.active;
    let ghost tracked_batch = |b: BatchResult| has_track(b);
    let ghost k_of = |b: BatchResult| b.k_eff;
    let ghost track_of = |b: BatchResult| b.k_track;
    let mut k: Vec<Binary64> = Vec::new();
    let mut track: Vec<Binary64> = Vec::new();
    let mut i: usize = 0;
    proof {
        reveal(Seq::filter);
        assert(k@ =~= batches@.take(0).filter(active).map_values(k_of));
        assert(track@ =~= batches@.take(0).filter(tracked_batch).map_values(track_of));
    }
    while i < batches.len()
        invariant
            active == (|b: BatchResult| b.active),
            tracked_batch == (|b: BatchResult| has_track(b)),
            k_of == (|b: BatchResult| b.k_eff),
            track_of == (|b: BatchResult| b.k_track),
            i <= batches@.len(),
            k@ == batches@.take(i as int).filter(active).map_values(k_of),
            track@ == batches@.take(i as int).filter(tracked_batch).map_values(track_of),
        decreases batches@.len() - i,
    {
        let b: BatchResult = batches[i];
        proof {
            lemma_filter_step(batches@, active, i as int);
            lemma_filter_step(batches@, tracked_batch, i as int);
        }
        if b.active {
            k.push(b.k_eff);
            if Binary64::zero().lt(b.k_track) {
                track.push(b.k_track);
            }
        }
        proof {
            assert(k@ =~= batches@.take(i + 1).filter(active).map_values(k_of));
            assert(track@ =~= batches@.take(i + 1).filter(tracked_batch).map_values(track_of));
        }
        i += 1;
    }
    proof {
        assert(batches@.take(i as int) =~= batches@);
    }
    let count: u64 = k.len() as u64;
    let n_histories: u64 = count * (particles_per_batch as u64);
    ActiveSamples { k, track, n_histories }
}

/// Mean and standard error of both estimates, with the seconds that a case took.
#[derive(Clone, Copy, Debug, PartialEq, Eq, Structural)]
pub struct Measured {
    pub k_calc: Binary64,
    pub k_sigma: Binary64,
    pub k_track: Binary64,
    pub k_track_sigma: Binary64,
    pub runtime_s: Binary64,
    pub load_s: Binary64,
}

/// The result of a case that ran to its end.
pub fn summarise(spec: &CaseSpec, measured: Measured, n_histories: u64, backend: BackendUsed) -> (r:
    ExecutionResult)
    ensures
        summarises(r.summary, *spec),
        r.error is None,
        r.k_calc == measured.k_calc && r.k_sigma == measured.k_sigma,
        r.k_track == measured.k_track && r.k_track_sigma == measured.k_track_sigma,
        r.runtime_s == measured.runtime_s && r.load_s == measured.load_s,
        r.n_histories == n_histories,
        r.backend == backend,
{
    ExecutionResult {
        k_calc: measured.k_calc,
        k_sigma: measured.k_sigma,
        k_track: measured.k_track,
        k_track_sigma: measured.k_track_sigma,
        runtime_s: measured.runtime_s,
        load_s: measured.load_s,
        n_histories,
        backend,
        summary: CaseSummary::from_spec(spec),
        error: None,
    }
}

/// None of the first `n` nuclides has thermal data.
pub open spec fn none_thermal(thermal: Seq<Option<Arc<ThermalScatteringData>>>, n: int) -> bool {
    forall|i: int| 0 <= i < n ==> (#[trigger] thermal[i]) is None
}

/// The first nuclide with thermal data, or -1.
pub fn first_thermal_nuclide(thermal: &Vec<Option<Arc<ThermalScatteringData>>>) -> (r: i32)
    requires
        thermal@.len() <= i32::MAX,
    ensures
        r == -1 <==> forall|i: int| 0 <= i < thermal@.len() ==> (#[trigger] thermal@[i]) is None,
        r != -1 ==> {
            &&& 0 <= r < thermal@.len()
            &&& thermal@[r as int] is Some
            &&& forall|i: int| 0 <= i < r ==> (#[trigger] thermal@[i]) is None
        },
        r == -1 <==> none_thermal(thermal@, thermal@.len() as int),
        r != -1 ==> none_thermal(thermal@, r as int),
{
    let mut i: usize = 0;
    while i < thermal.len()
        invariant
            i <= thermal@.len(),
            thermal@.len() <= i32::MAX,
            forall|k: int| 0 <= k < i ==> (#[trigger] thermal@[k]) is None,
        decreases thermal@.len() - i,
    {
        if thermal[i].is_some() {
            return i as i32;
        }
        i += 1;
    }
    -1
}

/// With a GPU, the rules send a case to it exactly where it scatters thermally or
/// its work reaches the threshold, whatever else it holds; without one they send
/// none.
pub proof fn law_work_decides_the_route(
    has_thermal: bool,
    work: u64,
    has_lattice: bool,
    n_materials: usize,
    has_gpu: bool,
    r: BackendUsed,
)
    requires
        call_ensures(auto_pick, (has_thermal, work, has_lattice, n_materials, has_gpu), r),
    ensures
        r != BackendUsed::CpuVramDowngrade,
        !has_gpu ==> r == BackendUsed::Cpu,
        has_gpu && has_thermal ==> r == BackendUsed::Cuda,
        has_gpu && work >= TINY_WORK_THRESHOLD ==> r == BackendUsed::Cuda,
        !has_thermal && work < TINY_WORK_THRESHOLD ==> r == BackendUsed::Cpu,
{
}

/// What a case asks for is heeded unless the sweep chooses; the GPU is given to
/// whoever demands it where there is one, and where nobody chooses the work of the
/// case decides: thermal scattering, or particles times batches at the threshold or
/// above, go to the GPU, anything smaller to the CPU.
pub proof fn law_case_runs_where_it_is_asked_to(
    spec: &CaseSpec,
    selection: RunnerSelection,
    has_gpu: bool,
    r: BackendUsed,
)
    requires
        call_ensures(pick_backend, (spec, selection, has_gpu), r),
    ensures
        ({
            let cpu = selection == RunnerSelection::Cpu || (selection == RunnerSelection::Auto && spec.runner
                == RunnerHint::Cpu);
            let gpu = selection == RunnerSelection::Gpu || (selection == RunnerSelection::Auto && spec.runner
                == RunnerHint::Gpu);
            let thermal = exists|i: int|
                0 <= i < spec.scene.materials@.len() && (#[trigger] spec.scene.materials@[i]).thermal_files@.len() > 0;
            let work = spec.config.particles_per_batch * spec.config.batches;
            &&& cpu ==> r == BackendUsed::Cpu
            &&& gpu && has_gpu ==> r == BackendUsed::Cuda
            &&& gpu && !has_gpu ==> r == BackendUsed::CpuVramDowngrade
            &&& !cpu && !gpu && !has_gpu ==> r == BackendUsed::Cpu
            &&& !cpu && !gpu && has_gpu ==> (r == BackendUsed::Cuda <==> thermal || work >= TINY_WORK_THRESHOLD)
            &&& !cpu && !gpu && r != BackendUsed::Cuda ==> r == BackendUsed::Cpu
        }),
        TINY_WORK_THRESHOLD == 10_000_000,
{
}

/// Of two cases that differ in work alone, the larger one is never kept off the GPU
/// that the smaller one is given.
pub proof fn law_more_work_keeps_the_gpu(
    has_thermal: bool,
    small: u64,
    large: u64,
    has_lattice: bool,
    n_materials: usize,
    has_gpu: bool,
    a: BackendUsed,
    b: BackendUsed,
)
    requires
        call_ensures(auto_pick, (has_thermal, small, has_lattice, n_materials, has_gpu), a),
        call_ensures(auto_pick, (has_thermal, large, has_lattice, n_materials, has_gpu), b),
        small <= large,
        a == BackendUsed::Cuda,
    ensures
        b == BackendUsed::Cuda,
{
}

/// The cases of a sweep are the JSON files of its directory whose stem holds the
/// filter, each as often as it was listed, in the order of their names.
pub proof fn law_sweep_runs_the_cases_asked_for(
    files: Vec<CaseFile>,
    filter: &Option<String>,
    r: Vec<CaseFile>,
    f: CaseFile,
    i: int,
    j: int,
)
    requires
        call_ensures(list_case_files, (files, filter), r),
    ensures
        r@.contains(f) <==> files@.contains(f) && f.extension is Some && f.extension->0@ == "json"@ && (filter is Some
            ==> f.stem is Some && occurs_in(f.stem->0@, filter->0@)),
        0 <= i < j < r@.len() ==> !bytes_before(r@[j].name@, r@[i].name@),
        r@.len() <= files@.len(),
{
    broadcast use vstd::seq_lib::group_filter_ensures;

    let p = |g: CaseFile| is_selected(g, text_of(*filter));
    let kept = files@.filter(p);
    assert(is_selection(r@, files@, text_of(*filter)));
    lemma_same_members(r@, kept, f);
    lemma_same_length(r@, kept);
    if kept.contains(f) {
        let k = choose|k: int| 0 <= k < kept.len() && kept[k] == f;
        assert(p(kept[k]));
        files@.lemma_filter_contains_rev(p, f);
    }
    if files@.contains(f) && p(f) {
        let k = choose|k: int| 0 <= k < files@.len() && files@[k] == f;
        assert(p(files@[k]));
    }
    if 0 <= i < j < r@.len() {
        assert(in_name_order(r@));
    }
}

proof fn lemma_same_members(a: Seq<CaseFile>, b: Seq<CaseFile>, f: CaseFile)
    requires
        a.to_multiset() == b.to_multiset(),
    ensures
        a.contains(f) <==> b.contains(f),
{
    broadcast use vstd::seq_lib::group_to_multiset_ensures;

    assert(a.contains(f) <==> a.to_multiset().count(f) > 0);
    assert(b.contains(f) <==> b.to_multiset().count(f) > 0);
}

proof fn lemma_same_length(a: Seq<CaseFile>, b: Seq<CaseFile>)
    requires
        a.to_multiset() == b.to_multiset(),
    ensures
        a.len() == b.len(),
{
    broadcast use vstd::seq_lib::group_to_multiset_ensures;

    assert(a.to_multiset().len() == a.len());
    assert(b.to_multiset().len() == b.len());
}

/// A sweep that is resumed over a result table leaves out the cases whose stem is in
/// the table and no others; any other sweep runs every case that was selected. A
/// selection of none is refused, and so is a directory that cannot be read.
pub proof fn law_resumed_sweep_leaves_out_completed_cases(
    listing: Option<Vec<CaseFile>>,
    request: SweepRequest,
    r: Result<Pipeline, PipelineError>,
    f: CaseFile,
)
    requires
        call_ensures(Pipeline::start, (listing, request), r),
        f.stem is Some,
    ensures
        listing is None ==> r is Err && r->Err_0 is BenchDirUnreadable,
        r matches Err(PipelineError::NoCases(_)) ==> listing is Some && forall|g: CaseFile|
            !(#[trigger] listing->0@.contains(g) && is_selected(g, text_of(request.filter))),
        r matches Ok(p) ==> {
            let wanted = listing->0@.contains(f) && f.extension is Some && f.extension->0@ == "json"@ && (
            request.filter is Some ==> occurs_in(f.stem->0@, request.filter->0@));
            let over = request.resume && request.has_csv && request.completed is Some;
            &&& listing is Some
            &&& p.files@.contains(f) <==> wanted && !(over && exists|k: int|
                0 <= k < request.completed->0@.len() && (#[trigger] request.completed->0@[k])@ == f.stem->0@)
            &&& p.next == 0 && !p.stopped && p.state.results@.len() == 0
        },
{
    broadcast use vstd::seq_lib::group_filter_ensures;

    if listing is Some {
        let filter = text_of(request.filter);
        let selection = choose|selection: Seq<CaseFile>| #[trigger]
            is_selection(selection, listing->0@, filter) && {
                if selection.len() == 0 {
                    &&& r is Err
                    &&& r->Err_0 is NoCases
                    &&& r->Err_0->NoCases_0 == request.bench_dir
                } else {
                    &&& r is Ok
                    &&& remaining(selection, request).len() == 0 ==> request.resume && request.has_csv
                    &&& r->Ok_0.files@ == remaining(selection, request)
                    &&& r->Ok_0.next == 0
                    &&& !r->Ok_0.stopped
                    &&& r->Ok_0.wf()
                    &&& r->Ok_0.state.results@.len() == 0
                }
            };
        let p = |g: CaseFile| is_selected(g, filter);
        let kept = listing->0@.filter(p);
        assert forall|g: CaseFile| selection.contains(g) <==> #[trigger] listing->0@.contains(g) && is_selected(
            g,
            filter,
        ) by {
            lemma_same_members(selection, kept, g);
            if kept.contains(g) {
                let k = choose|k: int| 0 <= k < kept.len() && kept[k] == g;
                assert(p(kept[k]));
                listing->0@.lemma_filter_contains_rev(p, g);
            }
            if listing->0@.contains(g) && p(g) {
                let k = choose|k: int| 0 <= k < listing->0@.len() && listing->0@[k] == g;
                assert(p(listing->0@[k]));
            }
        }
        if let Err(_) = r {
            assert(selection.len() == 0);
            assert forall|g: CaseFile| !(#[trigger] listing->0@.contains(g) && is_selected(g, filter)) by {
                assert(!selection.contains(g));
            }
        }
        if r is Ok && request.resume && request.has_csv && request.completed is Some {
            let done = request.completed->0@;
            let q = |g: CaseFile| !lists(request.completed->0@, resume_id(g));
            let left = selection.filter(q);
            assert(left == remaining(selection, request));
            assert(q(f) == !lists(done, f.stem->0@));
            if left.contains(f) {
                let k = choose|k: int| 0 <= k < left.len() && left[k] == f;
                assert(q(left[k]));
                selection.lemma_filter_contains_rev(q, f);
            }
            if selection.contains(f) && q(f) {
                let k = choose|k: int| 0 <= k < selection.len() && selection[k] == f;
                assert(q(selection[k]));
            }
            assert(lists(done, f.stem->0@) <==> exists|k: int| 0 <= k < done.len() && (#[trigger] done[k])@ == f.stem->0@);
        }
        assert(selection.contains(f) <==> listing->0@.contains(f) && is_selected(f, filter));
        if let Ok(sweep) = r {
            let over = request.resume && request.has_csv && request.completed is Some;
            assert(sweep.files@.contains(f) <==> selection.contains(f) && !(over && lists(
                request.completed->0@,
                f.stem->0@,
            )));
            assert(over ==> (lists(request.completed->0@, f.stem->0@) <==> exists|k: int|
                0 <= k < request.completed->0@.len() && (#[trigger] request.completed->0@[k])@ == f.stem->0@));
        }
    }
}

/// A sweep starts its files one by one, each under the next number, until all are
/// started or the stop file is seen; after that nothing starts.
pub proof fn law_next_case_starts_under_the_next_number(p: &mut Pipeline, stop_present: bool, r: SweepStep)
    requires
        call_ensures(Pipeline::next_step, (p, stop_present), r),
        old(p).wf(),
    ensures
        final(p).files@ == old(p).files@ && final(p).state == old(p).state,
        !old(p).stopped && !stop_present && old(p).next < old(p).files@.len() ==> r == (SweepStep::Load {
            index: old(p).next,
            seq: (old(p).next + 1) as usize,
            total: old(p).files@.len() as usize,
        }) && final(p).next == old(p).next + 1 && !final(p).stopped,
        !old(p).stopped && stop_present && old(p).next < old(p).files@.len() ==> r == (SweepStep::Stopped {
            done: old(p).next,
            total: old(p).files@.len() as usize,
        }) && final(p).stopped && final(p).next == old(p).next,
        old(p).stopped || old(p).next == old(p).files@.len() ==> r == SweepStep::Finished && final(p).next == old(p).next && final(p).stopped == old(p).stopped,
{
    assert(old(p).files.len() == old(p).files@.len());
}

/// The place of a case: the path and the stem of its file, its number from one on, and
/// the number of cases. A case that could not be loaded carries it, with its message
/// and no factor.
pub proof fn law_failed_load_keeps_its_place(p: &Pipeline, index: usize, place: CasePlace, message: String, r: ExecutionResult)
    requires
        call_ensures(Pipeline::place, (p, index), place),
        call_ensures(load_failure, (&place, message), r),
        index < p.files@.len(),
    ensures
        place.path@ == p.files@[index as int].path@ && place.seq == index + 1 && place.total == p.files@.len(),
        p.files@[index as int].stem matches Some(s) ==> r.summary.case_id@ == s@,
        r.summary.seq == index + 1 && r.summary.total == p.files@.len(),
        r.summary.source_path@ == p.files@[index as int].path@,
        r.error == Some(message) && r.k_calc.nan() && r.summary.k_ref.nan() && r.n_histories == 0,
{
}

/// A result is taken in exactly where its case was started, has the stem and the path
/// of the file at its number, and has no result yet.
pub proof fn law_results_are_taken_in_once(
    p: &mut Pipeline,
    result: ExecutionResult,
    deviation: &Deviation,
    r: bool,
)
    requires
        call_ensures(Pipeline::record, (p, result, deviation), r),
        result.summary.seq >= 1,
        result.summary.seq <= old(p).files@.len(),
        old(p).files@[result.summary.seq - 1].stem is Some,
    ensures
        ({
            let s = result.summary;
            let file = old(p).files@[s.seq - 1];
            r <==> s.seq <= old(p).next && s.total == old(p).files@.len() && s.case_id@ == file.stem->0@
                && s.source_path@ == file.path@ && !(exists|i: int|
                0 <= i < old(p).state.results@.len() && (#[trigger] old(p).state.results@[i]).summary.seq == s.seq)
        }),
        r ==> final(p).state.results@ == old(p).state.results@.push(result),
        !r ==> *final(p) == *old(p),
        final(p).next == old(p).next && final(p).files@ == old(p).files@,
{
    assert(has_number(old(p).state.results@, result.summary.seq as int) <==> exists|i: int|
        0 <= i < old(p).state.results@.len() && (#[trigger] old(p).state.results@[i]).summary.seq
            == result.summary.seq);
}

/// What a case measured becomes its result as it is, under the identity of the case
/// and without an error.
pub proof fn law_measured_case_has_no_error(
    spec: &CaseSpec,
    measured: Measured,
    n: u64,
    backend: BackendUsed,
    r: ExecutionResult,
)
    requires
        call_ensures(summarise, (spec, measured, n, backend), r),
    ensures
        r.error is None && r.n_histories == n && r.backend == backend,
        r.k_calc == measured.k_calc && r.k_sigma == measured.k_sigma,
        r.k_track == measured.k_track && r.k_track_sigma == measured.k_track_sigma,
        r.runtime_s == measured.runtime_s && r.load_s == measured.load_s,
        r.summary.case_id@ == spec.case_id@ && r.summary.seq == spec.seq && r.summary.total == spec.total,
        r.summary.k_ref == spec.k_ref && r.summary.sigma_exp == spec.sigma_exp,
{
}

/// One more batch adds its factor, and its particles, where it is active, and its track
/// estimate where that is positive too; an inactive one adds nothing.
pub proof fn law_active_batch_adds_its_samples(
    batches: &Vec<BatchResult>,
    longer: &Vec<BatchResult>,
    b: BatchResult,
    particles: u32,
    s: ActiveSamples,
    t: ActiveSamples,
)
    requires
        call_ensures(active_samples, (batches, particles), s),
        call_ensures(active_samples, (longer, particles), t),
        longer@ == batches@.push(b),
    ensures
        t.k@ == if b.active {
            s.k@.push(b.k_eff)
        } else {
            s.k@
        },
        t.track@ == if b.active && !b.k_track.nan() && b.k_track.scaled() > 0 {
            s.track@.push(b.k_track)
        } else {
            s.track@
        },
        t.n_histories - s.n_histories == if b.active {
            particles as int
        } else {
            0
        },
        batches@.len() == 0 ==> s.k@.len() == 0 && s.track@.len() == 0 && s.n_histories == 0,
{
    reveal(Seq::filter);
    let p = |x: BatchResult| x.active;
    let q = |x: BatchResult| has_track(x);
    let k = |x: BatchResult| x.k_eff;
    let track = |x: BatchResult| x.k_track;
    assert(longer@.drop_last() =~= batches@);
    assert(longer@.last() == b);
    if b.active {
        assert(longer@.filter(p) == batches@.filter(p).push(b));
        assert(longer@.filter(p).map_values(k) =~= batches@.filter(p).map_values(k).push(b.k_eff));
        let n = batches@.filter(p).len() as int;
        assert((n + 1) * particles == n * particles + particles) by (nonlinear_arith);
    } else {
        assert(longer@.filter(p) == batches@.filter(p));
    }
    if has_track(b) {
        assert(longer@.filter(q) == batches@.filter(q).push(b));
        assert(longer@.filter(q).map_values(track) =~= batches@.filter(q).map_values(track).push(b.k_track));
    } else {
        assert(longer@.filter(q) == batches@.filter(q));
    }
    if batches@.len() == 0 {
        assert(batches@.filter(p).len() == 0 && batches@.filter(q).len() == 0);
        assert(0 * particles == 0);
    }
}

/// A case goes to the queue of the GPU exactly where it was picked for it; it is
/// copied there where the device can take it, and runs there where everything it needs
/// is there, else on the CPU with a mark.
pub proof fn law_gpu_cases_run_where_they_can(
    picked: BackendUsed,
    queue: Backend,
    context: bool,
    transfer: bool,
    copied: bool,
    data: bool,
    compute: bool,
    ran: BackendUsed,
)
    requires
        call_ensures(route, (picked,), queue),
        call_ensures(uploads, (picked, context, transfer), copied),
        call_ensures(gpu_launch, (context, data, compute), ran),
    ensures
        queue == Backend::Cuda <==> picked == BackendUsed::Cuda,
        copied <==> picked == BackendUsed::Cuda && context && transfer,
        ran == BackendUsed::Cuda <==> context && data && compute,
        ran != BackendUsed::Cuda ==> ran == BackendUsed::CpuVramDowngrade,
{
}

/// A sweep's choice of a runner is the hint for its cases.
pub proof fn law_hint_is_the_choice_of_the_sweep(sel: RunnerSelection, r: RunnerHint)
    requires
        call_ensures(run_hint, (sel,), r),
    ensures
        r == RunnerHint::Cpu <==> sel == RunnerSelection::Cpu,
        r == RunnerHint::Gpu <==> sel == RunnerSelection::Gpu,
        r == RunnerHint::Auto <==> sel == RunnerSelection::Auto,
{
}

/// Queues hold at least two cases, and twice as many wait before loading and after
/// running as are ready to run.
pub proof fn law_queues_fit_the_slots(n: usize, r: QueueSizes)
    requires
        call_ensures(queue_sizes, (n,), r),
    ensures
        r.bundle >= 2 && r.bundle >= n && (r.bundle == n || r.bundle == 2),
        r.load == r.bundle + r.bundle && r.result == r.load,
{
}

/// A failure on the device is an error of the case that failed, with the cause last.
pub proof fn law_device_failure_is_an_error_of_its_case(spec: &CaseSpec, cause: &str, run: ExecutionResult, wait: ExecutionResult)
    requires
        call_ensures(device_failure, (spec, cause), run),
        call_ensures(wait_failure, (spec, cause), wait),
    ensures
        run.summary.case_id@ == spec.case_id@ && run.summary.seq == spec.seq && run.summary.k_ref == spec.k_ref,
        wait.summary.case_id@ == spec.case_id@ && wait.summary.seq == spec.seq && wait.summary.k_ref == spec.k_ref,
        run.error is Some && wait.error is Some,
        run.k_calc.nan() && wait.k_calc.nan(),
        run.error->0@ == "[gpu-exec] "@ + spec.case_id@ + ": "@ + cause@,
        wait.error->0@ == "stream_compute.wait(upload_done): "@ + cause@,
{
}

/// The first nuclide with thermal data is the one that is told, and minus one where none
/// has any.
pub proof fn law_first_thermal_nuclide_is_told(thermal: &Vec<Option<Arc<ThermalScatteringData>>>, r: i32, k: int)
    requires
        call_ensures(first_thermal_nuclide, (thermal,), r),
        0 <= k < thermal@.len(),
    ensures
        thermal@[k] is Some ==> 0 <= r <= k && thermal@[r as int] is Some,
        r == -1 ==> thermal@[k] is None,
{
}

} // verus!
