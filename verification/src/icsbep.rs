//! Running one benchmark case on its own.

use crate::binary64::Binary64;
use crate::case_loader::{
    choose_reference, fields_of, is_reference, read_fields, CaseFields, Reference, ReferenceSource,
};
use crate::data_loader::{check_nuclide_limit, first_oversized, within_limit, DataLoadError};
use crate::eigen_plan::{roll_up, totals_fit, tally_of, EigenBatch, EigenTally};
use crate::json::{json_document, json_text, number_at, parse_json, present_at, text_at, JsonEntry};
use crate::materials::ResolvedMaterials;
use crate::executor::ExecutionResult;
use crate::result_processor::{is_bound, law_pass_means_within_the_bound, within_bound, Deviation, Verdict};
use crate::scene::Runner;
use vstd::prelude::*;

verus! {

/// Why a single case could not be run.
#[derive(Debug)]
pub enum IcsbepError {
    CaseNotFound(String),
    DataDirNotFound(String),
    /// The case file is not JSON.
    Parse(serde_json::Error),
    /// The file holds no scene; it names the program that runs the case.
    NoScene { binary: String },
    MissingKRef,
    MissingSigma,
    /// The nuclides of the case cannot be bound, or a material has too many.
    Load(DataLoadError),
    /// The engine did not run the case, with the message.
    Engine(String),
    /// The engine panicked, with the message.
    Panicked(String),
    /// No batch was active.
    NoActiveBatches,
}

/// What a case is called: its file's name without the extension.
pub fn case_label(stem: Option<String>) -> (r: String)
    ensures
        r@ == match stem {
            Some(s) => s@,
            None => "?"@,
        },
{
    match stem {
        Some(s) => s,
        None => "?".to_owned(),
    }
}

/// Looks whether the case file and the data directory are there, in that order.
pub fn preflight(case_path: String, case_exists: bool, data_dir: String, data_exists: bool) -> (r: Result<
    (),
    IcsbepError,
>)
    ensures
        r is Ok <==> case_exists && data_exists,
        r matches Err(e) ==> if !case_exists {
            e == IcsbepError::CaseNotFound(case_path)
        } else {
            e == IcsbepError::DataDirNotFound(data_dir)
        },
{
    if !case_exists {
        return Err(IcsbepError::CaseNotFound(case_path));
    }
    if !data_exists {
        return Err(IcsbepError::DataDirNotFound(data_dir));
    }
    Ok(())
}

/// What a case is graded against, with the handbook values beside it.
#[derive(Clone, Copy, Debug, PartialEq, Eq, Structural)]
pub struct IcsbepCase {
    pub handbook_k: Binary64,
    pub handbook_sigma: Binary64,
    pub reference: Reference,
}

/// What the fields of a case file come to. A file without a scene names the
/// program that runs it, or none.
pub open spec fn is_icsbep_outcome(
    r: Result<IcsbepCase, IcsbepError>,
    fields: CaseFields,
    binary: Option<Seq<char>>,
) -> bool {
    match r {
        Ok(c) => {
            &&& fields.has_scene
            &&& fields.k_eff_reference == Some(c.handbook_k)
            &&& fields.k_eff_sigma == Some(c.handbook_sigma)
            &&& is_reference(
                c.reference,
                c.handbook_k,
                c.handbook_sigma,
                fields.openmc_k_eff,
                fields.openmc_k_sigma_seeds,
            )
        },
        Err(e) => if !fields.has_scene {
            &&& e matches IcsbepError::NoScene { binary: b }
            &&& b@ == match binary {
                Some(x) => x,
                None => "<unknown>"@,
            }
        } else if fields.k_eff_reference is None {
            e is MissingKRef
        } else {
            fields.k_eff_sigma is None && e is MissingSigma
        },
    }
}

/// Makes a case of the fields of its file.
pub fn icsbep_from_fields(fields: &CaseFields, binary: Option<String>) -> (r: Result<IcsbepCase, IcsbepError>)
    ensures
        is_icsbep_outcome(r, *fields, crate::pipeline::text_of(binary)),
{
    if !fields.has_scene {
        let name = match binary {
            Some(b) => b,
            None => "<unknown>".to_owned(),
        };
        return Err(IcsbepError::NoScene { binary: name });
    }
    match fields.k_eff_reference {
        None => Err(IcsbepError::MissingKRef),
        Some(handbook_k) => match fields.k_eff_sigma {
            None => Err(IcsbepError::MissingSigma),
            Some(handbook_sigma) => Ok(
                IcsbepCase {
                    handbook_k,
                    handbook_sigma,
                    reference: choose_reference(
                        handbook_k,
                        handbook_sigma,
                        fields.openmc_k_eff,
                        fields.openmc_k_sigma_seeds,
                    ),
                },
            ),
        },
    }
}

/// Reads a case from the text of its file.
pub fn read_icsbep_case(text: &str) -> (r: Result<IcsbepCase, IcsbepError>)
    ensures
        match json_document(text@) {
            None => r is Err && r->Err_0 is Parse,
            Some(contents) => is_icsbep_outcome(r, fields_of(contents), text_at(contents, "/runner/binary"@)),
        },
{
    match parse_json(text) {
        Err(cause) => Err(IcsbepError::Parse(cause)),
        Ok(value) => {
            let fields = read_fields(&value);
            let binary = json_text(&value, "/runner/binary");
            icsbep_from_fields(&fields, binary)
        },
    }
}

/// The words for where a reference comes from.
pub fn reference_words(source: ReferenceSource) -> (r: &'static str)
    ensures
        r@ == match source {
            ReferenceSource::OpenMc => "local_validation (OpenMC on this scene)"@,
            ReferenceSource::Handbook => "k_eff_reference (ICSBEP handbook)"@,
        },
{
    match source {
        ReferenceSource::OpenMc => "local_validation (OpenMC on this scene)",
        ReferenceSource::Handbook => "k_eff_reference (ICSBEP handbook)",
    }
}

/// Takes the materials of a case when its nuclides are bound: a failure is passed
/// on, and a material with more nuclides than the engine takes is refused.
pub fn accept_materials(resolved: Result<ResolvedMaterials, String>, max_allowed: usize) -> (r: Result<
    ResolvedMaterials,
    IcsbepError,
>)
    ensures
        r is Ok <==> resolved is Ok && within_limit(resolved->Ok_0.materials@, max_allowed),
        r is Ok ==> r->Ok_0 == resolved->Ok_0,
        r is Err ==> r->Err_0 is Load,
        r is Err ==> match resolved {
            Err(message) => r->Err_0->Load_0 == DataLoadError::Resolve(message),
            Ok(data) => {
                &&& r->Err_0->Load_0 matches DataLoadError::TooManyNuclides {
                    material_idx,
                    material_name,
                    n_nuclides,
                    max_allowed: limit,
                }
                &&& first_oversized(data.materials@, max_allowed, material_idx as int)
                &&& material_name@ == data.materials@[material_idx as int].name@
                &&& n_nuclides == data.materials@[material_idx as int].nuclides@.len()
                &&& limit == max_allowed
            },
        },
{
    match resolved {
        Err(message) => Err(IcsbepError::Load(DataLoadError::Resolve(message))),
        Ok(data) => match check_nuclide_limit(&data.materials, max_allowed) {
            Err(e) => Err(IcsbepError::Load(e)),
            Ok(()) => Ok(data),
        },
    }
}

/// The text of a panic, where it has one.
pub fn panic_to_string(payload: Option<String>) -> (r: String)
    ensures
        r@ == match payload {
            Some(s) => s@,
            None => "<non-string panic payload>"@,
        },
{
    match payload {
        Some(s) => s,
        None => "<non-string panic payload>".to_owned(),
    }
}

/// How the engine's run of a case ended.
pub enum Dispatch<T> {
    Finished(T),
    Failed(String),
    /// It panicked, with the text of the panic where it has one.
    Panicked(Option<String>),
}

/// The message of a panic in the engine.
pub open spec fn panic_text(runner: Runner, payload: Option<Seq<char>>) -> Seq<char> {
    "engine panic during "@ + (match runner {
        Runner::Cpu => "CPU"@,
        Runner::GpuCuda => "GPU"@,
    }) + " dispatch: "@ + (match payload {
        Some(s) => s,
        None => "<non-string panic payload>"@,
    })
}

/// Turns the end of a run into a result: a panic is an error like any other.
pub fn settle<T>(outcome: Dispatch<T>, runner: Runner) -> (r: Result<T, IcsbepError>)
    ensures
        match outcome {
            Dispatch::Finished(x) => r == Ok::<T, IcsbepError>(x),
            Dispatch::Failed(m) => r == Err::<T, IcsbepError>(IcsbepError::Engine(m)),
            Dispatch::Panicked(p) => {
                &&& r is Err
                &&& r->Err_0 is Panicked
                &&& r->Err_0->Panicked_0@ == panic_text(runner, crate::pipeline::text_of(p))
            },
        },
{
    match outcome {
        Dispatch::Finished(x) => Ok(x),
        Dispatch::Failed(m) => Err(IcsbepError::Engine(m)),
        Dispatch::Panicked(p) => {
            let mut msg = "engine panic during ".to_owned();
            match runner {
                Runner::Cpu => {
                    msg.append("CPU");
                },
                Runner::GpuCuda => {
                    msg.append("GPU");
                },
            }
            msg.append(" dispatch: ");
            let text = panic_to_string(p);
            msg.append(text.as_str());
            Err(IcsbepError::Panicked(msg))
        },
    }
}

/// Whether a case passes: its deviation lies within the larger of the floor and
/// the envelope.
pub fn passes(deviation: &Deviation) -> (r: bool)
    ensures
        r == within_bound(*deviation),
{
    let size = deviation.delta_pcm.abs();
    assert(size.bits == deviation.delta_pcm.unsigned() as u64);
    size.le(deviation.bound_pcm())
}

/// Sums up the batches of a case. A run without an active batch is an error.
pub fn sum_up(batches: &Vec<EigenBatch>, particles: u32) -> (r: Result<EigenTally, IcsbepError>)
    requires
        totals_fit(batches@, particles),
    ensures
        r is Err <==> forall|i: int| 0 <= i < batches@.len() ==> !(#[trigger] batches@[i]).active,
        r matches Err(e) ==> e is NoActiveBatches,
        r matches Ok(t) ==> tally_of(t, batches@, particles),
{
    match roll_up(batches, particles) {
        Ok(t) => Ok(t),
        Err(_) => Err(IcsbepError::NoActiveBatches),
    }
}

/// What the estimates of the active batches come to.
#[derive(Clone, Copy, Debug, PartialEq, Eq, Structural)]
pub struct Estimate {
    pub k_eff: Binary64,
    pub k_sigma: Binary64,
    /// The standard deviations of the result and of the reference together.
    pub sigma_combined: Binary64,
    pub deviation: Deviation,
    /// The deviation in combined standard deviations.
    pub sigma_ratio: Binary64,
}

/// The result of a case that ran on its own.
#[derive(Debug)]
pub struct IcsbepResult {
    pub case: String,
    pub reference: IcsbepCase,
    pub estimate: Estimate,
    pub bound_pcm: Binary64,
    pub pass_ok: bool,
    pub runner: Runner,
    pub total_collisions: u64,
    pub total_fissions: u64,
    pub total_leakage: u64,
    pub active_batches: usize,
    pub total_histories: u64,
}

/// Puts the result of a case together and grades it.
pub fn report(case: String, reference: IcsbepCase, runner: Runner, tally: &EigenTally, estimate: Estimate) -> (r:
    IcsbepResult)
    ensures
        r.case == case,
        r.reference == reference,
        r.estimate == estimate,
        r.runner == runner,
        is_bound(r.bound_pcm, estimate.deviation),
        r.pass_ok == within_bound(estimate.deviation),
        r.total_collisions == tally.total_collisions,
        r.total_fissions == tally.total_fissions,
        r.total_leakage == tally.total_leakage,
        r.active_batches == tally.active_k@.len(),
        r.total_histories == tally.total_histories,
{
    let bound_pcm: Binary64 = estimate.deviation.bound_pcm();
    let pass_ok: bool = passes(&estimate.deviation);
    IcsbepResult {
        case,
        reference,
        estimate,
        bound_pcm,
        pass_ok,
        runner,
        total_collisions: tally.total_collisions,
        total_fissions: tally.total_fissions,
        total_leakage: tally.total_leakage,
        active_batches: tally.active_k.len(),
        total_histories: tally.total_histories,
    }
}

/// A case that runs on its own passes exactly where a sweep would pass it, and
/// exactly where its deviation is at most the bound that its report states.
pub proof fn law_single_case_passes_as_in_a_sweep(
    deviation: &Deviation,
    passed: bool,
    result: &ExecutionResult,
    verdict: Verdict,
    bound: Binary64,
)
    requires
        call_ensures(passes, (deviation,), passed),
        call_ensures(Verdict::classify, (result, deviation), verdict),
        call_ensures(Deviation::bound_pcm, (deviation,), bound),
        result.error is None,
    ensures
        passed <==> verdict == Verdict::Pass,
        passed <==> !deviation.delta_pcm.nan() && -bound.scaled() <= deviation.delta_pcm.scaled() <= bound.scaled(),
{
    law_pass_means_within_the_bound(*deviation, bound);
}

/// A case that is read on its own has the reference that the same file has in a
/// sweep: that of OpenMC where the document records one, with the larger of the
/// spread beside it and the handbook uncertainty, else that of the handbook.
pub proof fn law_single_case_is_read_from_its_document(
    text: &str,
    contents: Map<Seq<char>, JsonEntry>,
    r: Result<IcsbepCase, IcsbepError>,
)
    requires
        call_ensures(read_icsbep_case, (text,), r),
        json_document(text@) == Some(contents),
    ensures
        r is Ok <==> present_at(contents, "/scene"@) && number_at(contents, "/benchmark/k_eff_reference"@) is Some
            && number_at(contents, "/benchmark/k_eff_sigma"@) is Some,
        !present_at(contents, "/scene"@) ==> r is Err && r->Err_0 is NoScene,
        r matches Err(IcsbepError::NoScene { binary }) ==> (text_at(contents, "/runner/binary"@) matches Some(b)
            ==> binary@ == b),
        r matches Err(IcsbepError::NoScene { binary }) ==> (text_at(contents, "/runner/binary"@) is None ==> binary@
            == "<unknown>"@),
        r matches Ok(c) ==> {
            let spread = number_at(contents, "/benchmark/local_validation/openmc_k_sigma_seeds"@);
            &&& Some(c.handbook_k) == number_at(contents, "/benchmark/k_eff_reference"@)
            &&& Some(c.handbook_sigma) == number_at(contents, "/benchmark/k_eff_sigma"@)
            &&& number_at(contents, "/benchmark/local_validation/openmc_k_eff"@) matches Some(k) ==> {
                &&& c.reference.source == ReferenceSource::OpenMc
                &&& c.reference.k_ref == k
                &&& spread is Some && !spread->0.nan() && !c.handbook_sigma.nan() ==> {
                    &&& spread->0.scaled() <= c.reference.sigma_exp.scaled()
                    &&& c.handbook_sigma.scaled() <= c.reference.sigma_exp.scaled()
                    &&& c.reference.sigma_exp == spread->0 || c.reference.sigma_exp == c.handbook_sigma
                }
            }
            &&& number_at(contents, "/benchmark/local_validation/openmc_k_eff"@) is None ==> {
                &&& c.reference.source == ReferenceSource::Handbook
                &&& c.reference.k_ref == c.handbook_k
                &&& c.reference.sigma_exp == c.handbook_sigma
            }
        },
{
}

/// A finished run is passed on as it is, a failed one with its message, and a panic is
/// an error of its own that says on which device it came.
pub proof fn law_end_of_a_run_is_passed_on(
    outcome: Dispatch<Vec<EigenBatch>>,
    runner: Runner,
    r: Result<Vec<EigenBatch>, IcsbepError>,
)
    requires
        call_ensures(settle::<Vec<EigenBatch>>, (outcome, runner), r),
    ensures
        outcome matches Dispatch::Finished(x) ==> r == Ok::<Vec<EigenBatch>, IcsbepError>(x),
        outcome matches Dispatch::Failed(m) ==> r == Err::<Vec<EigenBatch>, IcsbepError>(IcsbepError::Engine(m)),
        outcome matches Dispatch::Panicked(p) ==> r is Err && r->Err_0 is Panicked,
        outcome matches Dispatch::Panicked(Some(p)) ==> r->Err_0->Panicked_0@ == "engine panic during "@ + (if runner
            == Runner::Cpu {
            "CPU"@
        } else {
            "GPU"@
        }) + " dispatch: "@ + p@,
{
}

/// A case is run only where its file and its data are there, and the file is missed
/// first; its materials are taken exactly where they were bound and none has more
/// nuclides than the limit.
pub proof fn law_case_needs_its_files_and_materials(
    case: String,
    case_exists: bool,
    data: String,
    data_exists: bool,
    ready: Result<(), IcsbepError>,
    resolved: Result<ResolvedMaterials, String>,
    limit: usize,
    taken: Result<ResolvedMaterials, IcsbepError>,
)
    requires
        call_ensures(preflight, (case, case_exists, data, data_exists), ready),
        call_ensures(accept_materials, (resolved, limit), taken),
    ensures
        ready is Ok <==> case_exists && data_exists,
        !case_exists ==> ready == Err::<(), IcsbepError>(IcsbepError::CaseNotFound(case)),
        case_exists && !data_exists ==> ready == Err::<(), IcsbepError>(IcsbepError::DataDirNotFound(data)),
        taken is Ok <==> resolved is Ok && forall|i: int|
            0 <= i < resolved->Ok_0.materials@.len() ==> (#[trigger] resolved->Ok_0.materials@[i]).nuclides@.len()
                <= limit,
        taken is Ok ==> taken->Ok_0 == resolved->Ok_0,
{
    if resolved is Ok {
        assert(within_limit(resolved->Ok_0.materials@, limit) <==> forall|i: int|
            0 <= i < resolved->Ok_0.materials@.len() ==> (#[trigger] resolved->Ok_0.materials@[i]).nuclides@.len()
                <= limit);
    }
}

/// The report of a case keeps its name, its reference, its estimates and the totals of
/// its run, and says that it passed exactly where the deviation is at most the bound
/// that the report states.
pub proof fn law_report_passes_within_its_bound(
    case: String,
    reference: IcsbepCase,
    runner: Runner,
    tally: &EigenTally,
    estimate: Estimate,
    r: IcsbepResult,
)
    requires
        call_ensures(report, (case, reference, runner, tally, estimate), r),
    ensures
        ({
            let d = estimate.deviation.delta_pcm;
            r.pass_ok <==> !d.nan() && -r.bound_pcm.scaled() <= d.scaled() <= r.bound_pcm.scaled()
        }),
        r.case == case && r.reference == reference && r.estimate == estimate && r.runner == runner,
        r.total_collisions == tally.total_collisions && r.total_fissions == tally.total_fissions,
        r.total_leakage == tally.total_leakage && r.total_histories == tally.total_histories,
        r.active_batches == tally.active_k@.len(),
{
    law_pass_means_within_the_bound(estimate.deviation, r.bound_pcm);
}

/// A case is called by the stem of its file; the words for a reference tell OpenMC from
/// the handbook; a run without an active batch is refused.
pub proof fn law_names_and_words_of_a_case(
    stem: Option<String>,
    label: String,
    openmc: &'static str,
    handbook: &'static str,
    batches: &Vec<EigenBatch>,
    particles: u32,
    r: Result<EigenTally, IcsbepError>,
    rolled: Result<EigenTally, crate::eigen_plan::EigenError>,
)
    requires
        call_ensures(case_label, (stem,), label),
        call_ensures(reference_words, (ReferenceSource::OpenMc,), openmc),
        call_ensures(reference_words, (ReferenceSource::Handbook,), handbook),
        call_ensures(sum_up, (batches, particles), r),
        call_ensures(roll_up, (batches, particles), rolled),
    ensures
        stem matches Some(s) ==> label@ == s@,
        stem is None ==> label@ == "?"@,
        openmc@ == "local_validation (OpenMC on this scene)"@,
        handbook@ == "k_eff_reference (ICSBEP handbook)"@,
        r is Ok && rolled is Ok ==> r->Ok_0.active_k@ == rolled->Ok_0.active_k@ && r->Ok_0.total_histories
            == rolled->Ok_0.total_histories && r->Ok_0.total_leakage == rolled->Ok_0.total_leakage,
{
}

} // verus!
