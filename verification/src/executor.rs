//! Outcomes of running a case.

use crate::binary64::Binary64;
use crate::case_loader::{CaseSpec, ReferenceSource};
use crate::text::{append_decimal, decimal};
use vstd::prelude::*;

verus! {

/// A point on the machine's monotonic clock.
#[verifier::external_type_specification]
#[verifier::external_body]
pub struct ExInstant(std::time::Instant);

/// The identity of a case and what it is graded against.
#[derive(Clone, Debug)]
pub struct CaseSummary {
    pub case_id: String,
    pub seq: usize,
    pub total: usize,
    pub k_ref: Binary64,
    pub sigma_exp: Binary64,
    pub source: ReferenceSource,
    pub source_path: String,
}

/// `summary` is the identity of `spec`.
pub open spec fn summarises(summary: CaseSummary, spec: CaseSpec) -> bool {
    &&& summary.case_id@ == spec.case_id@
    &&& summary.seq == spec.seq
    &&& summary.total == spec.total
    &&& summary.k_ref == spec.k_ref
    &&& summary.sigma_exp == spec.sigma_exp
    &&& summary.source == spec.source
    &&& summary.source_path@ == spec.source_path@
}

impl CaseSummary {
    /// The identity of a case.
    pub fn from_spec(spec: &CaseSpec) -> (r: Self)
        ensures
            summarises(r, *spec),
    {
        CaseSummary {
            case_id: spec.case_id.clone(),
            seq: spec.seq,
            total: spec.total,
            k_ref: spec.k_ref,
            sigma_exp: spec.sigma_exp,
            source: spec.source,
            source_path: spec.source_path.clone(),
        }
    }
}

/// Which executor ran a case.
#[derive(Clone, Copy, Debug, PartialEq, Eq, Structural)]
pub enum BackendUsed {
    Cpu,
    Cuda,
    /// The GPU was asked for and could not be had.
    CpuVramDowngrade,
}

/// What running a case came to.
#[derive(Clone, Debug)]
pub struct ExecutionResult {
    pub k_calc: Binary64,
    pub k_sigma: Binary64,
    /// The track-length estimate, reported beside the collision estimate.
    pub k_track: Binary64,
    pub k_track_sigma: Binary64,
    pub runtime_s: Binary64,
    pub load_s: Binary64,
    pub n_histories: u64,
    pub backend: BackendUsed,
    pub summary: CaseSummary,
    pub error: Option<String>,
}

/// The text of a case that ran out of time.
pub open spec fn timeout_text(secs: u64) -> Seq<char> {
    "timeout after "@ + decimal(secs as int) + "s"@
}

impl ExecutionResult {
    /// The result of a case that did not run to its end.
    pub fn error(summary: CaseSummary, msg: String) -> (r: Self)
        ensures
            r.summary == summary,
            r.error == Some(msg),
            r.k_calc.nan() && r.k_sigma.nan() && r.k_track.nan() && r.k_track_sigma.nan(),
            r.runtime_s.bits == 0 && r.load_s.bits == 0,
            r.n_histories == 0,
            r.backend == BackendUsed::Cpu,
    {
        ExecutionResult {
            k_calc: Binary64::quiet_nan(),
            k_sigma: Binary64::quiet_nan(),
            k_track: Binary64::quiet_nan(),
            k_track_sigma: Binary64::quiet_nan(),
            runtime_s: Binary64::zero(),
            load_s: Binary64::zero(),
            n_histories: 0,
            backend: BackendUsed::Cpu,
            summary,
            error: Some(msg),
        }
    }

    /// What a watched case comes to: its own result where the worker finished, an
    /// error that names the limit where it did not.
    pub fn watched(outcome: Option<ExecutionResult>, summary: CaseSummary, timeout_s: u64) -> (r: Self)
        ensures
            outcome matches Some(x) ==> r == x,
            outcome is None ==> {
                &&& r.summary == summary
                &&& r.error is Some
                &&& r.error->0@ == timeout_text(timeout_s)
                &&& r.k_calc.nan() && r.k_sigma.nan() && r.k_track.nan() && r.k_track_sigma.nan()
                &&& r.runtime_s.bits == 0 && r.load_s.bits == 0
                &&& r.n_histories == 0
                &&& r.backend == BackendUsed::Cpu
            },
    {
        match outcome {
            Some(x) => x,
            None => {
                let mut msg = "timeout after ".to_owned();
                append_decimal(&mut msg, timeout_s);
                msg.append("s");
                ExecutionResult::error(summary, msg)
            },
        }
    }
}

/// `std::time::Instant::now`. Nothing is claimed of the time.
#[verifier::external_body]
fn clock_now() -> (r: std::time::Instant) {
    std::time::Instant::now()
}

/// `std::time::Instant::elapsed`. Nothing is claimed of the time.
#[verifier::external_body]
fn elapsed_since(started: &std::time::Instant) -> (r: std::time::Duration) {
    started.elapsed()
}

/// The whole seconds that `std::time::Duration::as_secs` gives.
pub uninterp spec fn seconds_of(d: std::time::Duration) -> u64;

/// `std::time::Duration::as_secs`. Claimed: the result depends on the duration
/// alone.
#[verifier::external_body]
fn whole_seconds(d: &std::time::Duration) -> (r: u64)
    ensures
        r == seconds_of(*d),
{
    d.as_secs()
}

/// When a case has to be done.
#[derive(Clone, Copy, Debug)]
pub struct CaseDeadline {
    pub started: std::time::Instant,
    pub timeout_s: u64,
}

impl CaseDeadline {
    /// A deadline `timeout_s` seconds from now.
    pub fn new(timeout_s: u64) -> (r: Self)
        ensures
            r.timeout_s == timeout_s,
    {
        CaseDeadline { started: clock_now(), timeout_s }
    }

    /// Whether the deadline lies behind after `elapsed_s` whole seconds.
    pub fn exceeded_after(&self, elapsed_s: u64) -> (r: bool)
        ensures
            r == (elapsed_s >= self.timeout_s),
    {
        elapsed_s >= self.timeout_s
    }

    /// Whether the deadline lies behind. A deadline of no seconds always does;
    /// otherwise the clock decides.
    pub fn exceeded(&self) -> (r: bool)
        ensures
            self.timeout_s == 0 ==> r,
    {
        let elapsed = elapsed_since(&self.started);
        self.exceeded_after(whole_seconds(&elapsed))
    }
}

/// A summary tells of its case what the case is called, where it stands in the sweep,
/// what it is graded against and where it came from.
pub proof fn law_summary_identifies_its_case(spec: &CaseSpec, r: CaseSummary)
    requires
        call_ensures(CaseSummary::from_spec, (spec,), r),
    ensures
        r.case_id@ == spec.case_id@ && r.seq == spec.seq && r.total == spec.total,
        r.k_ref == spec.k_ref && r.sigma_exp == spec.sigma_exp && r.source == spec.source,
        r.source_path@ == spec.source_path@,
{
}

/// A failed case has its message and no factor: every factor and spread is not a
/// number, and no history and no time is counted.
pub proof fn law_failed_case_has_no_factor(summary: CaseSummary, message: String, r: ExecutionResult)
    requires
        call_ensures(ExecutionResult::error, (summary, message), r),
    ensures
        r.error == Some(message) && r.summary == summary,
        r.k_calc.nan() && r.k_sigma.nan() && r.k_track.nan() && r.k_track_sigma.nan(),
        r.n_histories == 0 && r.runtime_s.scaled() == 0 && r.load_s.scaled() == 0,
        r.backend == BackendUsed::Cpu,
{
}

/// A case that came back in time is left as it is; one that did not is an error of
/// that case, which says so and for how long it was waited for.
pub proof fn law_late_case_is_an_error(
    outcome: Option<ExecutionResult>,
    summary: CaseSummary,
    timeout_s: u64,
    r: ExecutionResult,
)
    requires
        call_ensures(ExecutionResult::watched, (outcome, summary, timeout_s), r),
    ensures
        outcome matches Some(x) ==> r == x,
        outcome is None ==> r.summary == summary && r.error is Some && r.error->0@ == "timeout after "@ + decimal(
            timeout_s as int,
        ) + "s"@ && r.k_calc.nan() && r.n_histories == 0,
{
}

/// A deadline that was exceeded stays so, and is exceeded from its own seconds on.
pub proof fn law_deadline_stays_exceeded(d: &CaseDeadline, early: u64, late: u64, a: bool, b: bool)
    requires
        call_ensures(CaseDeadline::exceeded_after, (d, early), a),
        call_ensures(CaseDeadline::exceeded_after, (d, late), b),
        early <= late,
    ensures
        a ==> b,
        early == d.timeout_s ==> a,
        late < d.timeout_s ==> !b,
{
}

} // verus!
