//! Settings of a sweep.

use crate::binary64::{lemma_above_one, Binary64, EXPONENT_WEIGHT};
use crate::case_loader::CaseDefaults;
use vstd::arithmetic::power2::{lemma2_to64, pow2};
use vstd::prelude::*;

verus! {

/// Where the cases of a sweep run.
#[derive(Clone, Copy, Debug, PartialEq, Eq, Structural)]
pub enum RunnerSelection {
    Cpu,
    Gpu,
    /// Each case goes where its hint or the routing rules send it.
    Auto,
}

/// The bits of 2.0.
pub const N_SIGMA_BITS: u64 = 0x4000_0000_0000_0000;

/// Settings of a sweep.
#[derive(Clone, Debug)]
pub struct RunArgs {
    /// Directory of the case files.
    pub bench_dir: String,
    /// Directory of the nuclear data.
    pub data_dir: String,
    /// Only cases whose identity holds this text.
    pub filter: Option<String>,
    /// Result table.
    pub csv: Option<String>,
    /// Telemetry, one object per line.
    pub telemetry: Option<String>,
    /// Seconds that a case may take.
    pub case_timeout_s: u64,
    /// Where this file exists, no further case starts.
    pub stop_file: String,
    /// Skip cases that the result table holds.
    pub resume: bool,
    /// Accepted number of standard deviations.
    pub n_sigma: Binary64,
    pub runner: RunnerSelection,
    pub particles_per_batch: Option<u32>,
    pub batches: Option<u32>,
    pub inactive_batches: Option<u32>,
    pub seeds: Option<u32>,
    pub base_seed: u64,
    pub survival_biasing: bool,
    /// Rank of the cross-section decomposition.
    pub rank: usize,
    /// Size of the slot pool, where it is not left to the device's memory.
    pub n_slots: Option<usize>,
    /// Upper bound on a pool sized by memory.
    pub max_slots: usize,
    /// Cases that the CPU executor runs at a time.
    pub n_cpu_executor_threads: usize,
    /// Completed cases between plots.
    pub plot_every: usize,
}

impl Default for RunArgs {
    fn default() -> (r: Self)
        ensures
            r.bench_dir@ == "bench/icsbep"@,
            r.data_dir@ == "data/endfb-viii.1-hdf5/neutron"@,
            r.filter is None && r.csv is None && r.telemetry is None,
            r.case_timeout_s == 3600,
            r.stop_file@ == "outputs/STOP"@,
            !r.resume,
            r.n_sigma.bits == N_SIGMA_BITS,
            r.runner == RunnerSelection::Auto,
            r.particles_per_batch is None && r.batches is None && r.inactive_batches is None,
            r.seeds is None,
            r.base_seed == 42,
            !r.survival_biasing,
            r.rank == 15,
            r.n_slots is None,
            r.max_slots == 4,
            r.n_cpu_executor_threads == 1,
            r.plot_every == 10,
    {
        RunArgs {
            bench_dir: "bench/icsbep".to_owned(),
            data_dir: "data/endfb-viii.1-hdf5/neutron".to_owned(),
            filter: None,
            csv: None,
            telemetry: None,
            case_timeout_s: 3600,
            stop_file: "outputs/STOP".to_owned(),
            resume: false,
            n_sigma: Binary64::from_bits(N_SIGMA_BITS),
            runner: RunnerSelection::Auto,
            particles_per_batch: None,
            batches: None,
            inactive_batches: None,
            seeds: None,
            base_seed: 42,
            survival_biasing: false,
            rank: 15,
            n_slots: None,
            max_slots: 4,
            n_cpu_executor_threads: 1,
            plot_every: 10,
        }
    }
}

impl RunArgs {
    /// What every case starts from.
    pub fn case_defaults(&self) -> (r: CaseDefaults)
        ensures
            r == (CaseDefaults {
                particles_per_batch: self.particles_per_batch,
                batches: self.batches,
                inactive_batches: self.inactive_batches,
                base_seed: self.base_seed,
                survival_biasing: self.survival_biasing,
            }),
    {
        CaseDefaults {
            particles_per_batch: self.particles_per_batch,
            batches: self.batches,
            inactive_batches: self.inactive_batches,
            base_seed: self.base_seed,
            survival_biasing: self.survival_biasing,
        }
    }
}

/// What the command line says of batches, particles, seed and biasing is what every
/// case starts from.
pub proof fn law_cases_start_from_the_command_line(args: &RunArgs, r: CaseDefaults)
    requires
        call_ensures(RunArgs::case_defaults, (args,), r),
    ensures
        r.particles_per_batch == args.particles_per_batch && r.batches == args.batches && r.inactive_batches
            == args.inactive_batches,
        r.base_seed == args.base_seed,
        r.survival_biasing == args.survival_biasing,
{
}

/// A sweep that is told nothing runs the cases of the benchmark directory on whatever
/// fits, grades at two standard deviations, and waits an hour for each case.
pub proof fn law_defaults_of_a_sweep(r: RunArgs)
    requires
        call_ensures(RunArgs::default, (), r),
    ensures
        r.bench_dir@ == "bench/icsbep"@ && r.stop_file@ == "outputs/STOP"@,
        r.runner == RunnerSelection::Auto && !r.resume && !r.survival_biasing,
        r.filter is None && r.csv is None && r.telemetry is None,
        r.particles_per_batch is None && r.batches is None && r.inactive_batches is None,
        r.case_timeout_s == 60 * 60 && r.base_seed == 42 && r.rank == 15 && r.max_slots == 4,
        !r.n_sigma.nan() && r.n_sigma.scaled() == 2 * crate::binary64::one(),
{
    lemma_two();
}

proof fn lemma_two()
    ensures
        ({
            let x = Binary64 { bits: N_SIGMA_BITS };
            !x.nan() && x.scaled() == 2 * crate::binary64::one()
        }),
{
    let x = Binary64 { bits: N_SIGMA_BITS };
    assert(x.bits as int / EXPONENT_WEIGHT as int == 1024 && x.bits as int % EXPONENT_WEIGHT as int == 0);
    let p = lemma_above_one(x, 1);
    lemma2_to64();
    assert(pow2(1) * p == 2 * p);
}

} // verus!
