//! The batches of a source iteration: how many count, what seeds they draw
//! from, and how each passes its fission sites on to the next.

use crate::binary64::Binary64;
use crate::text::same_text;
use vstd::prelude::*;

verus! {

/// How a run's batches are divided.
#[derive(Clone, Copy, Debug, PartialEq, Eq, Structural)]
pub struct BatchSplit {
    pub inactive: u32,
    pub active: u32,
}

/// Divides the batches: as many inactive ones as asked for, but the last batch
/// of a run is always active.
pub fn split_batches(batches: u32, inactive: u32) -> (r: BatchSplit)
    ensures
        r.inactive + r.active == batches,
        inactive < batches ==> r.inactive == inactive,
        0 < batches <= inactive ==> r.active == 1,
{
    let last: u32 = batches.saturating_sub(1);
    let kept: u32 = if inactive < last { inactive } else { last };
    BatchSplit { inactive: kept, active: batches - kept }
}

/// Histories that count in one run.
pub fn counted_histories(active: u32, particles: u32) -> (r: u64)
    ensures
        r == active * particles,
{
    assert(active * particles <= 0xffff_ffff * 0xffff_ffff) by (nonlinear_arith)
        requires
            active <= 0xffff_ffff,
            particles <= 0xffff_ffff,
    ;
    active as u64 * particles as u64
}

/// Whether a batch, counted from 1, counts.
pub fn is_active(batch: u32, inactive: u32) -> (r: bool)
    ensures
        r == (batch > inactive),
{
    batch > inactive
}

/// Fission sites that a batch has room for.
pub fn site_capacity(particles: usize) -> (r: usize)
    requires
        particles * 4 <= usize::MAX,
    ensures
        r == particles * 4,
{
    particles * 4
}

/// A source site.
#[derive(Clone, Copy, Debug, PartialEq, Eq, Structural)]
pub struct Site {
    pub x: Binary64,
    pub y: Binary64,
    pub z: Binary64,
    pub energy: Binary64,
}

/// The site that a draw names; a draw past the end names the last one.
pub open spec fn drawn(bank: Seq<Site>, draw: usize) -> Site {
    if draw < bank.len() {
        bank[draw as int]
    } else {
        bank[bank.len() - 1]
    }
}

/// The source of the next batch: drawn from the fission sites where there are
/// any, else a fresh one.
pub open spec fn next_source(bank: Seq<Site>, draws: Seq<usize>, fresh: Seq<Site>) -> Seq<Site> {
    if bank.len() == 0 {
        fresh
    } else {
        Seq::new(draws.len(), |i: int| drawn(bank, draws[i]))
    }
}

/// Makes the source of the next batch from the fission sites of this one.
pub fn normalize_bank(bank: &Vec<Site>, draws: &Vec<usize>, fresh: Vec<Site>) -> (r: Vec<Site>)
    ensures
        r@ == next_source(bank@, draws@, fresh@),
{
    if bank.len() == 0 {
        return fresh;
    }
    let mut out: Vec<Site> = Vec::new();
    let mut i: usize = 0;
    while i < draws.len()
        invariant
            bank@.len() > 0,
            i <= draws@.len(),
            out@ == Seq::new(i as nat, |k: int| drawn(bank@, draws@[k])),
        decreases draws@.len() - i,
    {
        let draw: usize = draws[i];
        let at: usize = if draw < bank.len() { draw } else { bank.len() - 1 };
        out.push(bank[at]);
        i += 1;
    }
    out
}

/// What a batch is to run with.
#[derive(Clone, Copy, Debug, PartialEq, Eq, Structural)]
pub struct BatchOrder {
    /// Counted from 1.
    pub batch: u32,
    pub seed: u64,
    pub active: bool,
}

/// The seed of a batch of an assembly run.
pub open spec fn batch_seed(seed: int, batch: int) -> int {
    seed * 1_000_000 + batch * 1_000
}

/// The batches of one seed.
#[derive(Clone, Debug)]
pub struct SourceLoop {
    pub batches: u32,
    pub inactive: u32,
    pub seed: u32,
    /// Batches that have run.
    pub done: u32,
    pub source: Vec<Site>,
    /// The multiplication factors of the active batches.
    pub k_active: Vec<Binary64>,
}

impl SourceLoop {
    pub open spec fn wf(&self) -> bool {
        &&& self.inactive <= self.batches
        &&& self.done <= self.batches
        &&& self.k_active@.len() == (if self.done > self.inactive {
            self.done - self.inactive
        } else {
            0
        })
    }

    /// A run that has not started.
    pub fn new(batches: u32, inactive: u32, seed: u32, source: Vec<Site>) -> (r: Self)
        ensures
            r.wf(),
            r.batches == batches,
            inactive < batches ==> r.inactive == inactive,
            0 < batches <= inactive ==> r.inactive == batches - 1,
            r.seed == seed,
            r.done == 0,
            r.source@ == source@,
            r.k_active@.len() == 0,
    {
        let split = split_batches(batches, inactive);
        SourceLoop { batches, inactive: split.inactive, seed, done: 0, source, k_active: Vec::new() }
    }

    /// The next batch, as long as there is one. When there is none, every active
    /// batch has reported.
    pub fn order(&self) -> (r: Option<BatchOrder>)
        requires
            self.wf(),
        ensures
            r is None <==> self.done == self.batches,
            r is None ==> self.k_active@.len() == self.batches - self.inactive,
            r matches Some(o) ==> {
                &&& o.batch == self.done + 1
                &&& o.seed == batch_seed(self.seed as int, o.batch as int)
                &&& o.active == (o.batch > self.inactive)
            },
    {
        if self.done == self.batches {
            return None;
        }
        let batch: u32 = self.done + 1;
        let seed: u64 = self.seed as u64 * 1_000_000 + batch as u64 * 1_000;
        Some(BatchOrder { batch, seed, active: is_active(batch, self.inactive) })
    }

    /// Takes what a batch found: keeps its multiplication factor if it counts,
    /// and makes the next source.
    pub fn finish(&mut self, k: Binary64, bank: &Vec<Site>, draws: &Vec<usize>, fresh: Vec<Site>)
        requires
            old(self).wf(),
            old(self).done < old(self).batches,
        ensures
            final(self).wf(),
            final(self).done == old(self).done + 1,
            final(self).batches == old(self).batches,
            final(self).inactive == old(self).inactive,
            final(self).seed == old(self).seed,
            final(self).source@ == next_source(bank@, draws@, fresh@),
            final(self).k_active@ == (if final(self).done > final(self).inactive {
                old(self).k_active@.push(k)
            } else {
                old(self).k_active@
            }),
    {
        self.done = self.done + 1;
        if is_active(self.done, self.inactive) {
            self.k_active.push(k);
        }
        self.source = normalize_bank(bank, draws, fresh);
    }
}

/// No two batches of assembly runs share a seed, as long as no run is longer
/// than 1000 batches.
pub proof fn law_batch_seeds_differ(seed1: int, batch1: int, seed2: int, batch2: int)
    requires
        1 <= batch1 <= 1_000,
        1 <= batch2 <= 1_000,
        batch_seed(seed1, batch1) == batch_seed(seed2, batch2),
    ensures
        seed1 == seed2,
        batch1 == batch2,
{
}

/// The number of a batch of a pin-cell run, counted over all seeds.
pub open spec fn pin_batch_id(seed: int, batch: int, batches: int) -> int {
    batch + seed * batches
}

/// What a batch of a pin-cell run draws from.
#[derive(Clone, Copy, Debug, PartialEq, Eq, Structural)]
pub struct PinSeeds {
    pub batch_id: u32,
    /// Seed of the draws from the fission sites.
    pub bank: u64,
}

/// The seeds of a batch of a pin-cell run.
pub fn pin_seeds(seed: u32, batch: u32, batches: u32) -> (r: PinSeeds)
    requires
        pin_batch_id(seed as int, batch as int, batches as int) <= u32::MAX,
    ensures
        r.batch_id == pin_batch_id(seed as int, batch as int, batches as int),
        r.bank == r.batch_id + seed * 1_000_000,
{
    assert(seed * batches >= 0) by (nonlinear_arith)
        requires
            seed >= 0,
            batches >= 0,
    ;
    let batch_id: u32 = batch + seed * batches;
    PinSeeds { batch_id, bank: batch_id as u64 + seed as u64 * 1_000_000 }
}

/// No two batches of a pin-cell run share a number.
pub proof fn law_pin_batches_differ(seed1: int, batch1: int, seed2: int, batch2: int, batches: int)
    requires
        1 <= batch1 <= batches,
        1 <= batch2 <= batches,
        pin_batch_id(seed1, batch1, batches) == pin_batch_id(seed2, batch2, batches),
    ensures
        seed1 == seed2,
        batch1 == batch2,
{
    if seed1 < seed2 {
        assert(batches <= (seed2 - seed1) * batches) by (nonlinear_arith)
            requires
                1 <= seed2 - seed1,
                batches >= 0,
        ;
        assert((seed2 - seed1) * batches == seed2 * batches - seed1 * batches) by (nonlinear_arith);
    } else if seed2 < seed1 {
        assert(batches <= (seed1 - seed2) * batches) by (nonlinear_arith)
            requires
                1 <= seed1 - seed2,
                batches >= 0,
        ;
        assert((seed1 - seed2) * batches == seed1 * batches - seed2 * batches) by (nonlinear_arith);
    }
}

/// The seed of the first source of a pin-cell run.
pub fn pin_source_seed(seed: u32) -> (r: u64)
    ensures
        r == seed * 100_000,
{
    seed as u64 * 100_000
}

/// The seed of the first source of an assembly run.
pub fn assembly_source_seed(seed: u32) -> (r: u64)
    ensures
        r == 0xCAFE_BEEF + seed,
{
    0xCAFE_BEEF + seed as u64
}

/// The number of the built-in geometry that a name selects: 1 for the bare
/// sphere, 0 for the pin cell.
pub fn geometry_code(name: &str) -> (r: i32)
    ensures
        r == (if name@ == "godiva"@ {
            1int
        } else {
            0
        }),
{
    if same_text(name, "godiva") {
        1
    } else {
        0
    }
}

/// The uncertainty to report: that of the only seed, or the spread of several.
pub fn reported_spread(seeds: usize, own: Binary64, across: Binary64) -> (r: Binary64)
    ensures
        r == (if seeds < 2 {
            own
        } else {
            across
        }),
{
    if seeds < 2 {
        own
    } else {
        across
    }
}

/// The temperature index of the thermal table to upload: none where no table is
/// wanted, where the file is missing or where it could not be read.
pub fn thermal_index(wanted: bool, present: bool, loaded: Option<usize>) -> (r: Option<usize>)
    ensures
        r == (if wanted && present {
            loaded
        } else {
            None
        }),
{
    if wanted && present {
        loaded
    } else {
        None
    }
}

/// Some batch counts wherever there is one: as many are inactive as were asked for,
/// unless that would leave none, and then one counts.
pub proof fn law_some_batch_counts(batches: u32, inactive: u32, r: BatchSplit)
    requires
        call_ensures(split_batches, (batches, inactive), r),
    ensures
        r.inactive + r.active == batches,
        batches > 0 ==> r.active >= 1,
        batches > inactive ==> r.active == batches - inactive,
        0 < batches <= inactive ==> r.inactive == batches - 1,
{
}

/// The source of the next batch has one site for each draw, and each is a site of
/// the bank: that at the number drawn, or the last one where the number is too
/// large. A bank without sites leaves the fresh source.
pub proof fn law_source_is_drawn_from_the_bank(
    bank: &Vec<Site>,
    draws: &Vec<usize>,
    fresh: Vec<Site>,
    r: Vec<Site>,
)
    requires
        call_ensures(normalize_bank, (bank, draws, fresh), r),
    ensures
        bank@.len() == 0 ==> r@ == fresh@,
        bank@.len() > 0 ==> r@.len() == draws@.len(),
        forall|i: int|
            bank@.len() > 0 && 0 <= i < draws@.len() && draws@[i] < bank@.len() ==> #[trigger] r@[i]
                == bank@[draws@[i] as int],
        forall|i: int|
            bank@.len() > 0 && 0 <= i < draws@.len() && draws@[i] >= bank@.len() ==> #[trigger] r@[i] == bank@.last(),
{
}

/// The batches of a source loop are run one after the other from one on, each with
/// its own seed, and count from the first one past the inactive ones.
pub proof fn law_batches_run_in_order(run: &SourceLoop, r: Option<BatchOrder>)
    requires
        call_ensures(SourceLoop::order, (run,), r),
        run.wf(),
    ensures
        run.done < run.batches <==> r is Some,
        r matches Some(o) ==> o.batch == run.done + 1 && o.seed == 1_000_000 * run.seed + 1_000 * (run.done + 1),
        r matches Some(o) ==> (o.active <==> run.done >= run.inactive),
        r is None ==> run.k_active@.len() + run.inactive == run.batches,
{
}

/// Finishing a batch moves on to the next, whose source is drawn from the bank, and
/// keeps the factor of a batch that counts, behind those that were kept.
pub proof fn law_active_factors_are_kept(
    run: &mut SourceLoop,
    k: Binary64,
    bank: &Vec<Site>,
    draws: &Vec<usize>,
    fresh: Vec<Site>,
)
    requires
        call_ensures(SourceLoop::finish, (run, k, bank, draws, fresh), ()),
    ensures
        final(run).done == old(run).done + 1,
        old(run).done < old(run).inactive ==> final(run).k_active@ == old(run).k_active@,
        old(run).done >= old(run).inactive ==> final(run).k_active@ == old(run).k_active@.push(k),
        bank@.len() == 0 ==> final(run).source@ == fresh@,
        bank@.len() > 0 ==> final(run).source@.len() == draws@.len(),
        forall|i: int|
            bank@.len() > 0 && 0 <= i < draws@.len() ==> #[trigger] final(run).source@[i] == bank@[if draws@[i]
                < bank@.len() {
                draws@[i] as int
            } else {
                bank@.len() - 1
            }],
        final(run).seed == old(run).seed && final(run).inactive == old(run).inactive && final(run).batches
            == old(run).batches,
{
}

/// Two batches of one run, or of two runs with different seeds, are given different
/// numbers; the seed of the bank follows from the number and the seed of the run.
pub proof fn law_pin_seeds_tell_batches_apart(
    seed1: u32,
    batch1: u32,
    seed2: u32,
    batch2: u32,
    batches: u32,
    a: PinSeeds,
    b: PinSeeds,
)
    requires
        call_ensures(pin_seeds, (seed1, batch1, batches), a),
        call_ensures(pin_seeds, (seed2, batch2, batches), b),
        1 <= batch1 <= batches,
        1 <= batch2 <= batches,
    ensures
        a.batch_id == b.batch_id <==> seed1 == seed2 && batch1 == batch2,
        a.bank - a.batch_id == 1_000_000 * seed1,
        batch1 > batch2 && seed1 == seed2 ==> a.batch_id - b.batch_id == batch1 - batch2,
{
    if a.batch_id == b.batch_id {
        law_pin_batches_differ(seed1 as int, batch1 as int, seed2 as int, batch2 as int, batches as int);
    }
}

/// The spread across seeds is reported exactly where there are several, and a
/// thermal table is used exactly where it is wanted, there and loaded.
pub proof fn law_spread_and_thermal_choices(
    seeds: usize,
    own: Binary64,
    across: Binary64,
    spread: Binary64,
    wanted: bool,
    present: bool,
    loaded: Option<usize>,
    index: Option<usize>,
)
    requires
        call_ensures(reported_spread, (seeds, own, across), spread),
        call_ensures(thermal_index, (wanted, present, loaded), index),
    ensures
        seeds >= 2 ==> spread == across,
        seeds < 2 ==> spread == own,
        index is Some <==> wanted && present && loaded is Some,
        index is Some ==> index == loaded,
{
}

/// What runs start from: as many sites as four for each particle, histories of the
/// active batches alone, seeds that differ from run to run, and one of two geometries.
pub proof fn law_runs_start_apart(
    active: u32,
    particles: u32,
    histories: u64,
    p: u32,
    q: u32,
    a: u64,
    b: u64,
    c: u64,
    d: u64,
    name: &str,
    geometry: i32,
    sites: usize,
    capacity: usize,
    batch: u32,
    inactive: u32,
    counts: bool,
)
    requires
        call_ensures(counted_histories, (active, particles), histories),
        call_ensures(pin_source_seed, (p,), a),
        call_ensures(pin_source_seed, (q,), b),
        call_ensures(assembly_source_seed, (p,), c),
        call_ensures(assembly_source_seed, (q,), d),
        call_ensures(geometry_code, (name,), geometry),
        call_ensures(site_capacity, (sites,), capacity),
        call_ensures(is_active, (batch, inactive), counts),
    ensures
        histories == active * particles,
        a == b <==> p == q,
        a - b == 100_000 * (p - q),
        c - d == p - q,
        geometry == 1 <==> name@ == "godiva"@,
        geometry == 0 <==> name@ != "godiva"@,
        capacity == 4 * sites,
        counts <==> batch >= inactive + 1,
{
}

/// A loop starts with its source, before its first batch, with as many inactive batches
/// as were asked for unless that would leave none that counts.
pub proof fn law_loop_starts_before_its_first_batch(
    batches: u32,
    inactive: u32,
    seed: u32,
    source: Vec<Site>,
    r: SourceLoop,
)
    requires
        call_ensures(SourceLoop::new, (batches, inactive, seed, source), r),
    ensures
        r.batches == batches && r.seed == seed && r.done == 0 && r.source@ == source@ && r.k_active@.len() == 0,
        inactive < batches ==> r.inactive == inactive,
        0 < batches <= inactive ==> r.inactive + 1 == batches,
{
}

} // verus!
