//! Sample indices, flattened tables and their sizes in memory.

use crate::binary64::{is_max, Binary64};
use crate::search::{grid_index, is_grid_index};
use crate::text::same_text;
use vstd::arithmetic::div_mod::lemma_fundamental_div_mod_converse;
use vstd::prelude::*;

verus! {

/// The multiplier of the sample generator.
pub const SAMPLE_MULTIPLIER: u64 = 6364136223846793005;

/// The state of the sample generator after `k` steps.
pub open spec fn sample_state(k: nat) -> int
    decreases k,
{
    if k == 0 {
        42
    } else {
        (sample_state((k - 1) as nat) * SAMPLE_MULTIPLIER + 1) % 0x1_0000_0000_0000_0000
    }
}

/// Sample `k` among `n_e` energy points: the top 31 bits of the state.
pub open spec fn sample_index(k: int, n_e: int) -> int {
    (sample_state((k + 1) as nat) / 0x2_0000_0000) % n_e
}

fn next_state(state: u64) -> (r: u64)
    ensures
        r == (state * SAMPLE_MULTIPLIER + 1) % 0x1_0000_0000_0000_0000,
{
    let product: u64 = state.wrapping_mul(SAMPLE_MULTIPLIER);
    let ghost p: int = state * SAMPLE_MULTIPLIER;
    let ghost m: int = 0x1_0000_0000_0000_0000;
    proof {
        vstd::arithmetic::div_mod::lemma_fundamental_div_mod(p, m);
        let q = p / m;
        assert(product == p % m);
        if product == u64::MAX {
            lemma_fundamental_div_mod_converse(p + 1, m, q + 1, 0);
        } else {
            lemma_fundamental_div_mod_converse(p + 1, m, q, product + 1);
        }
    }
    product.wrapping_add(1)
}

/// The same list of energy points every time, for comparing two devices.
pub fn generate_random_indices(n: usize, n_e: usize) -> (r: Vec<i32>)
    requires
        n_e > 0,
    ensures
        r@.len() == n,
        forall|k: int| 0 <= k < n ==> #[trigger] r@[k] == sample_index(k, n_e as int),
        forall|k: int| 0 <= k < n ==> 0 <= #[trigger] r@[k] < n_e,
{
    let mut state: u64 = 42;
    let mut out: Vec<i32> = Vec::new();
    let mut i: usize = 0;
    while i < n
        invariant
            n_e > 0,
            i <= n,
            state == sample_state(i as nat),
            out@.len() == i,
            forall|k: int| 0 <= k < i ==> #[trigger] out@[k] == sample_index(k, n_e as int),
            forall|k: int| 0 <= k < i ==> 0 <= #[trigger] out@[k] < n_e,
        decreases n - i,
    {
        state = next_state(state);
        let top: u64 = state >> 33;
        assert(top == state / 0x2_0000_0000 && top < 0x8000_0000) by (bit_vector)
            requires
                top == state >> 33,
        ;
        let point: usize = top as usize;
        let index: usize = point % n_e;
        assert(index <= point) by (nonlinear_arith)
            requires
                index == point % n_e,
                n_e > 0,
        ;
        out.push(index as i32);
        i += 1;
    }
    out
}

/// Place of energy `i`, temperature `t` and level `l` in a flattened table.
pub open spec fn tensor_place(i: int, t: int, l: int, n_t: int, n_l: int) -> int {
    i * n_t * n_l + t * n_l + l
}

/// Different entries of a table have different places, and all places lie in
/// the flattened table.
pub proof fn law_tensor_places_differ(i1: int, t1: int, l1: int, i2: int, t2: int, l2: int, n_e: int, n_t: int, n_l: int)
    requires
        0 <= i1 < n_e,
        0 <= i2 < n_e,
        0 <= t1 < n_t,
        0 <= t2 < n_t,
        0 <= l1 < n_l,
        0 <= l2 < n_l,
    ensures
        0 <= tensor_place(i1, t1, l1, n_t, n_l) < n_e * n_t * n_l,
        tensor_place(i1, t1, l1, n_t, n_l) == tensor_place(i2, t2, l2, n_t, n_l) ==> i1 == i2 && t1 == t2 && l1
            == l2,
{
    lemma_tensor_place(i1, t1, l1, n_e, n_t, n_l);
    lemma_tensor_place(i2, t2, l2, n_e, n_t, n_l);
}

/// An entry is found again from its place.
proof fn lemma_tensor_place(i: int, t: int, l: int, n_e: int, n_t: int, n_l: int)
    requires
        0 <= i < n_e,
        0 <= t < n_t,
        0 <= l < n_l,
    ensures
        0 <= tensor_place(i, t, l, n_t, n_l) < n_e * n_t * n_l,
        tensor_place(i, t, l, n_t, n_l) % n_l == l,
        (tensor_place(i, t, l, n_t, n_l) / n_l) % n_t == t,
        (tensor_place(i, t, l, n_t, n_l) / n_l) / n_t == i,
{
    let row = i * n_t + t;
    assert(i * n_t * n_l + t * n_l == row * n_l) by (nonlinear_arith)
        requires
            row == i * n_t + t,
    ;
    lemma_fundamental_div_mod_converse(row * n_l + l, n_l, row, l);
    lemma_fundamental_div_mod_converse(row, n_t, i, t);
    assert(0 <= row < n_e * n_t) by (nonlinear_arith)
        requires
            row == i * n_t + t,
            0 <= i < n_e,
            0 <= t < n_t,
    ;
    assert(0 <= row * n_l + l < n_e * n_t * n_l) by (nonlinear_arith)
        requires
            0 <= row < n_e * n_t,
            0 <= l < n_l,
    ;
}

/// `levels[l][t]` has a number for each of `n_e` energies, for each of `n_t`
/// temperatures.
pub open spec fn is_block(levels: Seq<Vec<Vec<Binary64>>>, n_e: int, n_t: int) -> bool {
    forall|l: int, t: int|
        0 <= l < levels.len() && 0 <= t < n_t ==> (#[trigger] levels[l]@[t])@.len() >= n_e && levels[l]@.len() >= n_t
}

/// The entry at a place of the flattened table.
pub open spec fn is_tensor_entry(levels: Seq<Vec<Vec<Binary64>>>, n_t: int, k: int, x: Binary64) -> bool {
    let n_l = levels.len() as int;
    is_max(levels[k % n_l]@[(k / n_l) % n_t]@[(k / n_l) / n_t], Binary64 { bits: 0 }, x)
}

/// Flattens the cross sections of the levels of a nuclide, energy by energy,
/// with negative ones taken as zero.
pub fn build_tensor(levels: &Vec<Vec<Vec<Binary64>>>, n_e: usize, n_t: usize) -> (r: Vec<Binary64>)
    requires
        levels@.len() > 0,
        n_t > 0,
        is_block(levels@, n_e as int, n_t as int),
    ensures
        r@.len() == n_e * n_t * levels@.len(),
        forall|k: int| 0 <= k < r@.len() ==> is_tensor_entry(levels@, n_t as int, k, #[trigger] r@[k]),
{
    let n_l: usize = levels.len();
    let mut out: Vec<Binary64> = Vec::new();
    let mut i: usize = 0;
    assert(0 * n_t * n_l == 0) by (nonlinear_arith);
    while i < n_e
        invariant
            n_l == levels@.len(),
            n_l > 0,
            n_t > 0,
            i <= n_e,
            is_block(levels@, n_e as int, n_t as int),
            out@.len() == i * n_t * n_l,
            forall|k: int| 0 <= k < out@.len() ==> is_tensor_entry(levels@, n_t as int, k, #[trigger] out@[k]),
        decreases n_e - i,
    {
        let mut t: usize = 0;
        while t < n_t
            invariant
                n_l == levels@.len(),
                n_l > 0,
                i < n_e,
                t <= n_t,
                is_block(levels@, n_e as int, n_t as int),
                out@.len() == i * n_t * n_l + t * n_l,
                forall|k: int| 0 <= k < out@.len() ==> is_tensor_entry(levels@, n_t as int, k, #[trigger] out@[k]),
            decreases n_t - t,
        {
            let mut l: usize = 0;
            while l < n_l
                invariant
                    n_l == levels@.len(),
                    i < n_e,
                    t < n_t,
                    l <= n_l,
                    is_block(levels@, n_e as int, n_t as int),
                    out@.len() == tensor_place(i as int, t as int, l as int, n_t as int, n_l as int),
                    forall|k: int|
                        0 <= k < out@.len() ==> is_tensor_entry(levels@, n_t as int, k, #[trigger] out@[k]),
                decreases n_l - l,
            {
                proof {
                    lemma_tensor_place(i as int, t as int, l as int, n_e as int, n_t as int, n_l as int);
                    assert(levels@[l as int]@[t as int]@.len() >= n_e);
                }
                let x: Binary64 = levels[l][t][i];
                out.push(x.max(Binary64::zero()));
                l += 1;
            }
            assert(t * n_l + n_l == (t + 1) * n_l) by (nonlinear_arith);
            t += 1;
        }
        assert(i * n_t * n_l + n_t * n_l == (i + 1) * n_t * n_l) by (nonlinear_arith);
        i += 1;
    }
    out
}

/// Whether a reaction number is one of the inelastic levels.
pub fn is_level(mt: u32) -> (r: bool)
    ensures
        r == (51 <= mt <= 91),
{
    51 <= mt && mt <= 91
}

/// A level as it was read.
#[derive(Clone, Copy, Debug, PartialEq, Eq, Structural)]
pub struct LevelRead {
    pub mt: u32,
    /// Energies and temperatures of the table, where there is one.
    pub shape: Option<TableShape>,
}

/// How many energies and temperatures a table has.
#[derive(Clone, Copy, Debug, PartialEq, Eq, Structural)]
pub struct TableShape {
    pub energies: usize,
    pub temperatures: usize,
}

/// A level counts when its table could be read and is not empty.
pub open spec fn level_counts() -> spec_fn(LevelRead) -> bool {
    |l: LevelRead| 51 <= l.mt <= 91 && (l.shape matches Some(s) && s.energies > 0 && s.temperatures > 0)
}

/// Keeps the levels that count, in order. The first one kept gives the grid.
pub fn keep_levels(levels: &Vec<LevelRead>) -> (r: Vec<LevelRead>)
    ensures
        r@ == levels@.filter(level_counts()),
{
    let mut out: Vec<LevelRead> = Vec::new();
    let mut i: usize = 0;
    proof {
        reveal(Seq::filter);
    }
    while i < levels.len()
        invariant
            i <= levels@.len(),
            out@ == levels@.take(i as int).filter(level_counts()),
        decreases levels@.len() - i,
    {
        let l: LevelRead = levels[i];
        proof {
            crate::pipeline::lemma_filter_step(levels@, level_counts(), i as int);
        }
        if is_level(l.mt) {
            if let Some(s) = l.shape {
                if s.energies > 0 && s.temperatures > 0 {
                    out.push(l);
                }
            }
        }
        i += 1;
    }
    assert(levels@.take(i as int) =~= levels@);
    out
}

/// How many energies a table is reduced to: as many as asked for, unless none
/// were asked for or the table has no more than that.
pub fn reduced_energies(asked: usize, full: usize) -> (r: usize)
    ensures
        r == (if 0 < asked < full {
            asked
        } else {
            full
        }),
{
    if asked > 0 && asked < full {
        asked
    } else {
        full
    }
}

/// The smallest and the largest positive energy.
#[derive(Clone, Copy, Debug, PartialEq, Eq, Structural)]
pub struct EnergyRange {
    pub low: Binary64,
    pub high: Binary64,
}

/// A range spans the positive energies of a list.
pub open spec fn spans(energies: Seq<Binary64>, n: int, r: EnergyRange) -> bool {
    let zero = Binary64 { bits: 0 };
    &&& !r.low.nan() && !r.high.nan()
    &&& forall|k: int|
        0 <= k < n && zero.less(#[trigger] energies[k]) ==> r.low.at_most(energies[k]) && energies[k].at_most(r.high)
    &&& r.low.bits == crate::binary64::INFINITY_BITS || exists|k: int|
        0 <= k < n && zero.less(#[trigger] energies[k]) && energies[k] == r.low
    &&& r.high.bits == crate::binary64::SIGN_WEIGHT + crate::binary64::INFINITY_BITS || exists|k: int|
        0 <= k < n && zero.less(#[trigger] energies[k]) && energies[k] == r.high
}

/// Finds the range of the positive energies of a list; of none, the empty range
/// from infinity down to minus infinity.
pub fn positive_range(energies: &Vec<Binary64>) -> (r: EnergyRange)
    ensures
        spans(energies@, energies@.len() as int, r),
{
    let zero = Binary64::zero();
    let mut r = EnergyRange { low: Binary64::infinity(), high: Binary64::negative_infinity() };
    let mut i: usize = 0;
    while i < energies.len()
        invariant
            zero.bits == 0,
            i <= energies@.len(),
            spans(energies@, i as int, r),
        decreases energies@.len() - i,
    {
        let e: Binary64 = energies[i];
        let ghost before = r;
        if zero.lt(e) {
            proof {
                crate::binary64::law_infinities_bound_every_number(
                    e,
                    Binary64 { bits: (crate::binary64::SIGN_WEIGHT + crate::binary64::INFINITY_BITS) as u64 },
                    Binary64 { bits: crate::binary64::INFINITY_BITS },
                );
            }
            if e.lt(r.low) {
                r.low = e;
            }
            if r.high.lt(e) {
                r.high = e;
            }
        }
        i += 1;
    }
    r
}

/// The two grid points that an energy is interpolated between. At the ends both
/// are the same point, or the share of the second is zero.
#[derive(Clone, Copy, Debug, PartialEq, Eq, Structural)]
pub struct Neighbours {
    pub lower: usize,
    pub upper: usize,
    /// The energy lies strictly inside the grid, so a share has to be computed.
    pub inside: bool,
}

/// Finds the grid points round an energy.
pub fn neighbours(energies: &Vec<Binary64>, e: Binary64) -> (r: Neighbours)
    requires
        energies@.len() > 0,
    ensures
        is_grid_index(energies@, e, r.lower as int),
        r.lower < energies@.len(),
        r.upper == (if r.lower + 1 < energies@.len() {
            r.lower + 1
        } else {
            energies@.len() - 1
        }),
        r.inside == (!e.at_most(energies@[0]) && !energies@[energies@.len() - 1].at_most(e)),
{
    let n: usize = energies.len();
    let lower = grid_index(energies, e);
    let upper: usize = if lower < n - 1 { lower + 1 } else { n - 1 };
    Neighbours { lower, upper, inside: !e.le(energies[0]) && !energies[n - 1].le(e) }
}

/// Bytes of one rank-one pair of vectors per level.
pub fn per_level_bytes(n_l: usize, n_e: usize, n_t: usize) -> (r: usize)
    requires
        n_e + n_t <= usize::MAX,
        n_l * (n_e + n_t) <= usize::MAX,
        n_l * (n_e + n_t) * 8 <= usize::MAX,
    ensures
        r == n_l * (n_e + n_t) * 8,
{
    n_l * (n_e + n_t) * 8
}

/// Bytes of a decomposition of rank `k`: three vectors and a weight each.
pub fn decomposition_bytes(k: usize, n_e: usize, n_t: usize, n_l: usize) -> (r: usize)
    requires
        n_e + n_t + n_l + 1 <= usize::MAX,
        k * (n_e + n_t + n_l + 1) <= usize::MAX,
        k * (n_e + n_t + n_l + 1) * 8 <= usize::MAX,
    ensures
        r == k * (n_e + n_t + n_l + 1) * 8,
{
    k * (n_e + n_t + n_l + 1) * 8
}

/// Bytes of a pointwise table: an energy and a cross section per temperature.
pub fn table_bytes(n_e: usize, n_t: usize) -> (r: usize)
    requires
        n_e * n_t * 16 <= usize::MAX,
    ensures
        r == n_e * n_t * 16,
{
    assert(n_e * n_t <= n_e * n_t * 16) by (nonlinear_arith)
        requires
            n_e >= 0,
            n_t >= 0,
    ;
    n_e * n_t * 2 * 8
}

/// The rank that a kernel keeps.
pub fn kept_rank(asked: usize, available: usize) -> (r: usize)
    ensures
        r == (if asked < available {
            asked
        } else {
            available
        }),
{
    if asked < available {
        asked
    } else {
        available
    }
}

/// Where each entry of a basis cut down to `rank` columns comes from in the
/// basis of `full` columns.
pub fn basis_sources(n_e: usize, rank: usize, full: usize) -> (r: Vec<usize>)
    requires
        rank <= full,
        n_e * full <= usize::MAX,
    ensures
        r@.len() == n_e * rank,
        forall|k: int|
            0 <= k < r@.len() ==> #[trigger] r@[k] == (k / rank as int) * full + k % rank as int && r@[k] < n_e * full,
{
    let mut out: Vec<usize> = Vec::new();
    let mut i: usize = 0;
    assert(0 * rank == 0) by (nonlinear_arith);
    while i < n_e
        invariant
            rank <= full,
            n_e * full <= usize::MAX,
            i <= n_e,
            out@.len() == i * rank,
            forall|k: int|
                0 <= k < out@.len() ==> #[trigger] out@[k] == (k / rank as int) * full + k % rank as int && out@[k]
                    < n_e * full,
        decreases n_e - i,
    {
        let mut j: usize = 0;
        while j < rank
            invariant
                rank <= full,
                n_e * full <= usize::MAX,
                i < n_e,
                j <= rank,
                out@.len() == i * rank + j,
                forall|k: int|
                    0 <= k < out@.len() ==> #[trigger] out@[k] == (k / rank as int) * full + k % rank as int
                        && out@[k] < n_e * full,
            decreases rank - j,
        {
            proof {
                lemma_fundamental_div_mod_converse(i * rank + j, rank as int, i as int, j as int);
                assert(i * full + j < n_e * full && i * full >= 0) by (nonlinear_arith)
                    requires
                        0 <= i < n_e,
                        j < full,
                ;
            }
            out.push(i * full + j);
            j += 1;
        }
        assert(i * rank + rank == (i + 1) * rank) by (nonlinear_arith);
        i += 1;
    }
    out
}

/// The temperature coefficients of the first `rank` rows.
pub fn kept_coefficients(rows: &Vec<Binary64>, rank: usize, n_t: usize) -> (r: Vec<Binary64>)
    requires
        rank * n_t <= rows@.len(),
    ensures
        r@ == rows@.take(rank * n_t),
{
    let total: usize = rows.len();
    assert(rank * n_t <= total);
    let n: usize = rank * n_t;
    let mut out: Vec<Binary64> = Vec::new();
    let mut i: usize = 0;
    while i < n
        invariant
            n <= rows@.len(),
            i <= n,
            out@ == rows@.take(i as int),
        decreases n - i,
    {
        out.push(rows[i]);
        i += 1;
    }
    out
}

/// Bytes that the kernels of all nuclides take, per rank from 2 to 7, and what
/// their tables take.
#[derive(Clone, Debug)]
pub struct MemoryTotals {
    pub table: usize,
    pub by_rank: Vec<usize>,
}

impl MemoryTotals {
    pub open spec fn wf(&self) -> bool {
        self.by_rank@.len() == 6
    }

    pub fn new() -> (r: Self)
        ensures
            r.wf(),
            r.table == 0,
            forall|k: int| 0 <= k < 6 ==> #[trigger] r.by_rank@[k] == 0,
    {
        MemoryTotals { table: 0, by_rank: vec![0, 0, 0, 0, 0, 0] }
    }

    /// Adds a nuclide: its table, and its kernel at each of those ranks that its
    /// decomposition reaches.
    pub fn add_nuclide(&mut self, table: usize, kernels: &Vec<usize>, rank: usize)
        requires
            old(self).wf(),
            kernels@.len() == 6,
            old(self).table + table <= usize::MAX,
            forall|k: int| 0 <= k < 6 ==> #[trigger] old(self).by_rank@[k] + kernels@[k] <= usize::MAX,
        ensures
            final(self).wf(),
            final(self).table == old(self).table + table,
            forall|k: int|
                0 <= k < 6 ==> #[trigger] final(self).by_rank@[k] == old(self).by_rank@[k] + (if k + 2 <= rank {
                    kernels@[k] as int
                } else {
                    0
                }),
    {
        self.table = self.table + table;
        let mut k: usize = 0;
        while k < 6
            invariant
                k <= 6,
                kernels@.len() == 6,
                self.by_rank@.len() == 6,
                old(self).by_rank@.len() == 6,
                self.table == old(self).table + table,
                forall|j: int| 0 <= j < 6 ==> #[trigger] old(self).by_rank@[j] + kernels@[j] <= usize::MAX,
                forall|j: int|
                    0 <= j < k ==> #[trigger] self.by_rank@[j] == old(self).by_rank@[j] + (if j + 2 <= rank {
                        kernels@[j] as int
                    } else {
                        0
                    }),
                forall|j: int| k <= j < 6 ==> #[trigger] self.by_rank@[j] == old(self).by_rank@[j],
            decreases 6 - k,
        {
            if k + 2 <= rank {
                let was: usize = self.by_rank[k];
                assert(old(self).by_rank@[k as int] + kernels@[k as int] <= usize::MAX);
                self.by_rank.set(k, was + kernels[k]);
            }
            k += 1;
        }
    }

    /// The kernels that projections go by: those of rank 5 where any nuclide
    /// reaches it, else those of rank 4.
    pub fn projected(&self) -> (r: usize)
        requires
            self.wf(),
        ensures
            r == (if self.by_rank@[3] > 0 {
                self.by_rank@[3]
            } else {
                self.by_rank@[2]
            }),
    {
        if self.by_rank[3] > 0 {
            self.by_rank[3]
        } else {
            self.by_rank[2]
        }
    }
}

/// How a reaction's cross sections are held.
#[derive(Clone, Copy, Debug, PartialEq, Eq, Structural)]
pub enum KernelForm {
    Missing,
    Table,
    Svd,
}

/// A reaction is benchmarked when it is held as a decomposition.
pub open spec fn is_benchmarked(forms: Seq<KernelForm>, i: int) -> bool {
    forms[i] == KernelForm::Svd
}

/// Every decomposition is told, and nothing else.
pub open spec fn tells_benchmarked(forms: Seq<KernelForm>, told: Seq<usize>) -> bool {
    &&& forall|i: int|
        0 <= i < forms.len() && #[trigger] is_benchmarked(forms, i) ==> exists|k: int|
            0 <= k < told.len() && #[trigger] told[k] == i
    &&& forall|k: int| 0 <= k < told.len() ==> is_benchmarked(forms, (#[trigger] told[k]) as int)
}

/// The reactions of a nuclide that are benchmarked, in order.
pub fn benchmarked(forms: &Vec<KernelForm>) -> (r: Vec<usize>)
    ensures
        forall|k: int|
            0 <= k < r@.len() ==> (#[trigger] r@[k]) < forms@.len() && is_benchmarked(forms@, r@[k] as int),
        forall|k: int, l: int| 0 <= k < l < r@.len() ==> (#[trigger] r@[k]) < (#[trigger] r@[l]),
        forall|i: int|
            0 <= i < forms@.len() && #[trigger] is_benchmarked(forms@, i) ==> exists|k: int|
                0 <= k < r@.len() && r@[k] == i,
        tells_benchmarked(forms@, r@),
{
    let mut out: Vec<usize> = Vec::new();
    let mut i: usize = 0;
    while i < forms.len()
        invariant
            i <= forms@.len(),
            forall|k: int|
                0 <= k < out@.len() ==> (#[trigger] out@[k]) < i && is_benchmarked(forms@, out@[k] as int),
            forall|k: int, l: int| 0 <= k < l < out@.len() ==> (#[trigger] out@[k]) < (#[trigger] out@[l]),
            forall|j: int|
                0 <= j < i && #[trigger] is_benchmarked(forms@, j) ==> exists|k: int|
                    0 <= k < out@.len() && out@[k] == j,
        decreases forms@.len() - i,
    {
        let ghost before = out@;
        if forms[i] == KernelForm::Svd {
            out.push(i);
        }
        proof {
            assert forall|j: int| 0 <= j < i + 1 && #[trigger] is_benchmarked(forms@, j) implies exists|k: int|
                0 <= k < out@.len() && out@[k] == j by {
                if j < i {
                    let k = choose|k: int| 0 <= k < before.len() && before[k] == j;
                    assert(out@[k] == j);
                } else {
                    assert(out@[out@.len() - 1] == j);
                }
            }
        }
        i += 1;
    }
    out
}

/// Samples that warm a device up.
pub fn warm_up(particles: usize) -> (r: usize)
    ensures
        r == (if particles < 1000 {
            particles as int
        } else {
            1000
        }),
{
    if particles < 1000 {
        particles
    } else {
        1000
    }
}

/// A text ends in `.h5`.
pub open spec fn is_data_file(name: Seq<char>) -> bool {
    name.len() >= 3 && name.skip(name.len() - 3) == ".h5"@
}

/// The name of the nuclide in a data file: the file's name without `.h5`.
pub fn nuclide_name(file: &str) -> (r: String)
    ensures
        r@ == (if is_data_file(file@) {
            file@.take(file@.len() - 3)
        } else {
            file@
        }),
{
    let n: usize = file.unicode_len();
    if n < 3 {
        return file.to_owned();
    }
    let ending = file.substring_char(n - 3, n);
    proof {
        assert(file@.skip(n - 3) =~= file@.subrange(n - 3, n as int));
        assert(file@.take(n - 3) =~= file@.subrange(0, n - 3));
    }
    if same_text(ending, ".h5") {
        file.substring_char(0, n - 3).to_owned()
    } else {
        file.to_owned()
    }
}

/// Entry `i` of a test matrix, in thousandths.
pub fn basis_entry(i: usize) -> (r: usize)
    requires
        i * 31 <= usize::MAX,
    ensures
        r == (i * 31) % 97,
        r < 97,
{
    (i * 31) % 97
}

/// Entry `i` of a test vector, in hundredths.
pub fn coefficient_entry(i: usize) -> (r: usize)
    requires
        i * 17 + 5 <= usize::MAX,
    ensures
        r == (i * 17 + 5) % 53,
        r < 53,
{
    (i * 17 + 5) % 53
}

/// The samples are those of one sequence of states: it starts at 42, each state is
/// the one before times the multiplier plus one, in 64 bits, and each sample is what
/// is left of a state's upper 31 bits after dividing by the number of energies. So a
/// longer list begins with the shorter one.
pub proof fn law_samples_follow_one_sequence(n: usize, n_e: usize, r: Vec<i32>, longer: usize, s: Vec<i32>) -> (states:
    Seq<int>)
    requires
        call_ensures(generate_random_indices, (n, n_e), r),
        call_ensures(generate_random_indices, (longer, n_e), s),
        n <= longer,
        n_e > 0,
    ensures
        states.len() == n + 1,
        states[0] == 42,
        forall|k: int|
            0 <= k < n ==> #[trigger] states[k + 1] == (states[k] * 6364136223846793005 + 1) % 0x1_0000_0000_0000_0000,
        forall|k: int| 0 <= k < n ==> #[trigger] r@[k] == (states[k + 1] / 0x2_0000_0000) % (n_e as int),
        r@ == s@.take(n as int),
{
    let states = Seq::new((n + 1) as nat, |k: int| sample_state(k as nat));
    assert forall|k: int| 0 <= k < n implies #[trigger] r@[k] == (states[k + 1] / 0x2_0000_0000) % (n_e as int) by {
        assert(r@[k] == sample_index(k, n_e as int));
    }
    assert forall|k: int| 0 <= k < n implies #[trigger] states[k + 1] == (states[k] * 6364136223846793005 + 1)
        % 0x1_0000_0000_0000_0000 by {
        assert(states[k + 1] == sample_state((k + 1) as nat));
        assert(states[k] == sample_state(k as nat));
    }
    assert forall|k: int| 0 <= k < n implies #[trigger] r@[k] == s@.take(n as int)[k] by {
        assert(r@[k] == sample_index(k, n_e as int));
        assert(s@[k] == sample_index(k, n_e as int));
    }
    assert(r@ =~= s@.take(n as int));
    states
}

/// The entry of a tensor for an energy, a temperature and a level is the cross section
/// of that level at that temperature and energy, and nothing where that is negative.
pub proof fn law_tensor_holds_every_cross_section(
    levels: &Vec<Vec<Vec<Binary64>>>,
    n_e: usize,
    n_t: usize,
    r: Vec<Binary64>,
    i: int,
    t: int,
    l: int,
)
    requires
        call_ensures(build_tensor, (levels, n_e, n_t), r),
        0 <= i < n_e,
        0 <= t < n_t,
        0 <= l < levels@.len(),
        !levels@[l]@[t]@[i].nan(),
    ensures
        r@.len() == n_e * n_t * levels@.len(),
        ({
            let x = r@[(i * n_t + t) * levels@.len() + l];
            let given = levels@[l]@[t]@[i];
            &&& !x.nan()
            &&& x.scaled() == if given.scaled() > 0 {
                given.scaled()
            } else {
                0
            }
        }),
{
    let n_l = levels@.len() as int;
    lemma_tensor_place(i, t, l, n_e as int, n_t as int, n_l);
    let k = tensor_place(i, t, l, n_t as int, n_l);
    assert((i * n_t + t) * n_l + l == k) by (nonlinear_arith)
        requires
            k == i * n_t * n_l + t * n_l + l,
    ;
    assert(is_tensor_entry(levels@, n_t as int, k, r@[k]));
    assert(!(Binary64 { bits: 0 }).nan() && (Binary64 { bits: 0 }).scaled() == 0);
}

/// The levels that are kept are the inelastic ones with data for some energy and some
/// temperature.
pub proof fn law_levels_with_data_are_kept(levels: &Vec<LevelRead>, r: Vec<LevelRead>, l: LevelRead, mt: u32, level: bool)
    requires
        call_ensures(keep_levels, (levels,), r),
        call_ensures(is_level, (mt,), level),
    ensures
        r@.contains(l) <==> levels@.contains(l) && 51 <= l.mt <= 91 && l.shape is Some && l.shape->0.energies > 0
            && l.shape->0.temperatures > 0,
        level <==> 51 <= mt && mt <= 91,
{
    broadcast use vstd::seq_lib::group_filter_ensures;

    let p = level_counts();
    if r@.contains(l) {
        let i = choose|i: int| 0 <= i < r@.len() && r@[i] == l;
        assert(p(r@[i]));
        levels@.lemma_filter_contains_rev(p, l);
    }
    if levels@.contains(l) && p(l) {
        let i = choose|i: int| 0 <= i < levels@.len() && levels@[i] == l;
        assert(p(levels@[i]));
    }
}

/// A rank and a number of energies are never raised above what there is; asking for
/// none means all energies.
pub proof fn law_requests_are_capped(
    asked: usize,
    full: usize,
    energies: usize,
    rank: usize,
    particles: usize,
    warm: usize,
)
    requires
        call_ensures(reduced_energies, (asked, full), energies),
        call_ensures(kept_rank, (asked, full), rank),
        call_ensures(warm_up, (particles,), warm),
    ensures
        asked == 0 || asked >= full ==> energies == full,
        0 < asked < full ==> energies == asked,
        rank <= full && rank <= asked && (rank == full || rank == asked),
        warm <= particles && warm <= 1000 && (warm == particles || warm == 1000),
{
}

/// The range spans the positive energies: none lies outside it, and both ends are
/// among them where there are any.
pub proof fn law_range_spans_positive_energies(energies: &Vec<Binary64>, r: EnergyRange, k: int)
    requires
        call_ensures(positive_range, (energies,), r),
        0 <= k < energies@.len(),
        !energies@[k].nan(),
        energies@[k].scaled() > 0,
        energies@[k].unsigned() < crate::binary64::INFINITY_BITS,
    ensures
        r.low.scaled() <= energies@[k].scaled() <= r.high.scaled(),
        energies@.contains(r.low),
        r.low.scaled() > 0,
{
    assert((Binary64 { bits: 0 }).less(energies@[k]));
    assert(spans(energies@, energies@.len() as int, r));
    if r.low.bits == crate::binary64::INFINITY_BITS {
        crate::binary64::lemma_scaled_magnitude_increases(
            energies@[k].unsigned(),
            crate::binary64::INFINITY_BITS as int,
        );
    }
}

/// The neighbours of an energy in a sorted list enclose it where it lies inside.
pub proof fn law_neighbours_enclose(energies: &Vec<Binary64>, e: Binary64, r: Neighbours)
    requires
        call_ensures(neighbours, (energies, e), r),
        energies@.len() > 0,
        crate::search::sorted(energies@),
        !e.nan(),
    ensures
        r.lower <= r.upper < energies@.len() && r.upper <= r.lower + 1,
        r.inside <==> energies@[0].scaled() < e.scaled() < energies@.last().scaled(),
        r.inside ==> r.upper == r.lower + 1 && energies@[r.lower as int].scaled() <= e.scaled()
            < energies@[r.upper as int].scaled(),
{
    let t = energies@;
    assert(t[0].at_most(t[t.len() - 1]));
    assert(t[0].at_most(t[r.lower as int]));
    assert(t[0].at_most(t[r.upper as int]));
    assert(t[r.lower as int].at_most(t[t.len() - 1]));
}

/// What the forms of a table cost: 8 bytes for each number kept. A level alone keeps
/// one number for each energy and each temperature; a joint decomposition keeps, for
/// each rank, one for each energy, temperature and level and one more; a table keeps
/// an energy and a value for each entry.
pub proof fn law_bytes_are_eight_for_each_number(
    n_l: usize,
    n_e: usize,
    n_t: usize,
    k: usize,
    per_level: usize,
    joint: usize,
    table: usize,
)
    requires
        call_ensures(per_level_bytes, (n_l, n_e, n_t), per_level),
        call_ensures(decomposition_bytes, (k, n_e, n_t, n_l), joint),
        call_ensures(table_bytes, (n_e, n_t), table),
    ensures
        per_level == 8 * (n_l * (n_e + n_t)),
        joint == 8 * (k * (n_e + n_t + n_l + 1)),
        table == 2 * (8 * (n_e * n_t)),
{
    assert(n_l * (n_e + n_t) * 8 == 8 * (n_l * (n_e + n_t))) by (nonlinear_arith);
    assert(k * (n_e + n_t + n_l + 1) * 8 == 8 * (k * (n_e + n_t + n_l + 1))) by (nonlinear_arith);
}

/// Of each row of a basis the first columns are kept, as many as the rank, each in its
/// row; of the coefficients the first rows are.
pub proof fn law_first_columns_are_kept(
    n_e: usize,
    rank: usize,
    full: usize,
    r: Vec<usize>,
    i: int,
    j: int,
    rows: &Vec<Binary64>,
    n_t: usize,
    kept: Vec<Binary64>,
    k: int,
)
    requires
        call_ensures(basis_sources, (n_e, rank, full), r),
        0 <= i < n_e,
        0 <= j < rank,
        call_ensures(kept_coefficients, (rows, rank, n_t), kept),
        rank * n_t <= rows@.len(),
        0 <= k < rank * n_t,
    ensures
        r@.len() == n_e * rank,
        r@[i * rank + j] == i * full + j,
        kept@.len() == rank * n_t,
        kept@[k] == rows@[k],
{
    let at = i * rank + j;
    lemma_fundamental_div_mod_converse(at, rank as int, i, j);
    assert(0 <= at < n_e * rank) by (nonlinear_arith)
        requires
            at == i * rank + j,
            0 <= i < n_e,
            0 <= j < rank,
    ;
    assert(r@[at] == (at / rank as int) * full + at % rank as int);
}

/// A nuclide adds its table to the total of tables, and its kernels to the totals of
/// the ranks from two up to its own.
pub proof fn law_nuclide_adds_to_its_ranks(m: &mut MemoryTotals, table: usize, kernels: &Vec<usize>, rank: usize, k: int)
    requires
        call_ensures(MemoryTotals::add_nuclide, (m, table, kernels, rank), ()),
        old(m).wf(),
        0 <= k < 6,
    ensures
        final(m).table == old(m).table + table,
        final(m).by_rank@.len() == 6,
        final(m).by_rank@[k] - old(m).by_rank@[k] == if k + 2 <= rank {
            kernels@[k] as int
        } else {
            0
        },
{
    assert(final(m).by_rank@[k] == final(m).by_rank@[k]);
}

/// The projection is the total at rank five, or at rank four where that is empty.
pub proof fn law_projection_is_at_rank_five(m: &MemoryTotals, r: usize)
    requires
        call_ensures(MemoryTotals::projected, (m,), r),
    ensures
        m.by_rank@[5 - 2] > 0 ==> r == m.by_rank@[5 - 2],
        m.by_rank@[5 - 2] == 0 ==> r == m.by_rank@[4 - 2],
{
}

/// The name of a nuclide is that of its file without the ending.
pub proof fn law_name_is_the_file_without_ending(file: &str, r: String, name: Seq<char>)
    requires
        call_ensures(nuclide_name, (file,), r),
    ensures
        file@ == name + ".h5"@ ==> r@ == name,
        (forall|stem: Seq<char>| file@ != #[trigger] (stem + ".h5"@)) ==> r@ == file@,
{
    reveal_strlit(".h5");
    if file@ == name + ".h5"@ {
        assert(file@.skip(file@.len() - 3) =~= ".h5"@);
        assert(file@.take(file@.len() - 3) =~= name);
    }
    if is_data_file(file@) {
        assert(file@ =~= file@.take(file@.len() - 3) + ".h5"@);
    }
}

/// The kernels that are benchmarked are the decompositions, all of them, in order.
pub proof fn law_decompositions_are_benchmarked(forms: &Vec<KernelForm>, r: Vec<usize>, i: int, k: int)
    requires
        call_ensures(benchmarked, (forms,), r),
        0 <= i < forms@.len(),
        0 <= k < r@.len(),
    ensures
        forms@[i] == KernelForm::Svd <==> exists|j: int| 0 <= j < r@.len() && #[trigger] r@[j] == i,
        k + 1 < r@.len() ==> r@[k] < r@[k + 1],
{
    assert(r@[k] == r@[k]);
    if forms@[i] == KernelForm::Svd {
        assert(is_benchmarked(forms@, i));
    }
    if exists|j: int| 0 <= j < r@.len() && #[trigger] r@[j] == i {
        let j = choose|j: int| 0 <= j < r@.len() && #[trigger] r@[j] == i;
        assert(is_benchmarked(forms@, r@[j] as int));
    }
}

} // verus!
