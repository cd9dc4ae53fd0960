//! Pulse-height spectra and the histograms that two devices are compared by.

use crate::binary64::{is_quotient, lemma_above_one, lemma_below_one, Binary64, EXPONENT_WEIGHT};
use vstd::arithmetic::power2::{lemma2_to64, pow2};
use vstd::prelude::*;

verus! {

/// `r` is the first bin of the range with the largest count; of a range without
/// counts, its lower end.
pub open spec fn is_peak(hist: Seq<u64>, lo: int, hi: int, r: int) -> bool {
    if forall|i: int| lo <= i < hi ==> #[trigger] hist[i] == 0 {
        r == lo
    } else {
        &&& lo <= r < hi
        &&& hist[r] > 0
        &&& forall|i: int| lo <= i < hi ==> #[trigger] hist[i] <= hist[r]
        &&& forall|i: int| lo <= i < r ==> #[trigger] hist[i] < hist[r]
    }
}

pub open spec fn smaller(a: int, b: int) -> int {
    if a < b {
        a
    } else {
        b
    }
}

/// Finds the peak among the bins from `lo` up to, but not with, `hi`.
pub fn argmax_bin_range(hist: &Vec<u64>, lo: usize, hi: usize) -> (r: usize)
    ensures
        is_peak(hist@, lo as int, smaller(hi as int, hist@.len() as int), r as int),
{
    let end: usize = if hi < hist.len() { hi } else { hist.len() };
    let mut best: usize = lo;
    let mut most: u64 = 0;
    let mut i: usize = lo;
    while i < end
        invariant
            lo <= i,
            i <= end || i == lo,
            end <= hist@.len(),
            most == 0 ==> best == lo && forall|k: int| lo <= k < i ==> #[trigger] hist@[k] == 0,
            most > 0 ==> lo <= best < i && best < end && hist@[best as int] == most,
            forall|k: int| lo <= k < i ==> #[trigger] hist@[k] <= most,
            most > 0 ==> forall|k: int| lo <= k < best ==> #[trigger] hist@[k] < most,
        decreases end - i,
    {
        if hist[i] > most {
            most = hist[i];
            best = i;
        }
        i += 1;
    }
    best
}

/// The drop from a bin to the next.
pub open spec fn drop_at(hist: Seq<u64>, i: int) -> int {
    hist[i] - hist[i + 1]
}

/// `r` is the first bin of the range after which the count falls most; where it
/// falls nowhere, the lower end of the range.
pub open spec fn is_edge(hist: Seq<u64>, lo: int, hi: int, r: int) -> bool {
    if forall|i: int| lo <= i < hi ==> #[trigger] drop_at(hist, i) <= 0 {
        r == lo
    } else {
        &&& lo <= r < hi
        &&& drop_at(hist, r) > 0
        &&& forall|i: int| lo <= i < hi ==> #[trigger] drop_at(hist, i) <= drop_at(hist, r)
        &&& forall|i: int| lo <= i < r ==> #[trigger] drop_at(hist, i) < drop_at(hist, r)
    }
}

/// Finds the sharpest drop among the bins from `lo` up to, but not with, `hi`.
pub fn find_compton_edge(hist: &Vec<u64>, lo: usize, hi: usize) -> (r: usize)
    requires
        hist@.len() > 0,
        forall|i: int| 0 <= i < hist@.len() ==> #[trigger] hist@[i] <= i64::MAX,
    ensures
        is_edge(hist@, lo as int, smaller(hi as int, hist@.len() - 1), r as int),
{
    let last: usize = hist.len() - 1;
    let end: usize = if hi < last { hi } else { last };
    let mut best: usize = lo;
    let mut steepest: i64 = 0;
    let mut i: usize = lo;
    while i < end
        invariant
            lo <= i,
            i <= end || i == lo,
            end < hist@.len(),
            forall|k: int| 0 <= k < hist@.len() ==> #[trigger] hist@[k] <= i64::MAX,
            steepest >= 0,
            steepest == 0 ==> best == lo && forall|k: int| lo <= k < i ==> #[trigger] drop_at(hist@, k) <= 0,
            steepest > 0 ==> lo <= best < i && best < end && drop_at(hist@, best as int) == steepest,
            forall|k: int| lo <= k < i ==> #[trigger] drop_at(hist@, k) <= steepest,
            steepest > 0 ==> forall|k: int| lo <= k < best ==> #[trigger] drop_at(hist@, k) < steepest,
        decreases end - i,
    {
        assert(hist@[i as int] <= i64::MAX && hist@[i + 1] <= i64::MAX);
        let drop: i64 = hist[i] as i64 - hist[i + 1] as i64;
        assert(drop == drop_at(hist@, i as int));
        if drop > steepest {
            steepest = drop;
            best = i;
        }
        i += 1;
    }
    best
}

/// How many of the first `n` things land in bin `b`.
pub open spec fn tally(place: spec_fn(int) -> Option<int>, n: nat, b: int) -> nat
    decreases n,
{
    if n == 0 {
        0
    } else {
        tally(place, (n - 1) as nat, b) + if place(n - 1) == Some(b) {
            1nat
        } else {
            0nat
        }
    }
}

/// How many of the first `n` things land anywhere.
pub open spec fn landed(place: spec_fn(int) -> Option<int>, n: nat) -> nat
    decreases n,
{
    if n == 0 {
        0
    } else {
        landed(place, (n - 1) as nat) + if place(n - 1) is Some {
            1nat
        } else {
            0nat
        }
    }
}

/// The sum of the first `m` counts.
pub open spec fn total(counts: Seq<u64>, m: nat) -> nat
    decreases m,
{
    if m == 0 {
        0
    } else {
        total(counts, (m - 1) as nat) + counts[m - 1] as nat
    }
}

spec fn tallied(place: spec_fn(int) -> Option<int>, n: nat, m: nat) -> nat
    decreases m,
{
    if m == 0 {
        0
    } else {
        tallied(place, n, (m - 1) as nat) + tally(place, n, m - 1)
    }
}

proof fn lemma_tallied_nothing(place: spec_fn(int) -> Option<int>, m: nat)
    ensures
        tallied(place, 0, m) == 0,
    decreases m,
{
    if m > 0 {
        lemma_tallied_nothing(place, (m - 1) as nat);
    }
}

proof fn lemma_tallied_step(place: spec_fn(int) -> Option<int>, n: nat, m: nat)
    requires
        n > 0,
    ensures
        tallied(place, n, m) == tallied(place, (n - 1) as nat, m) + (if place(n - 1) matches Some(b) && 0 <= b < m {
            1nat
        } else {
            0nat
        }),
    decreases m,
{
    if m > 0 {
        lemma_tallied_step(place, n, (m - 1) as nat);
    }
}

proof fn lemma_tallied_is_landed(place: spec_fn(int) -> Option<int>, n: nat, m: nat)
    requires
        forall|i: int| 0 <= i < n ==> (#[trigger] place(i) matches Some(b) ==> 0 <= b < m),
    ensures
        tallied(place, n, m) == landed(place, n),
    decreases n,
{
    if n == 0 {
        lemma_tallied_nothing(place, m);
    } else {
        lemma_tallied_is_landed(place, (n - 1) as nat, m);
        lemma_tallied_step(place, n, m);
        assert(place(n - 1) matches Some(b) ==> 0 <= b < m);
    }
}

proof fn lemma_total_is_tallied(place: spec_fn(int) -> Option<int>, n: nat, counts: Seq<u64>, m: nat)
    requires
        m <= counts.len(),
        is_tally(counts, place, n),
    ensures
        total(counts, m) == tallied(place, n, m),
    decreases m,
{
    if m > 0 {
        lemma_total_is_tallied(place, n, counts, (m - 1) as nat);
        assert(counts[m - 1] == tally(place, n, m - 1));
    }
}

/// The counts are those of the first `n` things.
pub open spec fn is_tally(counts: Seq<u64>, place: spec_fn(int) -> Option<int>, n: nat) -> bool {
    forall|b: int| 0 <= b < counts.len() ==> #[trigger] counts[b] == tally(place, n, b)
}

/// A histogram loses nothing: its counts add up to the number of things that
/// landed.
pub proof fn law_histogram_keeps_every_count(counts: Seq<u64>, place: spec_fn(int) -> Option<int>, n: nat)
    requires
        is_tally(counts, place, n),
        forall|i: int| 0 <= i < n ==> (#[trigger] place(i) matches Some(b) ==> 0 <= b < counts.len()),
    ensures
        total(counts, counts.len()) == landed(place, n),
{
    lemma_total_is_tallied(place, n, counts, counts.len());
    lemma_tallied_is_landed(place, n, counts.len());
}

fn zeros(n: usize) -> (r: Vec<u64>)
    ensures
        r@ == Seq::new(n as nat, |i: int| 0u64),
{
    let mut out: Vec<u64> = Vec::new();
    let mut i: usize = 0;
    while i < n
        invariant
            i <= n,
            out@ == Seq::new(i as nat, |k: int| 0u64),
        decreases n - i,
    {
        out.push(0);
        i += 1;
    }
    out
}

proof fn lemma_tally_bound(place: spec_fn(int) -> Option<int>, n: nat, b: int)
    ensures
        tally(place, n, b) <= n,
    decreases n,
{
    if n > 0 {
        lemma_tally_bound(place, (n - 1) as nat, b);
    }
}

/// Where value `i` lands: nowhere outside the range, else in its bin, and in the
/// last bin when rounding took it past the end.
pub open spec fn value_place(
    values: Seq<Binary64>,
    bins: Seq<usize>,
    lo: Binary64,
    hi: Binary64,
    n_bins: int,
) -> spec_fn(int) -> Option<int> {
    |i: int|
        if values[i].less(lo) || hi.at_most(values[i]) {
            None
        } else {
            Some(smaller(bins[i] as int, n_bins - 1))
        }
}

/// Counts values by bin. `bins` gives the bin that each value's share of the
/// range falls into.
pub fn histogram(values: &Vec<Binary64>, bins: &Vec<usize>, lo: Binary64, hi: Binary64, n_bins: usize) -> (r: Vec<
    u64,
>)
    requires
        n_bins > 0,
        bins@.len() == values@.len(),
    ensures
        r@.len() == n_bins,
        is_tally(r@, value_place(values@, bins@, lo, hi, n_bins as int), values@.len()),
{
    let ghost place = value_place(values@, bins@, lo, hi, n_bins as int);
    let mut counts = zeros(n_bins);
    let mut i: usize = 0;
    while i < values.len()
        invariant
            n_bins > 0,
            bins@.len() == values@.len(),
            place == value_place(values@, bins@, lo, hi, n_bins as int),
            i <= values@.len(),
            counts@.len() == n_bins,
            is_tally(counts@, place, i as nat),
        decreases values@.len() - i,
    {
        let v: Binary64 = values[i];
        if !(v.lt(lo) || hi.le(v)) {
            let raw: usize = bins[i];
            let b: usize = if raw >= n_bins { n_bins - 1 } else { raw };
            assert(place(i as int) == Some(b as int));
            proof {
                lemma_tally_bound(place, i as nat, b as int);
                assert(counts@[b as int] <= i);
            }
            let was: u64 = counts[b];
            let ghost before = counts@;
            counts.set(b, was + 1);
            proof {
                assert forall|k: int| 0 <= k < counts@.len() implies #[trigger] counts@[k] == tally(
                    place,
                    (i + 1) as nat,
                    k,
                ) by {
                    assert(before[k] == tally(place, i as nat, k));
                }
            }
        } else {
            proof {
                assert forall|k: int| 0 <= k < counts@.len() implies #[trigger] counts@[k] == tally(
                    place,
                    (i + 1) as nat,
                    k,
                ) by {
                    assert(place(i as int) is None);
                }
            }
        }
        i += 1;
    }
    counts
}

/// Where an absorption lands: in the bin of its shell, and past the last shell
/// where it names none.
pub open spec fn shell_place(struck: Seq<i32>, n_shells: int) -> spec_fn(int) -> Option<int> {
    |i: int|
        Some(
            if struck[i] < 0 {
                n_shells
            } else {
                smaller(struck[i] as int, n_shells)
            },
        )
}

/// Counts absorptions by the shell that they struck.
pub fn shell_counts(struck: &Vec<i32>, n_shells: usize) -> (r: Vec<u64>)
    requires
        n_shells < usize::MAX,
    ensures
        r@.len() == n_shells + 1,
        is_tally(r@, shell_place(struck@, n_shells as int), struck@.len()),
{
    let ghost place = shell_place(struck@, n_shells as int);
    let mut counts = zeros(n_shells + 1);
    let mut i: usize = 0;
    while i < struck.len()
        invariant
            n_shells < usize::MAX,
            place == shell_place(struck@, n_shells as int),
            i <= struck@.len(),
            counts@.len() == n_shells + 1,
            is_tally(counts@, place, i as nat),
        decreases struck@.len() - i,
    {
        let s: i32 = struck[i];
        let b: usize = if s < 0 || s as usize > n_shells { n_shells } else { s as usize };
        assert(place(i as int) == Some(b as int));
        proof {
            lemma_tally_bound(place, i as nat, b as int);
            assert(counts@[b as int] <= i);
        }
        let was: u64 = counts[b];
        let ghost before = counts@;
        counts.set(b, was + 1);
        proof {
            assert forall|k: int| 0 <= k < counts@.len() implies #[trigger] counts@[k] == tally(
                place,
                (i + 1) as nat,
                k,
            ) by {
                assert(before[k] == tally(place, i as nat, k));
            }
        }
        i += 1;
    }
    counts
}

/// The place of a struck shell in the list of shells; designators count from 1.
pub fn shell_index(designator: usize) -> (r: usize)
    ensures
        r == (if designator == 0 {
            0
        } else {
            designator - 1
        }),
{
    designator.saturating_sub(1)
}

/// A bin counts in a comparison when the two histograms have at least ten
/// entries in it together.
pub open spec fn bin_counts(a: Seq<u64>, b: Seq<u64>, i: int) -> bool {
    a[i] + b[i] >= 10
}

/// Every bin with enough counts is told, and no other.
pub open spec fn tells_bins(a: Seq<u64>, b: Seq<u64>, told: Seq<usize>) -> bool {
    &&& forall|i: int|
        0 <= i < a.len() && i < b.len() && #[trigger] bin_counts(a, b, i) ==> exists|k: int|
            0 <= k < told.len() && #[trigger] told[k] == i
    &&& forall|k: int| 0 <= k < told.len() ==> bin_counts(a, b, (#[trigger] told[k]) as int)
}

/// The bins that count in a comparison of two histograms, in order. Their number
/// is the number of degrees of freedom; with none, there is no comparison.
pub fn compared_bins(a: &Vec<u64>, b: &Vec<u64>) -> (r: Vec<usize>)
    ensures
        forall|k: int|
            0 <= k < r@.len() ==> (#[trigger] r@[k]) < smaller(a@.len() as int, b@.len() as int) && bin_counts(
                a@,
                b@,
                r@[k] as int,
            ),
        forall|k: int, l: int| 0 <= k < l < r@.len() ==> (#[trigger] r@[k]) < (#[trigger] r@[l]),
        forall|i: int|
            0 <= i < smaller(a@.len() as int, b@.len() as int) && #[trigger] bin_counts(a@, b@, i) ==> exists|k: int|
                0 <= k < r@.len() && r@[k] == i,
        tells_bins(a@, b@, r@),
{
    let n: usize = if a.len() < b.len() { a.len() } else { b.len() };
    let mut out: Vec<usize> = Vec::new();
    let mut i: usize = 0;
    while i < n
        invariant
            n == smaller(a@.len() as int, b@.len() as int),
            i <= n,
            forall|k: int|
                0 <= k < out@.len() ==> (#[trigger] out@[k]) < i && bin_counts(a@, b@, out@[k] as int),
            forall|k: int, l: int| 0 <= k < l < out@.len() ==> (#[trigger] out@[k]) < (#[trigger] out@[l]),
            forall|j: int|
                0 <= j < i && #[trigger] bin_counts(a@, b@, j) ==> exists|k: int| 0 <= k < out@.len() && out@[k] == j,
        decreases n - i,
    {
        let ghost before = out@;
        if a[i] >= 10 || b[i] >= 10 || a[i] + b[i] >= 10 {
            out.push(i);
        }
        proof {
            assert forall|j: int| 0 <= j < i + 1 && #[trigger] bin_counts(a@, b@, j) implies exists|k: int|
                0 <= k < out@.len() && out@[k] == j by {
                if j < i {
                    let k = choose|k: int| 0 <= k < before.len() && before[k] == j;
                    assert(out@[k] == j);
                } else {
                    assert(out@[out@.len() - 1] == j);
                }
            }
        }
        i += 1;
    }
    out
}

/// The bits of 5e-3, the accepted gap between two means.
pub const MEAN_GAP_BITS: u64 = 0x3f74_7ae1_47ae_147b;

/// The bits of 2, the accepted chi-squared per degree of freedom.
pub const CHI2_BITS: u64 = 0x4000_0000_0000_0000;

/// Two samples agree: their means lie close together, and so do their
/// histograms, where they could be compared at all.
pub open spec fn samples_agree(gap: Binary64, chi2: Binary64) -> bool {
    &&& gap.less(Binary64 { bits: MEAN_GAP_BITS })
    &&& chi2.nan() || chi2.less(Binary64 { bits: CHI2_BITS })
}

/// Judges two samples by the gap of their means, their chi-squared and, where it
/// was taken, the gap of their mean cosines.
pub fn judge(gap: Binary64, chi2: Binary64, cosine_gap: Option<Binary64>) -> (r: bool)
    ensures
        r == (samples_agree(gap, chi2) && (cosine_gap matches Some(g) ==> g.less(Binary64 { bits: MEAN_GAP_BITS }))),
{
    let limit = Binary64::from_bits(MEAN_GAP_BITS);
    let close = match cosine_gap {
        Some(g) => g.lt(limit),
        None => true,
    };
    gap.lt(limit) && (chi2.is_nan() || chi2.lt(Binary64::from_bits(CHI2_BITS))) && close
}

/// A pulse-height spectrum.
#[derive(Clone, Debug)]
pub struct PulseSpectrum {
    pub counts: Vec<u64>,
    pub detected: u64,
}

impl PulseSpectrum {
    pub open spec fn wf(&self) -> bool {
        &&& self.counts@.len() > 0
        &&& total(self.counts@, self.counts@.len()) == self.detected
    }

    /// An empty spectrum.
    pub fn new(n_bins: usize) -> (r: Self)
        requires
            n_bins > 0,
        ensures
            r.wf(),
            r.counts@ == Seq::new(n_bins as nat, |i: int| 0u64),
            r.detected == 0,
    {
        let counts = zeros(n_bins);
        proof {
            lemma_total_of_zeros(counts@, counts@.len());
        }
        PulseSpectrum { counts, detected: 0 }
    }

    /// Takes one history: a deposit of at least the threshold is detected and
    /// counted in its bin, one past the end in the last bin.
    pub fn record(&mut self, deposit: Binary64, threshold: Binary64, bin: usize)
        requires
            old(self).wf(),
            old(self).detected < u64::MAX,
        ensures
            final(self).wf(),
            final(self).counts@.len() == old(self).counts@.len(),
            threshold.at_most(deposit) ==> {
                let b = smaller(bin as int, old(self).counts@.len() - 1);
                &&& final(self).detected == old(self).detected + 1
                &&& final(self).counts@ == old(self).counts@.update(b, (old(self).counts@[b] + 1) as u64)
                &&& old(self).counts@[b] < u64::MAX
            },
            !threshold.at_most(deposit) ==> *final(self) == *old(self),
    {
        if threshold.le(deposit) {
            let n: usize = self.counts.len();
            let b: usize = if bin < n { bin } else { n - 1 };
            proof {
                lemma_total_covers(self.counts@, self.counts@.len(), b as int);
            }
            let was: u64 = self.counts[b];
            let ghost before = self.counts@;
            self.counts.set(b, was + 1);
            self.detected = self.detected + 1;
            proof {
                lemma_total_update(before, before.len(), b as int);
            }
        }
    }
}

proof fn lemma_total_of_zeros(counts: Seq<u64>, m: nat)
    requires
        m <= counts.len(),
        forall|i: int| 0 <= i < counts.len() ==> #[trigger] counts[i] == 0,
    ensures
        total(counts, m) == 0,
    decreases m,
{
    if m > 0 {
        lemma_total_of_zeros(counts, (m - 1) as nat);
    }
}

proof fn lemma_total_covers(counts: Seq<u64>, m: nat, b: int)
    requires
        0 <= b < m <= counts.len(),
    ensures
        counts[b] <= total(counts, m),
    decreases m,
{
    if b < m - 1 {
        lemma_total_covers(counts, (m - 1) as nat, b);
    }
}

proof fn lemma_total_update(counts: Seq<u64>, m: nat, b: int)
    requires
        m <= counts.len(),
        0 <= b < counts.len(),
        counts[b] < u64::MAX,
    ensures
        total(counts.update(b, (counts[b] + 1) as u64), m) == total(counts, m) + (if b < m {
            1nat
        } else {
            0nat
        }),
    decreases m,
{
    if m > 0 {
        lemma_total_update(counts, (m - 1) as nat, b);
    }
}

proof fn lemma_mean_gap()
    ensures
        is_quotient(Binary64 { bits: MEAN_GAP_BITS }, 1, 200),
{
    let x = Binary64 { bits: MEAN_GAP_BITS };
    assert(x.bits as int / EXPONENT_WEIGHT as int == 1015 && x.bits as int % EXPONENT_WEIGHT as int == 1261007895663739);
    let p = lemma_below_one(x, 8);
    lemma2_to64();
    assert(pow2(8) == 256);
    assert(pow2(8) * p == 256 * p);
}

proof fn lemma_chi2()
    ensures
        is_quotient(Binary64 { bits: CHI2_BITS }, 2, 1),
{
    let x = Binary64 { bits: CHI2_BITS };
    assert(x.bits as int / EXPONENT_WEIGHT as int == 1024 && x.bits as int % EXPONENT_WEIGHT as int == 0);
    let p = lemma_above_one(x, 1);
    lemma2_to64();
    assert(pow2(1) * p == 2 * p);
}

/// The peak of a range is its first bin with the most counts; a range without counts
/// gives its start.
pub proof fn law_peak_has_the_most_counts(hist: &Vec<u64>, lo: usize, hi: usize, r: usize, i: int)
    requires
        call_ensures(argmax_bin_range, (hist, lo, hi), r),
        lo <= i < hi,
        i < hist@.len(),
    ensures
        lo <= r,
        hist@[i] > 0 ==> r < hi && r < hist@.len() && hist@[i] <= hist@[r as int] && (i < r ==> hist@[i]
            < hist@[r as int]),
        (forall|k: int| lo <= k < hi && k < hist@.len() ==> #[trigger] hist@[k] == 0) ==> r == lo,
{
    let end = smaller(hi as int, hist@.len() as int);
    assert(is_peak(hist@, lo as int, end, r as int));
    if hist@[i] > 0 {
        assert(!(forall|k: int| lo <= k < end ==> #[trigger] hist@[k] == 0));
    }
}

/// The edge of a range is the first bin with the steepest fall to the next one.
pub proof fn law_edge_falls_the_most(hist: &Vec<u64>, lo: usize, hi: usize, r: usize, i: int)
    requires
        call_ensures(find_compton_edge, (hist, lo, hi), r),
        lo <= i < hi,
        i + 1 < hist@.len(),
    ensures
        lo <= r,
        hist@[i] > hist@[i + 1] ==> r < hi && r + 1 < hist@.len() && hist@[i] - hist@[i + 1] <= hist@[r as int]
            - hist@[r + 1] && (i < r ==> hist@[i] - hist@[i + 1] < hist@[r as int] - hist@[r + 1]),
        (forall|k: int| lo <= k < hi && k + 1 < hist@.len() ==> #[trigger] drop_at(hist@, k) <= 0) ==> r == lo,
{
    let end = smaller(hi as int, hist@.len() - 1);
    assert(is_edge(hist@, lo as int, end, r as int));
    assert(drop_at(hist@, i) == hist@[i] - hist@[i + 1]);
    assert(drop_at(hist@, r as int) == hist@[r as int] - hist@[r + 1]);
}

proof fn lemma_tally_agrees(p: spec_fn(int) -> Option<int>, q: spec_fn(int) -> Option<int>, n: nat, b: int)
    requires
        forall|i: int| 0 <= i < n ==> #[trigger] p(i) == q(i),
    ensures
        tally(p, n, b) == tally(q, n, b),
    decreases n,
{
    if n > 0 {
        lemma_tally_agrees(p, q, (n - 1) as nat, b);
        assert(p(n - 1) == q(n - 1));
    }
}

/// One more value adds one to the bin it falls in, the last bin where its number is
/// too large, and to no other; a value below the range or at its end adds nothing.
pub proof fn law_value_is_counted_in_its_bin(
    values: &Vec<Binary64>,
    bins: &Vec<usize>,
    longer: &Vec<Binary64>,
    more: &Vec<usize>,
    lo: Binary64,
    hi: Binary64,
    n_bins: usize,
    a: Vec<u64>,
    c: Vec<u64>,
    b: int,
)
    requires
        call_ensures(histogram, (values, bins, lo, hi, n_bins), a),
        call_ensures(histogram, (longer, more, lo, hi, n_bins), c),
        bins@.len() == values@.len(),
        longer@.len() == values@.len() + 1,
        more@.len() == longer@.len(),
        forall|i: int| 0 <= i < values@.len() ==> #[trigger] longer@[i] == values@[i],
        forall|i: int| 0 <= i < values@.len() ==> #[trigger] more@[i] == bins@[i],
        0 <= b < n_bins,
        !lo.nan() && !hi.nan() && !longer@.last().nan(),
    ensures
        a@.len() == n_bins && c@.len() == n_bins,
        ({
            let x = longer@.last().scaled();
            let counted = lo.scaled() <= x < hi.scaled();
            let at = if more@.last() < n_bins {
                more@.last() as int
            } else {
                n_bins - 1
            };
            c@[b] - a@[b] == if counted && at == b {
                1int
            } else {
                0
            }
        }),
        values@.len() == 0 ==> a@[b] == 0,
{
    let p = value_place(values@, bins@, lo, hi, n_bins as int);
    let q = value_place(longer@, more@, lo, hi, n_bins as int);
    let n = values@.len();
    assert(is_tally(a@, p, n));
    assert(is_tally(c@, q, n + 1));
    assert forall|i: int| 0 <= i < n implies #[trigger] q(i) == p(i) by {
        assert(longer@[i] == values@[i] && more@[i] == bins@[i]);
    }
    lemma_tally_agrees(q, p, n, b);
    assert(a@[b] == tally(p, n, b));
    assert(c@[b] == tally(q, n + 1, b));
    assert(longer@[n as int] == longer@.last() && more@[n as int] == more@.last());
}

/// One more struck shell adds one to its own count; a photon that struck none, or one
/// beyond the shells, is counted behind them.
pub proof fn law_shell_is_counted(
    struck: &Vec<i32>,
    longer: &Vec<i32>,
    s: i32,
    n_shells: usize,
    a: Vec<u64>,
    c: Vec<u64>,
    b: int,
)
    requires
        call_ensures(shell_counts, (struck, n_shells), a),
        call_ensures(shell_counts, (longer, n_shells), c),
        longer@ == struck@.push(s),
        0 <= b <= n_shells,
    ensures
        a@.len() == n_shells + 1 && c@.len() == n_shells + 1,
        c@[b] - a@[b] == if (0 <= s < n_shells && b == s) || ((s < 0 || s >= n_shells) && b == n_shells) {
            1int
        } else {
            0
        },
        struck@.len() == 0 ==> a@[b] == 0,
{
    let p = shell_place(struck@, n_shells as int);
    let q = shell_place(longer@, n_shells as int);
    let n = struck@.len();
    assert(is_tally(a@, p, n));
    assert(is_tally(c@, q, n + 1));
    assert forall|i: int| 0 <= i < n implies #[trigger] q(i) == p(i) by {}
    lemma_tally_agrees(q, p, n, b);
    assert(a@[b] == tally(p, n, b));
    assert(c@[b] == tally(q, n + 1, b));
}

/// Two samples agree exactly where their means differ by less than half a percent,
/// their reduced chi square is below two where there is one, and their cosines, where
/// they were compared, differ by less than half a percent too. Shells are numbered
/// from one in the data.
pub proof fn law_samples_agree_within_limits(
    gap: Binary64,
    chi2: Binary64,
    cosine: Option<Binary64>,
    r: bool,
    designator: usize,
    shell: usize,
)
    requires
        call_ensures(judge, (gap, chi2, cosine), r),
        call_ensures(shell_index, (designator,), shell),
    ensures
        is_quotient(Binary64 { bits: MEAN_GAP_BITS }, 1, 200),
        is_quotient(Binary64 { bits: CHI2_BITS }, 2, 1),
        r <==> !gap.nan() && gap.scaled() < (Binary64 { bits: MEAN_GAP_BITS }).scaled() && (chi2.nan() || chi2.scaled()
            < (Binary64 { bits: CHI2_BITS }).scaled()) && (cosine is Some ==> !cosine->0.nan() && cosine->0.scaled()
            < (Binary64 { bits: MEAN_GAP_BITS }).scaled()),
        designator > 0 ==> shell + 1 == designator,
{
    lemma_mean_gap();
    lemma_chi2();
}

/// A deposit of at least the threshold is detected and adds one to its bin, the last
/// one where its number is too large; any other changes nothing.
pub proof fn law_deposit_is_detected_above_the_threshold(
    s: &mut PulseSpectrum,
    deposit: Binary64,
    threshold: Binary64,
    bin: usize,
    b: int,
)
    requires
        call_ensures(PulseSpectrum::record, (s, deposit, threshold, bin), ()),
        old(s).wf(),
        0 <= b < old(s).counts@.len(),
    ensures
        ({
            let seen = !deposit.nan() && !threshold.nan() && threshold.scaled() <= deposit.scaled();
            let at = if bin < old(s).counts@.len() {
                bin as int
            } else {
                old(s).counts@.len() - 1
            };
            &&& final(s).detected - old(s).detected == if seen {
                1int
            } else {
                0
            }
            &&& final(s).counts@.len() == old(s).counts@.len()
            &&& final(s).counts@[b] - old(s).counts@[b] == if seen && b == at {
                1int
            } else {
                0
            }
        }),
{
}

/// The bins that are compared are those in which the two histograms together have ten
/// counts or more, all of them, in order.
pub proof fn law_bins_with_counts_are_compared(a: &Vec<u64>, b: &Vec<u64>, r: Vec<usize>, i: int, k: int)
    requires
        call_ensures(compared_bins, (a, b), r),
        0 <= i < a@.len(),
        i < b@.len(),
        0 <= k < r@.len(),
    ensures
        a@[i] + b@[i] >= 10 <==> exists|j: int| 0 <= j < r@.len() && #[trigger] r@[j] == i,
        k + 1 < r@.len() ==> r@[k] < r@[k + 1],
{
    assert(r@[k] == r@[k]);
    if a@[i] + b@[i] >= 10 {
        assert(bin_counts(a@, b@, i));
    }
    if exists|j: int| 0 <= j < r@.len() && #[trigger] r@[j] == i {
        let j = choose|j: int| 0 <= j < r@.len() && #[trigger] r@[j] == i;
        assert(bin_counts(a@, b@, r@[j] as int));
    }
}

/// A new spectrum has its bins and nothing in them.
pub proof fn law_new_spectrum_is_empty(n: usize, s: PulseSpectrum, i: int)
    requires
        call_ensures(PulseSpectrum::new, (n,), s),
        0 <= i < n,
    ensures
        s.counts@.len() == n && s.counts@[i] == 0 && s.detected == 0,
{
}

} // verus!
