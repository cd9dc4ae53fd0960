//! Comparing the cross sections and angles of two devices.

use crate::binary64::{is_quotient, lemma_below_one, Binary64, EXPONENT_WEIGHT};
use vstd::arithmetic::div_mod::lemma_fundamental_div_mod_converse;
use vstd::arithmetic::power2::{lemma2_to64, lemma_pow2_adds, pow2};
use vstd::prelude::*;

verus! {

/// Energies of a nuclide that angles are probed at.
pub const PROBED_ENERGIES: usize = 30;

/// Draws per probed energy.
pub const DRAWS: usize = 50;

/// Reactions that are compared at an energy.
pub const REACTIONS: usize = 6;

/// The bits of 1e-30, below which a cross section counts as zero.
pub const ZERO_BITS: u64 = 0x39b4_484b_feeb_c2a0;

/// The bits of 1e-6, the largest relative difference that is no mismatch.
pub const MISMATCH_BITS: u64 = 0x3eb0_c6f7_a0b5_ed8d;

/// The bits of 1e-4, below which the largest relative difference has to stay.
pub const XS_LIMIT_BITS: u64 = 0x3f1a_36e2_eb1c_432d;

/// The bits of 1e-10, below which the largest difference of angles has to stay.
pub const ANGLE_LIMIT_BITS: u64 = 0x3ddb_7cdf_d9d7_bdbb;

/// One angle to sample on both devices.
#[derive(Clone, Copy, Debug, PartialEq, Eq, Structural)]
pub struct AngleProbe {
    /// Entry of the energy table.
    pub entry: usize,
    /// Sample half way to the next entry, else at the entry itself.
    pub half_way: bool,
    /// The draw is the middle of this one of the equal parts of the unit interval.
    pub part: usize,
}

pub open spec fn probed(n_e: int) -> int {
    if n_e < PROBED_ENERGIES {
        n_e
    } else {
        PROBED_ENERGIES as int
    }
}

/// Probe `k` of a table of `n_e` energies.
pub open spec fn is_probe(n_e: int, k: int, p: AngleProbe) -> bool {
    &&& p.entry == k / DRAWS as int
    &&& p.half_way == (p.entry + 1 < n_e)
    &&& p.part == k % DRAWS as int
}

/// The angles to sample for a nuclide: all draws at the first energies.
pub fn angle_probes(n_e: usize) -> (r: Vec<AngleProbe>)
    ensures
        r@.len() == probed(n_e as int) * DRAWS,
        forall|k: int| 0 <= k < r@.len() ==> is_probe(n_e as int, k, #[trigger] r@[k]),
{
    let n: usize = if n_e < PROBED_ENERGIES { n_e } else { PROBED_ENERGIES };
    let mut out: Vec<AngleProbe> = Vec::new();
    let mut entry: usize = 0;
    while entry < n
        invariant
            n == probed(n_e as int),
            entry <= n,
            out@.len() == entry * DRAWS,
            forall|k: int| 0 <= k < out@.len() ==> is_probe(n_e as int, k, #[trigger] out@[k]),
        decreases n - entry,
    {
        let half_way = entry < n_e - 1;
        let mut part: usize = 0;
        while part < DRAWS
            invariant
                n == probed(n_e as int),
                entry < n,
                half_way == (entry + 1 < n_e),
                part <= DRAWS,
                out@.len() == entry * DRAWS + part,
                forall|k: int| 0 <= k < out@.len() ==> is_probe(n_e as int, k, #[trigger] out@[k]),
            decreases DRAWS - part,
        {
            proof {
                lemma_fundamental_div_mod_converse(
                    entry * DRAWS + part,
                    DRAWS as int,
                    entry as int,
                    part as int,
                );
            }
            out.push(AngleProbe { entry, half_way, part });
            part += 1;
        }
        entry += 1;
    }
    out
}

/// Place of reaction `r` at energy `e` in the device's answer.
pub fn reaction_place(e: usize, r: usize) -> (i: usize)
    requires
        r < REACTIONS,
        e * REACTIONS + r <= usize::MAX,
    ensures
        i == e * REACTIONS + r,
        i as int / REACTIONS as int == e,
        i as int % REACTIONS as int == r,
{
    proof {
        lemma_fundamental_div_mod_converse(e * REACTIONS + r, REACTIONS as int, e as int, r as int);
    }
    e * REACTIONS + r
}

/// How two cross sections differ.
#[derive(Clone, Copy, Debug, PartialEq, Eq, Structural)]
pub enum Difference {
    /// By their quotient: the host's one is not zero.
    Relative,
    /// Wholly: only the device's one is not zero.
    Whole,
    /// Not at all: both are zero.
    Nothing,
}

pub open spec fn above_zero(x: Binary64) -> bool {
    (Binary64 { bits: ZERO_BITS }).less(Binary64 { bits: x.unsigned() as u64 })
}

/// Says how two cross sections are to be compared.
pub fn difference_kind(host: Binary64, device: Binary64) -> (r: Difference)
    ensures
        r == (if above_zero(host) {
            Difference::Relative
        } else if above_zero(device) {
            Difference::Whole
        } else {
            Difference::Nothing
        }),
{
    let zero = Binary64::from_bits(ZERO_BITS);
    if zero.lt(host.abs()) {
        Difference::Relative
    } else if zero.lt(device.abs()) {
        Difference::Whole
    } else {
        Difference::Nothing
    }
}

/// `r` is the largest of some differences, none of which is below it: zero of
/// none, and one that is not a number is passed over.
pub open spec fn is_largest(differences: Seq<Binary64>, r: Binary64) -> bool {
    &&& !r.nan()
    &&& (Binary64 { bits: 0 }).at_most(r)
    &&& forall|i: int|
        0 <= i < differences.len() ==> (#[trigger] differences[i]).nan() || differences[i].at_most(r)
    &&& r.bits == 0 || exists|i: int| 0 <= i < differences.len() && #[trigger] differences[i] == r
}

/// Whether a relative difference is a mismatch.
pub open spec fn is_mismatch() -> spec_fn(Binary64) -> bool {
    |d: Binary64| (Binary64 { bits: MISMATCH_BITS }).less(d)
}

/// What comparing two devices came to.
#[derive(Clone, Copy, Debug, PartialEq, Eq, Structural)]
pub struct Comparison {
    pub largest: Binary64,
    pub mismatches: usize,
}

/// Finds the largest difference and counts the mismatches.
pub fn compare_all(differences: &Vec<Binary64>) -> (r: Comparison)
    ensures
        is_largest(differences@, r.largest),
        r.mismatches == differences@.filter(is_mismatch()).len(),
{
    let limit = Binary64::from_bits(MISMATCH_BITS);
    let mut largest = Binary64::zero();
    let mut mismatches: usize = 0;
    let mut i: usize = 0;
    proof {
        reveal(Seq::filter);
    }
    while i < differences.len()
        invariant
            limit.bits == MISMATCH_BITS,
            i <= differences@.len(),
            is_largest(differences@.take(i as int), largest),
            mismatches <= i,
            mismatches == differences@.take(i as int).filter(is_mismatch()).len(),
        decreases differences@.len() - i,
    {
        let d: Binary64 = differences[i];
        let ghost before = largest;
        let ghost old_seq = differences@.take(i as int);
        let ghost new_seq = differences@.take(i + 1);
        proof {
            crate::pipeline::lemma_filter_step(differences@, is_mismatch(), i as int);
            assert(new_seq =~= old_seq.push(d));
        }
        if limit.lt(d) {
            mismatches += 1;
        }
        largest = largest.max(d);
        proof {
            if largest != before {
                assert(new_seq[i as int] == largest);
            } else if largest.bits != 0 {
                let k = choose|k: int| 0 <= k < old_seq.len() && #[trigger] old_seq[k] == largest;
                assert(new_seq[k] == largest);
            }
            assert forall|k: int| 0 <= k < new_seq.len() implies (#[trigger] new_seq[k]).nan() || new_seq[k].at_most(
                largest,
            ) by {
                if k < i {
                    assert(old_seq[k].nan() || old_seq[k].at_most(before));
                }
            }
        }
        i += 1;
    }
    assert(differences@.take(i as int) =~= differences@);
    Comparison { largest, mismatches }
}

/// Whether the cross sections of two devices agree.
pub fn xs_agree(c: Comparison) -> (r: bool)
    ensures
        r == c.largest.less(Binary64 { bits: XS_LIMIT_BITS }),
{
    c.largest.lt(Binary64::from_bits(XS_LIMIT_BITS))
}

/// Whether the angles of two devices agree.
pub fn angles_agree(c: Comparison) -> (r: bool)
    ensures
        r == c.largest.less(Binary64 { bits: ANGLE_LIMIT_BITS }),
{
    c.largest.lt(Binary64::from_bits(ANGLE_LIMIT_BITS))
}

/// If no difference is a mismatch, the cross sections agree.
pub proof fn law_no_mismatch_means_agreement(differences: Seq<Binary64>, largest: Binary64)
    requires
        is_largest(differences, largest),
        forall|i: int| 0 <= i < differences.len() ==> !is_mismatch()(#[trigger] differences[i]),
    ensures
        largest.less(Binary64 { bits: XS_LIMIT_BITS }),
{
    let mismatch = Binary64 { bits: MISMATCH_BITS };
    let limit = Binary64 { bits: XS_LIMIT_BITS };
    crate::binary64::lemma_scaled_magnitude_increases(MISMATCH_BITS as int, XS_LIMIT_BITS as int);
    assert(mismatch.less(limit));
    crate::binary64::lemma_scaled_magnitude_increases(0, XS_LIMIT_BITS as int);
    if largest.bits != 0 {
        let i = choose|i: int| 0 <= i < differences.len() && #[trigger] differences[i] == largest;
        assert(!is_mismatch()(differences[i]));
    }
}

/// The grid place that the host reports: that of the first of three reactions
/// that the nuclide has, else the first place.
pub fn host_grid_place(elastic: Option<usize>, fission: Option<usize>, capture: Option<usize>) -> (r: usize)
    ensures
        r == (if elastic is Some {
            elastic->0
        } else if fission is Some {
            fission->0
        } else if capture is Some {
            capture->0
        } else {
            0
        }),
{
    if let Some(i) = elastic {
        i
    } else if let Some(i) = fission {
        i
    } else if let Some(i) = capture {
        i
    } else {
        0
    }
}

/// The bits of 1e-18, the largest difference between samples that are the same.
pub const SAME_SAMPLE_BITS: u64 = 0x3c32_725d_d1d2_43ac;

/// None of the first eight differences is above the limit.
pub open spec fn first_eight_same(differences: Seq<Binary64>) -> bool {
    forall|i: int|
        0 <= i < 8 && i < differences.len() ==> !(Binary64 { bits: SAME_SAMPLE_BITS }).less(#[trigger] differences[i])
}

/// Whether the first eight differences are all small enough for the samples to be
/// the same.
pub fn first_samples_same(differences: &Vec<Binary64>) -> (r: bool)
    ensures
        r == forall|i: int|
            0 <= i < 8 && i < differences@.len() ==> !(Binary64 { bits: SAME_SAMPLE_BITS }).less(
                #[trigger] differences@[i],
            ),
        r == first_eight_same(differences@),
{
    let limit = Binary64::from_bits(SAME_SAMPLE_BITS);
    let mut i: usize = 0;
    while i < 8 && i < differences.len()
        invariant
            limit.bits == SAME_SAMPLE_BITS,
            i <= 8,
            i <= differences@.len(),
            forall|k: int|
                0 <= k < i ==> !(Binary64 { bits: SAME_SAMPLE_BITS }).less(#[trigger] differences@[k]),
        decreases 8 - i,
    {
        if limit.lt(differences[i]) {
            return false;
        }
        i += 1;
    }
    true
}

proof fn lemma_zero()
    ensures
        is_quotient(Binary64 { bits: ZERO_BITS }, 1, 1000000000000000000000000000000),
{
    let x = Binary64 { bits: ZERO_BITS };
    assert(x.bits as int / EXPONENT_WEIGHT as int == 923 && x.bits as int % EXPONENT_WEIGHT as int == 1205391143453344);
    let p = lemma_below_one(x, 100);
    lemma2_to64();
    lemma_pow2_adds(64, 32);
    lemma_pow2_adds(96, 4);
    assert(pow2(100) == 1267650600228229401496703205376);
    assert(pow2(100) * p == 1267650600228229401496703205376 * p);
}

proof fn lemma_mismatch()
    ensures
        is_quotient(Binary64 { bits: MISMATCH_BITS }, 1, 1000000),
{
    let x = Binary64 { bits: MISMATCH_BITS };
    assert(x.bits as int / EXPONENT_WEIGHT as int == 1003 && x.bits as int % EXPONENT_WEIGHT as int == 218766855499149);
    let p = lemma_below_one(x, 20);
    lemma2_to64();
    assert(pow2(20) == 1048576);
    assert(pow2(20) * p == 1048576 * p);
}

proof fn lemma_xs_limit()
    ensures
        is_quotient(Binary64 { bits: XS_LIMIT_BITS }, 1, 10000),
{
    let x = Binary64 { bits: XS_LIMIT_BITS };
    assert(x.bits as int / EXPONENT_WEIGHT as int == 1009 && x.bits as int % EXPONENT_WEIGHT as int == 2875098002113325);
    let p = lemma_below_one(x, 14);
    lemma2_to64();
    assert(pow2(14) == 16384);
    assert(pow2(14) * p == 16384 * p);
}

proof fn lemma_angle_limit()
    ensures
        is_quotient(Binary64 { bits: ANGLE_LIMIT_BITS }, 1, 10000000000),
{
    let x = Binary64 { bits: ANGLE_LIMIT_BITS };
    assert(x.bits as int / EXPONENT_WEIGHT as int == 989 && x.bits as int % EXPONENT_WEIGHT as int == 3233525618163131);
    let p = lemma_below_one(x, 34);
    lemma2_to64();
    lemma_pow2_adds(32, 2);
    assert(pow2(34) == 17179869184);
    assert(pow2(34) * p == 17179869184 * p);
}

proof fn lemma_same_sample()
    ensures
        is_quotient(Binary64 { bits: SAME_SAMPLE_BITS }, 1, 1000000000000000000),
{
    let x = Binary64 { bits: SAME_SAMPLE_BITS };
    assert(x.bits as int / EXPONENT_WEIGHT as int == 963 && x.bits as int % EXPONENT_WEIGHT as int == 688697231164332);
    let p = lemma_below_one(x, 60);
    lemma2_to64();
    lemma_pow2_adds(32, 28);
    assert(pow2(60) == 1152921504606846976);
    assert(pow2(60) * p == 1152921504606846976 * p);
}

/// Every one of the first thirty energies is probed fifty times, half way to the next
/// one where there is one.
pub proof fn law_energies_are_probed_in_turn(n_e: usize, r: Vec<AngleProbe>, entry: int, part: int)
    requires
        call_ensures(angle_probes, (n_e,), r),
        0 <= entry < 30,
        entry < n_e,
        0 <= part < 50,
    ensures
        r@.len() == 50 * (if n_e < 30 {
            n_e as int
        } else {
            30
        }),
        r@[50 * entry + part].entry == entry,
        r@[50 * entry + part].part == part,
        r@[50 * entry + part].half_way <==> entry + 1 < n_e,
{
    let k = 50 * entry + part;
    assert(is_probe(n_e as int, k, r@[k]));
    assert(k / 50 == entry && k % 50 == part) by (nonlinear_arith)
        requires
            k == 50 * entry + part,
            0 <= part < 50,
    ;
}

/// The reactions of an energy stand together, six for each, none in the place of
/// another.
pub proof fn law_reactions_have_their_own_places(e1: usize, r1: usize, a: usize, e2: usize, r2: usize, b: usize)
    requires
        call_ensures(reaction_place, (e1, r1), a),
        call_ensures(reaction_place, (e2, r2), b),
        r1 < 6,
        r2 < 6,
    ensures
        a == b <==> e1 == e2 && r1 == r2,
        a == 6 * e1 + r1,
{
}

/// How large a number is, without its sign.
pub open spec fn size(x: Binary64) -> int {
    if x.scaled() < 0 {
        -x.scaled()
    } else {
        x.scaled()
    }
}

proof fn lemma_above_zero(x: Binary64)
    ensures
        above_zero(x) <==> !x.nan() && size(x) > (Binary64 { bits: ZERO_BITS }).scaled(),
{
    assert(!(Binary64 { bits: ZERO_BITS }).nan());
    if x.unsigned() > 0 {
        crate::binary64::lemma_scaled_magnitude_increases(0, x.unsigned());
    }
}

/// A difference is relative where the host has something, whole where only the device
/// has, and nothing where neither has; less than 1e-30 is nothing.
pub proof fn law_difference_is_relative_to_the_host(host: Binary64, device: Binary64, r: Difference)
    requires
        call_ensures(difference_kind, (host, device), r),
    ensures
        is_quotient(Binary64 { bits: ZERO_BITS }, 1, 1_000_000_000_000_000_000_000_000_000_000),
        ({
            let limit = (Binary64 { bits: ZERO_BITS }).scaled();
            let counts = |x: Binary64| !x.nan() && size(x) > limit;
            &&& r == Difference::Relative <==> counts(host)
            &&& r == Difference::Whole <==> !counts(host) && counts(device)
            &&& r == Difference::Nothing <==> !counts(host) && !counts(device)
        }),
{
    lemma_zero();
    lemma_above_zero(host);
    lemma_above_zero(device);
}

/// A comparison tells the largest of the differences and how many are above one in a
/// million: one more difference is counted exactly where it is.
pub proof fn law_comparison_counts_mismatches(
    differences: &Vec<Binary64>,
    longer: &Vec<Binary64>,
    d: Binary64,
    a: Comparison,
    b: Comparison,
    i: int,
)
    requires
        call_ensures(compare_all, (differences,), a),
        call_ensures(compare_all, (longer,), b),
        longer@ == differences@.push(d),
        0 <= i < longer@.len(),
    ensures
        is_quotient(Binary64 { bits: MISMATCH_BITS }, 1, 1_000_000),
        b.mismatches - a.mismatches == if !d.nan() && d.scaled() > (Binary64 { bits: MISMATCH_BITS }).scaled() {
            1int
        } else {
            0
        },
        !b.largest.nan() && b.largest.scaled() >= 0,
        longer@[i].nan() || longer@[i].scaled() <= b.largest.scaled(),
        b.largest.scaled() == 0 || longer@.contains(b.largest),
        differences@.len() == 0 ==> a.mismatches == 0,
{
    lemma_mismatch();
    reveal(Seq::filter);
    assert(longer@.drop_last() =~= differences@);
    assert(longer@.last() == d);
    assert(is_largest(longer@, b.largest));
    assert(!(Binary64 { bits: 0 }).nan() && (Binary64 { bits: 0 }).scaled() == 0);
}

/// Cross sections agree below one in ten thousand, angles below one in ten billion.
pub proof fn law_agreement_is_below_the_limits(c: Comparison, xs: bool, angles: bool)
    requires
        call_ensures(xs_agree, (c,), xs),
        call_ensures(angles_agree, (c,), angles),
    ensures
        is_quotient(Binary64 { bits: XS_LIMIT_BITS }, 1, 10_000),
        is_quotient(Binary64 { bits: ANGLE_LIMIT_BITS }, 1, 10_000_000_000),
        xs <==> !c.largest.nan() && c.largest.scaled() < (Binary64 { bits: XS_LIMIT_BITS }).scaled(),
        angles <==> !c.largest.nan() && c.largest.scaled() < (Binary64 { bits: ANGLE_LIMIT_BITS }).scaled(),
{
    lemma_xs_limit();
    lemma_angle_limit();
}

/// The host's grid is that of the first reaction that has one: elastic, fission,
/// capture, in that order.
pub proof fn law_host_grid_is_of_the_first_reaction(
    elastic: Option<usize>,
    fission: Option<usize>,
    capture: Option<usize>,
    r: usize,
)
    requires
        call_ensures(host_grid_place, (elastic, fission, capture), r),
    ensures
        elastic is Some ==> elastic == Some(r),
        elastic is None && fission is Some ==> fission == Some(r),
        elastic is None && fission is None && capture is Some ==> capture == Some(r),
        elastic is None && fission is None && capture is None ==> r == 0,
{
}

/// Samples are the same where none of the first eight differences is above 1e-18.
pub proof fn law_first_eight_samples_are_compared(differences: &Vec<Binary64>, r: bool, i: int)
    requires
        call_ensures(first_samples_same, (differences,), r),
        0 <= i < 8,
        i < differences@.len(),
        !differences@[i].nan(),
    ensures
        is_quotient(Binary64 { bits: SAME_SAMPLE_BITS }, 1, 1_000_000_000_000_000_000),
        r ==> differences@[i].scaled() <= (Binary64 { bits: SAME_SAMPLE_BITS }).scaled(),
        !r ==> exists|k: int|
            0 <= k < 8 && k < differences@.len() && (Binary64 { bits: SAME_SAMPLE_BITS }).less(
                #[trigger] differences@[k],
            ),
{
    lemma_same_sample();
}

} // verus!
