//! Following single photons, and the profile of an adjoint run.

use crate::binary64::{is_max, is_quotient, lemma_above_one, Binary64, EXPONENT_WEIGHT};
use crate::text::{append_decimal, decimal};
use vstd::arithmetic::power2::{lemma2_to64, pow2};
use vstd::prelude::*;

verus! {

/// Collisions after which a photon is given up.
pub const MAX_COLLISIONS: u32 = 64;

/// Draws after which a collision keeps its last one.
pub const MAX_DRAWS: u32 = 256;

/// The bits of 1000, the energy at which a photon stops.
pub const CUTOFF_BITS: u64 = 0x408f_4000_0000_0000;

/// A photon that scatters until it stops.
#[derive(Clone, Copy, Debug, PartialEq, Eq, Structural)]
pub struct PhotonHistory {
    pub energy: Binary64,
    pub collisions: u32,
    /// Draws of the collision at hand.
    pub draws: u32,
}

impl PhotonHistory {
    pub open spec fn wf(&self) -> bool {
        self.collisions <= MAX_COLLISIONS && self.draws < MAX_DRAWS
    }

    pub open spec fn moving(&self) -> bool {
        (Binary64 { bits: CUTOFF_BITS }).less(self.energy) && self.collisions < MAX_COLLISIONS
    }

    /// What is left to do: collisions first, then draws.
    pub open spec fn work_left(&self) -> int {
        (MAX_COLLISIONS - self.collisions) * MAX_DRAWS - self.draws
    }

    pub fn new(energy: Binary64) -> (r: Self)
        ensures
            r.wf(),
            r.energy == energy,
            r.collisions == 0,
            r.draws == 0,
    {
        PhotonHistory { energy, collisions: 0, draws: 0 }
    }

    /// Whether the photon scatters once more.
    pub fn goes_on(&self) -> (r: bool)
        ensures
            r == self.moving(),
    {
        Binary64::from_bits(CUTOFF_BITS).lt(self.energy) && self.collisions < MAX_COLLISIONS
    }

    /// Takes one draw. It ends the collision when it is accepted or the last one,
    /// and the photon goes on with the energy that it gives; else another draw
    /// follows. Says whether the collision ended.
    pub fn draw(&mut self, xi: Binary64, acceptance: Binary64, energy: Binary64) -> (r: bool)
        requires
            old(self).wf(),
            old(self).moving(),
        ensures
            final(self).wf(),
            r == (xi.less(acceptance) || old(self).draws == MAX_DRAWS - 1),
            r ==> final(self).energy == energy && final(self).collisions == old(self).collisions + 1 && final(self).draws == 0,
            !r ==> final(self).energy == old(self).energy && final(self).collisions == old(self).collisions && final(self).draws == old(self).draws + 1,
    {
        let ended = xi.lt(acceptance) || self.draws == MAX_DRAWS - 1;
        if ended {
            self.energy = energy;
            self.collisions = self.collisions + 1;
            self.draws = 0;
        } else {
            self.draws = self.draws + 1;
        }
        ended
    }
}

/// Every draw leaves less to do, so a photon takes at most 64 times 256 draws.
pub proof fn law_photon_histories_end(before: PhotonHistory, after: PhotonHistory, ended: bool)
    requires
        before.wf(),
        before.moving(),
        after.wf(),
        ended ==> after.collisions == before.collisions + 1 && after.draws == 0,
        !ended ==> after.collisions == before.collisions && after.draws == before.draws + 1,
    ensures
        0 <= after.work_left() < before.work_left() <= 64 * 256,
{
}

/// The collisions of all photons.
pub open spec fn sum_of(counts: Seq<i32>, n: nat) -> int
    decreases n,
{
    if n == 0 {
        0
    } else {
        sum_of(counts, (n - 1) as nat) + counts[n - 1]
    }
}

proof fn lemma_sum_grows(counts: Seq<i32>, m: nat, n: nat)
    requires
        m <= n <= counts.len(),
        forall|i: int| 0 <= i < counts.len() ==> #[trigger] counts[i] >= 0,
    ensures
        0 <= sum_of(counts, m) <= sum_of(counts, n),
    decreases n,
{
    if m < n {
        lemma_sum_grows(counts, m, (n - 1) as nat);
    } else if m > 0 {
        lemma_sum_grows(counts, (m - 1) as nat, (n - 1) as nat);
    }
}

/// Adds up the collisions of all photons.
pub fn total_collisions(counts: &Vec<i32>) -> (r: u64)
    requires
        sum_of(counts@, counts@.len()) <= u64::MAX,
        forall|i: int| 0 <= i < counts@.len() ==> #[trigger] counts@[i] >= 0,
    ensures
        r == sum_of(counts@, counts@.len()),
{
    let mut sum: u64 = 0;
    let mut i: usize = 0;
    while i < counts.len()
        invariant
            sum_of(counts@, counts@.len()) <= u64::MAX,
            forall|k: int| 0 <= k < counts@.len() ==> #[trigger] counts@[k] >= 0,
            i <= counts@.len(),
            sum == sum_of(counts@, i as nat),
        decreases counts@.len() - i,
    {
        proof {
            lemma_sum_grows(counts@, (i + 1) as nat, counts@.len());
        }
        sum = sum + counts[i] as u64;
        i += 1;
    }
    sum
}

/// The places of the flux of layer `iz` in a map that holds `n_e` energies per
/// layer.
pub fn layer_places(iz: usize, n_e: usize) -> (r: Vec<usize>)
    requires
        (iz + 1) * n_e <= usize::MAX,
    ensures
        r@.len() == n_e,
        forall|ie: int| 0 <= ie < n_e ==> #[trigger] r@[ie] == iz * n_e + ie,
{
    let mut out: Vec<usize> = Vec::new();
    let mut ie: usize = 0;
    assert((iz + 1) * n_e == iz * n_e + n_e) by (nonlinear_arith);
    assert(iz * n_e >= 0) by (nonlinear_arith)
        requires
            iz >= 0,
            n_e >= 0,
    ;
    let base: usize = iz * n_e;
    while ie < n_e
        invariant
            ie <= n_e,
            base == iz * n_e,
            base + n_e <= usize::MAX,
            out@.len() == ie,
            forall|k: int| 0 <= k < ie ==> #[trigger] out@[k] == iz * n_e + k,
        decreases n_e - ie,
    {
        out.push(base + ie);
        ie += 1;
    }
    out
}

/// `r` is the largest of some numbers and zero.
pub open spec fn is_peak_flux(profile: Seq<Binary64>, n: int, r: Binary64) -> bool {
    &&& !r.nan()
    &&& (Binary64 { bits: 0 }).at_most(r)
    &&& forall|i: int| 0 <= i < n ==> (#[trigger] profile[i]).nan() || profile[i].at_most(r)
    &&& r.bits == 0 || exists|i: int| 0 <= i < n && #[trigger] profile[i] == r
}

/// No value is positive.
pub open spec fn none_positive(profile: Seq<Binary64>) -> bool {
    forall|i: int| 0 <= i < profile.len() ==> !(Binary64 { bits: 0 }).less(#[trigger] profile[i])
}

/// The largest flux of a profile. A map without any cannot be used.
pub fn peak_flux(profile: &Vec<Binary64>) -> (r: Option<Binary64>)
    ensures
        r matches Some(p) ==> is_peak_flux(profile@, profile@.len() as int, p) && (Binary64 { bits: 0 }).less(p),
        r is None ==> forall|i: int|
            0 <= i < profile@.len() ==> !(Binary64 { bits: 0 }).less(#[trigger] profile@[i]),
        r is None ==> none_positive(profile@),
{
    let zero = Binary64::zero();
    let mut peak = zero;
    let mut i: usize = 0;
    while i < profile.len()
        invariant
            zero.bits == 0,
            i <= profile@.len(),
            is_peak_flux(profile@, i as int, peak),
        decreases profile@.len() - i,
    {
        let ghost before = peak;
        peak = peak.max(profile[i]);
        proof {
            assert(is_max(before, profile@[i as int], peak));
            if peak == before && peak.bits != 0 {
                let k = choose|k: int| 0 <= k < i && #[trigger] profile@[k] == peak;
                assert(0 <= k < i + 1 && profile@[k] == peak);
            } else if peak.bits != 0 {
                assert(profile@[i as int] == peak);
            }
        }
        i += 1;
    }
    if peak.le(zero) {
        None
    } else {
        Some(peak)
    }
}

/// Numbers from `i` on, with commas between them.
pub open spec fn comma_text(counts: Seq<u64>, n: int) -> Seq<char>
    decreases n,
{
    if n <= 0 {
        Seq::empty()
    } else if n == 1 {
        decimal(counts[0] as int)
    } else {
        comma_text(counts, n - 1) + ","@ + decimal(counts[n - 1] as int)
    }
}

/// Writes numbers with commas between them.
pub fn counts_text(counts: &Vec<u64>) -> (r: String)
    ensures
        r@ == comma_text(counts@, counts@.len() as int),
{
    let mut s: String = "".to_owned();
    let mut i: usize = 0;
    proof {
        reveal_strlit("");
        assert(s@ =~= comma_text(counts@, 0));
    }
    while i < counts.len()
        invariant
            i <= counts@.len(),
            s@ == comma_text(counts@, i as int),
        decreases counts@.len() - i,
    {
        let ghost before = s@;
        if i > 0 {
            s.append(",");
        }
        append_decimal(&mut s, counts[i]);
        proof {
            if i == 0 {
                assert(s@ =~= decimal(counts@[0] as int));
            }
        }
        i += 1;
    }
    s
}

/// The text of an importance map. `thickness` is its thickness as text.
pub fn map_text(thickness: &str, bins: usize, counts: &Vec<u64>) -> (r: String)
    ensures
        r@ == "{\"thickness_cm\":"@ + thickness@ + ",\"n_z_bins\":"@ + decimal(bins as int) + ",\"counts\":["@
            + comma_text(counts@, counts@.len() as int) + "]}"@,
{
    let mut s: String = "{\"thickness_cm\":".to_owned();
    s.append(thickness);
    s.append(",\"n_z_bins\":");
    append_decimal(&mut s, bins as u64);
    s.append(",\"counts\":[");
    let list = counts_text(counts);
    s.append(list.as_str());
    s.append("]}");
    s
}

/// A draw of a photon history: the photon collides where the number lies below the
/// acceptance, or at the last draw it is allowed, and then has its new energy;
/// otherwise it keeps its energy and one more draw is counted. It goes on while it is
/// above one keV and has fewer than 64 collisions.
pub proof fn law_photon_collides_or_draws_again(
    h: &mut PhotonHistory,
    xi: Binary64,
    acceptance: Binary64,
    energy: Binary64,
    r: bool,
)
    requires
        call_ensures(PhotonHistory::draw, (h, xi, acceptance, energy), r),
        old(h).wf(),
    ensures
        r <==> (!xi.nan() && !acceptance.nan() && xi.scaled() < acceptance.scaled()) || old(h).draws == 255,
        r ==> final(h).energy == energy && final(h).collisions == old(h).collisions + 1 && final(h).draws == 0,
        !r ==> final(h).energy == old(h).energy && final(h).collisions == old(h).collisions && final(h).draws
            == old(h).draws + 1,
{
}

/// A photon goes on exactly while its energy is above the cutoff and its collisions
/// are fewer than the limit; a new one has neither collided nor drawn.
pub proof fn law_photon_goes_on_above_the_cutoff(h: &PhotonHistory, r: bool, energy: Binary64, fresh: PhotonHistory)
    requires
        call_ensures(PhotonHistory::goes_on, (h,), r),
        call_ensures(PhotonHistory::new, (energy,), fresh),
    ensures
        r <==> h.collisions < 64 && !h.energy.nan() && h.energy.scaled() > (Binary64 { bits: CUTOFF_BITS }).scaled(),
        is_quotient(Binary64 { bits: CUTOFF_BITS }, 1000, 1),
        fresh == (PhotonHistory { energy, collisions: 0, draws: 0 }),
{
    lemma_cutoff();
}

/// A total of collisions grows by each count that is added.
pub proof fn law_collisions_add_up(counts: &Vec<i32>, longer: &Vec<i32>, c: i32, a: u64, b: u64)
    requires
        call_ensures(total_collisions, (counts,), a),
        call_ensures(total_collisions, (longer,), b),
        longer@ == counts@.push(c),
    ensures
        b == a + c,
        counts@.len() == 0 ==> a == 0,
{
    lemma_sum_of_push(counts@, c, counts@.len());
}

proof fn lemma_sum_of_push(counts: Seq<i32>, c: i32, n: nat)
    requires
        n <= counts.len(),
    ensures
        sum_of(counts.push(c), n) == sum_of(counts, n),
    decreases n,
{
    if n > 0 {
        lemma_sum_of_push(counts, c, (n - 1) as nat);
        assert(counts.push(c)[n - 1] == counts[n - 1]);
    }
}

/// The places of a layer are its own: one for each energy, in order, and none of
/// another layer.
pub proof fn law_layers_do_not_overlap(a: usize, b: usize, n_e: usize, ra: Vec<usize>, rb: Vec<usize>, i: int, j: int)
    requires
        call_ensures(layer_places, (a, n_e), ra),
        call_ensures(layer_places, (b, n_e), rb),
        0 <= i < n_e,
        0 <= j < n_e,
    ensures
        ra@.len() == n_e,
        ra@[i] == rb@[j] <==> a == b && i == j,
        ra@[i] == ra@[0] + i,
{
    assert(ra@[i] == a * n_e + i && rb@[j] == b * n_e + j && ra@[0] == a * n_e);
    let (x, y, n) = (a as int, b as int, n_e as int);
    if x < y {
        assert(x * n + n <= y * n) by (nonlinear_arith)
            requires
                x < y,
                n >= 0,
        ;
    } else if y < x {
        assert(y * n + n <= x * n) by (nonlinear_arith)
            requires
                y < x,
                n >= 0,
        ;
    }
}

proof fn lemma_cutoff()
    ensures
        is_quotient(Binary64 { bits: CUTOFF_BITS }, 1000, 1),
{
    let x = Binary64 { bits: CUTOFF_BITS };
    assert(x.bits as int / EXPONENT_WEIGHT as int == 1032 && x.bits as int % EXPONENT_WEIGHT as int == 4292493394837504);
    let p = lemma_above_one(x, 9);
    lemma2_to64();
    assert(pow2(9) * p == 512 * p);
}

/// The peak of a profile is its largest positive value, and there is none where no value
/// is positive.
pub proof fn law_peak_is_the_largest_value(profile: &Vec<Binary64>, r: Option<Binary64>, i: int)
    requires
        call_ensures(peak_flux, (profile,), r),
        0 <= i < profile@.len(),
        !profile@[i].nan(),
    ensures
        r matches Some(p) ==> p.scaled() > 0 && profile@[i].scaled() <= p.scaled() && profile@.contains(p),
        profile@[i].scaled() > 0 ==> r is Some,
{
    if let Some(p) = r {
        assert(is_peak_flux(profile@, profile@.len() as int, p));
        let k = choose|k: int| 0 <= k < profile@.len() && #[trigger] profile@[k] == p;
        assert(profile@[k] == p);
        assert(profile@[i].nan() || profile@[i].at_most(p));
    }
}

/// Counts are written one behind the other with commas between them.
pub proof fn law_counts_are_written_with_commas(
    counts: &Vec<u64>,
    longer: &Vec<u64>,
    c: u64,
    a: String,
    b: String,
)
    requires
        call_ensures(counts_text, (counts,), a),
        call_ensures(counts_text, (longer,), b),
        longer@ == counts@.push(c),
    ensures
        counts@.len() == 0 ==> a@.len() == 0 && b@ == decimal(c as int),
        counts@.len() > 0 ==> b@ == a@ + ","@ + decimal(c as int),
{
    lemma_comma_text_push(counts@, c, counts@.len() as int);
    reveal_with_fuel(comma_text, 2);
    if counts@.len() == 0 {
        assert(longer@[0] == c);
    }
}

proof fn lemma_comma_text_push(counts: Seq<u64>, c: u64, n: int)
    requires
        0 <= n <= counts.len(),
    ensures
        comma_text(counts.push(c), n) == comma_text(counts, n),
    decreases n,
{
    if n > 0 {
        lemma_comma_text_push(counts, c, n - 1);
        assert(counts.push(c)[n - 1] == counts[n - 1]);
        assert(counts.push(c)[0] == counts[0]);
    }
}

} // verus!
