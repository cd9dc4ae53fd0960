//! Looking numbers up in sorted tables.

use crate::binary64::{is_quotient, lemma_below_one, Binary64, EXPONENT_WEIGHT};
use vstd::arithmetic::power2::{lemma2_to64, lemma_pow2_adds, pow2};
use vstd::prelude::*;

verus! {

/// The bits of 1e-15.
pub const FLAT_GAP_BITS: u64 = 0x3cd2_03af_9ee7_5616;

/// The bits of 1e-30.
pub const FLAT_DENSITY_BITS: u64 = 0x39b4_484b_feeb_c2a0;

/// The bits of 1e-14.
pub const FLAT_CURVE_BITS: u64 = 0x3d06_849b_86a1_2b9b;

/// No number stands before a smaller one.
pub open spec fn sorted(table: Seq<Binary64>) -> bool {
    forall|i: int, j: int| 0 <= i <= j < table.len() ==> (#[trigger] table[i]).at_most(#[trigger] table[j])
}

/// Every number is smaller than the next.
pub open spec fn rising(table: Seq<Binary64>) -> bool {
    &&& sorted(table)
    &&& forall|i: int, j: int| 0 <= i < j < table.len() ==> (#[trigger] table[i]).less(#[trigger] table[j])
}

/// Whether no number stands before a smaller one.
pub fn sorted_table(table: &Vec<Binary64>) -> (r: bool)
    ensures
        r == sorted(table@),
{
    let mut i: usize = 0;
    while i < table.len()
        invariant
            i <= table@.len(),
            sorted(table@.take(i as int)),
        decreases table@.len() - i,
    {
        let before: usize = if i == 0 { 0 } else { i - 1 };
        if !table[before].le(table[i]) {
            assert(!table@[before as int].at_most(table@[i as int]));
            return false;
        }
        proof {
            let old_part = table@.take(i as int);
            let new_part = table@.take(i + 1);
            assert forall|a: int, b: int| 0 <= a <= b < new_part.len() implies (#[trigger] new_part[a]).at_most(
                #[trigger] new_part[b],
            ) by {
                if b < i {
                    assert(old_part[a].at_most(old_part[b]));
                } else if a < i {
                    assert(old_part[a].at_most(old_part[i - 1]));
                }
            }
        }
        i += 1;
    }
    assert(table@.take(i as int) =~= table@);
    true
}

/// Interval `lo` of the table is the one that `x` falls into; what lies outside
/// the table falls into the first or the last interval.
pub open spec fn is_interval(table: Seq<Binary64>, x: Binary64, lo: int) -> bool {
    &&& 0 <= lo < table.len() - 1
    &&& lo > 0 ==> table[lo].at_most(x)
    &&& lo < table.len() - 2 ==> !table[lo + 1].at_most(x)
}

/// The interval of a table that a number falls into.
pub fn interval_of(table: &Vec<Binary64>, x: Binary64) -> (r: usize)
    requires
        table@.len() >= 2,
    ensures
        is_interval(table@, x, r as int),
{
    let mut lo: usize = 0;
    let mut hi: usize = table.len() - 1;
    while hi - lo > 1
        invariant
            lo < hi < table@.len(),
            lo > 0 ==> table@[lo as int].at_most(x),
            hi < table@.len() - 1 ==> !table@[hi as int].at_most(x),
        decreases hi - lo,
    {
        let mid: usize = lo + (hi - lo) / 2;
        if table[mid].le(x) {
            lo = mid;
        } else {
            hi = mid;
        }
    }
    lo
}

/// In a sorted table a number falls into one interval only.
pub proof fn law_interval_is_unique(table: Seq<Binary64>, x: Binary64, a: int, b: int)
    requires
        sorted(table),
        is_interval(table, x, a),
        is_interval(table, x, b),
    ensures
        a == b,
{
    if a < b {
        assert(table[a + 1].at_most(table[b]));
    } else if b < a {
        assert(table[b + 1].at_most(table[a]));
    }
}

/// `i` is the place of `x` on an energy grid: the end that it does not get past,
/// else the lower end of its interval.
pub open spec fn is_grid_index(grid: Seq<Binary64>, x: Binary64, i: int) -> bool {
    if x.at_most(grid[0]) {
        i == 0
    } else if grid[grid.len() - 1].at_most(x) {
        i == grid.len() - 1
    } else if grid.len() < 2 {
        i == 0
    } else {
        is_interval(grid, x, i)
    }
}

/// The place of a number on an energy grid.
pub fn grid_index(grid: &Vec<Binary64>, x: Binary64) -> (r: usize)
    requires
        grid@.len() > 0,
    ensures
        r < grid@.len(),
        is_grid_index(grid@, x, r as int),
{
    if x.le(grid[0]) {
        0
    } else if grid[grid.len() - 1].le(x) {
        grid.len() - 1
    } else if grid.len() < 2 {
        0
    } else {
        interval_of(grid, x)
    }
}

/// Which tabulated angular distributions an energy samples from.
#[derive(Clone, Copy, Debug, PartialEq, Eq, Structural)]
pub enum AngularPick {
    /// There is no table: every angle is equally likely.
    Isotropic,
    /// One distribution.
    One(usize),
    /// A mixture of this distribution and the next.
    Two(usize),
}

/// Picks the distributions of an energy.
pub fn pick_angular(energies: &Vec<Binary64>, e: Binary64) -> (r: AngularPick)
    ensures
        energies@.len() == 0 <==> r is Isotropic,
        r matches AngularPick::One(i) ==> {
            &&& i < energies@.len()
            &&& is_grid_index(energies@, e, i as int)
            &&& i == 0 || i == energies@.len() - 1
            &&& e.at_most(energies@[0]) || energies@[energies@.len() - 1].at_most(e) || energies@.len() == 1
        },
        r matches AngularPick::Two(i) ==> {
            &&& i < energies@.len() - 1
            &&& is_interval(energies@, e, i as int)
            &&& !e.at_most(energies@[0])
            &&& !energies@[energies@.len() - 1].at_most(e)
        },
{
    let n: usize = energies.len();
    if n == 0 {
        return AngularPick::Isotropic;
    }
    if e.le(energies[0]) {
        return AngularPick::One(0);
    }
    if energies[n - 1].le(e) {
        return AngularPick::One(n - 1);
    }
    if n == 1 {
        return AngularPick::One(0);
    }
    AngularPick::Two(interval_of(energies, e))
}

/// Where an energy lies among the energies of a table.
#[derive(Clone, Copy, Debug, PartialEq, Eq, Structural)]
pub enum BinPlace {
    /// At this entry, or past the end of the table that it stands at.
    At(usize),
    /// Between this entry and the next.
    Between(usize),
}

/// Finds where an energy lies in a sorted table. One past an end lies at that
/// end, one that is not a number at the last entry.
pub fn locate_bin(energies: &Vec<Binary64>, e: Binary64) -> (r: BinPlace)
    requires
        energies@.len() > 0,
        sorted(energies@),
    ensures
        e.nan() ==> r == BinPlace::At((energies@.len() - 1) as usize),
        e.at_most(energies@[0]) ==> r == BinPlace::At(0),
        !e.at_most(energies@[0]) && energies@[energies@.len() - 1].at_most(e) ==> r == BinPlace::At(
            (energies@.len() - 1) as usize,
        ),
        energies@[0].less(e) && e.less(energies@[energies@.len() - 1]) ==> {
            ||| r matches BinPlace::At(i) && i < energies@.len() && energies@[i as int].same_number(e)
            ||| r matches BinPlace::Between(i) && i < energies@.len() - 1 && energies@[i as int].less(e) && e.less(
                energies@[i + 1],
            )
        },
{
    let n: usize = energies.len();
    if e.le(energies[0]) {
        return BinPlace::At(0);
    }
    if e.is_nan() || energies[n - 1].le(e) {
        return BinPlace::At(n - 1);
    }
    assert(energies@[0].at_most(energies@[0]) && energies@[n - 1].at_most(energies@[n - 1]));
    let mut lo: usize = 0;
    let mut hi: usize = n - 1;
    while hi - lo > 1
        invariant
            n == energies@.len(),
            sorted(energies@),
            !e.nan(),
            lo < hi < n,
            energies@[lo as int].less(e),
            e.less(energies@[hi as int]),
            energies@[0].less(e) && e.less(energies@[n - 1]),
        decreases hi - lo,
    {
        let mid: usize = lo + (hi - lo) / 2;
        assert(energies@[mid as int].at_most(energies@[mid as int]));
        if energies[mid].equals(e) {
            return BinPlace::At(mid);
        }
        if energies[mid].lt(e) {
            lo = mid;
        } else {
            hi = mid;
        }
    }
    BinPlace::Between(lo)
}

/// Picks one of the two entries round an energy: the upper one when the draw
/// stays below the share of the interval that lies below the energy.
pub fn pick_bin(place: BinPlace, xi: Binary64, share: Binary64) -> (r: usize)
    requires
        place matches BinPlace::Between(i) ==> i < usize::MAX,
    ensures
        r == (match place {
            BinPlace::At(i) => i as int,
            BinPlace::Between(i) => if xi.less(share) {
                i + 1
            } else {
                i as int
            },
        }),
{
    match place {
        BinPlace::At(i) => i,
        BinPlace::Between(i) => if xi.lt(share) {
            i + 1
        } else {
            i
        },
    }
}

/// Interval `i` of a cumulative table is the one that a draw falls into. A draw
/// that hits an entry may fall to either side of it where entries are equal.
pub open spec fn is_cdf_bin(cdf: Seq<Binary64>, xi: Binary64, i: int) -> bool {
    &&& 0 <= i <= cdf.len() - 2
    &&& xi.nan() ==> i == cdf.len() - 2
    &&& !xi.nan() && i > 0 ==> cdf[i].at_most(xi)
    &&& !xi.nan() && i < cdf.len() - 2 ==> xi.less(cdf[i + 1]) || cdf[i].same_number(xi)
}

/// The interval of a sorted cumulative table that a draw falls into.
pub fn cdf_bin(cdf: &Vec<Binary64>, xi: Binary64) -> (r: usize)
    requires
        cdf@.len() >= 2,
        sorted(cdf@),
    ensures
        is_cdf_bin(cdf@, xi, r as int),
{
    let n: usize = cdf.len();
    if xi.is_nan() {
        return n - 2;
    }
    let mut lo: usize = 0;
    let mut hi: usize = n;
    while lo < hi
        invariant
            n == cdf@.len(),
            n >= 2,
            sorted(cdf@),
            !xi.nan(),
            lo <= hi <= n,
            lo > 0 ==> cdf@[lo - 1].less(xi),
            hi < n ==> xi.less(cdf@[hi as int]),
        decreases hi - lo,
    {
        let mid: usize = lo + (hi - lo) / 2;
        assert(cdf@[mid as int].at_most(cdf@[mid as int]));
        if cdf[mid].equals(xi) {
            if mid > n - 2 {
                assert(cdf@[n - 2].at_most(cdf@[mid as int]));
                return n - 2;
            }
            return mid;
        }
        if cdf[mid].lt(xi) {
            lo = mid + 1;
        } else {
            hi = mid;
        }
    }
    let at: usize = if lo > 0 { lo - 1 } else { 0 };
    if at > n - 2 {
        assert(cdf@[n - 2].at_most(cdf@[n - 1]));
        n - 2
    } else {
        at
    }
}

/// On a table that rises throughout, both ways of searching find the same
/// interval.
pub proof fn law_searches_agree(cdf: Seq<Binary64>, xi: Binary64, a: int, b: int)
    requires
        rising(cdf),
        !xi.nan(),
        is_cdf_bin(cdf, xi, a),
        is_interval(cdf, xi, b),
    ensures
        a == b,
{
    if a < b {
        assert(cdf[a + 1].at_most(cdf[b]));
        assert(cdf[a].less(cdf[a + 1]));
    } else if b < a {
        assert(cdf[b + 1].at_most(cdf[a]));
    }
}

/// How a draw is turned into a value within its interval.
#[derive(Clone, Copy, Debug, PartialEq, Eq, Structural)]
pub enum Inversion {
    /// The lower end of the interval.
    Lower,
    /// The rest of the draw over the density at the lower end.
    Density,
    /// The root of the quadratic that a linear density gives.
    Root,
    /// The same share of the interval as of the cumulative step.
    Linear,
}

/// What an inversion is chosen by.
#[derive(Clone, Copy, Debug, PartialEq, Eq, Structural)]
pub struct Step {
    /// Cumulative step over the interval, without its sign.
    pub gap: Binary64,
    /// Width of the interval.
    pub width: Binary64,
    /// Densities at its ends.
    pub p_lo: Binary64,
    pub p_hi: Binary64,
    /// Slope of the density.
    pub slope: Binary64,
    /// Discriminant of the quadratic.
    pub disc: Binary64,
}

/// `|x|` is below a limit.
pub open spec fn below(x: Binary64, limit: u64) -> bool {
    (Binary64 { bits: x.unsigned() as u64 }).less(Binary64 { bits: limit })
}

fn tiny(x: Binary64, limit: u64) -> (r: bool)
    ensures
        r == below(x, limit),
{
    x.abs().lt(Binary64::from_bits(limit))
}

/// The host's choice for outgoing energies.
pub open spec fn host_inversion(s: Step, has_density: bool) -> Inversion {
    let zero = Binary64 { bits: 0 };
    if below(s.gap, FLAT_GAP_BITS) {
        Inversion::Lower
    } else if !has_density || !zero.less(s.width) {
        Inversion::Linear
    } else if below(s.slope, FLAT_DENSITY_BITS) {
        if below(s.p_lo, FLAT_DENSITY_BITS) {
            Inversion::Lower
        } else {
            Inversion::Density
        }
    } else if s.disc.less(zero) {
        Inversion::Lower
    } else {
        Inversion::Root
    }
}

/// Chooses how the host inverts a draw.
pub fn choose_host_inversion(s: Step, has_density: bool) -> (r: Inversion)
    ensures
        r == host_inversion(s, has_density),
{
    let zero = Binary64::zero();
    if tiny(s.gap, FLAT_GAP_BITS) {
        Inversion::Lower
    } else if !has_density || !zero.lt(s.width) {
        Inversion::Linear
    } else if tiny(s.slope, FLAT_DENSITY_BITS) {
        if tiny(s.p_lo, FLAT_DENSITY_BITS) {
            Inversion::Lower
        } else {
            Inversion::Density
        }
    } else if s.disc.lt(zero) {
        Inversion::Lower
    } else {
        Inversion::Root
    }
}

/// The device's choice for outgoing energies.
pub open spec fn device_inversion(s: Step) -> Inversion {
    let zero = Binary64 { bits: 0 };
    if below(s.gap, FLAT_GAP_BITS) {
        Inversion::Lower
    } else if !zero.less(s.width) || !(zero.less(s.p_lo) || zero.less(s.p_hi)) {
        Inversion::Linear
    } else if below(s.slope, FLAT_DENSITY_BITS) {
        if zero.less(s.p_lo) {
            Inversion::Density
        } else {
            Inversion::Linear
        }
    } else if zero.at_most(s.disc) {
        Inversion::Root
    } else {
        Inversion::Linear
    }
}

/// Chooses how the device inverts a draw.
pub fn choose_device_inversion(s: Step) -> (r: Inversion)
    ensures
        r == device_inversion(s),
{
    let zero = Binary64::zero();
    if tiny(s.gap, FLAT_GAP_BITS) {
        return Inversion::Lower;
    }
    if zero.lt(s.width) && (zero.lt(s.p_lo) || zero.lt(s.p_hi)) {
        if tiny(s.slope, FLAT_DENSITY_BITS) {
            if zero.lt(s.p_lo) {
                return Inversion::Density;
            }
        } else if zero.le(s.disc) {
            return Inversion::Root;
        }
    }
    Inversion::Linear
}

/// Host and device invert a draw in the same way wherever the table carries a
/// density, the density at the lower end is not tiny and positive, and the
/// quadratic has a root.
pub proof fn law_inversions_agree(s: Step)
    requires
        (Binary64 { bits: 0 }).less(s.width),
        (Binary64 { bits: 0 }).less(s.p_lo),
        !below(s.p_lo, FLAT_DENSITY_BITS),
        (Binary64 { bits: 0 }).at_most(s.disc),
    ensures
        host_inversion(s, true) == device_inversion(s),
{
}

/// The choice for scattering angles: `s.slope` is half the slope of the density.
pub open spec fn angle_inversion(s: Step) -> Inversion {
    if below(s.gap, FLAT_GAP_BITS) || below(s.width, FLAT_GAP_BITS) {
        Inversion::Lower
    } else if below(s.slope, FLAT_CURVE_BITS) {
        if below(s.p_lo, FLAT_DENSITY_BITS) {
            Inversion::Linear
        } else {
            Inversion::Density
        }
    } else {
        Inversion::Root
    }
}

/// Chooses how a draw of an angle is inverted.
pub fn choose_angle_inversion(s: Step) -> (r: Inversion)
    ensures
        r == angle_inversion(s),
{
    if tiny(s.gap, FLAT_GAP_BITS) || tiny(s.width, FLAT_GAP_BITS) {
        Inversion::Lower
    } else if tiny(s.slope, FLAT_CURVE_BITS) {
        if tiny(s.p_lo, FLAT_DENSITY_BITS) {
            Inversion::Linear
        } else {
            Inversion::Density
        }
    } else {
        Inversion::Root
    }
}

proof fn lemma_flat_gap()
    ensures
        is_quotient(Binary64 { bits: FLAT_GAP_BITS }, 1, 1000000000000000),
{
    let x = Binary64 { bits: FLAT_GAP_BITS };
    assert(x.bits as int / EXPONENT_WEIGHT as int == 973 && x.bits as int % EXPONENT_WEIGHT as int == 567002773542422);
    let p = lemma_below_one(x, 50);
    lemma2_to64();
    lemma_pow2_adds(32, 18);
    assert(pow2(50) == 1125899906842624);
    assert(pow2(50) * p == 1125899906842624 * p);
}

proof fn lemma_flat_density()
    ensures
        is_quotient(Binary64 { bits: FLAT_DENSITY_BITS }, 1, 1000000000000000000000000000000),
{
    let x = Binary64 { bits: FLAT_DENSITY_BITS };
    assert(x.bits as int / EXPONENT_WEIGHT as int == 923 && x.bits as int % EXPONENT_WEIGHT as int == 1205391143453344);
    let p = lemma_below_one(x, 100);
    lemma2_to64();
    lemma_pow2_adds(64, 32);
    lemma_pow2_adds(96, 4);
    assert(pow2(100) == 1267650600228229401496703205376);
    assert(pow2(100) * p == 1267650600228229401496703205376 * p);
}

proof fn lemma_flat_curve()
    ensures
        is_quotient(Binary64 { bits: FLAT_CURVE_BITS }, 1, 100000000000000),
{
    let x = Binary64 { bits: FLAT_CURVE_BITS };
    assert(x.bits as int / EXPONENT_WEIGHT as int == 976 && x.bits as int % EXPONENT_WEIGHT as int == 1834653373770651);
    let p = lemma_below_one(x, 47);
    lemma2_to64();
    lemma_pow2_adds(32, 15);
    assert(pow2(47) == 140737488355328);
    assert(pow2(47) * p == 140737488355328 * p);
}

/// In a sorted table the interval that is found encloses the number, and is the
/// first or the last one where the number lies outside.
pub proof fn law_interval_encloses(table: &Vec<Binary64>, x: Binary64, r: usize)
    requires
        call_ensures(interval_of, (table, x), r),
        table@.len() >= 2,
        sorted(table@),
        !x.nan(),
    ensures
        r + 1 < table@.len(),
        table@[0].scaled() <= x.scaled() ==> table@[r as int].scaled() <= x.scaled(),
        x.scaled() <= table@.last().scaled() ==> x.scaled() <= table@[r + 1].scaled(),
        x.scaled() < table@[0].scaled() ==> r == 0,
        x.scaled() > table@.last().scaled() ==> r == table@.len() - 2,
        x.scaled() == table@[r + 1].scaled() ==> r == table@.len() - 2,
{
    let t = table@;
    assert(t[0].at_most(t[r as int]) && t[r as int].at_most(t[t.len() - 1]) && t[r + 1].at_most(t[t.len() - 1]));
}

/// The place of a number in a sorted grid: the first where it lies below, the last
/// where it lies above, else the last grid point that is not above it.
pub proof fn law_grid_place_is_the_one_below(grid: &Vec<Binary64>, x: Binary64, r: usize)
    requires
        call_ensures(grid_index, (grid, x), r),
        grid@.len() > 0,
        sorted(grid@),
        !x.nan(),
    ensures
        x.scaled() <= grid@[0].scaled() ==> r == 0,
        x.scaled() > grid@[0].scaled() ==> grid@[r as int].scaled() <= x.scaled(),
        x.scaled() > grid@[0].scaled() && r + 1 < grid@.len() ==> x.scaled() < grid@[r + 1].scaled(),
{
    let g = grid@;
    assert(g[0].at_most(g[g.len() - 1]));
    assert(g[0].at_most(g[r as int]));
    if r + 1 < g.len() {
        assert(g[0].at_most(g[r + 1]));
    }
}

/// Angular data are picked at the one energy that is at the edge or beyond it, and
/// between two energies elsewhere; without energies the angle is isotropic.
pub proof fn law_angles_are_picked_by_energy(energies: &Vec<Binary64>, e: Binary64, r: AngularPick)
    requires
        call_ensures(pick_angular, (energies, e), r),
        sorted(energies@),
        !e.nan(),
    ensures
        energies@.len() == 0 <==> r == AngularPick::Isotropic,
        energies@.len() > 0 && e.scaled() <= energies@[0].scaled() ==> r == AngularPick::One(0),
        energies@.len() > 0 && e.scaled() > energies@[0].scaled() && e.scaled() >= energies@.last().scaled() ==> r
            == AngularPick::One((energies@.len() - 1) as usize),
        r matches AngularPick::Two(i) ==> i + 1 < energies@.len() && energies@[i as int].scaled() <= e.scaled()
            < energies@[i + 1].scaled(),
{
    let t = energies@;
    if t.len() > 0 {
        assert(t[0].at_most(t[0]) && t[0].at_most(t[t.len() - 1]) && t[t.len() - 1].at_most(t[t.len() - 1]));
        match r {
            AngularPick::Two(i) => {
                assert(t[0].at_most(t[i as int]));
                assert(t[0].at_most(t[i + 1]));
            },
            _ => {},
        }
    }
}

/// Between two bins the upper one is picked exactly where the number lies below the
/// share; at a bin there is nothing to pick.
pub proof fn law_bin_is_picked_by_share(place: BinPlace, xi: Binary64, share: Binary64, r: usize)
    requires
        call_ensures(pick_bin, (place, xi, share), r),
    ensures
        place matches BinPlace::At(i) ==> r == i,
        place matches BinPlace::Between(i) ==> r == i || r == i + 1,
        place matches BinPlace::Between(i) ==> (r == i + 1 <==> !xi.nan() && !share.nan() && xi.scaled()
            < share.scaled()),
{
}

/// A number is located in a sorted list of energies: at the first or last one where
/// it lies at or beyond it, at the one that equals it, else between its neighbours.
pub proof fn law_energy_is_located(energies: &Vec<Binary64>, e: Binary64, r: BinPlace)
    requires
        call_ensures(locate_bin, (energies, e), r),
        energies@.len() > 0,
        sorted(energies@),
        !e.nan(),
    ensures
        e.scaled() <= energies@[0].scaled() ==> r == BinPlace::At(0),
        e.scaled() > energies@[0].scaled() && e.scaled() >= energies@.last().scaled() ==> r == BinPlace::At(
            (energies@.len() - 1) as usize,
        ),
        energies@[0].scaled() < e.scaled() < energies@.last().scaled() ==> match r {
            BinPlace::At(i) => i < energies@.len() && energies@[i as int].scaled() == e.scaled(),
            BinPlace::Between(i) => i + 1 < energies@.len() && energies@[i as int].scaled() < e.scaled()
                < energies@[i + 1].scaled(),
        },
{
    let t = energies@;
    assert(t[0].at_most(t[0]) && t[t.len() - 1].at_most(t[t.len() - 1]));
}

/// The bin of a cumulative distribution that a number falls in: the number lies
/// between its ends, the first and the last bin taking what lies outside.
pub proof fn law_number_falls_in_its_bin(cdf: &Vec<Binary64>, xi: Binary64, r: usize)
    requires
        call_ensures(cdf_bin, (cdf, xi), r),
        cdf@.len() >= 2,
        sorted(cdf@),
        !xi.nan(),
    ensures
        r + 1 < cdf@.len(),
        cdf@[0].scaled() <= xi.scaled() ==> cdf@[r as int].scaled() <= xi.scaled(),
        xi.scaled() <= cdf@.last().scaled() ==> xi.scaled() <= cdf@[r + 1].scaled(),
{
    let t = cdf@;
    assert(t[0].at_most(t[r as int]) && t[r as int].at_most(t[r + 1]) && t[r + 1].at_most(t[t.len() - 1]));
}

/// How large a number is, without its sign.
pub open spec fn size(x: Binary64) -> int {
    if x.scaled() < 0 {
        -x.scaled()
    } else {
        x.scaled()
    }
}

proof fn lemma_below(x: Binary64, limit: u64)
    requires
        limit < crate::binary64::SIGN_WEIGHT,
        !(Binary64 { bits: limit }).nan(),
    ensures
        below(x, limit) <==> !x.nan() && size(x) < (Binary64 { bits: limit }).scaled(),
{
    if x.unsigned() > 0 {
        crate::binary64::lemma_scaled_magnitude_increases(0, x.unsigned());
    }
}

/// How the host inverts a step of a distribution: it stays at the lower end where
/// the step is flat (less than 1e-15), goes linearly without densities or width, by
/// the density where the slope is less than 1e-30, and by the root otherwise.
pub proof fn law_host_inverts_by_the_shape(s: Step, has_density: bool, r: Inversion)
    requires
        call_ensures(choose_host_inversion, (s, has_density), r),
        !s.gap.nan() && !s.width.nan() && !s.slope.nan() && !s.p_lo.nan() && !s.disc.nan(),
    ensures
        is_quotient(Binary64 { bits: FLAT_GAP_BITS }, 1, 1_000_000_000_000_000),
        is_quotient(Binary64 { bits: FLAT_DENSITY_BITS }, 1, 1_000_000_000_000_000_000_000_000_000_000),
        ({
            let flat = size(s.gap) < (Binary64 { bits: FLAT_GAP_BITS }).scaled();
            let even = size(s.slope) < (Binary64 { bits: FLAT_DENSITY_BITS }).scaled();
            let empty = size(s.p_lo) < (Binary64 { bits: FLAT_DENSITY_BITS }).scaled();
            let shaped = has_density && s.width.scaled() > 0;
            &&& flat ==> r == Inversion::Lower
            &&& !flat && !shaped ==> r == Inversion::Linear
            &&& !flat && shaped && even && empty ==> r == Inversion::Lower
            &&& !flat && shaped && even && !empty ==> r == Inversion::Density
            &&& !flat && shaped && !even ==> (r == Inversion::Root <==> s.disc.scaled() >= 0)
            &&& !flat && shaped && !even && s.disc.scaled() < 0 ==> r == Inversion::Lower
        }),
{
    lemma_flat_gap();
    lemma_flat_density();
    lemma_below(s.gap, FLAT_GAP_BITS);
    lemma_below(s.slope, FLAT_DENSITY_BITS);
    lemma_below(s.p_lo, FLAT_DENSITY_BITS);
}

/// How the device inverts a step: as the host does, except that it goes linearly
/// where neither end has a density, or where the lower one has none on an even step,
/// or where there is no root.
pub proof fn law_device_inverts_by_the_shape(s: Step, r: Inversion)
    requires
        call_ensures(choose_device_inversion, (s,), r),
        !s.gap.nan() && !s.width.nan() && !s.slope.nan() && !s.p_lo.nan() && !s.p_hi.nan() && !s.disc.nan(),
    ensures
        ({
            let flat = size(s.gap) < (Binary64 { bits: FLAT_GAP_BITS }).scaled();
            let even = size(s.slope) < (Binary64 { bits: FLAT_DENSITY_BITS }).scaled();
            let shaped = s.width.scaled() > 0 && (s.p_lo.scaled() > 0 || s.p_hi.scaled() > 0);
            &&& r == Inversion::Lower <==> flat
            &&& r == Inversion::Density <==> !flat && shaped && even && s.p_lo.scaled() > 0
            &&& r == Inversion::Root <==> !flat && shaped && !even && s.disc.scaled() >= 0
        }),
{
    lemma_flat_gap();
    lemma_flat_density();
    lemma_below(s.gap, FLAT_GAP_BITS);
    lemma_below(s.slope, FLAT_DENSITY_BITS);
}

/// How an angle is inverted: at the lower end where the step is flat in either
/// direction, by the density where the slope is less than 1e-14 and there is one, and
/// by the root otherwise.
pub proof fn law_angle_inverts_by_the_shape(s: Step, r: Inversion)
    requires
        call_ensures(choose_angle_inversion, (s,), r),
        !s.gap.nan() && !s.width.nan() && !s.slope.nan() && !s.p_lo.nan(),
    ensures
        is_quotient(Binary64 { bits: FLAT_CURVE_BITS }, 1, 100_000_000_000_000),
        ({
            let flat = size(s.gap) < (Binary64 { bits: FLAT_GAP_BITS }).scaled() || size(s.width) < (Binary64 {
                bits: FLAT_GAP_BITS,
            }).scaled();
            let even = size(s.slope) < (Binary64 { bits: FLAT_CURVE_BITS }).scaled();
            let empty = size(s.p_lo) < (Binary64 { bits: FLAT_DENSITY_BITS }).scaled();
            &&& r == Inversion::Lower <==> flat
            &&& r == Inversion::Root <==> !flat && !even
            &&& r == Inversion::Density <==> !flat && even && !empty
            &&& r == Inversion::Linear <==> !flat && even && empty
        }),
{
    lemma_flat_gap();
    lemma_flat_density();
    lemma_flat_curve();
    lemma_below(s.gap, FLAT_GAP_BITS);
    lemma_below(s.width, FLAT_GAP_BITS);
    lemma_below(s.slope, FLAT_CURVE_BITS);
    lemma_below(s.p_lo, FLAT_DENSITY_BITS);
}

} // verus!
