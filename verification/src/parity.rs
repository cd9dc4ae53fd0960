//! Comparing what two devices found on the same inputs.

use crate::binary64::{is_quotient, lemma_below_one, Binary64, EXPONENT_WEIGHT};
use crate::geometry::{bc_code, BoundaryCondition};
use crate::lattice::{LatticeCell, LatticeFill};
use vstd::arithmetic::power2::{lemma2_to64, pow2};
use vstd::prelude::*;

verus! {

/// Every place where the two lists differ is told.
pub open spec fn tells_mismatches(host: Seq<i32>, device: Seq<i32>, told: Seq<usize>) -> bool {
    forall|i: int|
        0 <= i < host.len() && #[trigger] host[i] != device[i] ==> exists|k: int|
            0 <= k < told.len() && #[trigger] told[k] == i
}

/// The numbers of the places where two lists differ, in order.
pub fn mismatches(host: &Vec<i32>, device: &Vec<i32>) -> (r: Vec<usize>)
    requires
        host@.len() == device@.len(),
    ensures
        forall|k: int|
            0 <= k < r@.len() ==> (#[trigger] r@[k]) < host@.len() && host@[r@[k] as int] != device@[r@[k] as int],
        forall|k: int, l: int| 0 <= k < l < r@.len() ==> (#[trigger] r@[k]) < (#[trigger] r@[l]),
        forall|i: int|
            0 <= i < host@.len() && #[trigger] host@[i] != device@[i] ==> exists|k: int|
                0 <= k < r@.len() && r@[k] == i,
        tells_mismatches(host@, device@, r@),
{
    let mut out: Vec<usize> = Vec::new();
    let mut i: usize = 0;
    while i < host.len()
        invariant
            host@.len() == device@.len(),
            i <= host@.len(),
            forall|k: int|
                0 <= k < out@.len() ==> (#[trigger] out@[k]) < i && host@[out@[k] as int] != device@[out@[k] as int],
            forall|k: int, l: int| 0 <= k < l < out@.len() ==> (#[trigger] out@[k]) < (#[trigger] out@[l]),
            forall|j: int|
                0 <= j < i && #[trigger] host@[j] != device@[j] ==> exists|k: int|
                    0 <= k < out@.len() && out@[k] == j,
        decreases host@.len() - i,
    {
        let ghost before = out@;
        if host[i] != device[i] {
            out.push(i);
        }
        proof {
            assert forall|j: int| 0 <= j < i + 1 && #[trigger] host@[j] != device@[j] implies exists|k: int|
                0 <= k < out@.len() && out@[k] == j by {
                if j < i {
                    let k = choose|k: int| 0 <= k < before.len() && before[k] == j;
                    assert(out@[k] == j);
                } else {
                    assert(out@[out@.len() - 1] == j);
                }
            }
        }
        i += 1;
    }
    out
}

/// What one device found for a ray.
#[derive(Clone, Copy, Debug, PartialEq, Eq, Structural)]
pub struct RayAnswer {
    pub surface: i32,
    pub bc: i32,
    pub next_cell: i32,
}

/// The answer where a ray finds no surface.
pub fn no_surface() -> (r: RayAnswer)
    ensures
        r.surface == -1,
        r.bc == 1,
        r.next_cell == -1,
{
    RayAnswer { surface: -1, bc: 1, next_cell: -1 }
}

/// The surface that the host found ahead of a ray.
#[derive(Clone, Copy, Debug, PartialEq, Eq, Structural)]
pub struct RayHit {
    pub surface: Option<usize>,
    pub bc: BoundaryCondition,
    /// The deepest cell behind the surface.
    pub next_cell: Option<usize>,
}

/// An index in the 32 bits of the device, with -1 for none.
pub open spec fn device_index(i: Option<usize>) -> i32 {
    match i {
        Some(n) => n as i32,
        None => -1i32,
    }
}

/// An index in the 32 bits of the device, with -1 for none.
pub fn to_device_index(i: Option<usize>) -> (r: i32)
    ensures
        r == device_index(i),
{
    match i {
        Some(n) => #[verifier::truncate] (n as i32),
        None => -1,
    }
}

/// What the host found for a ray, as the device writes it.
pub fn host_answer(hit: Option<RayHit>) -> (r: RayAnswer)
    ensures
        match hit {
            None => r.surface == -1 && r.bc == 1 && r.next_cell == -1,
            Some(h) => {
                &&& r.surface == device_index(h.surface)
                &&& r.next_cell == device_index(h.next_cell)
                &&& r.bc == match h.bc {
                    BoundaryCondition::Transmission => 0int,
                    BoundaryCondition::Vacuum => 1int,
                    BoundaryCondition::Reflective => 2int,
                }
            },
        },
{
    match hit {
        None => no_surface(),
        Some(h) => RayAnswer {
            surface: to_device_index(h.surface),
            bc: bc_code(h.bc),
            next_cell: to_device_index(h.next_cell),
        },
    }
}

/// Whether a point can start a ray: it lies in a cell inside a lattice.
pub fn starts_ray(depth: Option<usize>) -> (r: bool)
    ensures
        r == (depth is Some && depth->0 >= 2),
{
    match depth {
        Some(d) => d >= 2,
        None => false,
    }
}

/// No cell is filled by a lattice.
pub open spec fn no_lattice(cells: Seq<LatticeCell>) -> bool {
    forall|k: int| 0 <= k < cells.len() ==> !((#[trigger] cells[k]).fill is Lattice)
}

/// Cell `i` is the first that holds a lattice.
pub open spec fn first_lattice(cells: Seq<LatticeCell>, i: int) -> bool {
    &&& 0 <= i < cells.len()
    &&& cells[i].fill is Lattice
    &&& forall|k: int| 0 <= k < i ==> !((#[trigger] cells[k]).fill is Lattice)
}

/// The cell from whose box points are drawn: the first that holds a lattice.
pub fn sample_cell(cells: &Vec<LatticeCell>) -> (r: Option<usize>)
    ensures
        r is None <==> forall|k: int| 0 <= k < cells@.len() ==> !((#[trigger] cells@[k]).fill is Lattice),
        r is None <==> no_lattice(cells@),
        r matches Some(i) ==> first_lattice(cells@, i as int),
{
    let mut i: usize = 0;
    while i < cells.len()
        invariant
            i <= cells@.len(),
            forall|k: int| 0 <= k < i ==> !((#[trigger] cells@[k]).fill is Lattice),
        decreases cells@.len() - i,
    {
        match cells[i].fill {
            LatticeFill::Lattice(_) => {
                return Some(i);
            },
            _ => {},
        }
        i += 1;
    }
    None
}

/// What two devices found for a ray.
#[derive(Clone, Copy, Debug, PartialEq, Eq, Structural)]
pub struct RayPair {
    pub host: RayAnswer,
    pub device: RayAnswer,
    /// Relative difference of the distances.
    pub distance_gap: Binary64,
}

/// How many rays two devices disagree on, by what they disagree on.
#[derive(Clone, Copy, Debug, PartialEq, Eq, Structural)]
pub struct Disagreements {
    pub distance: usize,
    pub surface: usize,
    pub bc: usize,
    pub next_cell: usize,
}

/// The bits of 1e-9, the accepted relative difference of distances.
pub const DISTANCE_GAP_BITS: u64 = 0x3e11_2e0b_e826_d695;

pub open spec fn distance_off() -> spec_fn(RayPair) -> bool {
    |p: RayPair| (Binary64 { bits: DISTANCE_GAP_BITS }).less(p.distance_gap)
}

pub open spec fn surface_off() -> spec_fn(RayPair) -> bool {
    |p: RayPair| p.host.surface != p.device.surface
}

pub open spec fn bc_off() -> spec_fn(RayPair) -> bool {
    |p: RayPair| p.host.bc != p.device.bc
}

pub open spec fn next_off() -> spec_fn(RayPair) -> bool {
    |p: RayPair| p.host.next_cell != p.device.next_cell
}

/// Counts the rays that two devices disagree on. Distances may differ by the
/// accepted gap; everything else has to be the same.
pub fn count_disagreements(pairs: &Vec<RayPair>) -> (r: Disagreements)
    ensures
        r.distance == pairs@.filter(distance_off()).len(),
        r.surface == pairs@.filter(surface_off()).len(),
        r.bc == pairs@.filter(bc_off()).len(),
        r.next_cell == pairs@.filter(next_off()).len(),
{
    let gap = Binary64::from_bits(DISTANCE_GAP_BITS);
    let mut d = Disagreements { distance: 0, surface: 0, bc: 0, next_cell: 0 };
    let mut i: usize = 0;
    proof {
        reveal(Seq::filter);
    }
    while i < pairs.len()
        invariant
            gap.bits == DISTANCE_GAP_BITS,
            i <= pairs@.len(),
            d.distance <= i && d.surface <= i && d.bc <= i && d.next_cell <= i,
            d.distance == pairs@.take(i as int).filter(distance_off()).len(),
            d.surface == pairs@.take(i as int).filter(surface_off()).len(),
            d.bc == pairs@.take(i as int).filter(bc_off()).len(),
            d.next_cell == pairs@.take(i as int).filter(next_off()).len(),
        decreases pairs@.len() - i,
    {
        let p: RayPair = pairs[i];
        proof {
            crate::pipeline::lemma_filter_step(pairs@, distance_off(), i as int);
            crate::pipeline::lemma_filter_step(pairs@, surface_off(), i as int);
            crate::pipeline::lemma_filter_step(pairs@, bc_off(), i as int);
            crate::pipeline::lemma_filter_step(pairs@, next_off(), i as int);
        }
        if gap.lt(p.distance_gap) {
            d.distance = d.distance + 1;
        }
        if p.host.surface != p.device.surface {
            d.surface = d.surface + 1;
        }
        if p.host.bc != p.device.bc {
            d.bc = d.bc + 1;
        }
        if p.host.next_cell != p.device.next_cell {
            d.next_cell = d.next_cell + 1;
        }
        i += 1;
    }
    assert(pairs@.take(i as int) =~= pairs@);
    d
}

/// The largest relative difference of the distances: zero or one of them, and none
/// is greater.
pub fn largest_gap(pairs: &Vec<RayPair>) -> (r: Binary64)
    ensures
        r.bits == 0 || exists|i: int| 0 <= i < pairs@.len() && (#[trigger] pairs@[i]).distance_gap == r,
        forall|i: int| 0 <= i < pairs@.len() ==> !r.less((#[trigger] pairs@[i]).distance_gap),
{
    let mut largest: Binary64 = Binary64::zero();
    let mut i: usize = 0;
    while i < pairs.len()
        invariant
            i <= pairs@.len(),
            !largest.nan(),
            largest.bits == 0 || exists|k: int| 0 <= k < i && (#[trigger] pairs@[k]).distance_gap == largest,
            forall|k: int| 0 <= k < i ==> !largest.less((#[trigger] pairs@[k]).distance_gap),
        decreases pairs@.len() - i,
    {
        if largest.lt(pairs[i].distance_gap) {
            largest = pairs[i].distance_gap;
            assert(pairs@[i as int].distance_gap == largest);
        }
        i += 1;
    }
    largest
}

/// How many mismatches are shown.
pub const SHOWN_MISMATCHES: usize = 10;

/// The end of a comparison of cells: the status to exit with, and the mismatches to
/// show.
pub fn finish_comparison(found: &Vec<usize>) -> (r: (u8, Vec<usize>))
    ensures
        r.0 == if found@.len() == 0 {
            0int
        } else {
            1int
        },
        r.1@ == if found@.len() <= SHOWN_MISMATCHES {
            found@
        } else {
            found@.take(SHOWN_MISMATCHES as int)
        },
{
    let mut shown: Vec<usize> = Vec::new();
    while shown.len() < found.len() && shown.len() < SHOWN_MISMATCHES
        invariant
            shown@.len() <= found@.len(),
            shown@.len() <= SHOWN_MISMATCHES,
            shown@ == found@.take(shown@.len() as int),
        decreases found@.len() - shown@.len(),
    {
        let i: usize = shown.len();
        shown.push(found[i]);
        assert(shown@ =~= found@.take(i + 1));
    }
    assert(found@.take(found@.len() as int) =~= found@);
    let status: u8 = if found.len() == 0 {
        0
    } else {
        1
    };
    (status, shown)
}

/// How often each cell was found: cells in ascending order, with their counts.
pub fn cell_histogram(found: &Vec<i32>) -> (r: Vec<(i32, usize)>)
    ensures
        forall|k: int, l: int| 0 <= k < l < r@.len() ==> (#[trigger] r@[k]).0 < (#[trigger] r@[l]).0,
        forall|k: int|
            0 <= k < r@.len() ==> (#[trigger] r@[k]).1 == found@.to_multiset().count(r@[k].0) && r@[k].1 > 0,
        forall|i: int| 0 <= i < found@.len() ==> has_bin(r@, #[trigger] found@[i]),
        all_binned(found@, r@),
{
    broadcast use vstd::seq_lib::group_to_multiset_ensures;

    let mut bins: Vec<(i32, usize)> = Vec::new();
    let mut i: usize = 0;
    while i < found.len()
        invariant
            i <= found@.len(),
            forall|k: int, l: int| 0 <= k < l < bins@.len() ==> (#[trigger] bins@[k]).0 < (#[trigger] bins@[l]).0,
            forall|k: int|
                0 <= k < bins@.len() ==> (#[trigger] bins@[k]).1 == found@.take(i as int).to_multiset().count(
                    bins@[k].0,
                ) && bins@[k].1 > 0,
            forall|j: int| 0 <= j < i ==> has_bin(bins@, #[trigger] found@[j]),
        decreases found@.len() - i,
    {
        broadcast use vstd::seq_lib::group_to_multiset_ensures;

        let c: i32 = found[i];
        let ghost before = bins@;
        let ghost head = found@.take(i as int);
        proof {
            assert(found@.take(i + 1) =~= head.push(c));
            assert(found@.take(i + 1).to_multiset() =~= head.to_multiset().insert(c));
            assert(head.to_multiset().len() == head.len());
        }
        let mut k: usize = 0;
        while k < bins.len() && bins[k].0 < c
            invariant
                k <= bins@.len(),
                bins@ == before,
                forall|l: int| 0 <= l < k ==> (#[trigger] bins@[l]).0 < c,
            decreases bins@.len() - k,
        {
            k += 1;
        }
        if k < bins.len() && bins[k].0 == c {
            let n: usize = bins[k].1;
            proof {
                lemma_count_within(head, c);
                assert(before[k as int].1 == head.to_multiset().count(c));
            }
            bins[k] = (c, n + 1);
            proof {
                assert(bins@ =~= before.update(k as int, (c, (n + 1) as usize)));
                assert forall|j: int| 0 <= j < i + 1 implies has_bin(bins@, #[trigger] found@[j]) by {
                    if j < i {
                        assert(has_bin(before, found@[j]));
                        let l = choose|l: int| 0 <= l < before.len() && (#[trigger] before[l]).0 == found@[j];
                        assert(bins@[l].0 == found@[j]);
                    } else {
                        assert(bins@[k as int].0 == found@[j]);
                    }
                }
            }
        } else {
            bins.insert(k, (c, 1));
            proof {
                assert(bins@ == before.insert(k as int, (c, 1usize)));
                assert(head.to_multiset().count(c) == 0) by {
                    if head.to_multiset().count(c) > 0 {
                        assert(head.contains(c));
                        let j = choose|j: int| 0 <= j < head.len() && head[j] == c;
                        assert(has_bin(before, found@[j]));
                        let l = choose|l: int| 0 <= l < before.len() && (#[trigger] before[l]).0 == c;
                        if k < before.len() {
                            assert(before[k as int].0 > c);
                        }
                    }
                }
                assert forall|l: int| 0 <= l < bins@.len() implies (#[trigger] bins@[l]).1 == found@.take(
                    i + 1,
                ).to_multiset().count(bins@[l].0) && bins@[l].1 > 0 by {
                    if l < k {
                        assert(bins@[l] == before[l]);
                    } else if l > k {
                        assert(bins@[l] == before[l - 1]);
                        assert(before[k as int].0 > c);
                    }
                }
                assert forall|a: int, b: int| 0 <= a < b < bins@.len() implies (#[trigger] bins@[a]).0 < (
                #[trigger] bins@[b]).0 by {
                    if k < before.len() {
                        assert(before[k as int].0 > c);
                    }
                    let a0 = if a < k {
                        a
                    } else {
                        a - 1
                    };
                    let b0 = if b < k {
                        b
                    } else {
                        b - 1
                    };
                    if a != k {
                        assert(bins@[a] == before[a0]);
                    }
                    if b != k {
                        assert(bins@[b] == before[b0]);
                    }
                }
                assert forall|j: int| 0 <= j < i + 1 implies has_bin(bins@, #[trigger] found@[j]) by {
                    if j < i {
                        assert(has_bin(before, found@[j]));
                        let l = choose|l: int| 0 <= l < before.len() && (#[trigger] before[l]).0 == found@[j];
                        assert(bins@[if l < k {
                            l
                        } else {
                            l + 1
                        }].0 == found@[j]);
                    } else {
                        assert(bins@[k as int].0 == found@[j]);
                    }
                }
            }
        }
        i += 1;
    }
    assert(found@.take(i as int) =~= found@);
    bins
}

/// Every cell that was found has a bin.
pub open spec fn all_binned(found: Seq<i32>, bins: Seq<(i32, usize)>) -> bool {
    forall|i: int| 0 <= i < found.len() ==> has_bin(bins, #[trigger] found[i])
}

/// Some bin counts the cell.
pub open spec fn has_bin(bins: Seq<(i32, usize)>, cell: i32) -> bool {
    exists|k: int| 0 <= k < bins.len() && (#[trigger] bins[k]).0 == cell
}

proof fn lemma_count_within(s: Seq<i32>, c: i32)
    ensures
        s.to_multiset().count(c) <= s.len(),
    decreases s.len(),
{
    broadcast use vstd::seq_lib::group_to_multiset_ensures;

    if s.len() > 0 {
        assert(s =~= s.drop_last().push(s.last()));
        lemma_count_within(s.drop_last(), c);
    } else {
        assert(s =~= Seq::empty());
    }
}

/// A ray's answer keeps what the ray met: the number of the surface and of the cell
/// behind it, minus one where there is none, and a code that tells the boundary
/// conditions apart. A ray that met nothing answers as at a vacuum boundary.
pub proof fn law_answer_tells_what_the_ray_met(hit: Option<RayHit>, r: RayAnswer, nothing: RayAnswer)
    requires
        call_ensures(host_answer, (hit,), r),
        call_ensures(no_surface, (), nothing),
    ensures
        hit is None ==> r == nothing && r.surface == -1 && r.next_cell == -1 && r.bc == 1,
        hit matches Some(h) ==> {
            &&& h.surface is None ==> r.surface == -1
            &&& h.surface is Some && h.surface->0 <= i32::MAX ==> r.surface == h.surface->0
            &&& h.next_cell is None ==> r.next_cell == -1
            &&& h.next_cell is Some && h.next_cell->0 <= i32::MAX ==> r.next_cell == h.next_cell->0
            &&& h.bc == BoundaryCondition::Transmission <==> r.bc == 0
            &&& h.bc == BoundaryCondition::Vacuum <==> r.bc == 1
            &&& h.bc == BoundaryCondition::Reflective <==> r.bc == 2
        },
{
}

/// A ray is started exactly where the point lies at least two levels deep.
pub proof fn law_rays_start_inside_a_lattice(depth: Option<usize>, r: bool)
    requires
        call_ensures(starts_ray, (depth,), r),
    ensures
        depth is None ==> !r,
        depth matches Some(d) ==> (r <==> d >= 2),
{
}

/// Two answers disagree exactly where they are counted: a pair is counted once for
/// each of surface, boundary and next cell in which it differs, and for the distance
/// where the gap is above the tolerance. One more pair adds exactly its own.
pub proof fn law_disagreements_add_up(
    pairs: &Vec<RayPair>,
    longer: &Vec<RayPair>,
    p: RayPair,
    a: Disagreements,
    b: Disagreements,
)
    requires
        call_ensures(count_disagreements, (pairs,), a),
        call_ensures(count_disagreements, (longer,), b),
        longer@ == pairs@.push(p),
    ensures
        b.surface - a.surface == if p.host.surface != p.device.surface {
            1int
        } else {
            0
        },
        b.bc - a.bc == if p.host.bc != p.device.bc {
            1int
        } else {
            0
        },
        b.next_cell - a.next_cell == if p.host.next_cell != p.device.next_cell {
            1int
        } else {
            0
        },
        b.distance - a.distance == if !p.distance_gap.nan() && p.distance_gap.scaled() > (Binary64 {
            bits: DISTANCE_GAP_BITS,
        }).scaled() {
            1int
        } else {
            0
        },
        is_quotient(Binary64 { bits: DISTANCE_GAP_BITS }, 1, 1_000_000_000),
        pairs@.len() == 0 ==> a.surface == 0 && a.bc == 0 && a.next_cell == 0 && a.distance == 0,
{
    lemma_distance_gap();
    reveal(Seq::filter);
    assert(longer@.drop_last() =~= pairs@);
    assert(longer@.last() == p);
    assert(pairs@.filter(surface_off()).push(p).len() == pairs@.filter(surface_off()).len() + 1);
}

/// A comparison without a mismatch exits with 0, any other with 1, and what is shown
/// are the first mismatches, at most ten.
pub proof fn law_mismatches_are_shown(found: &Vec<usize>, r: (u8, Vec<usize>))
    requires
        call_ensures(finish_comparison, (found,), r),
    ensures
        r.0 == 0 <==> found@.len() == 0,
        r.0 == 1 <==> found@.len() > 0,
        r.1@.len() == if found@.len() < 10 {
            found@.len() as int
        } else {
            10
        },
        forall|i: int| 0 <= i < r.1@.len() ==> #[trigger] r.1@[i] == found@[i],
{
}

/// The gap that is told is that of some pair, or nothing, and no pair has a larger
/// one.
pub proof fn law_no_gap_is_larger(pairs: &Vec<RayPair>, r: Binary64, i: int)
    requires
        call_ensures(largest_gap, (pairs,), r),
        0 <= i < pairs@.len(),
    ensures
        pairs@[i].distance_gap.nan() || r.nan() || pairs@[i].distance_gap.scaled() <= r.scaled(),
        r.scaled() == 0 || exists|k: int| 0 <= k < pairs@.len() && (#[trigger] pairs@[k]).distance_gap == r,
{
    assert(!r.less(pairs@[i].distance_gap));
}

proof fn lemma_distance_gap()
    ensures
        is_quotient(Binary64 { bits: DISTANCE_GAP_BITS }, 1, 1000000000),
{
    let x = Binary64 { bits: DISTANCE_GAP_BITS };
    assert(x.bits as int / EXPONENT_WEIGHT as int == 993 && x.bits as int % EXPONENT_WEIGHT as int == 332103651088021);
    let p = lemma_below_one(x, 30);
    lemma2_to64();
    assert(pow2(30) == 1073741824);
    assert(pow2(30) * p == 1073741824 * p);
}

/// The mismatches are the places where the two answers differ: all of them, in order.
pub proof fn law_mismatches_are_where_answers_differ(host: &Vec<i32>, device: &Vec<i32>, r: Vec<usize>, i: int, k: int)
    requires
        call_ensures(mismatches, (host, device), r),
        host@.len() == device@.len(),
        0 <= i < host@.len(),
        0 <= k < r@.len(),
    ensures
        host@[i] != device@[i] <==> exists|j: int| 0 <= j < r@.len() && #[trigger] r@[j] == i,
        r@[k] < host@.len() && host@[r@[k] as int] != device@[r@[k] as int],
        k + 1 < r@.len() ==> r@[k] < r@[k + 1],
{
    assert(r@[k] == r@[k]);
    if exists|j: int| 0 <= j < r@.len() && #[trigger] r@[j] == i {
        let j = choose|j: int| 0 <= j < r@.len() && #[trigger] r@[j] == i;
        assert(host@[r@[j] as int] != device@[r@[j] as int]);
    }
}

/// Cells are sampled in the first one that a lattice fills.
pub proof fn law_samples_come_from_the_first_lattice(cells: &Vec<LatticeCell>, r: Option<usize>, k: int)
    requires
        call_ensures(sample_cell, (cells,), r),
        0 <= k < cells@.len(),
        cells@[k].fill is Lattice,
    ensures
        r is Some,
        r matches Some(i) ==> i <= k && cells@[i as int].fill is Lattice,
{
    assert(!no_lattice(cells@)) by {
        assert(cells@[k].fill is Lattice);
    }
}

/// The histogram has one bin for each cell that was found, in the order of the cells,
/// with the number of times it was found.
pub proof fn law_histogram_counts_each_cell(found: &Vec<i32>, r: Vec<(i32, usize)>, i: int, k: int)
    requires
        call_ensures(cell_histogram, (found,), r),
        0 <= i < found@.len(),
        0 <= k < r@.len(),
    ensures
        exists|j: int| 0 <= j < r@.len() && (#[trigger] r@[j]).0 == found@[i],
        r@[k].1 == found@.to_multiset().count(r@[k].0),
        k + 1 < r@.len() ==> r@[k].0 < r@[k + 1].0,
{
    assert(has_bin(r@, found@[i]));
    assert(r@[k] == r@[k]);
}

} // verus!
