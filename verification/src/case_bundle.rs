//! The slot pool and the per-case temperature filter.

use crate::binary64::Binary64;
use crate::case_loader::CaseSpec;
use crate::materials::{bracket_of, lemma_climb, Material, ResolvedMaterials, ThermalScatteringData};
use std::sync::Arc;
use vstd::prelude::*;

verus! {

/// Where a case runs.
#[derive(Clone, Copy, Debug, PartialEq, Eq, Structural)]
pub enum Backend {
    Cpu,
    Cuda,
}

/// A resolved case, ready for an executor.
pub struct CaseBundle {
    pub spec: CaseSpec,
    pub resolved: ResolvedMaterials,
    /// Seconds that resolving took.
    pub load_s: Binary64,
}

/// One slot of the pool. A slot goes from `Empty` through `Loading`, `Ready`,
/// `Running` and `Done` back to `Empty`.
pub enum Slot {
    Empty,
    Loading { case_id: String },
    Ready(Box<CaseBundle>),
    Running { case_id: String },
    Done,
}

/// A pool with a fixed number of slots.
pub struct SlotArray {
    pub slots: Vec<Slot>,
}

impl SlotArray {
    /// A pool of `n` empty slots.
    pub fn with_capacity(n: usize) -> (r: Self)
        ensures
            r.slots@.len() == n,
            forall|i: int| 0 <= i < n ==> (#[trigger] r.slots@[i]) is Empty,
    {
        let mut slots: Vec<Slot> = Vec::new();
        while slots.len() < n
            invariant
                slots@.len() <= n,
                forall|i: int| 0 <= i < slots@.len() ==> (#[trigger] slots@[i]) is Empty,
            decreases n - slots@.len(),
        {
            slots.push(Slot::Empty);
        }
        SlotArray { slots }
    }

    /// The number of slots, whatever they hold.
    pub fn capacity(&self) -> (r: usize)
        ensures
            r == self.slots@.len(),
    {
        self.slots.len()
    }
}

/// Thermal data of a nuclide, with the kernel index of that nuclide.
pub type SabSlot = (Arc<ThermalScatteringData>, usize);

/// Some material reads kernel `nuc_idx`.
pub open spec fn referenced(materials: Seq<Material>, nuc_idx: usize) -> bool {
    exists|m: int| 0 <= m < materials.len() && (#[trigger] materials[m]).uses_kernel(nuc_idx)
}

/// `k` is one of the two temperatures that material `m` samples between.
pub open spec fn in_bracket(materials: Seq<Material>, kts: Seq<Binary64>, m: int, k: int) -> bool {
    k == bracket_of(kts, materials[m].k_t).0 || k == bracket_of(kts, materials[m].k_t).1
}

/// The temperature index `k` belongs in the filter of a nuclide: it is in the
/// bracket of some material that reads the nuclide, or nothing reads the nuclide
/// and it is any index of the table.
pub open spec fn wanted(materials: Seq<Material>, kts: Seq<Binary64>, nuc_idx: usize, k: int) -> bool {
    if referenced(materials, nuc_idx) {
        exists|m: int|
            0 <= m < materials.len() && (#[trigger] materials[m]).uses_kernel(nuc_idx) && in_bracket(
                materials,
                kts,
                m,
                k,
            )
    } else {
        0 <= k < kts.len()
    }
}

/// Ascending without repetition.
pub open spec fn strictly_ascending(v: Seq<usize>) -> bool {
    forall|i: int, j: int| 0 <= i < j < v.len() ==> v[i] < v[j]
}

/// `filter` lists exactly the wanted temperatures of a nuclide, in order.
pub open spec fn is_filter(
    filter: Seq<usize>,
    materials: Seq<Material>,
    kts: Seq<Binary64>,
    nuc_idx: usize,
) -> bool {
    &&& strictly_ascending(filter)
    &&& forall|k: usize| #[trigger] filter.contains(k) <==> wanted(materials, kts, nuc_idx, k as int)
}

/// Adds `x` to an ascending list unless it is there.
fn insert_ascending(v: &mut Vec<usize>, x: usize)
    requires
        strictly_ascending(old(v)@),
    ensures
        strictly_ascending(final(v)@),
        forall|k: usize| #[trigger] final(v)@.contains(k) <==> old(v)@.contains(k) || k == x,
{
    let mut i: usize = 0;
    while i < v.len() && v[i] < x
        invariant
            i <= v@.len(),
            forall|j: int| 0 <= j < i ==> #[trigger] v@[j] < x,
        decreases v@.len() - i,
    {
        i += 1;
    }
    if i < v.len() && v[i] == x {
        return;
    }
    let ghost before = v@;
    v.insert(i, x);
    proof {
        assert(v@ == before.insert(i as int, x));
        assert forall|a: int, b: int| 0 <= a < b < v@.len() implies v@[a] < v@[b] by {
            if i < before.len() {
                assert(before[i as int] > x);
            }
        }
        assert forall|k: usize| #[trigger] v@.contains(k) <==> before.contains(k) || k == x by {
            if before.contains(k) {
                let j = choose|j: int| 0 <= j < before.len() && before[j] == k;
                assert(v@[if j < i { j } else { j + 1 }] == k);
            }
            if k == x {
                assert(v@[i as int] == x);
            }
            if v@.contains(k) && k != x {
                let j = choose|j: int| 0 <= j < v@.len() && v@[j] == k;
                assert(before[if j < i { j } else { j - 1 }] == k);
            }
        }
    }
}

/// The temperature filter of one slot.
fn slot_filter(materials: &Vec<Material>, tsl: &ThermalScatteringData, nuc_idx: usize) -> (r: Vec<usize>)
    requires
        referenced(materials@, nuc_idx) ==> tsl.kts@.len() > 0,
    ensures
        is_filter(r@, materials@, tsl.kts@, nuc_idx),
{
    let mut indices: Vec<usize> = Vec::new();
    let mut seen: bool = false;
    let mut m: usize = 0;
    while m < materials.len()
        invariant
            m <= materials@.len(),
            referenced(materials@, nuc_idx) ==> tsl.kts@.len() > 0,
            strictly_ascending(indices@),
            seen <==> exists|i: int| 0 <= i < m && (#[trigger] materials@[i]).uses_kernel(nuc_idx),
            forall|k: usize| #[trigger]
                indices@.contains(k) <==> exists|i: int|
                    0 <= i < m && (#[trigger] materials@[i]).uses_kernel(nuc_idx) && in_bracket(
                        materials@,
                        tsl.kts@,
                        i,
                        k as int,
                    ),
        decreases materials@.len() - m,
    {
        if materials[m].touches(nuc_idx) {
            assert(materials@[m as int].uses_kernel(nuc_idx));
            let (lo, hi) = tsl.bracket(materials[m].k_t);
            seen = true;
            insert_ascending(&mut indices, lo);
            insert_ascending(&mut indices, hi);
        }
        m += 1;
    }
    if !seen {
        assert(!referenced(materials@, nuc_idx));
        let n: usize = tsl.kts.len();
        let mut k: usize = 0;
        assert(forall|j: usize| !indices@.contains(j));
        while k < n
            invariant
                k <= n,
                strictly_ascending(indices@),
                forall|j: usize| #[trigger] indices@.contains(j) <==> j < k,
            decreases n - k,
        {
            insert_ascending(&mut indices, k);
            k += 1;
        }
    } else {
        assert(referenced(materials@, nuc_idx));
    }
    indices
}

/// For each slot, the sorted indices of the temperatures that some material can
/// sample from that slot's table: the union of the brackets of every material
/// that reads the slot's nuclide, or the whole table where none does. A table that
/// some material reads has a temperature.
pub fn compute_tsl_temp_filter(resolved: &ResolvedMaterials, slots: &Vec<SabSlot>) -> (r: Vec<Vec<usize>>)
    requires
        forall|s: int|
            0 <= s < slots@.len() && referenced(resolved.materials@, slots@[s].1) ==> (#[trigger] slots@[s]).0.kts@.len()
                > 0,
    ensures
        r@.len() == slots@.len(),
        forall|s: int|
            0 <= s < slots@.len() ==> is_filter(
                (#[trigger] r@[s])@,
                resolved.materials@,
                slots@[s].0.kts@,
                slots@[s].1,
            ),
{
    let mut out: Vec<Vec<usize>> = Vec::new();
    let mut s: usize = 0;
    while s < slots.len()
        invariant
            s <= slots@.len(),
            out@.len() == s,
            forall|i: int|
                0 <= i < slots@.len() && referenced(resolved.materials@, slots@[i].1) ==> (
                #[trigger] slots@[i]).0.kts@.len() > 0,
            forall|i: int|
                0 <= i < s ==> is_filter(
                    (#[trigger] out@[i])@,
                    resolved.materials@,
                    slots@[i].0.kts@,
                    slots@[i].1,
                ),
        decreases slots@.len() - s,
    {
        let indices = slot_filter(&resolved.materials, &slots[s].0, slots[s].1);
        out.push(indices);
        s += 1;
    }
    out
}

/// The filter of a nuclide holds both temperatures of every material that reads
/// it, so no material is ever clamped to a temperature outside its bracket.
pub proof fn law_filter_covers_every_bracket(
    filter: Seq<usize>,
    materials: Seq<Material>,
    kts: Seq<Binary64>,
    nuc_idx: usize,
    m: int,
)
    requires
        is_filter(filter, materials, kts, nuc_idx),
        0 < kts.len() <= usize::MAX,
        0 <= m < materials.len(),
        materials[m].uses_kernel(nuc_idx),
    ensures
        filter.contains(bracket_of(kts, materials[m].k_t).0 as usize),
        filter.contains(bracket_of(kts, materials[m].k_t).1 as usize),
{
    let k_t = materials[m].k_t;
    if kts.len() > 1 {
        lemma_climb(kts, k_t, 0);
    }
    let lo = bracket_of(kts, k_t).0;
    let hi = bracket_of(kts, k_t).1;
    assert(in_bracket(materials, kts, m, lo as usize as int));
    assert(in_bracket(materials, kts, m, hi as usize as int));
    assert(wanted(materials, kts, nuc_idx, lo as usize as int));
    assert(wanted(materials, kts, nuc_idx, hi as usize as int));
}

/// The filter of a nuclide names only temperatures of its table.
pub proof fn law_filter_stays_in_table(
    filter: Seq<usize>,
    materials: Seq<Material>,
    kts: Seq<Binary64>,
    nuc_idx: usize,
    i: int,
)
    requires
        is_filter(filter, materials, kts, nuc_idx),
        referenced(materials, nuc_idx) ==> kts.len() > 0,
        0 <= i < filter.len(),
    ensures
        filter[i] < kts.len(),
{
    assert(filter.contains(filter[i]));
    assert(wanted(materials, kts, nuc_idx, filter[i] as int));
    if referenced(materials, nuc_idx) {
        let m = choose|m: int|
            0 <= m < materials.len() && (#[trigger] materials[m]).uses_kernel(nuc_idx) && in_bracket(
                materials,
                kts,
                m,
                filter[i] as int,
            );
        if kts.len() > 1 {
            lemma_climb(kts, materials[m].k_t, 0);
        }
    }
}

proof fn lemma_ascending_lists_with_equal_members(a: Seq<usize>, b: Seq<usize>)
    requires
        strictly_ascending(a),
        strictly_ascending(b),
        forall|k: usize| a.contains(k) <==> b.contains(k),
    ensures
        a == b,
    decreases a.len(),
{
    if a.len() == 0 {
        if b.len() > 0 {
            assert(b.contains(b[0]));
            assert(a.contains(b[0]));
        }
        assert(a =~= b);
    } else {
        assert(a.contains(a.last()));
        assert(b.contains(a.last()));
        assert(b.contains(b.last()));
        assert(a.contains(b.last()));
        let i = choose|i: int| 0 <= i < b.len() && b[i] == a.last();
        let j = choose|j: int| 0 <= j < a.len() && a[j] == b.last();
        assert(a.last() == b.last()) by {
            if i < b.len() - 1 {
                assert(b[i] < b[b.len() - 1]);
            }
            if j < a.len() - 1 {
                assert(a[j] < a[a.len() - 1]);
            }
        }
        let a0 = a.drop_last();
        let b0 = b.drop_last();
        assert forall|k: usize| a0.contains(k) <==> b0.contains(k) by {
            if a0.contains(k) {
                let x = choose|x: int| 0 <= x < a0.len() && a0[x] == k;
                assert(a[x] == k && a[x] < a[a.len() - 1]);
                assert(a.contains(k));
                let y = choose|y: int| 0 <= y < b.len() && b[y] == k;
                assert(b0[y] == k);
            }
            if b0.contains(k) {
                let x = choose|x: int| 0 <= x < b0.len() && b0[x] == k;
                assert(b[x] == k && b[x] < b[b.len() - 1]);
                assert(b.contains(k));
                let y = choose|y: int| 0 <= y < a.len() && a[y] == k;
                assert(a0[y] == k);
            }
        }
        lemma_ascending_lists_with_equal_members(a0, b0);
        assert(a =~= a0.push(a.last()));
        assert(b =~= b0.push(b.last()));
    }
}

/// Every material of one list occurs in the other.
pub open spec fn all_among(a: Seq<Material>, b: Seq<Material>) -> bool {
    forall|m: int| 0 <= m < a.len() ==> b.contains(#[trigger] a[m])
}

proof fn lemma_wanted_among(a: Seq<Material>, b: Seq<Material>, kts: Seq<Binary64>, nuc_idx: usize, k: int)
    requires
        all_among(a, b),
        all_among(b, a),
        wanted(a, kts, nuc_idx, k),
    ensures
        wanted(b, kts, nuc_idx, k),
{
    if referenced(a, nuc_idx) {
        let m = choose|m: int|
            0 <= m < a.len() && (#[trigger] a[m]).uses_kernel(nuc_idx) && in_bracket(a, kts, m, k);
        assert(b.contains(a[m]));
        let n = choose|n: int| 0 <= n < b.len() && b[n] == a[m];
        assert(b[n].uses_kernel(nuc_idx) && in_bracket(b, kts, n, k));
    } else if referenced(b, nuc_idx) {
        let n = choose|n: int| 0 <= n < b.len() && (#[trigger] b[n]).uses_kernel(nuc_idx);
        assert(a.contains(b[n]));
        let m = choose|m: int| 0 <= m < a.len() && a[m] == b[n];
        assert(a[m].uses_kernel(nuc_idx));
    }
}

/// The filter of a slot depends on its table, its nuclide and the set of materials
/// alone: not on the order of the materials, nor on the other slots.
pub proof fn law_filter_is_of_the_slot_alone(
    f: Seq<usize>,
    a: Seq<Material>,
    g: Seq<usize>,
    b: Seq<Material>,
    kts: Seq<Binary64>,
    nuc_idx: usize,
)
    requires
        is_filter(f, a, kts, nuc_idx),
        is_filter(g, b, kts, nuc_idx),
        all_among(a, b),
        all_among(b, a),
    ensures
        f == g,
{
    assert forall|k: usize| f.contains(k) <==> g.contains(k) by {
        if f.contains(k) {
            lemma_wanted_among(a, b, kts, nuc_idx, k as int);
        }
        if g.contains(k) {
            lemma_wanted_among(b, a, kts, nuc_idx, k as int);
        }
    }
    lemma_ascending_lists_with_equal_members(f, g);
}

/// `filters` gives every slot its filter.
pub open spec fn are_filters(filters: Seq<Seq<usize>>, materials: Seq<Material>, slots: Seq<SabSlot>) -> bool {
    &&& filters.len() == slots.len()
    &&& forall|s: int|
        0 <= s < slots.len() ==> is_filter(#[trigger] filters[s], materials, slots[s].0.kts@, slots[s].1)
}

/// The filters of two lists of slots, one behind the other, are those of the joined
/// list.
pub proof fn law_filters_of_joined_slots(
    f: Seq<Seq<usize>>,
    a: Seq<SabSlot>,
    g: Seq<Seq<usize>>,
    b: Seq<SabSlot>,
    h: Seq<Seq<usize>>,
    materials: Seq<Material>,
)
    requires
        are_filters(f, materials, a),
        are_filters(g, materials, b),
        are_filters(h, materials, a + b),
    ensures
        h == f + g,
{
    assert forall|s: int| 0 <= s < h.len() implies #[trigger] h[s] == (f + g)[s] by {
        let slots = a + b;
        assert(is_filter(h[s], materials, slots[s].0.kts@, slots[s].1));
        assert(is_filter((f + g)[s], materials, slots[s].0.kts@, slots[s].1)) by {
            if s < a.len() {
                assert(is_filter(f[s], materials, a[s].0.kts@, a[s].1));
            } else {
                let t = s - a.len();
                assert(is_filter(g[t], materials, b[t].0.kts@, b[t].1));
            }
        }
        assert forall|m: int| 0 <= m < materials.len() implies materials.contains(#[trigger] materials[m]) by {}
        law_filter_is_of_the_slot_alone(h[s], materials, (f + g)[s], materials, slots[s].0.kts@, slots[s].1);
    }
    assert(h =~= f + g);
}

/// A table of one temperature is kept whole, whether or not a material reads it.
pub proof fn law_single_temperature_is_kept(
    filter: Seq<usize>,
    materials: Seq<Material>,
    kts: Seq<Binary64>,
    nuc_idx: usize,
)
    requires
        is_filter(filter, materials, kts, nuc_idx),
        kts.len() == 1,
    ensures
        filter == seq![0usize],
{
    assert forall|k: usize| filter.contains(k) <==> seq![0usize].contains(k) by {
        assert(seq![0usize][0] == 0);
        if referenced(materials, nuc_idx) {
            let m = choose|m: int| 0 <= m < materials.len() && (#[trigger] materials[m]).uses_kernel(nuc_idx);
            assert(in_bracket(materials, kts, m, 0));
            assert(wanted(materials, kts, nuc_idx, 0));
        }
        if filter.contains(k) {
            assert(wanted(materials, kts, nuc_idx, k as int));
        }
        assert(filter.contains(0usize) <==> wanted(materials, kts, nuc_idx, 0usize as int));
    }
    lemma_ascending_lists_with_equal_members(filter, seq![0usize]);
}

/// The temperatures that a slot keeps: in ascending order, both ends of the bracket
/// of every material that is bound to its nuclide, and nothing else; all of them
/// where no material is.
pub proof fn law_slot_keeps_the_brackets_of_its_materials(
    resolved: &ResolvedMaterials,
    slots: &Vec<SabSlot>,
    r: Vec<Vec<usize>>,
    s: int,
    m: int,
    i: int,
    j: int,
    ends: (usize, usize),
)
    requires
        call_ensures(compute_tsl_temp_filter, (resolved, slots), r),
        0 <= s < slots@.len(),
        slots@[s].0.kts@.len() > 0,
        0 <= m < resolved.materials@.len(),
        0 <= j < resolved.materials@[m].nuclides@.len(),
        call_ensures(ThermalScatteringData::bracket, (&*slots@[s].0, resolved.materials@[m].k_t), ends),
        0 <= i < r@[s]@.len(),
    ensures
        r@.len() == slots@.len(),
        resolved.materials@[m].nuclides@[j].xs_kernel_idx == slots@[s].1 ==> r@[s]@.contains(ends.0)
            && r@[s]@.contains(ends.1),
        referenced(resolved.materials@, slots@[s].1) ==> exists|k: int|
            0 <= k < resolved.materials@.len() && (#[trigger] resolved.materials@[k]).uses_kernel(slots@[s].1) && (
            r@[s]@[i] == bracket_of(slots@[s].0.kts@, resolved.materials@[k].k_t).0 || r@[s]@[i] == bracket_of(
                slots@[s].0.kts@,
                resolved.materials@[k].k_t,
            ).1),
        !referenced(resolved.materials@, slots@[s].1) ==> forall|k: usize| #[trigger]
            r@[s]@.contains(k) <==> k < slots@[s].0.kts@.len(),
        forall|a: int, b: int| 0 <= a < b < r@[s]@.len() ==> #[trigger] r@[s]@[a] < #[trigger] r@[s]@[b],
{
    let filter = r@[s]@;
    let kts = slots@[s].0.kts@;
    assert(is_filter(filter, resolved.materials@, kts, slots@[s].1));
    assert(filter.contains(filter[i]));
    assert(wanted(resolved.materials@, kts, slots@[s].1, filter[i] as int));
    if resolved.materials@[m].nuclides@[j].xs_kernel_idx == slots@[s].1 {
        assert(resolved.materials@[m].uses_kernel(slots@[s].1));
        assert(kts.len() <= usize::MAX) by {
            assert(slots@[s].0.kts.len() == kts.len());
        }
        law_filter_covers_every_bracket(filter, resolved.materials@, kts, slots@[s].1, m);
    }
}

/// A new array has as many slots as were asked for, none of them taken.
pub proof fn law_new_slots_are_empty(n: usize, a: SlotArray, capacity: usize)
    requires
        call_ensures(SlotArray::with_capacity, (n,), a),
        call_ensures(SlotArray::capacity, (&a,), capacity),
    ensures
        capacity == n,
        forall|i: int| 0 <= i < n ==> (#[trigger] a.slots@[i]) is Empty,
{
}

} // verus!
