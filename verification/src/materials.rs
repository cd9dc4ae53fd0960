//! What the benchmark logic reads of resolved nuclear data.

use crate::binary64::Binary64;
use std::sync::Arc;
use vstd::prelude::*;

verus! {

/// One nuclide of a material.
#[derive(Clone, Copy, Debug, PartialEq, Eq, Structural)]
pub struct NuclideEntry {
    /// Atoms per barn-centimetre.
    pub atom_density: Binary64,
    /// Which cross-section kernel the nuclide reads.
    pub xs_kernel_idx: usize,
}

/// A material with its temperature given as kT in electronvolts.
#[derive(Clone, Debug)]
pub struct Material {
    pub name: String,
    pub k_t: Binary64,
    pub nuclides: Vec<NuclideEntry>,
}

impl Material {
    /// Some nuclide of the material reads kernel `nuc_idx`.
    pub open spec fn uses_kernel(self, nuc_idx: usize) -> bool {
        exists|j: int|
            0 <= j < self.nuclides@.len() && (#[trigger] self.nuclides@[j]).xs_kernel_idx == nuc_idx
    }

    /// Whether some nuclide of the material reads kernel `nuc_idx`.
    pub fn touches(&self, nuc_idx: usize) -> (r: bool)
        ensures
            r == self.uses_kernel(nuc_idx),
    {
        let mut j: usize = 0;
        while j < self.nuclides.len()
            invariant
                j <= self.nuclides@.len(),
                forall|k: int| 0 <= k < j ==> (#[trigger] self.nuclides@[k]).xs_kernel_idx != nuc_idx,
            decreases self.nuclides@.len() - j,
        {
            if self.nuclides[j].xs_kernel_idx == nuc_idx {
                return true;
            }
            j += 1;
        }
        false
    }
}

/// Thermal scattering data of one nuclide, tabulated at several temperatures.
#[derive(Clone, Debug)]
pub struct ThermalScatteringData {
    pub name: String,
    /// Tabulated temperatures as kT in electronvolts.
    pub kts: Vec<Binary64>,
}

/// The lowest index at or above `i` whose upper neighbour is not below `kt`; the
/// last but one index where every upper neighbour but the last is below.
pub open spec fn climb(kts: Seq<Binary64>, kt: Binary64, i: int) -> int
    decreases kts.len() - i,
{
    if i + 2 < kts.len() && kts[i + 1].less(kt) {
        climb(kts, kt, i + 1)
    } else {
        i
    }
}

/// The pair of tabulated temperatures that a material at `kt` samples between.
/// A temperature above the table takes the last entry alone. One that is
/// tabulated takes the pair below it, since the climb asks for a strictly
/// smaller upper neighbour.
pub open spec fn bracket_of(kts: Seq<Binary64>, kt: Binary64) -> (int, int) {
    if kts.len() <= 1 {
        (0, 0)
    } else if kts[kts.len() - 1].less(kt) {
        (kts.len() - 1, kts.len() - 1)
    } else {
        (climb(kts, kt, 0), climb(kts, kt, 0) + 1)
    }
}

/// Where the climb ends.
pub proof fn lemma_climb(kts: Seq<Binary64>, kt: Binary64, i: int)
    requires
        0 <= i,
        i + 1 < kts.len(),
    ensures
        i <= climb(kts, kt, i) < kts.len() - 1,
        forall|j: int| i < j <= climb(kts, kt, i) ==> (#[trigger] kts[j]).less(kt),
        climb(kts, kt, i) + 2 < kts.len() ==> !kts[climb(kts, kt, i) + 1].less(kt),
    decreases kts.len() - i,
{
    if i + 2 < kts.len() && kts[i + 1].less(kt) {
        lemma_climb(kts, kt, i + 1);
    }
}

/// The temperature lies within its bracket: on a table in ascending order, with
/// `kt` neither below nor above it, the lower entry is at most `kt` and the upper
/// at least `kt`.
pub proof fn law_bracket_encloses(kts: Seq<Binary64>, kt: Binary64)
    requires
        kts.len() >= 2,
        forall|i: int| 0 <= i < kts.len() ==> !(#[trigger] kts[i]).nan(),
        !kt.nan(),
        kts[0].at_most(kt),
        kt.at_most(kts[kts.len() - 1]),
    ensures
        bracket_of(kts, kt).0 + 1 == bracket_of(kts, kt).1,
        0 <= bracket_of(kts, kt).0,
        bracket_of(kts, kt).1 < kts.len(),
        kts[bracket_of(kts, kt).0].at_most(kt),
        kt.at_most(kts[bracket_of(kts, kt).1]),
{
    lemma_climb(kts, kt, 0);
}

impl ThermalScatteringData {
    /// The indices of the two tabulated temperatures around `kt`.
    pub fn bracket(&self, kt: Binary64) -> (r: (usize, usize))
        requires
            self.kts@.len() > 0,
        ensures
            r.0 == bracket_of(self.kts@, kt).0,
            r.1 == bracket_of(self.kts@, kt).1,
            r.0 <= r.1 < self.kts@.len(),
    {
        let n: usize = self.kts.len();
        if n == 1 {
            return (0, 0);
        }
        if self.kts[n - 1].lt(kt) {
            return (n - 1, n - 1);
        }
        let mut i: usize = 0;
        while i < n - 2 && self.kts[i + 1].lt(kt)
            invariant
                n == self.kts@.len(),
                n >= 2,
                i + 1 < n,
                climb(self.kts@, kt, i as int) == climb(self.kts@, kt, 0),
            decreases n - i,
        {
            i += 1;
        }
        (i, i + 1)
    }
}

/// Per-nuclide constants that travel with the cross sections.
#[derive(Clone, Copy, Debug, PartialEq, Eq, Structural)]
pub struct NuclideData {
    /// Atomic weight ratio.
    pub awr: Binary64,
    /// Constant mean fission yield.
    pub nu_bar_const: Binary64,
    /// Q value of (n,2n) in electronvolts.
    pub q_n2n: Binary64,
    /// Q value of (n,3n) in electronvolts.
    pub q_n3n: Binary64,
}

/// Cross sections of a case: one entry per nuclide, with thermal scattering data
/// where the nuclide has some.
#[derive(Clone, Debug)]
pub struct SvdXsProvider {
    pub nuclides: Vec<NuclideData>,
    pub thermal: Vec<Option<Arc<ThermalScatteringData>>>,
}

/// Materials bound to their cross sections.
#[derive(Clone, Debug)]
pub struct ResolvedMaterials {
    pub provider: SvdXsProvider,
    pub materials: Vec<Material>,
}

/// The bracket of a temperature in an ascending table: the two neighbours that
/// enclose it, the first pair that does; the first two where it lies below the table,
/// the last one twice where it lies above, and the only one where there is one.
pub proof fn law_bracket_is_next_to_the_temperature(t: &ThermalScatteringData, kt: Binary64, r: (usize, usize))
    requires
        call_ensures(ThermalScatteringData::bracket, (t, kt), r),
        t.kts@.len() > 0,
        !kt.nan(),
        forall|i: int, j: int| 0 <= i <= j < t.kts@.len() ==> (#[trigger] t.kts@[i]).at_most(#[trigger] t.kts@[j]),
    ensures
        r.1 < t.kts@.len(),
        t.kts@.len() == 1 ==> r == (0usize, 0usize),
        t.kts@.len() > 1 && kt.at_most(t.kts@[0]) ==> r == (0usize, 1usize),
        t.kts@.len() > 1 && t.kts@.last().less(kt) ==> r.0 == t.kts@.len() - 1 && r.1 == t.kts@.len() - 1,
        t.kts@.len() > 1 && t.kts@[0].at_most(kt) && kt.at_most(t.kts@.last()) ==> r.1 == r.0 + 1
            && t.kts@[r.0 as int].at_most(kt) && kt.at_most(t.kts@[r.1 as int]),
        0 < r.0 < r.1 ==> t.kts@[r.0 as int].less(kt),
{
    let kts = t.kts@;
    if kts.len() > 1 {
        lemma_climb(kts, kt, 0);
    }
    assert forall|i: int| 0 <= i < kts.len() implies !(#[trigger] kts[i]).nan() by {
        assert(kts[i].at_most(kts[i]));
    }
    if kts.len() > 1 {
        assert(kts[0].at_most(kts[1]));
        assert(kts[0].at_most(kts[kts.len() - 1]));
        if kts[0].at_most(kt) && kt.at_most(kts[kts.len() - 1]) {
            law_bracket_encloses(kts, kt);
        }
    }
}

/// A material touches a kernel exactly where one of its nuclides is bound to it.
pub proof fn law_material_touches_its_kernels(m: &Material, kernel: usize, r: bool)
    requires
        call_ensures(Material::touches, (m, kernel), r),
    ensures
        !r <==> forall|j: int| 0 <= j < m.nuclides@.len() ==> (#[trigger] m.nuclides@[j]).xs_kernel_idx != kernel,
{
}

} // verus!
