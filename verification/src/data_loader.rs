//! Checks and derived tables of a resolved case.

use crate::binary64::Binary64;
use crate::case_bundle::{compute_tsl_temp_filter, is_filter, referenced, CaseBundle, SabSlot};
use crate::case_loader::CaseSpec;
use crate::materials::{Material, NuclideData, ResolvedMaterials, ThermalScatteringData};
use std::sync::Arc;
use vstd::prelude::*;

verus! {

/// Why a case could not be made ready.
#[derive(Clone, Debug)]
pub enum DataLoadError {
    /// Binding nuclides to nuclear data failed, with the message.
    Resolve(String),
    /// A material has more nuclides than the engine takes.
    TooManyNuclides {
        material_idx: usize,
        material_name: String,
        n_nuclides: usize,
        max_allowed: usize,
    },
    /// Copying to the device failed, with the message.
    GpuUpload(String),
}

/// Thermal slots in the order of the provider's nuclides.
pub type SabSlots = Vec<SabSlot>;

/// `m` is the first material with more than `max_allowed` nuclides.
pub open spec fn first_oversized(materials: Seq<Material>, max_allowed: usize, m: int) -> bool {
    &&& 0 <= m < materials.len()
    &&& materials[m].nuclides@.len() > max_allowed
    &&& forall|i: int| 0 <= i < m ==> (#[trigger] materials[i]).nuclides@.len() <= max_allowed
}

/// No material has more than `max_allowed` nuclides.
pub open spec fn within_limit(materials: Seq<Material>, max_allowed: usize) -> bool {
    forall|i: int| 0 <= i < materials.len() ==> (#[trigger] materials[i]).nuclides@.len() <= max_allowed
}

/// Refuses the first material with more than `max_allowed` nuclides.
pub fn check_nuclide_limit(materials: &Vec<Material>, max_allowed: usize) -> (r: Result<(), DataLoadError>)
    ensures
        r is Ok <==> within_limit(materials@, max_allowed),
        r matches Err(e) ==> {
            &&& e matches DataLoadError::TooManyNuclides {
                material_idx,
                material_name,
                n_nuclides,
                max_allowed: limit,
            }
            &&& first_oversized(materials@, max_allowed, material_idx as int)
            &&& material_name@ == materials@[material_idx as int].name@
            &&& n_nuclides == materials@[material_idx as int].nuclides@.len()
            &&& limit == max_allowed
        },
{
    let mut i: usize = 0;
    while i < materials.len()
        invariant
            i <= materials@.len(),
            forall|k: int| 0 <= k < i ==> (#[trigger] materials@[k]).nuclides@.len() <= max_allowed,
        decreases materials@.len() - i,
    {
        let n: usize = materials[i].nuclides.len();
        if n > max_allowed {
            return Err(
                DataLoadError::TooManyNuclides {
                    material_idx: i,
                    material_name: materials[i].name.clone(),
                    n_nuclides: n,
                    max_allowed,
                },
            );
        }
        i += 1;
    }
    Ok(())
}

/// Makes a case ready from the outcome of binding its nuclides: passes a failure
/// on, refuses a material with too many nuclides, and otherwise bundles the case
/// with its data unchanged.
pub fn resolve_case(
    spec: CaseSpec,
    resolved: Result<ResolvedMaterials, String>,
    load_s: Binary64,
    max_allowed: usize,
) -> (r: Result<CaseBundle, DataLoadError>)
    ensures
        r is Ok <==> resolved is Ok && within_limit(resolved->Ok_0.materials@, max_allowed),
        r matches Ok(b) ==> b.spec == spec && b.resolved == resolved->Ok_0 && b.load_s == load_s,
        resolved matches Err(message) ==> r == Err::<CaseBundle, DataLoadError>(
            DataLoadError::Resolve(message),
        ),
        r is Err && resolved is Ok ==> {
            &&& r->Err_0 matches DataLoadError::TooManyNuclides {
                material_idx,
                material_name,
                n_nuclides,
                max_allowed: limit,
            }
            &&& first_oversized(resolved->Ok_0.materials@, max_allowed, material_idx as int)
            &&& material_name@ == resolved->Ok_0.materials@[material_idx as int].name@
            &&& n_nuclides == resolved->Ok_0.materials@[material_idx as int].nuclides@.len()
            &&& limit == max_allowed
        },
{
    match resolved {
        Err(message) => Err(DataLoadError::Resolve(message)),
        Ok(data) => match check_nuclide_limit(&data.materials, max_allowed) {
            Err(e) => Err(e),
            Ok(()) => Ok(CaseBundle { spec, resolved: data, load_s }),
        },
    }
}

/// How many of the first `n` nuclides have thermal data.
pub open spec fn thermal_count(thermal: Seq<Option<Arc<ThermalScatteringData>>>, n: int) -> int
    decreases n,
{
    if n <= 0 {
        0
    } else {
        thermal_count(thermal, n - 1) + if thermal[n - 1] is Some {
            1int
        } else {
            0int
        }
    }
}

/// `slots` holds the thermal data of the first `n` nuclides, in order, each with
/// the index of its nuclide.
pub open spec fn is_slot_list(
    slots: Seq<SabSlot>,
    thermal: Seq<Option<Arc<ThermalScatteringData>>>,
    n: int,
) -> bool {
    &&& slots.len() == thermal_count(thermal, n)
    &&& forall|i: int|
        0 <= i < n && (#[trigger] thermal[i]) is Some ==> slots[thermal_count(thermal, i)] == (
            thermal[i]->0,
            i as usize,
        )
}

proof fn lemma_thermal_count(thermal: Seq<Option<Arc<ThermalScatteringData>>>, i: int, n: int)
    requires
        0 <= i <= n,
    ensures
        0 <= thermal_count(thermal, i) <= thermal_count(thermal, n),
        i < n && thermal[i] is Some ==> thermal_count(thermal, i) < thermal_count(thermal, n),
    decreases n,
{
    if n > 0 {
        if i < n {
            lemma_thermal_count(thermal, i, n - 1);
        } else {
            lemma_thermal_count(thermal, n - 1, n - 1);
        }
    }
}

/// The thermal slots of a case: only nuclides with thermal data contribute, in
/// the order of the provider.
pub fn build_sab_slots(resolved: &ResolvedMaterials) -> (r: SabSlots)
    ensures
        is_slot_list(r@, resolved.provider.thermal@, resolved.provider.thermal@.len() as int),
{
    let thermal = &resolved.provider.thermal;
    let mut slots: SabSlots = Vec::new();
    let mut i: usize = 0;
    while i < thermal.len()
        invariant
            i <= thermal@.len(),
            is_slot_list(slots@, thermal@, i as int),
        decreases thermal@.len() - i,
    {
        let ghost before = slots@;
        if let Some(data) = &thermal[i] {
            slots.push((Arc::clone(data), i));
        }
        proof {
            assert forall|k: int| 0 <= k < i + 1 && (#[trigger] thermal@[k]) is Some implies slots@[thermal_count(
                thermal@,
                k,
            )] == (thermal@[k]->0, k as usize) by {
                if k < i {
                    lemma_thermal_count(thermal@, k, i as int);
                    assert(before[thermal_count(thermal@, k)] == (thermal@[k]->0, k as usize));
                }
            }
        }
        i += 1;
    }
    slots
}

/// The per-slot temperature filter of a case.
pub fn build_temp_filter(resolved: &ResolvedMaterials, slots: &SabSlots) -> (r: Vec<Vec<usize>>)
    requires
        forall|s: int|
            0 <= s < slots@.len() && referenced(resolved.materials@, slots@[s].1) ==> (#[trigger] slots@[s]).0.kts@.len()
                > 0,
    ensures
        r@.len() == slots@.len(),
        forall|s: int|
            0 <= s < slots@.len() ==> is_filter(
                (#[trigger] r@[s])@,
                resolved.materials@,
                slots@[s].0.kts@,
                slots@[s].1,
            ),
{
    compute_tsl_temp_filter(resolved, slots)
}

/// Device bytes allowed for one nuclide's cross sections.
pub const NUCLIDE_BYTES: usize = 8_388_608;

/// Pointer arrays that travel with the nuclide data.
pub const FLAT_PACK_ARRAYS: usize = 186;

/// Device bytes of one particle row.
pub const PARTICLE_BYTES: usize = 96;

/// What a case takes on the device, given what its filtered thermal tables take.
pub open spec fn bundle_bytes(n_nuclides: int, sab_bytes: int, particles_per_batch: int) -> int {
    n_nuclides * NUCLIDE_BYTES + sab_bytes + (if n_nuclides > 1 {
        n_nuclides
    } else {
        1
    }) * FLAT_PACK_ARRAYS * 8 + particles_per_batch * 2 * PARTICLE_BYTES
}

/// An upper estimate of the device bytes of a case: a constant per nuclide, the
/// filtered thermal tables, the pointer arrays, and a particle bank of twice the
/// batch to leave room for fission neutrons.
pub fn estimate_bundle_bytes(
    resolved: &ResolvedMaterials,
    sab_bytes: usize,
    particles_per_batch: u32,
) -> (r: usize)
    requires
        bundle_bytes(
            resolved.provider.nuclides@.len() as int,
            sab_bytes as int,
            particles_per_batch as int,
        ) <= usize::MAX,
    ensures
        r == bundle_bytes(
            resolved.provider.nuclides@.len() as int,
            sab_bytes as int,
            particles_per_batch as int,
        ),
{
    let count: usize = resolved.provider.nuclides.len();
    let n_nuc: usize = if count > 1 {
        count
    } else {
        1
    };
    count * NUCLIDE_BYTES + sab_bytes + n_nuc * FLAT_PACK_ARRAYS * 8 + (particles_per_batch as usize) * 2
        * PARTICLE_BYTES
}

/// Per-nuclide constants as columns, in the order of the provider.
pub struct NuclideColumns {
    pub awrs: Vec<Binary64>,
    pub nu_bars: Vec<Binary64>,
    pub q_n2ns: Vec<Binary64>,
    pub q_n3ns: Vec<Binary64>,
}

/// Row `i` of the columns is nuclide `i`, for the first `n` nuclides.
pub open spec fn are_columns_of(c: NuclideColumns, nuclides: Seq<NuclideData>, n: int) -> bool {
    &&& c.awrs@.len() == n
    &&& c.nu_bars@.len() == n
    &&& c.q_n2ns@.len() == n
    &&& c.q_n3ns@.len() == n
    &&& forall|i: int|
        0 <= i < n ==> {
            &&& (#[trigger] nuclides[i]).awr == c.awrs@[i]
            &&& nuclides[i].nu_bar_const == c.nu_bars@[i]
            &&& nuclides[i].q_n2n == c.q_n2ns@[i]
            &&& nuclides[i].q_n3n == c.q_n3ns@[i]
        }
}

/// Lays the per-nuclide constants out in columns for the device.
pub fn nuclide_columns(nuclides: &Vec<NuclideData>) -> (r: NuclideColumns)
    ensures
        are_columns_of(r, nuclides@, nuclides@.len() as int),
{
    let mut c = NuclideColumns {
        awrs: Vec::new(),
        nu_bars: Vec::new(),
        q_n2ns: Vec::new(),
        q_n3ns: Vec::new(),
    };
    let mut i: usize = 0;
    while i < nuclides.len()
        invariant
            i <= nuclides@.len(),
            are_columns_of(c, nuclides@, i as int),
        decreases nuclides@.len() - i,
    {
        let d: NuclideData = nuclides[i];
        c.awrs.push(d.awr);
        c.nu_bars.push(d.nu_bar_const);
        c.q_n2ns.push(d.q_n2n);
        c.q_n3ns.push(d.q_n3n);
        i += 1;
    }
    c
}

/// Every nuclide with thermal data gets a slot, and no two slots serve one
/// nuclide.
pub proof fn law_slots_match_thermal_nuclides(
    slots: Seq<SabSlot>,
    thermal: Seq<Option<Arc<ThermalScatteringData>>>,
)
    requires
        is_slot_list(slots, thermal, thermal.len() as int),
        thermal.len() <= usize::MAX,
    ensures
        forall|i: int|
            0 <= i < thermal.len() && (#[trigger] thermal[i]) is Some ==> exists|s: int|
                0 <= s < slots.len() && (#[trigger] slots[s]) == (thermal[i]->0, i as usize),
        forall|s: int|
            0 <= s < slots.len() ==> 0 <= (#[trigger] slots[s]).1 < thermal.len()
                && thermal[slots[s].1 as int] == Some(slots[s].0),
        forall|s: int, t: int|
            0 <= s < t < slots.len() ==> (#[trigger] slots[s]).1 < (#[trigger] slots[t]).1,
    decreases thermal.len(),
{
    let n = thermal.len() as int;
    assert forall|i: int| 0 <= i < n && (#[trigger] thermal[i]) is Some implies exists|s: int|
        0 <= s < slots.len() && (#[trigger] slots[s]) == (thermal[i]->0, i as usize) by {
        lemma_thermal_count(thermal, i, n);
        assert(slots[thermal_count(thermal, i)] == (thermal[i]->0, i as usize));
    }
    if n > 0 {
        let head = thermal.drop_last();
        assert forall|i: int| 0 <= i < n implies thermal_count(head, i) == #[trigger] thermal_count(
            thermal,
            i,
        ) by {
            lemma_count_of_prefix(thermal, i);
        }
        if thermal[n - 1] is Some {
            let rest = slots.drop_last();
            assert(is_slot_list(rest, head, n - 1)) by {
                assert forall|i: int| 0 <= i < n - 1 && (#[trigger] head[i]) is Some implies rest[thermal_count(
                    head,
                    i,
                )] == (head[i]->0, i as usize) by {
                    assert(thermal[i] is Some);
                    lemma_thermal_count(thermal, i, n - 1);
                    assert(thermal_count(head, i) == thermal_count(thermal, i));
                }
                assert(thermal_count(head, n - 1) == thermal_count(thermal, n - 1));
            }
            law_slots_match_thermal_nuclides(rest, head);
            assert(slots.last() == (thermal[n - 1]->0, (n - 1) as usize));
            assert forall|s: int| 0 <= s < slots.len() implies 0 <= (#[trigger] slots[s]).1 < n
                && thermal[slots[s].1 as int] == Some(slots[s].0) by {
                if s < rest.len() {
                    assert(rest[s] == slots[s]);
                }
            }
            assert forall|s: int, t: int| 0 <= s < t < slots.len() implies (#[trigger] slots[s]).1
                < (#[trigger] slots[t]).1 by {
                assert(rest[s] == slots[s]);
                if t < rest.len() {
                    assert(rest[t] == slots[t]);
                }
            }
        } else {
            assert(is_slot_list(slots, head, n - 1)) by {
                assert forall|i: int| 0 <= i < n - 1 && (#[trigger] head[i]) is Some implies slots[thermal_count(
                    head,
                    i,
                )] == (head[i]->0, i as usize) by {
                    assert(thermal[i] is Some);
                    assert(thermal_count(head, i) == thermal_count(thermal, i));
                }
                assert(thermal_count(head, n - 1) == thermal_count(thermal, n - 1));
            }
            law_slots_match_thermal_nuclides(slots, head);
            assert forall|s: int| 0 <= s < slots.len() implies 0 <= (#[trigger] slots[s]).1 < n
                && thermal[slots[s].1 as int] == Some(slots[s].0) by {
                assert(head[slots[s].1 as int] == thermal[slots[s].1 as int]);
            }
        }
    }
}

proof fn lemma_count_of_prefix(thermal: Seq<Option<Arc<ThermalScatteringData>>>, i: int)
    requires
        0 <= i < thermal.len(),
    ensures
        thermal_count(thermal.drop_last(), i) == thermal_count(thermal, i),
    decreases i,
{
    if i > 0 {
        lemma_count_of_prefix(thermal, i - 1);
    }
}

/// The steps of putting a case on the device, in order.
#[derive(Clone, Copy, Debug, PartialEq, Eq, Structural)]
pub enum UploadStep {
    Nuclides,
    Materials,
    Thermal,
    Multipole,
    /// Make the event that tells when everything is there.
    NewEvent,
    /// Put that event behind the copies.
    RecordEvent,
}

/// The number of a step, from 0.
pub open spec fn step_number(s: UploadStep) -> int {
    match s {
        UploadStep::Nuclides => 0,
        UploadStep::Materials => 1,
        UploadStep::Thermal => 2,
        UploadStep::Multipole => 3,
        UploadStep::NewEvent => 4,
        UploadStep::RecordEvent => 5,
    }
}

/// What a failed step is called.
pub open spec fn step_words(s: UploadStep) -> Seq<char> {
    match s {
        UploadStep::Nuclides => "upload_nuclide_data"@,
        UploadStep::Materials => "upload_material_data"@,
        UploadStep::Thermal => "upload_sab_data"@,
        UploadStep::Multipole => "upload_wmp_data_empty"@,
        UploadStep::NewEvent => "new_event"@,
        UploadStep::RecordEvent => "event record"@,
    }
}

impl UploadStep {
    /// The step after this one; none after the last.
    pub fn next(self) -> (r: Option<Self>)
        ensures
            r is None <==> self == UploadStep::RecordEvent,
            r matches Some(s) ==> step_number(s) == step_number(self) + 1,
    {
        match self {
            UploadStep::Nuclides => Some(UploadStep::Materials),
            UploadStep::Materials => Some(UploadStep::Thermal),
            UploadStep::Thermal => Some(UploadStep::Multipole),
            UploadStep::Multipole => Some(UploadStep::NewEvent),
            UploadStep::NewEvent => Some(UploadStep::RecordEvent),
            UploadStep::RecordEvent => None,
        }
    }

    fn words(self) -> (r: &'static str)
        ensures
            r@ == step_words(self),
    {
        match self {
            UploadStep::Nuclides => "upload_nuclide_data",
            UploadStep::Materials => "upload_material_data",
            UploadStep::Thermal => "upload_sab_data",
            UploadStep::Multipole => "upload_wmp_data_empty",
            UploadStep::NewEvent => "new_event",
            UploadStep::RecordEvent => "event record",
        }
    }
}

/// A step that failed, and what the device said.
#[derive(Clone, Debug)]
pub struct UploadFailure {
    pub step: UploadStep,
    pub detail: String,
}

/// What putting a case on the device comes to: an error names the step that
/// failed.
pub fn upload_gpu_bundle(failure: Option<UploadFailure>) -> (r: Result<(), DataLoadError>)
    ensures
        r is Ok <==> failure is None,
        failure matches Some(f) ==> {
            &&& r matches Err(DataLoadError::GpuUpload(message))
            &&& message@ == step_words(f.step) + ": "@ + f.detail@
        },
{
    match failure {
        None => Ok(()),
        Some(f) => {
            let mut message: String = f.step.words().to_owned();
            message.append(": ");
            message.append(f.detail.as_str());
            Err(DataLoadError::GpuUpload(message))
        },
    }
}

/// What loading a case for the device comes to: a case that was loaded and put
/// there, with the time of both. A case that could not be loaded is not put there.
pub fn resolve_case_gpu(
    loaded: Result<CaseBundle, DataLoadError>,
    failure: Option<UploadFailure>,
    load_s: Binary64,
) -> (r: Result<CaseBundle, DataLoadError>)
    ensures
        loaded matches Err(e) ==> r == Err::<CaseBundle, DataLoadError>(e),
        loaded is Ok && failure is None ==> {
            &&& r matches Ok(done)
            &&& done.spec == loaded->Ok_0.spec
            &&& done.resolved == loaded->Ok_0.resolved
            &&& done.load_s == load_s
        },
        loaded is Ok && failure is Some ==> {
            &&& r matches Err(DataLoadError::GpuUpload(message))
            &&& message@ == step_words(failure->0.step) + ": "@ + failure->0.detail@
        },
{
    match loaded {
        Err(e) => Err(e),
        Ok(b) => match upload_gpu_bundle(failure) {
            Err(e) => Err(e),
            Ok(()) => Ok(CaseBundle { spec: b.spec, resolved: b.resolved, load_s }),
        },
    }
}

/// A case is taken exactly where its nuclides were bound and no material has more of
/// them than the limit. A refusal names the first material that has too many, and a
/// case that is taken keeps what was read and bound.
pub proof fn law_oversized_materials_are_refused(
    spec: CaseSpec,
    resolved: Result<ResolvedMaterials, String>,
    load_s: Binary64,
    max_allowed: usize,
    r: Result<CaseBundle, DataLoadError>,
)
    requires
        call_ensures(resolve_case, (spec, resolved, load_s, max_allowed), r),
    ensures
        resolved matches Err(message) ==> r == Err::<CaseBundle, DataLoadError>(DataLoadError::Resolve(message)),
        resolved is Ok ==> (r is Ok <==> forall|i: int|
            0 <= i < resolved->Ok_0.materials@.len() ==> (#[trigger] resolved->Ok_0.materials@[i]).nuclides@.len()
                <= max_allowed),
        r matches Ok(b) ==> b.spec == spec && Ok::<ResolvedMaterials, String>(b.resolved) == resolved && b.load_s
            == load_s,
        r matches Err(
            DataLoadError::TooManyNuclides { material_idx, material_name, n_nuclides, max_allowed: limit },
        ) ==> {
            let materials = resolved->Ok_0.materials@;
            &&& resolved is Ok && material_idx < materials.len() && limit == max_allowed
            &&& n_nuclides == materials[material_idx as int].nuclides@.len() && n_nuclides > max_allowed
            &&& material_name@ == materials[material_idx as int].name@
            &&& forall|i: int| 0 <= i < material_idx ==> (#[trigger] materials[i]).nuclides@.len() <= max_allowed
        },
{
}

/// The thermal slots of a case are its nuclides with thermal data, each once, in the
/// order of the nuclides, each with its own data.
pub proof fn law_thermal_slots_are_the_thermal_nuclides(resolved: &ResolvedMaterials, r: SabSlots)
    requires
        call_ensures(build_sab_slots, (resolved,), r),
    ensures
        forall|i: int|
            0 <= i < resolved.provider.thermal@.len() && (#[trigger] resolved.provider.thermal@[i]) is Some
                ==> exists|s: int|
                0 <= s < r@.len() && (#[trigger] r@[s]).1 == i && r@[s].0 == resolved.provider.thermal@[i]->0,
        forall|s: int|
            0 <= s < r@.len() ==> (#[trigger] r@[s]).1 < resolved.provider.thermal@.len()
                && resolved.provider.thermal@[r@[s].1 as int] == Some(r@[s].0),
        forall|s: int, t: int| 0 <= s < t < r@.len() ==> (#[trigger] r@[s]).1 < (#[trigger] r@[t]).1,
{
    assert(resolved.provider.thermal@.len() <= usize::MAX) by {
        assert(resolved.provider.thermal.len() == resolved.provider.thermal@.len());
    }
    law_slots_match_thermal_nuclides(r@, resolved.provider.thermal@);
    assert forall|i: int|
        0 <= i < resolved.provider.thermal@.len() && (#[trigger] resolved.provider.thermal@[i]) is Some implies exists|
        s: int,
    | 0 <= s < r@.len() && (#[trigger] r@[s]).1 == i && r@[s].0 == resolved.provider.thermal@[i]->0 by {
        let s = choose|s: int|
            0 <= s < r@.len() && (#[trigger] r@[s]) == (resolved.provider.thermal@[i]->0, i as usize);
        assert(r@[s].1 == i);
    }
}

/// How the estimate of a case's size on the device grows: by 8 MiB and 186 numbers
/// of 8 bytes for each nuclide beyond the first, byte for byte with the thermal
/// tables, and by 192 bytes for each particle of a batch.
pub proof fn law_estimate_grows_with_its_parts(
    a: &ResolvedMaterials,
    sab_a: usize,
    particles_a: u32,
    bytes_a: usize,
    b: &ResolvedMaterials,
    sab_b: usize,
    particles_b: u32,
    bytes_b: usize,
)
    requires
        call_ensures(estimate_bundle_bytes, (a, sab_a, particles_a), bytes_a),
        call_ensures(estimate_bundle_bytes, (b, sab_b, particles_b), bytes_b),
        a.provider.nuclides@.len() >= 1,
        b.provider.nuclides@.len() >= 1,
    ensures
        bytes_b - bytes_a == (8 * 1024 * 1024 + 186 * 8) * (b.provider.nuclides@.len() - a.provider.nuclides@.len()) + (
        sab_b - sab_a) + 192 * (particles_b - particles_a),
        sab_a == 0 && particles_a == 0 && a.provider.nuclides@.len() == 1 ==> bytes_a == 8 * 1024 * 1024 + 186 * 8,
{
    let (na, nb) = (a.provider.nuclides@.len() as int, b.provider.nuclides@.len() as int);
    assert(bundle_bytes(na, sab_a as int, particles_a as int) == 8_390_096 * na + sab_a + 192 * particles_a);
    assert(bundle_bytes(nb, sab_b as int, particles_b as int) == 8_390_096 * nb + sab_b + 192 * particles_b);
    assert(bytes_a == bundle_bytes(na, sab_a as int, particles_a as int));
    assert(bytes_b == bundle_bytes(nb, sab_b as int, particles_b as int));
    assert((8 * 1024 * 1024 + 186 * 8) * (nb - na) == 8_390_096 * nb - 8_390_096 * na) by (nonlinear_arith);
}

/// The columns of the nuclides hold, for each nuclide in order, its weight, its
/// neutrons per fission and the energies of its two multiplying reactions.
pub proof fn law_columns_keep_every_nuclide(nuclides: &Vec<NuclideData>, c: NuclideColumns, i: int)
    requires
        call_ensures(nuclide_columns, (nuclides,), c),
        0 <= i < nuclides@.len(),
    ensures
        c.awrs@.len() == nuclides@.len() && c.nu_bars@.len() == nuclides@.len(),
        c.q_n2ns@.len() == nuclides@.len() && c.q_n3ns@.len() == nuclides@.len(),
        nuclides@[i] == (NuclideData {
            awr: c.awrs@[i],
            nu_bar_const: c.nu_bars@[i],
            q_n2n: c.q_n2ns@[i],
            q_n3n: c.q_n3ns@[i],
        }),
{
}

/// The steps of an upload follow one another: nuclides, materials, thermal tables,
/// multipoles, and then the event that tells that all of it is there.
pub proof fn law_upload_steps_follow(step: UploadStep, r: Option<UploadStep>)
    requires
        call_ensures(UploadStep::next, (step,), r),
    ensures
        step == UploadStep::Nuclides ==> r == Some(UploadStep::Materials),
        step == UploadStep::Materials ==> r == Some(UploadStep::Thermal),
        step == UploadStep::Thermal ==> r == Some(UploadStep::Multipole),
        step == UploadStep::Multipole ==> r == Some(UploadStep::NewEvent),
        step == UploadStep::NewEvent ==> r == Some(UploadStep::RecordEvent),
        step == UploadStep::RecordEvent ==> r is None,
{
}

/// A case is ready on the device exactly where it loaded and no step of the upload
/// failed; it is then the case that was loaded, and a failure is told with its
/// detail last.
pub proof fn law_upload_failure_is_passed_on(
    loaded: Result<CaseBundle, DataLoadError>,
    failure: Option<UploadFailure>,
    load_s: Binary64,
    r: Result<CaseBundle, DataLoadError>,
)
    requires
        call_ensures(resolve_case_gpu, (loaded, failure, load_s), r),
    ensures
        loaded is Ok && failure is Some ==> {
            let words = match failure->0.step {
                UploadStep::Nuclides => "upload_nuclide_data"@,
                UploadStep::Materials => "upload_material_data"@,
                UploadStep::Thermal => "upload_sab_data"@,
                UploadStep::Multipole => "upload_wmp_data_empty"@,
                UploadStep::NewEvent => "new_event"@,
                UploadStep::RecordEvent => "event record"@,
            };
            r->Err_0 is GpuUpload && r->Err_0->GpuUpload_0@ == words + ": "@ + failure->0.detail@
        },
        r is Ok <==> loaded is Ok && failure is None,
        r matches Ok(b) ==> b.spec == loaded->Ok_0.spec && b.resolved == loaded->Ok_0.resolved && b.load_s == load_s,
        loaded matches Err(e) ==> r == Err::<CaseBundle, DataLoadError>(e),
        loaded is Ok && failure is Some ==> r->Err_0 is GpuUpload && r->Err_0->GpuUpload_0@.len()
            >= failure->0.detail@.len() && r->Err_0->GpuUpload_0@.skip(
            r->Err_0->GpuUpload_0@.len() - failure->0.detail@.len(),
        ) == failure->0.detail@,
{
    if loaded is Ok && failure is Some {
        let message = r->Err_0->GpuUpload_0@;
        let detail = failure->0.detail@;
        assert(message.skip(message.len() - detail.len()) =~= detail);
    }
}

} // verus!
