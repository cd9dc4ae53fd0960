//! Coupling a neutron run to photon transport.

use crate::binary64::Binary64;
use crate::data_files::{DataFiles, FileFault};
use crate::eigen_plan::{
    are_thermal_files, is_neutron_side_error, is_planned, is_planned_cell, loads, neutron_side_ok, plan_neutron_side,
    scene_places, scene_table, CellFill, EigenError, NuclideLoad, PlannedCell, PlannedMaterial,
};
use crate::geometry::Vec3;
use crate::region::{find_name, index_named, is_named, lemma_index_named};
use crate::scene::{CellSpec, PhotonElementSpec, Scene};
use crate::text::same_text;
use vstd::prelude::*;

verus! {

/// Why a coupled run cannot go on.
#[derive(Debug)]
pub enum GammaError {
    /// The scene has no directory of photon data.
    NoPhotonDir,
    /// The neutron side cannot be planned.
    Plan(EigenError),
    /// The neutron run produced no photon.
    NoPhotonEvents,
    /// A photon material is attached to a cell that is not there.
    UnknownCell(String),
    /// A photon material is attached to a void.
    VoidCell(String),
    /// A photon material is attached to a cell whose material is not there.
    UnknownMaterial { cell: String, material: String },
    /// The file of an element of a photon material is not there or cannot be read.
    PhotonFile(FileFault),
}

/// The neutron side of a coupled run.
pub struct GammaPlan {
    pub nuclides: Vec<NuclideLoad>,
    pub thermal_files: Vec<Option<String>>,
    pub materials: Vec<PlannedMaterial>,
    pub cells: Vec<PlannedCell>,
}

/// The plan is that of the scene.
pub open spec fn gamma_fits(plan: GammaPlan, scene: Scene) -> bool {
    let ms = scene.materials@;
    let ps = scene_places(scene);
    let table = scene_table(scene);
    &&& plan.nuclides@.len() == table.len()
    &&& forall|i: int| 0 <= i < table.len() ==> loads(ms, #[trigger] plan.nuclides@[i], table[i])
    &&& are_thermal_files(plan.thermal_files@, ms, ps, ps.len() as int, table)
    &&& plan.materials@.len() == ms.len()
    &&& forall|m: int| 0 <= m < ms.len() ==> is_planned(ms, table, m, #[trigger] plan.materials@[m])
    &&& plan.cells@.len() == scene.cells@.len()
    &&& forall|i: int|
        0 <= i < plan.cells@.len() ==> is_planned_cell(#[trigger] plan.cells@[i], scene.cells@[i], scene)
}

/// Plans the neutron side of a coupled run, given what the data directory holds. It
/// always runs on tables. Nuclides, thermal files and cells are settled as those of
/// an eigenvalue run are, in the same order and with the same errors.
pub fn plan_gamma_heating(scene: &Scene, data: &DataFiles) -> (r: Result<GammaPlan, GammaError>)
    requires
        scene.wf(),
    ensures
        r is Ok <==> scene.photon_data_dir is Some && neutron_side_ok(*scene, *data),
        r matches Ok(plan) ==> gamma_fits(plan, *scene),
        r matches Err(e) ==> if scene.photon_data_dir is None {
            e is NoPhotonDir
        } else {
            e is Plan && is_neutron_side_error(e->Plan_0, *scene, *data)
        },
{
    if scene.photon_data_dir.is_none() {
        return Err(GammaError::NoPhotonDir);
    }
    match plan_neutron_side(scene, data) {
        Err(e) => Err(GammaError::Plan(e)),
        Ok(side) => Ok(
            GammaPlan {
                nuclides: side.nuclides,
                thermal_files: side.thermal_files,
                materials: side.materials,
                cells: side.cells,
            },
        ),
    }
}

/// A photon born in a neutron collision.
#[derive(Clone, Copy, Debug, PartialEq, Eq, Structural)]
pub struct PhotonSourceEvent {
    pub pos: Vec3,
    pub energy: Binary64,
}

/// The photons of one batch.
pub struct PhotonBatch {
    pub active: bool,
    pub events: Vec<PhotonSourceEvent>,
}

/// The photons of the active ones of the first `n` batches, in order.
pub open spec fn bank_of(batches: Seq<PhotonBatch>, n: int) -> Seq<PhotonSourceEvent>
    decreases n,
{
    if n <= 0 {
        Seq::empty()
    } else if batches[n - 1].active {
        bank_of(batches, n - 1) + batches[n - 1].events@
    } else {
        bank_of(batches, n - 1)
    }
}

/// Gathers the photon source from the active batches. A run without photons is an
/// error.
pub fn gather_photons(batches: &Vec<PhotonBatch>) -> (r: Result<Vec<PhotonSourceEvent>, GammaError>)
    ensures
        r is Err <==> bank_of(batches@, batches@.len() as int).len() == 0,
        r matches Err(e) ==> e is NoPhotonEvents,
        r matches Ok(bank) ==> bank@ == bank_of(batches@, batches@.len() as int),
{
    let mut bank: Vec<PhotonSourceEvent> = Vec::new();
    let mut i: usize = 0;
    while i < batches.len()
        invariant
            i <= batches@.len(),
            bank@ == bank_of(batches@, i as int),
        decreases batches@.len() - i,
    {
        if batches[i].active {
            let n: usize = batches[i].events.len();
            let ghost before = bank@;
            let mut j: usize = 0;
            assert(before + batches@[i as int].events@.take(0) =~= before);
            while j < n
                invariant
                    i < batches@.len(),
                    n == batches@[i as int].events@.len(),
                    j <= n,
                    bank@ == before + batches@[i as int].events@.take(j as int),
                decreases n - j,
            {
                bank.push(batches[i].events[j]);
                j += 1;
                assert(bank@ =~= before + batches@[i as int].events@.take(j as int));
            }
            assert(batches@[i as int].events@.take(j as int) =~= batches@[i as int].events@);
        }
        i += 1;
    }
    if bank.len() == 0 {
        return Err(GammaError::NoPhotonEvents);
    }
    Ok(bank)
}

/// The source event of a history, given the place that the random number fell on:
/// one past the end goes to the last.
pub fn pick_event(raw: usize, bank_len: usize) -> (r: usize)
    requires
        bank_len > 0,
    ensures
        r < bank_len,
        raw < bank_len ==> r == raw,
        raw >= bank_len ==> r == bank_len - 1,
{
    if raw < bank_len {
        raw
    } else {
        bank_len - 1
    }
}

/// The seed of history `i`, wrapping at 64 bits.
pub fn history_seed(base: u64, i: u64) -> (r: u64)
    ensures
        r == (base + i) % 0x1_0000_0000_0000_0000,
{
    base.wrapping_add(i)
}

/// `i` is the first cell with a name.
pub open spec fn first_cell(cells: Seq<CellSpec>, name: Seq<char>, i: int) -> bool {
    &&& 0 <= i < cells.len()
    &&& cells[i].name@ == name
    &&& forall|k: int| 0 <= k < i ==> (#[trigger] cells[k]).name@ != name
}

/// No cell has the name.
pub open spec fn no_cell(cells: Seq<CellSpec>, name: Seq<char>) -> bool {
    forall|k: int| 0 <= k < cells.len() ==> (#[trigger] cells[k]).name@ != name
}

/// Attachment `k` goes to material `m`: the cell that it names is there and is
/// filled with that material.
pub open spec fn goes_to(scene: Scene, k: int, m: int) -> bool {
    exists|i: int|
        {
            &&& #[trigger] first_cell(scene.cells@, scene.photon_cells@[k]@, i)
            &&& scene.cells@[i].fill is Some
            &&& is_named(scene.material_names@, scene.cells@[i].fill->0@)
            &&& m == index_named(scene.material_names@, scene.cells@[i].fill->0@)
        }
}

/// Attachment `k` goes to some material.
pub open spec fn lands(scene: Scene, k: int) -> bool {
    exists|m: int| goes_to(scene, k, m)
}

/// `e` is why attachment `k` goes nowhere.
pub open spec fn is_landing_error(e: GammaError, scene: Scene, k: int) -> bool {
    let name = scene.photon_cells@[k]@;
    if no_cell(scene.cells@, name) {
        e is UnknownCell && e->UnknownCell_0@ == name
    } else {
        exists|i: int|
            {
                &&& #[trigger] first_cell(scene.cells@, name, i)
                &&& match scene.cells@[i].fill {
                    None => e is VoidCell && e->VoidCell_0@ == name,
                    Some(material_name) => {
                        &&& !is_named(scene.material_names@, material_name@)
                        &&& e matches GammaError::UnknownMaterial { cell, material }
                        &&& cell@ == name
                        &&& material@ == material_name@
                    },
                }
            }
    }
}

fn find_cell(cells: &Vec<CellSpec>, name: &str) -> (r: Option<usize>)
    ensures
        r is None <==> no_cell(cells@, name@),
        r matches Some(i) ==> first_cell(cells@, name@, i as int),
{
    let mut i: usize = 0;
    while i < cells.len()
        invariant
            i <= cells@.len(),
            forall|k: int| 0 <= k < i ==> (#[trigger] cells@[k]).name@ != name@,
        decreases cells@.len() - i,
    {
        if same_text(cells[i].name.as_str(), name) {
            return Some(i);
        }
        i += 1;
    }
    None
}

fn attachment_target(scene: &Scene, k: usize) -> (r: Result<usize, GammaError>)
    requires
        scene.wf(),
        k < scene.photon_cells@.len(),
    ensures
        r matches Ok(m) ==> goes_to(*scene, k as int, m as int) && m < scene.materials@.len(),
        r matches Err(e) ==> is_landing_error(e, *scene, k as int),
{
    let name = &scene.photon_cells[k];
    let i: usize = match find_cell(&scene.cells, name.as_str()) {
        Some(i) => i,
        None => {
            return Err(GammaError::UnknownCell(name.clone()));
        },
    };
    assert(first_cell(scene.cells@, scene.photon_cells@[k as int]@, i as int));
    assert(!no_cell(scene.cells@, scene.photon_cells@[k as int]@)) by {
        assert(scene.cells@[i as int].name@ == scene.photon_cells@[k as int]@);
    }
    match &scene.cells[i].fill {
        None => Err(GammaError::VoidCell(name.clone())),
        Some(material) => match find_name(&scene.material_names, material.as_str()) {
            None => Err(GammaError::UnknownMaterial { cell: name.clone(), material: material.clone() }),
            Some(m) => Ok(m),
        },
    }
}

/// Every file of the elements can be used.
pub open spec fn elements_readable(elements: Seq<PhotonElementSpec>, data: DataFiles) -> bool {
    forall|i: int| 0 <= i < elements.len() ==> data.is_readable((#[trigger] elements[i]).hdf5_file@)
}

/// Element `i` is the first whose file cannot be used.
pub open spec fn first_bad_element(elements: Seq<PhotonElementSpec>, data: DataFiles, i: int) -> bool {
    &&& 0 <= i < elements.len()
    &&& !data.is_readable(elements[i].hdf5_file@)
    &&& forall|k: int| 0 <= k < i ==> data.is_readable((#[trigger] elements[k]).hdf5_file@)
}

/// Attachment `k` can be made: it goes to some material and its elements can be
/// loaded.
pub open spec fn attaches(scene: Scene, data: DataFiles, k: int) -> bool {
    lands(scene, k) && elements_readable(scene.photon_materials@[k].elements@, data)
}

/// `e` is what is wrong with attachment `k`. That it goes nowhere comes first.
pub open spec fn is_attachment_error(e: GammaError, scene: Scene, data: DataFiles, k: int) -> bool {
    if !lands(scene, k) {
        is_landing_error(e, scene, k)
    } else {
        let elements = scene.photon_materials@[k].elements@;
        &&& e is PhotonFile
        &&& exists|i: int| #[trigger]
            first_bad_element(elements, data, i) && data.is_fault(e->PhotonFile_0, elements[i].hdf5_file@)
    }
}

/// Looks at the file of every element.
fn check_elements(elements: &Vec<PhotonElementSpec>, data: &DataFiles) -> (r: Result<(), GammaError>)
    ensures
        r is Ok <==> elements_readable(elements@, *data),
        r matches Err(e) ==> {
            &&& e is PhotonFile
            &&& exists|i: int| #[trigger]
                first_bad_element(elements@, *data, i) && data.is_fault(e->PhotonFile_0, elements@[i].hdf5_file@)
        },
{
    let mut i: usize = 0;
    while i < elements.len()
        invariant
            i <= elements@.len(),
            forall|k: int| 0 <= k < i ==> data.is_readable((#[trigger] elements@[k]).hdf5_file@),
        decreases elements@.len() - i,
    {
        if let Err(fault) = data.check(elements[i].hdf5_file.as_str()) {
            assert(first_bad_element(elements@, *data, i as int));
            return Err(GammaError::PhotonFile(fault));
        }
        i += 1;
    }
    Ok(())
}

/// `bound` gives each material the first of the first `n` attachments that goes to
/// it.
pub open spec fn is_binding(bound: Seq<Option<usize>>, scene: Scene, n: int) -> bool {
    &&& bound.len() == scene.materials@.len()
    &&& forall|m: int|
        0 <= m < bound.len() ==> match #[trigger] bound[m] {
            Some(k) => {
                &&& k < n
                &&& goes_to(scene, k as int, m)
                &&& forall|j: int| 0 <= j < k ==> !#[trigger] goes_to(scene, j, m)
            },
            None => forall|j: int| 0 <= j < n ==> !#[trigger] goes_to(scene, j, m),
        }
}

/// Attachment `k` is the first that cannot be made.
pub open spec fn first_bad_attachment(scene: Scene, data: DataFiles, k: int) -> bool {
    &&& 0 <= k < scene.photon_cells@.len()
    &&& !attaches(scene, data, k)
    &&& forall|j: int| 0 <= j < k ==> #[trigger] attaches(scene, data, j)
}

proof fn lemma_target_is_unique(scene: Scene, k: int, a: int, b: int)
    requires
        goes_to(scene, k, a),
        goes_to(scene, k, b),
    ensures
        a == b,
{
    let name = scene.photon_cells@[k]@;
    let i = choose|i: int|
        {
            &&& #[trigger] first_cell(scene.cells@, name, i)
            &&& scene.cells@[i].fill is Some
            &&& is_named(scene.material_names@, scene.cells@[i].fill->0@)
            &&& a == index_named(scene.material_names@, scene.cells@[i].fill->0@)
        };
    let j = choose|j: int|
        {
            &&& #[trigger] first_cell(scene.cells@, name, j)
            &&& scene.cells@[j].fill is Some
            &&& is_named(scene.material_names@, scene.cells@[j].fill->0@)
            &&& b == index_named(scene.material_names@, scene.cells@[j].fill->0@)
        };
    assert(scene.cells@[i].name@ == name && scene.cells@[j].name@ == name);
    assert(i == j);
}

proof fn lemma_bad_attachment_goes_nowhere(e: GammaError, scene: Scene, k: int)
    requires
        is_landing_error(e, scene, k),
    ensures
        !lands(scene, k),
{
    if lands(scene, k) {
        let m = choose|m: int| goes_to(scene, k, m);
        let name = scene.photon_cells@[k]@;
        let i = choose|i: int|
            {
                &&& #[trigger] first_cell(scene.cells@, name, i)
                &&& scene.cells@[i].fill is Some
                &&& is_named(scene.material_names@, scene.cells@[i].fill->0@)
                &&& m == index_named(scene.material_names@, scene.cells@[i].fill->0@)
            };
        assert(scene.cells@[i].name@ == name);
        let j = choose|j: int|
            {
                &&& #[trigger] first_cell(scene.cells@, name, j)
                &&& match scene.cells@[j].fill {
                    None => e is VoidCell && e->VoidCell_0@ == name,
                    Some(material_name) => {
                        &&& !is_named(scene.material_names@, material_name@)
                        &&& e matches GammaError::UnknownMaterial { cell, material }
                        &&& cell@ == name
                        &&& material@ == material_name@
                    },
                }
            };
        assert(scene.cells@[j].name@ == name);
        assert(i == j);
    }
}

/// Binds photon materials to the materials of the cells that they are attached
/// to, given what the photon data directory holds. Of several attachments to one
/// material the first counts. One that goes nowhere, or whose elements cannot be
/// loaded, is an error, also where its material has photon data already.
pub fn bind_photon_materials(scene: &Scene, data: &DataFiles) -> (r: Result<Vec<Option<usize>>, GammaError>)
    requires
        scene.wf(),
    ensures
        r matches Ok(bound) ==> {
            &&& is_binding(bound@, *scene, scene.photon_cells@.len() as int)
            &&& forall|j: int| 0 <= j < scene.photon_cells@.len() ==> #[trigger] attaches(*scene, *data, j)
        },
        r matches Err(e) ==> exists|k: int| #[trigger]
            first_bad_attachment(*scene, *data, k) && is_attachment_error(e, *scene, *data, k),
{
    let mut bound: Vec<Option<usize>> = Vec::new();
    while bound.len() < scene.materials.len()
        invariant
            bound@.len() <= scene.materials@.len(),
            forall|m: int| 0 <= m < bound@.len() ==> (#[trigger] bound@[m]) is None,
        decreases scene.materials@.len() - bound@.len(),
    {
        bound.push(None);
    }
    let mut k: usize = 0;
    while k < scene.photon_cells.len()
        invariant
            scene.wf(),
            k <= scene.photon_cells@.len(),
            is_binding(bound@, *scene, k as int),
            forall|j: int| 0 <= j < k ==> #[trigger] attaches(*scene, *data, j),
        decreases scene.photon_cells@.len() - k,
    {
        match attachment_target(scene, k) {
            Err(e) => {
                proof {
                    lemma_bad_attachment_goes_nowhere(e, *scene, k as int);
                    assert(first_bad_attachment(*scene, *data, k as int));
                }
                return Err(e);
            },
            Ok(t) => {
                assert(goes_to(*scene, k as int, t as int));
                assert(lands(*scene, k as int));
                if let Err(e) = check_elements(&scene.photon_materials[k].elements, data) {
                    assert(first_bad_attachment(*scene, *data, k as int));
                    return Err(e);
                }
                let ghost before = bound@;
                if bound[t].is_none() {
                    bound[t] = Some(k);
                }
                proof {
                    assert(attaches(*scene, *data, k as int));
                    assert forall|m: int| 0 <= m < bound@.len() implies match #[trigger] bound@[m] {
                        Some(a) => {
                            &&& a < k + 1
                            &&& goes_to(*scene, a as int, m)
                            &&& forall|j: int| 0 <= j < a ==> !#[trigger] goes_to(*scene, j, m)
                        },
                        None => forall|j: int| 0 <= j < k + 1 ==> !#[trigger] goes_to(*scene, j, m),
                    } by {
                        assert(match before[m] {
                            Some(a) => {
                                &&& a < k
                                &&& goes_to(*scene, a as int, m)
                                &&& forall|j: int| 0 <= j < a ==> !#[trigger] goes_to(*scene, j, m)
                            },
                            None => forall|j: int| 0 <= j < k ==> !#[trigger] goes_to(*scene, j, m),
                        });
                        if m != t {
                            assert(bound@[m] == before[m]);
                            if goes_to(*scene, k as int, m) {
                                lemma_target_is_unique(*scene, k as int, m, t as int);
                            }
                        }
                    }
                }
            },
        }
        k += 1;
    }
    Ok(bound)
}

/// The material whose photon data apply in a cell, where it has some.
pub fn radiating_material(fill: CellFill, bound: &Vec<Option<usize>>) -> (r: Option<usize>)
    ensures
        r == match fill {
            CellFill::Material(m) => if m < bound@.len() && bound@[m as int] is Some {
                Some(m)
            } else {
                None
            },
            CellFill::Void => None,
        },
{
    match fill {
        CellFill::Material(m) => if m < bound.len() && bound[m].is_some() {
            Some(m)
        } else {
            None
        },
        CellFill::Void => None,
    }
}

/// The material in which an electron moves, where its cell is there and filled.
pub fn electron_material(cells: &Vec<PlannedCell>, cell_idx: usize) -> (r: Option<usize>)
    ensures
        r == if cell_idx < cells@.len() {
            match cells@[cell_idx as int].fill {
                CellFill::Material(m) => Some(m),
                CellFill::Void => None,
            }
        } else {
            None
        },
{
    if cell_idx < cells.len() {
        match cells[cell_idx].fill {
            CellFill::Material(m) => Some(m),
            CellFill::Void => None,
        }
    } else {
        None
    }
}

/// Whether an electron radiates: its yield is positive and above the random
/// number.
pub fn radiates(yield_fraction: Binary64, xi: Binary64) -> (r: bool)
    ensures
        r == ((Binary64 { bits: 0 }).less(yield_fraction) && xi.less(yield_fraction)),
{
    Binary64::zero().lt(yield_fraction) && xi.lt(yield_fraction)
}

/// The energy left to an electron after it radiated: the difference, or zero where
/// that is negative.
pub fn energy_left(difference: Binary64) -> (r: Binary64)
    ensures
        difference.less(Binary64 { bits: 0 }) ==> r.bits == 0,
        !difference.less(Binary64 { bits: 0 }) ==> r == difference,
{
    if difference.lt(Binary64::zero()) {
        Binary64::zero()
    } else {
        difference
    }
}

/// A photon that waits to be followed.
#[derive(Clone, Copy, Debug, PartialEq, Eq, Structural)]
pub struct WaitingPhoton {
    pub pos: Vec3,
    pub dir: Vec3,
    pub energy: Binary64,
    /// The cell where it was made.
    pub cell: usize,
}

/// The photons of a coupled run: those of the source, one for each history, and
/// those that electrons radiate. The one that was made last is followed first.
#[derive(Debug)]
pub struct PhotonRun {
    pub waiting: Vec<WaitingPhoton>,
    /// Histories that were started.
    pub histories: u64,
    /// Photons that were radiated.
    pub radiated: u64,
    /// Photons that were taken to be followed.
    pub followed: u64,
}

impl PhotonRun {
    /// Every photon was followed or waits.
    pub open spec fn wf(self) -> bool {
        self.followed + self.waiting@.len() == self.histories + self.radiated
    }

    /// One more photon can be counted.
    pub open spec fn has_room(self) -> bool {
        self.histories + self.radiated < u64::MAX
    }

    /// A run that followed nothing yet.
    pub fn new() -> (r: Self)
        ensures
            r.wf(),
            r.waiting@.len() == 0,
            r.histories == 0 && r.radiated == 0 && r.followed == 0,
    {
        PhotonRun { waiting: Vec::new(), histories: 0, radiated: 0, followed: 0 }
    }

    /// Starts a history with its photon of the source, where no other photon waits.
    pub fn start_history(&mut self, photon: WaitingPhoton)
        requires
            old(self).wf(),
            old(self).has_room(),
            old(self).waiting@.len() == 0,
        ensures
            final(self).wf(),
            final(self).waiting@ == seq![photon],
            final(self).histories == old(self).histories + 1,
            final(self).radiated == old(self).radiated,
            final(self).followed == old(self).followed,
    {
        self.waiting.push(photon);
        self.histories = self.histories + 1;
    }

    /// The photon to follow next. Where none waits, the history is over.
    pub fn next_photon(&mut self) -> (r: Option<WaitingPhoton>)
        requires
            old(self).wf(),
            old(self).histories + old(self).radiated <= u64::MAX,
        ensures
            final(self).wf(),
            final(self).histories == old(self).histories && final(self).radiated == old(self).radiated,
            r is None <==> old(self).waiting@.len() == 0,
            r is None ==> *final(self) == *old(self),
            r matches Some(photon) ==> {
                &&& photon == old(self).waiting@.last()
                &&& final(self).waiting@ == old(self).waiting@.drop_last()
                &&& final(self).followed == old(self).followed + 1
            },
    {
        if self.waiting.len() == 0 {
            return None;
        }
        self.followed = self.followed + 1;
        self.waiting.pop()
    }

    /// Takes an electron that a photon set free: its yield, the random number, and
    /// the photon that was sampled for it, where there is one. An electron that
    /// radiates adds that photon to those that wait; any other adds nothing.
    pub fn take_electron(&mut self, yield_fraction: Binary64, xi: Binary64, sampled: Option<WaitingPhoton>) -> (r:
        bool)
        requires
            old(self).wf(),
            old(self).has_room(),
        ensures
            final(self).wf(),
            final(self).histories == old(self).histories && final(self).followed == old(self).followed,
            r == ((Binary64 { bits: 0 }).less(yield_fraction) && xi.less(yield_fraction) && sampled is Some),
            !r ==> *final(self) == *old(self),
            r ==> {
                &&& final(self).waiting@ == old(self).waiting@.push(sampled->0)
                &&& final(self).radiated == old(self).radiated + 1
            },
    {
        if !radiates(yield_fraction, xi) {
            return false;
        }
        match sampled {
            None => false,
            Some(photon) => {
                self.waiting.push(photon);
                self.radiated = self.radiated + 1;
                true
            },
        }
    }
}

/// Where no photon waits, one was followed for each history and one for each that
/// was radiated; no photon is followed that was not made.
pub proof fn law_every_photon_is_followed(run: PhotonRun)
    requires
        run.wf(),
    ensures
        run.followed <= run.histories + run.radiated,
        run.waiting@.len() == 0 <==> run.followed == run.histories + run.radiated,
{
}

/// A share of a total: the quotient, or zero where there is nothing to share.
pub fn share(total: Binary64, quotient: Binary64) -> (r: Binary64)
    ensures
        (Binary64 { bits: 0 }).less(total) ==> r == quotient,
        !(Binary64 { bits: 0 }).less(total) ==> r.bits == 0,
{
    if Binary64::zero().lt(total) {
        quotient
    } else {
        Binary64::zero()
    }
}

/// A coupled run binds its neutron side as a run on its own does: every nuclide to
/// its own file at the temperature of its material, with its own density, and every
/// cell to the material that fills it.
pub proof fn law_coupled_plan_binds_nuclides_and_cells(
    scene: &Scene,
    data: &DataFiles,
    plan: GammaPlan,
    m: int,
    j: int,
    i: int,
)
    requires
        call_ensures(plan_gamma_heating, (scene, data), Ok(plan)),
        0 <= m < scene.materials@.len(),
        0 <= j < scene.materials@[m].nuclides@.len(),
        0 <= i < scene.cells@.len(),
    ensures
        scene.photon_data_dir is Some,
        plan.materials@[m].name@ == scene.materials@[m].name@,
        plan.materials@[m].temperature == scene.materials@[m].temperature,
        ({
            let own = scene.materials@[m].nuclides@[j];
            let bound = plan.materials@[m].nuclides@[j];
            let at = bound.xs_kernel_idx as int;
            &&& bound.atom_density == own.atom_density
            &&& at < plan.nuclides@.len()
            &&& plan.nuclides@[at].hdf5_file@ == own.hdf5_file@
            &&& plan.nuclides@[at].temp_idx == scene.materials@[m].temp_idx
        }),
        plan.cells@[i].temperature == scene.cells@[i].temperature,
        scene.cells@[i].fill is None <==> plan.cells@[i].fill == CellFill::Void,
        scene.cells@[i].fill matches Some(name) ==> plan.cells@[i].fill matches CellFill::Material(k) && k
            < scene.material_names@.len() && scene.material_names@[k as int]@ == name@,
{
    let ms = scene.materials@;
    let table = scene_table(*scene);
    let pm = plan.materials@[m];
    assert(is_planned(ms, table, m, pm));
    assert(crate::eigen_plan::is_bound(ms, table, m, j, pm.nuclides@[j]));
    let at = pm.nuclides@[j].xs_kernel_idx as int;
    assert(loads(ms, plan.nuclides@[at], table[at]));
    assert(m as usize == m && j as usize == j) by {
        assert(scene.materials.len() == ms.len());
        assert(ms[m].nuclides.len() == ms[m].nuclides@.len());
    }
    let c = scene.cells@[i];
    assert(is_planned_cell(plan.cells@[i], c, *scene));
    if c.fill is Some {
        lemma_index_named(scene.material_names@, c.fill->0@);
        assert(scene.material_names.len() == scene.material_names@.len());
    }
}

/// The bank of photons holds the events of the active batches, in order: one more
/// batch adds its events behind those before where it is active, and nothing where
/// it is not.
pub proof fn law_bank_holds_active_events(
    batches: &Vec<PhotonBatch>,
    longer: &Vec<PhotonBatch>,
    b: PhotonBatch,
    bank: Vec<PhotonSourceEvent>,
    grown: Vec<PhotonSourceEvent>,
)
    requires
        call_ensures(gather_photons, (batches,), Ok(bank)),
        call_ensures(gather_photons, (longer,), Ok(grown)),
        longer@ == batches@.push(b),
    ensures
        b.active ==> grown@ == bank@ + b.events@,
        !b.active ==> grown@ == bank@,
        bank@.len() > 0,
{
    lemma_bank_push(batches@, b, batches@.len() as int);
}

proof fn lemma_bank_push(batches: Seq<PhotonBatch>, b: PhotonBatch, n: int)
    requires
        0 <= n <= batches.len(),
    ensures
        bank_of(batches.push(b), n) == bank_of(batches, n),
    decreases n,
{
    if n > 0 {
        lemma_bank_push(batches, b, n - 1);
        assert(batches.push(b)[n - 1] == batches[n - 1]);
    }
}

/// A single active batch gives its own events; a run without any is refused.
pub proof fn law_events_of_a_single_batch(
    batches: &Vec<PhotonBatch>,
    r: Result<Vec<PhotonSourceEvent>, GammaError>,
)
    requires
        call_ensures(gather_photons, (batches,), r),
        batches@.len() == 1,
    ensures
        r is Ok <==> batches@[0].active && batches@[0].events@.len() > 0,
        r matches Ok(bank) ==> bank@ == batches@[0].events@,
{
    reveal_with_fuel(bank_of, 3);
    assert(Seq::<PhotonSourceEvent>::empty() + batches@[0].events@ =~= batches@[0].events@);
}

/// Every photon material is bound to the material that fills the cell it was given
/// for, and a material without such a cell has none; where several are given for
/// cells of one material, the first one is bound.
pub proof fn law_photon_materials_follow_their_cells(
    scene: &Scene,
    data: &DataFiles,
    bound: Vec<Option<usize>>,
    m: int,
    i: int,
)
    requires
        call_ensures(bind_photon_materials, (scene, data), Ok(bound)),
        scene.wf(),
        0 <= m < scene.materials@.len(),
    ensures
        bound@.len() == scene.materials@.len(),
        bound@[m] matches Some(k) ==> forall|j: int|
            0 <= j < k && first_cell(scene.cells@, #[trigger] scene.photon_cells@[j]@, i) && scene.cells@[i].fill
                is Some ==> scene.cells@[i].fill->0@ != scene.material_names@[m]@,
        bound@[m] matches Some(k) ==> k < scene.photon_cells@.len() && exists|c: int|
            0 <= c < scene.cells@.len() && (#[trigger] scene.cells@[c]).name@ == scene.photon_cells@[k as int]@
                && scene.cells@[c].fill is Some && scene.cells@[c].fill->0@ == scene.material_names@[m]@,
        bound@[m] is None ==> forall|k: int|
            0 <= k < scene.photon_cells@.len() && first_cell(scene.cells@, #[trigger] scene.photon_cells@[k]@, i)
                && scene.cells@[i].fill is Some ==> scene.cells@[i].fill->0@ != scene.material_names@[m]@,
{
    let n = scene.photon_cells@.len() as int;
    assert(is_binding(bound@, *scene, n));
    match bound@[m] {
        Some(k) => {
            assert(goes_to(*scene, k as int, m));
            let c = choose|c: int|
                {
                    &&& #[trigger] first_cell(scene.cells@, scene.photon_cells@[k as int]@, c)
                    &&& scene.cells@[c].fill is Some
                    &&& is_named(scene.material_names@, scene.cells@[c].fill->0@)
                    &&& m == index_named(scene.material_names@, scene.cells@[c].fill->0@)
                };
            lemma_index_named(scene.material_names@, scene.cells@[c].fill->0@);
            assert(scene.cells@[c].name@ == scene.photon_cells@[k as int]@);
            assert forall|j: int|
                0 <= j < k && first_cell(scene.cells@, #[trigger] scene.photon_cells@[j]@, i) && scene.cells@[i].fill
                    is Some implies scene.cells@[i].fill->0@ != scene.material_names@[m]@ by {
                let name = scene.cells@[i].fill->0@;
                if name == scene.material_names@[m]@ {
                    assert(is_named(scene.material_names@, name));
                    lemma_index_named(scene.material_names@, name);
                    let at = index_named(scene.material_names@, name);
                    assert(scene.material_names@[at]@ == scene.material_names@[m]@);
                    assert(at == m);
                    assert(goes_to(*scene, j, m));
                }
            }
        },
        None => {
            assert forall|k: int|
                0 <= k < scene.photon_cells@.len() && first_cell(scene.cells@, #[trigger] scene.photon_cells@[k]@, i)
                    && scene.cells@[i].fill is Some implies scene.cells@[i].fill->0@ != scene.material_names@[m]@ by {
                let name = scene.cells@[i].fill->0@;
                if name == scene.material_names@[m]@ {
                    assert(is_named(scene.material_names@, name));
                    lemma_index_named(scene.material_names@, name);
                    let at = index_named(scene.material_names@, name);
                    assert(scene.material_names@[at]@ == scene.material_names@[m]@);
                    assert(at == m);
                    assert(goes_to(*scene, k, m));
                }
            }
        },
    }
}

/// An event is picked by its number, the last one where the number is too large, and
/// each history has a seed of its own.
pub proof fn law_events_are_picked_by_number(raw: usize, len: usize, r: usize, base: u64, i: u64, j: u64, a: u64, b: u64)
    requires
        call_ensures(pick_event, (raw, len), r),
        call_ensures(history_seed, (base, i), a),
        call_ensures(history_seed, (base, j), b),
    ensures
        raw < len ==> r == raw,
        raw >= len > 0 ==> r == len - 1,
        a == b <==> i == j,
        base + i <= u64::MAX ==> a == base + i,
{
}

/// An electron moves in the material that fills its cell, where there is one, and
/// radiates where photon data are bound to that material.
pub proof fn law_electron_moves_in_its_cell(
    cells: &Vec<PlannedCell>,
    cell: usize,
    material: Option<usize>,
    bound: &Vec<Option<usize>>,
    fill: CellFill,
    radiating: Option<usize>,
)
    requires
        call_ensures(electron_material, (cells, cell), material),
        call_ensures(radiating_material, (fill, bound), radiating),
    ensures
        material matches Some(m) ==> cell < cells@.len() && cells@[cell as int].fill == CellFill::Material(m),
        cell < cells@.len() && cells@[cell as int].fill is Material ==> material is Some,
        radiating matches Some(m) ==> fill == CellFill::Material(m) && m < bound@.len() && bound@[m as int] is Some,
        fill matches CellFill::Material(m) && m < bound@.len() && bound@[m as int] is Some ==> radiating is Some,
{
}

/// An electron radiates exactly where its yield is positive and above the random
/// number; what is left to it is the difference, but never less than nothing; a share
/// is taken only of a positive total.
pub proof fn law_radiation_and_shares(
    part: Binary64,
    xi: Binary64,
    r: bool,
    difference: Binary64,
    left: Binary64,
    total: Binary64,
    quotient: Binary64,
    s: Binary64,
)
    requires
        call_ensures(radiates, (part, xi), r),
        call_ensures(energy_left, (difference,), left),
        call_ensures(share, (total, quotient), s),
    ensures
        r <==> !part.nan() && !xi.nan() && part.scaled() > 0 && xi.scaled() < part.scaled(),
        !difference.nan() ==> !left.nan() && left.scaled() == if difference.scaled() < 0 {
            0
        } else {
            difference.scaled()
        },
        !total.nan() && total.scaled() > 0 ==> s == quotient,
        total.nan() || total.scaled() <= 0 ==> s.scaled() == 0 && !s.nan(),
{
}

/// An electron that radiates puts its photon on top of those that wait, where it is
/// followed next, and is counted; any other leaves everything as it was.
pub proof fn law_radiated_photon_is_followed_next(
    run: &mut PhotonRun,
    part: Binary64,
    xi: Binary64,
    sampled: Option<WaitingPhoton>,
    r: bool,
)
    requires
        call_ensures(PhotonRun::take_electron, (run, part, xi, sampled), r),
    ensures
        r <==> !part.nan() && !xi.nan() && part.scaled() > 0 && xi.scaled() < part.scaled() && sampled is Some,
        r ==> final(run).radiated == old(run).radiated + 1 && final(run).waiting@.len() == old(run).waiting@.len() + 1
            && final(run).waiting@.last() == sampled->0 && final(run).waiting@.drop_last() == old(run).waiting@,
        !r ==> final(run).radiated == old(run).radiated && final(run).waiting@ == old(run).waiting@,
        final(run).histories == old(run).histories && final(run).followed == old(run).followed,
{
    if r {
        assert(final(run).waiting@.drop_last() =~= old(run).waiting@);
    }
}

/// The photon that is followed next is the one that was put there last, and it no
/// longer waits.
pub proof fn law_last_photon_is_followed_first(run: &mut PhotonRun, r: Option<WaitingPhoton>)
    requires
        call_ensures(PhotonRun::next_photon, (run,), r),
    ensures
        r is None <==> old(run).waiting@.len() == 0,
        r matches Some(p) ==> old(run).waiting@ == final(run).waiting@.push(p) && final(run).followed == old(run).followed + 1,
        final(run).radiated == old(run).radiated && final(run).histories == old(run).histories,
{
    if let Some(p) = r {
        assert(old(run).waiting@ =~= final(run).waiting@.push(p));
    }
}

/// A run starts with nothing, and a history with its one photon of the source.
pub proof fn law_history_starts_with_its_photon(fresh: PhotonRun, run: &mut PhotonRun, photon: WaitingPhoton)
    requires
        call_ensures(PhotonRun::new, (), fresh),
        call_ensures(PhotonRun::start_history, (run, photon), ()),
    ensures
        fresh.waiting@.len() == 0 && fresh.histories == 0 && fresh.radiated == 0 && fresh.followed == 0,
        final(run).waiting@.len() == 1 && final(run).waiting@[0] == photon,
        final(run).histories == old(run).histories + 1,
        final(run).radiated == old(run).radiated && final(run).followed == old(run).followed,
{
}

} // verus!
