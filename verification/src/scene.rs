//! Building a scene: materials, surfaces, cells and how to run them.

use crate::binary64::Binary64;
use crate::geometry::{
    bc_of, parse_bc, whole_space, Aabb, BoundaryCondition, Shape, Surface, Vec3,
};
use crate::region::{
    all_hold, build_region, expression_meaning, factor_holds, find_name, first_named, group_filled, holds,
    index_named, is_named, is_plain, is_white, law_complemented_list_means_not_all, law_region_is_union_of_groups,
    lemma_one_group, lemma_words_cons, lemma_words_one, meaning, not_both, opens, scan, term_of, words, Factor,
    Region, RegionError, RegionFault, Scan, Term,
};
use crate::text::{append_decimal, decimal, digit_char, same_text};
use vstd::prelude::*;

verus! {

/// A nuclide of a material, by the file of its cross sections.
#[derive(Clone, Debug)]
pub struct NuclideSpec {
    pub hdf5_file: String,
    /// Atoms per barn-centimetre.
    pub atom_density: Binary64,
    /// Atomic weight ratio.
    pub awr: Binary64,
    /// Mean fission yield where the file has none.
    pub nubar: Binary64,
    /// File of thermal scattering data.
    pub thermal_file: Option<String>,
}

/// A material as the user describes it.
#[derive(Clone, Debug)]
pub struct MaterialSpec {
    pub name: String,
    /// Kelvin.
    pub temperature: Binary64,
    /// Which tabulated temperature to read.
    pub temp_idx: usize,
    pub nuclides: Vec<NuclideSpec>,
}

/// `i` is the first nuclide read from the file.
pub open spec fn first_of_file(nuclides: Seq<NuclideSpec>, file: Seq<char>, i: int) -> bool {
    &&& 0 <= i < nuclides.len()
    &&& nuclides[i].hdf5_file@ == file
    &&& forall|k: int| 0 <= k < i ==> (#[trigger] nuclides[k]).hdf5_file@ != file
}

/// No nuclide is read from the file.
pub open spec fn lacks_file(nuclides: Seq<NuclideSpec>, file: Seq<char>) -> bool {
    forall|k: int| 0 <= k < nuclides.len() ==> (#[trigger] nuclides[k]).hdf5_file@ != file
}

impl MaterialSpec {
    /// A material without nuclides.
    pub fn new(name: String, temperature: Binary64, temp_idx: usize) -> (r: Self)
        ensures
            r.name == name,
            r.temperature == temperature,
            r.temp_idx == temp_idx,
            r.nuclides@.len() == 0,
    {
        MaterialSpec { name, temperature, temp_idx, nuclides: Vec::new() }
    }

    /// Appends a nuclide.
    pub fn add_nuclide(&mut self, nuclide: NuclideSpec)
        ensures
            final(self).nuclides@ == old(self).nuclides@.push(nuclide),
            final(self).name == old(self).name,
            final(self).temperature == old(self).temperature,
            final(self).temp_idx == old(self).temp_idx,
    {
        self.nuclides.push(nuclide);
    }

    fn find_file(&self, file: &str) -> (r: Option<usize>)
        ensures
            r is None <==> lacks_file(self.nuclides@, file@),
            r matches Some(i) ==> first_of_file(self.nuclides@, file@, i as int),
    {
        let mut i: usize = 0;
        while i < self.nuclides.len()
            invariant
                i <= self.nuclides@.len(),
                forall|k: int| 0 <= k < i ==> (#[trigger] self.nuclides@[k]).hdf5_file@ != file@,
            decreases self.nuclides@.len() - i,
        {
            if same_text(self.nuclides[i].hdf5_file.as_str(), file) {
                return Some(i);
            }
            i += 1;
        }
        None
    }

    /// Sets the density of the first nuclide read from a file, and says whether
    /// there is one. Nothing else changes.
    pub fn set_atom_density(&mut self, file: &str, atom_density: Binary64) -> (r: bool)
        ensures
            r <==> !lacks_file(old(self).nuclides@, file@),
            !r ==> *final(self) == *old(self),
            r ==> {
                &&& final(self).name == old(self).name
                &&& final(self).temperature == old(self).temperature
                &&& final(self).temp_idx == old(self).temp_idx
                &&& exists|i: int| #[trigger]
                    first_of_file(old(self).nuclides@, file@, i) && final(self).nuclides@ == old(
                        self,
                    ).nuclides@.update(i, (NuclideSpec { atom_density, ..old(self).nuclides@[i] }))
            },
    {
        match self.find_file(file) {
            None => false,
            Some(i) => {
                let ghost before = self.nuclides@;
                self.nuclides[i].atom_density = atom_density;
                proof {
                    assert(first_of_file(before, file@, i as int));
                    assert(self.nuclides@ =~= before.update(
                        i as int,
                        (NuclideSpec { atom_density, ..before[i as int] }),
                    ));
                }
                true
            },
        }
    }

    /// The density of the first nuclide read from a file.
    pub fn atom_density_of(&self, file: &str) -> (r: Option<Binary64>)
        ensures
            r is None <==> lacks_file(self.nuclides@, file@),
            r matches Some(d) ==> exists|i: int| #[trigger]
                first_of_file(self.nuclides@, file@, i) && self.nuclides@[i].atom_density == d,
    {
        match self.find_file(file) {
            None => None,
            Some(i) => {
                assert(first_of_file(self.nuclides@, file@, i as int));
                Some(self.nuclides[i].atom_density)
            },
        }
    }
}

/// A density that was set is the density that is read.
pub proof fn law_set_density_is_read_back(
    before: Seq<NuclideSpec>,
    after: Seq<NuclideSpec>,
    file: Seq<char>,
    density: Binary64,
    i: int,
    j: int,
)
    requires
        first_of_file(before, file, i),
        after == before.update(i, (NuclideSpec { atom_density: density, ..before[i] })),
        first_of_file(after, file, j),
    ensures
        after[j].atom_density == density,
{
    assert(after[i].hdf5_file@ == file);
    if j < i {
        assert(before[j].hdf5_file@ == file);
    }
}

/// An element of a photon material.
#[derive(Clone, Debug)]
pub struct PhotonElementSpec {
    pub hdf5_file: String,
    pub atom_density: Binary64,
}

/// A material for photon transport.
#[derive(Clone, Debug)]
pub struct PhotonMaterialSpec {
    pub density_g_per_cm3: Binary64,
    pub elements: Vec<PhotonElementSpec>,
}

/// Which form of cross sections a run uses.
#[derive(Clone, Copy, Debug, PartialEq, Eq, Structural)]
pub enum XsMode {
    Table,
    Svd,
    HybridSvdWmp,
    HybridTableWmp,
}

/// The word for a mode.
pub open spec fn mode_word(m: XsMode) -> Seq<char> {
    match m {
        XsMode::Table => "table"@,
        XsMode::Svd => "svd"@,
        XsMode::HybridSvdWmp => "hybrid_svd_wmp"@,
        XsMode::HybridTableWmp => "hybrid_table_wmp"@,
    }
}

impl XsMode {
    /// The word for the mode.
    pub fn name(self) -> (r: &'static str)
        ensures
            r@ == mode_word(self),
    {
        match self {
            XsMode::Table => "table",
            XsMode::Svd => "svd",
            XsMode::HybridSvdWmp => "hybrid_svd_wmp",
            XsMode::HybridTableWmp => "hybrid_table_wmp",
        }
    }

    /// The mode as it is written in a program.
    pub fn label(self) -> (r: &'static str)
        ensures
            r@ == match self {
                XsMode::Table => "XsMode.Table"@,
                XsMode::Svd => "XsMode.Svd"@,
                XsMode::HybridSvdWmp => "XsMode.HybridSvdWmp"@,
                XsMode::HybridTableWmp => "XsMode.HybridTableWmp"@,
            },
    {
        match self {
            XsMode::Table => "XsMode.Table",
            XsMode::Svd => "XsMode.Svd",
            XsMode::HybridSvdWmp => "XsMode.HybridSvdWmp",
            XsMode::HybridTableWmp => "XsMode.HybridTableWmp",
        }
    }

    pub open spec fn decomposes(self) -> bool {
        self == XsMode::Svd || self == XsMode::HybridSvdWmp
    }

    /// Whether the mode uses decomposed cross sections.
    pub fn uses_svd(self) -> (r: bool)
        ensures
            r == self.decomposes(),
    {
        match self {
            XsMode::Svd | XsMode::HybridSvdWmp => true,
            _ => false,
        }
    }

    pub open spec fn multipole(self) -> bool {
        self == XsMode::HybridSvdWmp || self == XsMode::HybridTableWmp
    }

    /// Whether the mode uses multipole data where there are some.
    pub fn uses_wmp(self) -> (r: bool)
        ensures
            r == self.multipole(),
    {
        match self {
            XsMode::HybridSvdWmp | XsMode::HybridTableWmp => true,
            _ => false,
        }
    }
}

/// The device that a run uses.
#[derive(Clone, Copy, Debug, PartialEq, Eq, Structural)]
pub enum Runner {
    Cpu,
    GpuCuda,
}

impl Runner {
    /// The word for the device.
    pub fn name(self) -> (r: &'static str)
        ensures
            r@ == match self {
                Runner::Cpu => "cpu"@,
                Runner::GpuCuda => "gpu_cuda"@,
            },
    {
        match self {
            Runner::Cpu => "cpu",
            Runner::GpuCuda => "gpu_cuda",
        }
    }

    /// The device as it is written in a program.
    pub fn label(self) -> (r: &'static str)
        ensures
            r@ == match self {
                Runner::Cpu => "Runner.Cpu"@,
                Runner::GpuCuda => "Runner.GpuCuda"@,
            },
    {
        match self {
            Runner::Cpu => "Runner.Cpu",
            Runner::GpuCuda => "Runner.GpuCuda",
        }
    }

    /// The best device of a build.
    pub fn recommended(has_cuda: bool) -> (r: Self)
        ensures
            r == if has_cuda {
                Runner::GpuCuda
            } else {
                Runner::Cpu
            },
    {
        if has_cuda {
            Runner::GpuCuda
        } else {
            Runner::Cpu
        }
    }
}

/// The multipole file of a nuclide.
pub open spec fn wmp_file(file: Seq<char>) -> Option<Seq<char>> {
    if file == "U234.h5"@ {
        Some("092234.h5"@)
    } else if file == "U235.h5"@ {
        Some("092235.h5"@)
    } else if file == "U238.h5"@ {
        Some("092238.h5"@)
    } else {
        None
    }
}

/// The multipole file of a nuclide, for the three uranium isotopes that have one.
pub fn wmp_path_for(file: &str) -> (r: Option<&'static str>)
    ensures
        r is Some <==> wmp_file(file@) is Some,
        r matches Some(p) ==> wmp_file(file@) == Some(p@),
{
    if same_text(file, "U234.h5") {
        Some("092234.h5")
    } else if same_text(file, "U235.h5") {
        Some("092235.h5")
    } else if same_text(file, "U238.h5") {
        Some("092238.h5")
    } else {
        None
    }
}

/// A cell as the user describes it.
#[derive(Clone, Debug)]
pub struct CellSpec {
    pub name: String,
    pub region_expr: String,
    /// The material that fills the cell, or nothing for a void.
    pub fill: Option<String>,
    pub temperature: Binary64,
}

/// Why a scene refused something.
#[derive(Clone, Debug)]
pub enum SceneError {
    MissingDirectory(String),
    UnknownBoundary(String),
    UnknownOrientation(String),
    DuplicateMaterial(String),
    DuplicateSurface(String),
    /// The rank of the decomposition has to be at least one.
    RankZero,
    /// So has the rank of each reaction.
    RankZeroFor(u32),
}

/// Which way the hexagons of a lattice point.
#[derive(Clone, Copy, Debug, PartialEq, Eq, Structural)]
pub enum HexOrientation {
    X,
    Y,
}

/// The orientation that a word stands for.
pub open spec fn orientation_of(word: Seq<char>) -> Option<HexOrientation> {
    if word == "flat"@ || word == "Y"@ || word == "y"@ {
        Some(HexOrientation::Y)
    } else if word == "pointy"@ || word == "X"@ || word == "x"@ {
        Some(HexOrientation::X)
    } else {
        None
    }
}

/// Reads an orientation, or nothing where the word is not one.
pub fn parse_orientation(word: &str) -> (r: Option<HexOrientation>)
    ensures
        r == orientation_of(word@),
{
    if same_text(word, "flat") || same_text(word, "Y") || same_text(word, "y") {
        Some(HexOrientation::Y)
    } else if same_text(word, "pointy") || same_text(word, "X") || same_text(word, "x") {
        Some(HexOrientation::X)
    } else {
        None
    }
}

/// A scene under construction.
pub struct Scene {
    pub data_dir: String,
    pub photon_data_dir: Option<String>,
    pub material_names: Vec<String>,
    pub materials: Vec<MaterialSpec>,
    pub surface_names: Vec<String>,
    pub surfaces: Vec<Surface>,
    pub cells: Vec<CellSpec>,
    /// The photon material of a cell, by the cell's name.
    pub photon_cells: Vec<String>,
    pub photon_materials: Vec<PhotonMaterialSpec>,
    pub xs_mode: XsMode,
    pub svd_rank: usize,
    /// Ranks of single reactions, by reaction number.
    pub svd_ranks_per_mt: Vec<(u32, usize)>,
    pub runner: Runner,
}

/// No two names are the same.
pub open spec fn names_differ(names: Seq<String>) -> bool {
    forall|i: int, j: int| 0 <= i < j < names.len() ==> (#[trigger] names[i])@ != (#[trigger] names[j])@
}

/// The ranks are all at least one.
pub open spec fn ranks_positive(ranks: Seq<(u32, usize)>) -> bool {
    forall|i: int| 0 <= i < ranks.len() ==> (#[trigger] ranks[i]).1 > 0
}

fn all_differ(names: &Vec<String>) -> (r: bool)
    ensures
        r == names_differ(names@),
{
    let mut j: usize = 0;
    while j < names.len()
        invariant
            j <= names@.len(),
            names_differ(names@.take(j as int)),
        decreases names@.len() - j,
    {
        let mut i: usize = 0;
        while i < j
            invariant
                i <= j < names@.len(),
                forall|k: int| 0 <= k < i ==> (#[trigger] names@[k])@ != names@[j as int]@,
            decreases j - i,
        {
            if same_text(&names[i], &names[j]) {
                assert(names@[i as int]@ == names@[j as int]@);
                return false;
            }
            i += 1;
        }
        proof {
            let longer = names@.take(j + 1);
            assert forall|a: int, b: int| 0 <= a < b < longer.len() implies (#[trigger] longer[a])@ != (
            #[trigger] longer[b])@ by {
                assert(longer[a] == names@[a] && longer[b] == names@[b]);
                if b < j {
                    assert(names@.take(j as int)[a] == names@[a] && names@.take(j as int)[b] == names@[b]);
                }
            }
        }
        j += 1;
    }
    assert(names@.take(j as int) =~= names@);
    true
}

fn all_positive(ranks: &Vec<(u32, usize)>) -> (r: bool)
    ensures
        r == ranks_positive(ranks@),
{
    let mut i: usize = 0;
    while i < ranks.len()
        invariant
            i <= ranks@.len(),
            forall|k: int| 0 <= k < i ==> (#[trigger] ranks@[k]).1 > 0,
        decreases ranks@.len() - i,
    {
        if ranks[i].1 == 0 {
            assert(!(ranks@[i as int].1 > 0));
            return false;
        }
        i += 1;
    }
    true
}

impl Scene {
    /// Names are unique and each has its thing; ranks are positive.
    pub open spec fn wf(self) -> bool {
        &&& self.material_names@.len() == self.materials@.len()
        &&& names_differ(self.material_names@)
        &&& self.surface_names@.len() == self.surfaces@.len()
        &&& names_differ(self.surface_names@)
        &&& self.photon_cells@.len() == self.photon_materials@.len()
        &&& names_differ(self.photon_cells@)
        &&& self.svd_rank > 0
        &&& ranks_positive(self.svd_ranks_per_mt@)
    }

    /// Whether names are unique, each has its thing, and ranks are positive.
    pub fn is_consistent(&self) -> (r: bool)
        ensures
            r == self.wf(),
    {
        self.material_names.len() == self.materials.len() && all_differ(&self.material_names)
            && self.surface_names.len() == self.surfaces.len() && all_differ(&self.surface_names)
            && self.photon_cells.len() == self.photon_materials.len() && all_differ(&self.photon_cells)
            && self.svd_rank > 0 && all_positive(&self.svd_ranks_per_mt)
    }

    /// `self` and `other` differ in their surfaces alone.
    pub open spec fn same_but_surfaces(self, other: Scene) -> bool {
        self == (Scene { surface_names: self.surface_names, surfaces: self.surfaces, ..other })
    }

    /// An empty scene over a data directory, which has to exist.
    pub fn new(data_dir: String, exists: bool) -> (r: Result<Self, SceneError>)
        ensures
            r is Ok <==> exists,
            r matches Err(e) ==> e == SceneError::MissingDirectory(data_dir),
            r matches Ok(s) ==> {
                &&& s.wf()
                &&& s.data_dir == data_dir
                &&& s.photon_data_dir is None
                &&& s.materials@.len() == 0 && s.surfaces@.len() == 0 && s.cells@.len() == 0
                &&& s.photon_materials@.len() == 0
                &&& s.xs_mode == XsMode::Table
                &&& s.svd_rank == 5
                &&& s.svd_ranks_per_mt@.len() == 0
                &&& s.runner == Runner::Cpu
            },
    {
        if !exists {
            return Err(SceneError::MissingDirectory(data_dir));
        }
        Ok(
            Scene {
                data_dir,
                photon_data_dir: None,
                material_names: Vec::new(),
                materials: Vec::new(),
                surface_names: Vec::new(),
                surfaces: Vec::new(),
                cells: Vec::new(),
                photon_cells: Vec::new(),
                photon_materials: Vec::new(),
                xs_mode: XsMode::Table,
                svd_rank: 5,
                svd_ranks_per_mt: Vec::new(),
                runner: Runner::Cpu,
            },
        )
    }

    /// Chooses the device.
    pub fn set_runner(&mut self, runner: Runner)
        requires
            old(self).wf(),
        ensures
            *final(self) == (Scene { runner, ..*old(self) }),
            final(self).wf(),
    {
        self.runner = runner;
    }

    /// Chooses the form of cross sections.
    pub fn set_xs_mode(&mut self, mode: XsMode)
        requires
            old(self).wf(),
        ensures
            *final(self) == (Scene { xs_mode: mode, ..*old(self) }),
            final(self).wf(),
    {
        self.xs_mode = mode;
    }

    /// Sets the rank of the decomposition.
    pub fn set_svd_rank(&mut self, rank: usize) -> (r: Result<(), SceneError>)
        requires
            old(self).wf(),
        ensures
            r is Ok <==> rank > 0,
            r matches Err(e) ==> e == SceneError::RankZero && *final(self) == *old(self),
            r is Ok ==> *final(self) == (Scene { svd_rank: rank, ..*old(self) }),
            final(self).wf(),
    {
        if rank == 0 {
            return Err(SceneError::RankZero);
        }
        self.svd_rank = rank;
        Ok(())
    }

    /// Replaces the ranks of single reactions. A rank of zero refuses them all.
    pub fn set_svd_ranks(&mut self, ranks: Vec<(u32, usize)>) -> (r: Result<(), SceneError>)
        requires
            old(self).wf(),
        ensures
            r is Ok <==> ranks_positive(ranks@),
            r matches Err(e) ==> {
                &&& e is RankZeroFor
                &&& ranks@.contains((e->RankZeroFor_0, 0usize))
                &&& *final(self) == *old(self)
            },
            r is Ok ==> *final(self) == (Scene { svd_ranks_per_mt: ranks, ..*old(self) }),
            final(self).wf(),
    {
        let mut i: usize = 0;
        while i < ranks.len()
            invariant
                i <= ranks@.len(),
                forall|k: int| 0 <= k < i ==> (#[trigger] ranks@[k]).1 > 0,
                *self == *old(self),
                self.wf(),
            decreases ranks@.len() - i,
        {
            if ranks[i].1 == 0 {
                assert(ranks@[i as int] == (ranks@[i as int].0, 0usize));
                return Err(SceneError::RankZeroFor(ranks[i].0));
            }
            i += 1;
        }
        self.svd_ranks_per_mt = ranks;
        Ok(())
    }

    /// Sets the directory of photon data, which has to exist.
    pub fn set_photon_data_dir(&mut self, path: String, exists: bool) -> (r: Result<(), SceneError>)
        requires
            old(self).wf(),
        ensures
            r is Ok <==> exists,
            r matches Err(e) ==> e == SceneError::MissingDirectory(path) && *final(self) == *old(self),
            r is Ok ==> *final(self) == (Scene { photon_data_dir: Some(path), ..*old(self) }),
            final(self).wf(),
    {
        if !exists {
            return Err(SceneError::MissingDirectory(path));
        }
        self.photon_data_dir = Some(path);
        Ok(())
    }

    /// Attaches a photon material to a cell, in place of one that it had.
    pub fn add_photon_material(&mut self, cell_name: String, material: PhotonMaterialSpec)
        requires
            old(self).wf(),
        ensures
            final(self).wf(),
            is_named(old(self).photon_cells@, cell_name@) ==> {
                &&& final(self).photon_cells@ == old(self).photon_cells@
                &&& final(self).photon_materials@ == old(self).photon_materials@.update(
                    index_named(old(self).photon_cells@, cell_name@),
                    material,
                )
            },
            !is_named(old(self).photon_cells@, cell_name@) ==> {
                &&& final(self).photon_cells@ == old(self).photon_cells@.push(cell_name)
                &&& final(self).photon_materials@ == old(self).photon_materials@.push(material)
            },
            *final(self) == (Scene {
                photon_cells: final(self).photon_cells,
                photon_materials: final(self).photon_materials,
                ..*old(self)
            }),
    {
        match find_name(&self.photon_cells, cell_name.as_str()) {
            Some(i) => {
                let ghost before = self.photon_materials@;
                self.photon_materials[i] = material;
                assert(self.photon_materials@ =~= before.update(i as int, material));
            },
            None => {
                let ghost before = self.photon_cells@;
                self.photon_cells.push(cell_name);
                self.photon_materials.push(material);
                proof {
                    lemma_new_name_differs(before, cell_name);
                }
            },
        }
    }

    /// Registers a material under a new name.
    pub fn add_material(&mut self, name: String, material: MaterialSpec) -> (r: Result<(), SceneError>)
        requires
            old(self).wf(),
        ensures
            final(self).wf(),
            r is Err <==> is_named(old(self).material_names@, name@),
            r matches Err(e) ==> e == SceneError::DuplicateMaterial(name) && *final(self) == *old(self),
            r is Ok ==> {
                &&& final(self).material_names@ == old(self).material_names@.push(name)
                &&& final(self).materials@ == old(self).materials@.push(material)
                &&& *final(self) == (Scene {
                    material_names: final(self).material_names,
                    materials: final(self).materials,
                    ..*old(self)
                })
            },
    {
        if find_name(&self.material_names, name.as_str()).is_some() {
            return Err(SceneError::DuplicateMaterial(name));
        }
        let ghost before = self.material_names@;
        self.material_names.push(name);
        self.materials.push(material);
        proof {
            lemma_new_name_differs(before, name);
        }
        Ok(())
    }

    /// Registers a surface under a new name.
    pub fn add_surface(&mut self, name: String, surface: Surface) -> (r: Result<(), SceneError>)
        requires
            old(self).wf(),
        ensures
            final(self).wf(),
            r is Err <==> is_named(old(self).surface_names@, name@),
            r matches Err(e) ==> e == SceneError::DuplicateSurface(name) && *final(self) == *old(self),
            r is Ok ==> {
                &&& final(self).surface_names@ == old(self).surface_names@.push(name)
                &&& final(self).surfaces@ == old(self).surfaces@.push(surface)
                &&& final(self).same_but_surfaces(*old(self))
            },
    {
        if find_name(&self.surface_names, name.as_str()).is_some() {
            return Err(SceneError::DuplicateSurface(name));
        }
        let ghost before = self.surface_names@;
        self.surface_names.push(name);
        self.surfaces.push(surface);
        proof {
            lemma_new_name_differs(before, name);
        }
        Ok(())
    }

    /// Appends a cell.
    pub fn add_cell(&mut self, cell: CellSpec)
        requires
            old(self).wf(),
        ensures
            final(self).wf(),
            final(self).cells@ == old(self).cells@.push(cell),
            *final(self) == (Scene { cells: final(self).cells, ..*old(self) }),
    {
        self.cells.push(cell);
    }

    /// Registers surfaces one by one and stops at a name that is taken; those
    /// before it stay.
    fn add_surfaces(&mut self, names: &Vec<String>, surfaces: &Vec<Surface>) -> (r: Result<(), SceneError>)
        requires
            old(self).wf(),
            names@.len() == surfaces@.len(),
        ensures
            final(self).wf(),
            registered(*old(self), *final(self), names@, surfaces@, r),
    {
        let mut i: usize = 0;
        proof {
            assert(old(self).surface_names@ + names@.take(0) =~= old(self).surface_names@);
            assert(old(self).surfaces@ + surfaces@.take(0) =~= old(self).surfaces@);
        }
        while i < names.len()
            invariant
                i <= names@.len(),
                names@.len() == surfaces@.len(),
                self.wf(),
                self.same_but_surfaces(*old(self)),
                self.surface_names@ == old(self).surface_names@ + names@.take(i as int),
                self.surfaces@ == old(self).surfaces@ + surfaces@.take(i as int),
            decreases names@.len() - i,
        {
            let ghost had_names = self.surface_names@;
            let ghost had = self.surfaces@;
            match self.add_surface(names[i].clone(), surfaces[i]) {
                Err(e) => {
                    assert(stopped_at(*old(self), *self, names@, surfaces@, i as int));
                    return Err(e);
                },
                Ok(()) => {},
            }
            proof {
                assert(names@.take(i + 1) =~= names@.take(i as int).push(names@[i as int]));
                assert(surfaces@.take(i + 1) =~= surfaces@.take(i as int).push(surfaces@[i as int]));
                assert(had_names.push(names@[i as int]) =~= old(self).surface_names@ + names@.take(i + 1));
                assert(had.push(surfaces@[i as int]) =~= old(self).surfaces@ + surfaces@.take(i + 1));
            }
            i += 1;
        }
        proof {
            assert(names@.take(i as int) =~= names@);
            assert(surfaces@.take(i as int) =~= surfaces@);
        }
        Ok(())
    }
}

proof fn lemma_new_name_differs(names: Seq<String>, name: String)
    requires
        names_differ(names),
        !is_named(names, name@),
    ensures
        names_differ(names.push(name)),
{
    let longer = names.push(name);
    assert forall|i: int, j: int| 0 <= i < j < longer.len() implies (#[trigger] longer[i])@ != (
    #[trigger] longer[j])@ by {
        assert(longer[i] == names[i]);
        if j < names.len() {
            assert(longer[j] == names[j]);
        }
    }
}

/// The first `k` surfaces were registered, and the name of the next was taken.
pub open spec fn stopped_at(
    before: Scene,
    after: Scene,
    names: Seq<String>,
    surfaces: Seq<Surface>,
    k: int,
) -> bool {
    &&& 0 <= k < names.len()
    &&& after.same_but_surfaces(before)
    &&& after.surface_names@ == before.surface_names@ + names.take(k)
    &&& after.surfaces@ == before.surfaces@ + surfaces.take(k)
    &&& is_named(after.surface_names@, names[k]@)
}

/// What registering several surfaces comes to.
pub open spec fn registered(
    before: Scene,
    after: Scene,
    names: Seq<String>,
    surfaces: Seq<Surface>,
    r: Result<(), SceneError>,
) -> bool {
    match r {
        Ok(_) => {
            &&& after.same_but_surfaces(before)
            &&& after.surface_names@ == before.surface_names@ + names
            &&& after.surfaces@ == before.surfaces@ + surfaces
        },
        Err(e) => exists|k: int| #[trigger]
            stopped_at(before, after, names, surfaces, k) && e == SceneError::DuplicateSurface(names[k]),
    }
}

/// Parts from `i` on, with an ampersand between blanks between them.
pub open spec fn joined_from(parts: Seq<Seq<char>>, i: int) -> Seq<char>
    decreases parts.len() - i,
{
    if i + 1 >= parts.len() {
        parts[i]
    } else {
        parts[i] + (" & "@ + joined_from(parts, i + 1))
    }
}

/// The texts of strings.
pub open spec fn string_texts(v: Seq<String>) -> Seq<Seq<char>> {
    v.map_values(|s: String| s@)
}

fn join_from(parts: &Vec<String>, i: usize) -> (r: String)
    requires
        i < parts@.len(),
    ensures
        r@ == joined_from(string_texts(parts@), i as int),
    decreases parts@.len() - i,
{
    let mut out = parts[i].clone();
    if parts.len() - i > 1 {
        out.append(" & ");
        let rest = join_from(parts, i + 1);
        out.append(rest.as_str());
        proof {
            assert(out@ =~= joined_from(string_texts(parts@), i as int));
        }
    }
    out
}

/// `prefix`, an underscore-led ending, and maybe a number.
pub open spec fn face_name(prefix: Seq<char>, ending: Seq<char>) -> Seq<char> {
    prefix + ending
}

/// The endings of the faces of a box.
pub open spec fn box_endings() -> Seq<Seq<char>> {
    seq!["_xmin"@, "_xmax"@, "_ymin"@, "_ymax"@, "_zmin"@, "_zmax"@]
}

/// The names of the faces of a box.
pub open spec fn box_names(prefix: Seq<char>) -> Seq<Seq<char>> {
    box_endings().map_values(|e: Seq<char>| face_name(prefix, e))
}

/// The sign of the side of face `i` that the box is on.
pub open spec fn box_sign(i: int) -> char {
    if i % 2 == 0 {
        '+'
    } else {
        '-'
    }
}

/// The words of the inside of a box.
pub open spec fn box_words(prefix: Seq<char>) -> Seq<Seq<char>> {
    Seq::new(6, |i: int| seq![box_sign(i)] + box_names(prefix)[i])
}

/// The faces of a box with these half-widths.
pub open spec fn are_box_faces(faces: Seq<Surface>, half: Vec3, bc: BoundaryCondition) -> bool {
    &&& faces.len() == 6
    &&& forall|i: int| 0 <= i < 6 ==> (#[trigger] faces[i]).bc == bc && faces[i].bounds == whole_space()
    &&& faces[0].shape is PlaneX && is_opposite(faces[0].shape->x0, half.x)
    &&& faces[1].shape == (Shape::PlaneX { x0: half.x })
    &&& faces[2].shape is PlaneY && is_opposite(faces[2].shape->y0, half.y)
    &&& faces[3].shape == (Shape::PlaneY { y0: half.y })
    &&& faces[4].shape is PlaneZ && is_opposite(faces[4].shape->z0, half.z)
    &&& faces[5].shape == (Shape::PlaneZ { z0: half.z })
}

/// `a` is `b` with the other sign.
pub open spec fn is_opposite(a: Binary64, b: Binary64) -> bool {
    a.unsigned() == b.unsigned() && a.is_negative() != b.is_negative()
}

fn suffixed(prefix: &str, ending: &str) -> (r: String)
    ensures
        r@ == face_name(prefix@, ending@),
{
    let mut s = prefix.to_owned();
    s.append(ending);
    s
}

fn numbered(prefix: &str, ending: &str, i: usize) -> (r: String)
    ensures
        r@ == face_name(prefix@, ending@) + decimal(i as int),
{
    let mut s = prefix.to_owned();
    s.append(ending);
    append_decimal(&mut s, i as u64);
    s
}

fn signed(sign: &str, name: &String) -> (r: String)
    ensures
        r@ == sign@ + name@,
{
    let mut s = sign.to_owned();
    s.append(name.as_str());
    s
}

/// The names of the sides of a hexagonal prism.
pub open spec fn hex_names(prefix: Seq<char>) -> Seq<Seq<char>> {
    Seq::new(
        8,
        |i: int|
            if i < 6 {
                face_name(prefix, "_side"@) + decimal(i)
            } else if i == 6 {
                face_name(prefix, "_zmin"@)
            } else {
                face_name(prefix, "_zmax"@)
            },
    )
}

/// The words of the inside of a hexagonal prism.
pub open spec fn hex_words(prefix: Seq<char>) -> Seq<Seq<char>> {
    Seq::new(
        8,
        |i: int|
            seq![
                if i == 6 {
                    '+'
                } else {
                    '-'
                },
            ] + hex_names(prefix)[i],
    )
}

/// The sides of a hexagonal prism.
pub open spec fn are_hex_sides(
    sides: Seq<Surface>,
    normals: Seq<Vec3>,
    inradius: Binary64,
    xy_bc: BoundaryCondition,
    z_half: Binary64,
    z_bc: BoundaryCondition,
) -> bool {
    &&& sides.len() == 8
    &&& forall|i: int| 0 <= i < 8 ==> (#[trigger] sides[i]).bounds == whole_space()
    &&& forall|i: int|
        0 <= i < 6 ==> (#[trigger] sides[i]).bc == xy_bc && sides[i].shape == (Shape::Plane {
            normal: normals[i],
            offset: inradius,
        })
    &&& sides[6].bc == z_bc && sides[6].shape is PlaneZ && is_opposite(sides[6].shape->z0, z_half)
    &&& sides[7].bc == z_bc && sides[7].shape == (Shape::PlaneZ { z0: z_half })
}

/// Measures of a hexagonal prism.
pub struct HexPrism {
    /// Normals of the sides with a flat top.
    pub flat_normals: Vec<Vec3>,
    /// Normals of the sides with a vertex on top.
    pub pointy_normals: Vec<Vec3>,
    pub inradius: Binary64,
    pub z_half: Binary64,
}

/// The normals of the sides with a given orientation.
pub open spec fn normals_for(prism: HexPrism, orientation: HexOrientation) -> Seq<Vec3> {
    match orientation {
        HexOrientation::Y => prism.flat_normals@,
        HexOrientation::X => prism.pointy_normals@,
    }
}

impl Scene {
    /// Registers the six faces of a box around the origin, and gives the region
    /// expression of its inside.
    pub fn add_rect_box(&mut self, prefix: &str, half: Vec3, bc: &str) -> (r: Result<String, SceneError>)
        requires
            old(self).wf(),
        ensures
            final(self).wf(),
            bc_of(bc@) is None ==> {
                &&& r matches Err(e)
                &&& e is UnknownBoundary
                &&& e->UnknownBoundary_0@ == bc@
                &&& *final(self) == *old(self)
            },
            bc_of(bc@) is Some ==> exists|names: Seq<String>, faces: Seq<Surface>| #[trigger]
                string_texts(names) == box_names(prefix@) && #[trigger] are_box_faces(faces, half, bc_of(bc@)->0)
                    && registered(*old(self), *final(self), names, faces, outcome(r)),
            r matches Ok(text) ==> text@ == joined_from(box_words(prefix@), 0),
    {
        let kind = match parse_bc(bc) {
            Some(kind) => kind,
            None => {
                return Err(SceneError::UnknownBoundary(bc.to_owned()));
            },
        };
        let mut names: Vec<String> = Vec::new();
        names.push(suffixed(prefix, "_xmin"));
        names.push(suffixed(prefix, "_xmax"));
        names.push(suffixed(prefix, "_ymin"));
        names.push(suffixed(prefix, "_ymax"));
        names.push(suffixed(prefix, "_zmin"));
        names.push(suffixed(prefix, "_zmax"));
        let all = Aabb::infinite();
        let mut faces: Vec<Surface> = Vec::new();
        faces.push(Surface { shape: Shape::PlaneX { x0: half.x.negate() }, bc: kind, bounds: all });
        faces.push(Surface { shape: Shape::PlaneX { x0: half.x }, bc: kind, bounds: all });
        faces.push(Surface { shape: Shape::PlaneY { y0: half.y.negate() }, bc: kind, bounds: all });
        faces.push(Surface { shape: Shape::PlaneY { y0: half.y }, bc: kind, bounds: all });
        faces.push(Surface { shape: Shape::PlaneZ { z0: half.z.negate() }, bc: kind, bounds: all });
        faces.push(Surface { shape: Shape::PlaneZ { z0: half.z }, bc: kind, bounds: all });
        proof {
            assert(string_texts(names@) =~= box_names(prefix@));
            assert(are_box_faces(faces@, half, kind));
        }
        let done = self.add_surfaces(&names, &faces);
        match done {
            Err(e) => Err(e),
            Ok(()) => {
                let mut parts: Vec<String> = Vec::new();
                parts.push(signed("+", &names[0]));
                parts.push(signed("-", &names[1]));
                parts.push(signed("+", &names[2]));
                parts.push(signed("-", &names[3]));
                parts.push(signed("+", &names[4]));
                parts.push(signed("-", &names[5]));
                proof {
                    reveal_strlit("+");
                    reveal_strlit("-");
                    assert("+"@ =~= seq!['+']);
                    assert("-"@ =~= seq!['-']);
                    assert forall|i: int| 0 <= i < 6 implies #[trigger] string_texts(parts@)[i] == box_words(prefix@)[i] by {
                        assert(names@[i]@ == box_names(prefix@)[i]);
                        assert(string_texts(names@)[i] == box_names(prefix@)[i]);
                    }
                    assert(string_texts(parts@) =~= box_words(prefix@));
                }
                Ok(join_from(&parts, 0))
            },
        }
    }

    /// Registers the six sides and two ends of a hexagonal prism around the
    /// origin, and gives the region expression of its inside. The boundary of the
    /// sides is looked at first, then that of the ends, then the orientation.
    pub fn add_hex_boundary(
        &mut self,
        prefix: &str,
        prism: &HexPrism,
        orientation: &str,
        xy_bc: &str,
        z_bc: &str,
    ) -> (r: Result<String, SceneError>)
        requires
            old(self).wf(),
            prism.flat_normals@.len() == 6,
            prism.pointy_normals@.len() == 6,
        ensures
            final(self).wf(),
            bc_of(xy_bc@) is None ==> {
                &&& r matches Err(e)
                &&& e is UnknownBoundary
                &&& e->UnknownBoundary_0@ == xy_bc@
                &&& *final(self) == *old(self)
            },
            bc_of(xy_bc@) is Some && bc_of(z_bc@) is None ==> {
                &&& r matches Err(e)
                &&& e is UnknownBoundary
                &&& e->UnknownBoundary_0@ == z_bc@
                &&& *final(self) == *old(self)
            },
            bc_of(xy_bc@) is Some && bc_of(z_bc@) is Some && orientation_of(orientation@) is None ==> {
                &&& r matches Err(e)
                &&& e is UnknownOrientation
                &&& e->UnknownOrientation_0@ == orientation@
                &&& *final(self) == *old(self)
            },
            bc_of(xy_bc@) is Some && bc_of(z_bc@) is Some && orientation_of(orientation@) is Some ==> exists|
                names: Seq<String>,
                sides: Seq<Surface>,
            | #[trigger]
                string_texts(names) == hex_names(prefix@) && #[trigger] are_hex_sides(
                    sides,
                    normals_for(*prism, orientation_of(orientation@)->0),
                    prism.inradius,
                    bc_of(xy_bc@)->0,
                    prism.z_half,
                    bc_of(z_bc@)->0,
                ) && registered(*old(self), *final(self), names, sides, outcome(r)),
            r matches Ok(text) ==> text@ == joined_from(hex_words(prefix@), 0),
    {
        let xy = match parse_bc(xy_bc) {
            Some(kind) => kind,
            None => {
                return Err(SceneError::UnknownBoundary(xy_bc.to_owned()));
            },
        };
        let zz = match parse_bc(z_bc) {
            Some(kind) => kind,
            None => {
                return Err(SceneError::UnknownBoundary(z_bc.to_owned()));
            },
        };
        let orient = match parse_orientation(orientation) {
            Some(o) => o,
            None => {
                return Err(SceneError::UnknownOrientation(orientation.to_owned()));
            },
        };
        let normals = match orient {
            HexOrientation::Y => &prism.flat_normals,
            HexOrientation::X => &prism.pointy_normals,
        };
        let all = Aabb::infinite();
        let mut names: Vec<String> = Vec::new();
        let mut sides: Vec<Surface> = Vec::new();
        let mut i: usize = 0;
        while i < 6
            invariant
                i <= 6,
                normals@.len() == 6,
                all == whole_space(),
                names@.len() == i,
                sides@.len() == i,
                forall|k: int| 0 <= k < i ==> (#[trigger] names@[k])@ == hex_names(prefix@)[k],
                forall|k: int|
                    0 <= k < i ==> (#[trigger] sides@[k]) == (Surface {
                        shape: Shape::Plane { normal: normals@[k], offset: prism.inradius },
                        bc: xy,
                        bounds: whole_space(),
                    }),
            decreases 6 - i,
        {
            names.push(numbered(prefix, "_side", i));
            sides.push(
                Surface { shape: Shape::Plane { normal: normals[i], offset: prism.inradius }, bc: xy, bounds: all },
            );
            i += 1;
        }
        names.push(suffixed(prefix, "_zmin"));
        names.push(suffixed(prefix, "_zmax"));
        sides.push(Surface { shape: Shape::PlaneZ { z0: prism.z_half.negate() }, bc: zz, bounds: all });
        sides.push(Surface { shape: Shape::PlaneZ { z0: prism.z_half }, bc: zz, bounds: all });
        proof {
            assert(string_texts(names@) =~= hex_names(prefix@));
            assert(normals@ == normals_for(*prism, orient));
            assert(are_hex_sides(sides@, normals_for(*prism, orient), prism.inradius, xy, prism.z_half, zz));
        }
        let done = self.add_surfaces(&names, &sides);
        match done {
            Err(e) => Err(e),
            Ok(()) => {
                let mut parts: Vec<String> = Vec::new();
                proof {
                    reveal_strlit("+");
                    reveal_strlit("-");
                    assert("+"@ =~= seq!['+']);
                    assert("-"@ =~= seq!['-']);
                }
                let mut j: usize = 0;
                while j < 8
                    invariant
                        j <= 8,
                        names@.len() == 8,
                        string_texts(names@) == hex_names(prefix@),
                        "+"@ == seq!['+'],
                        "-"@ == seq!['-'],
                        parts@.len() == j,
                        forall|k: int| 0 <= k < j ==> (#[trigger] parts@[k])@ == hex_words(prefix@)[k],
                    decreases 8 - j,
                {
                    assert(names@[j as int]@ == string_texts(names@)[j as int]);
                    if j == 6 {
                        parts.push(signed("+", &names[j]));
                    } else {
                        parts.push(signed("-", &names[j]));
                    }
                    j += 1;
                }
                assert(string_texts(parts@) =~= hex_words(prefix@));
                Ok(join_from(&parts, 0))
            },
        }
    }

    /// Registers concentric cylinders around an axis parallel to z, and gives
    /// their names.
    pub fn add_pin_cylinders(
        &mut self,
        prefix: &str,
        radii: &Vec<Binary64>,
        bounds: &Vec<Aabb>,
        center_x: Binary64,
        center_y: Binary64,
    ) -> (r: Result<Vec<String>, SceneError>)
        requires
            old(self).wf(),
            radii@.len() == bounds@.len(),
        ensures
            final(self).wf(),
            exists|names: Seq<String>, pins: Seq<Surface>| #[trigger]
                are_pin_names(names, prefix@, radii@.len() as int) && #[trigger] are_pins(
                    pins,
                    radii@,
                    bounds@,
                    center_x,
                    center_y,
                ) && registered(*old(self), *final(self), names, pins, outcome(r)) && (r matches Ok(v) ==> v@ == names),
    {
        let mut names: Vec<String> = Vec::new();
        let mut pins: Vec<Surface> = Vec::new();
        let mut i: usize = 0;
        while i < radii.len()
            invariant
                i <= radii@.len(),
                radii@.len() == bounds@.len(),
                are_pin_names(names@, prefix@, i as int),
                are_pins(pins@, radii@.take(i as int), bounds@.take(i as int), center_x, center_y),
            decreases radii@.len() - i,
        {
            names.push(numbered(prefix, "_r", i));
            pins.push(
                Surface {
                    shape: Shape::CylinderZ { center_x, center_y, radius: radii[i] },
                    bc: BoundaryCondition::Transmission,
                    bounds: bounds[i],
                },
            );
            i += 1;
        }
        proof {
            assert(radii@.take(i as int) =~= radii@);
            assert(bounds@.take(i as int) =~= bounds@);
        }
        match self.add_surfaces(&names, &pins) {
            Err(e) => Err(e),
            Ok(()) => Ok(names),
        }
    }
}

/// The names of pins, numbered from zero.
pub open spec fn are_pin_names(names: Seq<String>, prefix: Seq<char>, n: int) -> bool {
    &&& names.len() == n
    &&& forall|i: int| 0 <= i < n ==> (#[trigger] names[i])@ == face_name(prefix, "_r"@) + decimal(i)
}

/// Cylinders with these radii.
pub open spec fn are_pins(
    pins: Seq<Surface>,
    radii: Seq<Binary64>,
    bounds: Seq<Aabb>,
    center_x: Binary64,
    center_y: Binary64,
) -> bool {
    &&& pins.len() == radii.len()
    &&& forall|i: int|
        0 <= i < pins.len() ==> (#[trigger] pins[i]) == (Surface {
            shape: Shape::CylinderZ { center_x, center_y, radius: radii[i] },
            bc: BoundaryCondition::Transmission,
            bounds: bounds[i],
        })
}

/// A result without its value.
pub open spec fn outcome<T>(r: Result<T, SceneError>) -> Result<(), SceneError> {
    match r {
        Ok(_) => Ok(()),
        Err(e) => Err(e),
    }
}

/// Words from `i` on, with an ampersand after each but the last.
spec fn interleaved(parts: Seq<Seq<char>>, i: int) -> Seq<Seq<char>>
    decreases parts.len() - i,
{
    if i + 1 >= parts.len() {
        seq![parts[i]]
    } else {
        seq![parts[i], "&"@] + interleaved(parts, i + 1)
    }
}

proof fn lemma_joined_words(parts: Seq<Seq<char>>, i: int)
    requires
        0 <= i < parts.len(),
        forall|k: int| 0 <= k < parts.len() ==> is_plain(#[trigger] parts[k]) && parts[k].len() > 0,
    ensures
        words(joined_from(parts, i)) == interleaved(parts, i),
        forall|k: int| 0 <= k < joined_from(parts, i).len() ==> #[trigger] joined_from(parts, i)[k] != '|',
    decreases parts.len() - i,
{
    reveal_strlit("&");
    reveal_strlit(" & ");
    let amp = "&"@;
    assert(amp =~= seq!['&']);
    if i + 1 >= parts.len() {
        lemma_words_one(parts[i]);
    } else {
        lemma_joined_words(parts, i + 1);
        let rest = joined_from(parts, i + 1);
        assert(" & "@ =~= seq![' ', '&', ' ']);
        assert(joined_from(parts, i) =~= parts[i] + (seq![' '] + (amp + (seq![' '] + rest))));
        assert(is_plain(amp));
        lemma_words_cons(amp, rest);
        lemma_words_cons(parts[i], amp + (seq![' '] + rest));
        assert(words(joined_from(parts, i)) =~= interleaved(parts, i));
        let whole = joined_from(parts, i);
        assert forall|k: int| 0 <= k < whole.len() implies #[trigger] whole[k] != '|' by {
            if k < parts[i].len() {
                assert(whole[k] == parts[i][k]);
            } else if k >= parts[i].len() + 3 {
                assert(whole[k] == rest[k - parts[i].len() - 3]);
            }
        }
    }
}

proof fn lemma_interleaved(parts: Seq<Seq<char>>, i: int, k: int)
    requires
        0 <= i < parts.len(),
        i <= k < parts.len(),
    ensures
        interleaved(parts, i).len() == 2 * (parts.len() - i) - 1,
        interleaved(parts, i)[2 * (k - i)] == parts[k],
        k + 1 < parts.len() ==> interleaved(parts, i)[2 * (k - i) + 1] == "&"@,
    decreases parts.len() - i,
{
    if i + 1 < parts.len() {
        let rest = interleaved(parts, i + 1);
        if k > i {
            lemma_interleaved(parts, i + 1, k);
            assert(interleaved(parts, i)[2 * (k - i)] == rest[2 * (k - i) - 2]);
            if k + 1 < parts.len() {
                assert(interleaved(parts, i)[2 * (k - i) + 1] == rest[2 * (k - i) - 1]);
            }
        } else {
            lemma_interleaved(parts, i + 1, i + 1);
        }
    }
}

/// The words stand in a group one by one.
pub open spec fn each_alone(terms: Seq<Term>) -> Seq<Factor> {
    terms.map_values(|t: Term| Factor::One(t))
}

proof fn lemma_interleaved_terms(parts: Seq<Seq<char>>, names: Seq<String>, terms: Seq<Term>, k: int)
    requires
        0 <= k < parts.len(),
        terms.len() == parts.len(),
        forall|i: int|
            0 <= i < parts.len() ==> term_of(#[trigger] parts[i], names) == Ok::<Option<Term>, RegionFault>(
                Some(terms[i]),
            ),
    ensures
        scan(interleaved(parts, 0), names, 2 * k + 1) == Ok::<Scan, RegionFault>(
            Scan { factors: each_alone(terms.take(k + 1)), open: None },
        ),
    decreases k,
{
    let group = interleaved(parts, 0);
    lemma_interleaved(parts, 0, k);
    let done = each_alone(terms.take(k));
    assert(each_alone(terms.take(k + 1)) =~= done.push(Factor::One(terms[k])));
    if k > 0 {
        lemma_interleaved_terms(parts, names, terms, k - 1);
        lemma_interleaved(parts, 0, k - 1);
        assert(group[2 * k - 1] == "&"@);
        reveal_strlit("&");
        assert(!opens("&"@));
        assert(scan(group, names, 2 * k) == scan(group, names, 2 * k - 1));
    } else {
        assert(done =~= Seq::empty());
        assert(scan(group, names, 0) == Ok::<Scan, RegionFault>(Scan { factors: done, open: None }));
    }
    assert(term_of(parts[k], names) == Ok::<Option<Term>, RegionFault>(Some(terms[k])));
    assert(group[2 * k] == parts[k]);
    assert(!opens(parts[k])) by {
        if opens(parts[k]) {
            assert(crate::region::bare(parts[k])[0] == '(');
        }
    }
    assert(scan(group, names, 2 * k) == Ok::<Scan, RegionFault>(Scan { factors: done, open: None }));
}

/// Words joined by ampersands mean one group of their terms.
pub proof fn law_joined_words_mean_all(parts: Seq<Seq<char>>, names: Seq<String>, terms: Seq<Term>)
    requires
        parts.len() > 0,
        terms.len() == parts.len(),
        forall|k: int| 0 <= k < parts.len() ==> is_plain(#[trigger] parts[k]) && parts[k].len() > 0,
        forall|i: int|
            0 <= i < parts.len() ==> term_of(#[trigger] parts[i], names) == Ok::<Option<Term>, RegionFault>(
                Some(terms[i]),
            ),
    ensures
        expression_meaning(joined_from(parts, 0), names) == Ok::<Seq<Seq<Factor>>, RegionFault>(
            seq![each_alone(terms)],
        ),
{
    let s = joined_from(parts, 0);
    let n = parts.len() as int;
    lemma_joined_words(parts, 0);
    lemma_one_group(s);
    lemma_interleaved(parts, 0, n - 1);
    lemma_interleaved_terms(parts, names, terms, n - 1);
    assert(terms.take(n) =~= terms);
    let all = crate::region::groups(s);
    assert(all.len() == 1);
    let factors = each_alone(terms);
    assert(factors.len() > 0);
    assert(crate::region::group_factors(all[0], names) == Ok::<Seq<Factor>, RegionFault>(factors));
    assert(meaning(all, names, 0) == Ok::<Seq<Seq<Factor>>, RegionFault>(Seq::empty()));
    assert(Seq::<Seq<Factor>>::empty().push(factors) =~= seq![factors]);
}

/// A word of a sign and a plain name resolves to that side of the surface.
proof fn lemma_signed_term(sign: char, name: Seq<char>, names: Seq<String>, i: int)
    requires
        sign == '+' || sign == '-',
        first_named(names, name, i),
        names.len() <= usize::MAX,
    ensures
        term_of(seq![sign] + name, names) == Ok::<Option<Term>, RegionFault>(
            Some(Term { surface: i as usize, inside: sign == '-', complement: false }),
        ),
{
    let word = seq![sign] + name;
    reveal_strlit("&");
    assert("&"@[0] == '&');
    assert(word[0] == sign);
    assert(word.skip(1) =~= name);
    assert(names[i]@ == name);
    let j = index_named(names, name);
    assert(first_named(names, name, j));
    assert(names[j]@ == name);
}

/// The terms of the inside of a box whose faces stand from `base` on.
pub open spec fn box_terms(base: int) -> Seq<Term> {
    Seq::new(
        6,
        |i: int| Term { surface: (base + i) as usize, inside: i % 2 == 1, complement: false },
    )
}

/// The region expression of a box means what it should: above the lower face and
/// below the upper face on every axis. It holds of a prefix without white space
/// and bars, which would cut the names in two.
pub proof fn law_box_text_means_inside(prefix: Seq<char>, names: Seq<String>, base: int)
    requires
        is_plain(prefix),
        0 <= base,
        base + 6 <= names.len() <= usize::MAX,
        names_differ(names),
        forall|i: int| 0 <= i < 6 ==> (#[trigger] names[base + i])@ == box_names(prefix)[i],
    ensures
        expression_meaning(joined_from(box_words(prefix), 0), names) == Ok::<Seq<Seq<Factor>>, RegionFault>(
            seq![each_alone(box_terms(base))],
        ),
{
    reveal_strlit("_xmin");
    reveal_strlit("_xmax");
    reveal_strlit("_ymin");
    reveal_strlit("_ymax");
    reveal_strlit("_zmin");
    reveal_strlit("_zmax");
    let parts = box_words(prefix);
    let terms = box_terms(base);
    assert forall|k: int| 0 <= k < parts.len() implies is_plain(#[trigger] parts[k]) && parts[k].len() > 0 by {
        let ending = box_endings()[k];
        assert(parts[k] =~= seq![box_sign(k)] + (prefix + ending));
        assert(is_plain(ending));
        assert forall|i: int| 0 <= i < parts[k].len() implies !is_white(#[trigger] parts[k][i]) && parts[k][i]
            != '|' by {
            if 1 <= i < 1 + prefix.len() {
                assert(parts[k][i] == prefix[i - 1]);
            } else if i > prefix.len() {
                assert(parts[k][i] == ending[i - 1 - prefix.len()]);
            }
        }
    }
    assert forall|i: int| 0 <= i < parts.len() implies term_of(#[trigger] parts[i], names) == Ok::<
        Option<Term>,
        RegionFault,
    >(Some(terms[i])) by {
        assert(names[base + i]@ == box_names(prefix)[i]);
        assert(first_named(names, box_names(prefix)[i], base + i));
        lemma_signed_term(box_sign(i), box_names(prefix)[i], names, base + i);
    }
    law_joined_words_mean_all(parts, names, terms);
}

proof fn lemma_decimal_plain(n: int)
    requires
        0 <= n,
    ensures
        is_plain(decimal(n)),
    decreases n,
{
    if n >= 10 {
        lemma_decimal_plain(n / 10);
        assert(is_digit_plain(n % 10));
        let d = decimal(n);
        let head = decimal(n / 10);
        assert forall|i: int| 0 <= i < d.len() implies !is_white(#[trigger] d[i]) && d[i] != '|' by {
            if i < head.len() {
                assert(d[i] == head[i]);
            }
        }
    } else {
        assert(is_digit_plain(n));
    }
}

spec fn is_digit_plain(d: int) -> bool {
    !is_white(digit_char(d)) && digit_char(d) != '|'
}

/// The terms of the inside of a hexagonal prism whose sides stand from `base` on.
pub open spec fn hex_terms(base: int) -> Seq<Term> {
    Seq::new(8, |i: int| Term { surface: (base + i) as usize, inside: i != 6, complement: false })
}

/// The region expression of a hexagonal prism means what it should: inside every
/// side, above the lower end and below the upper. As with the box, the prefix has
/// no white space and no bar.
pub proof fn law_hex_text_means_inside(prefix: Seq<char>, names: Seq<String>, base: int)
    requires
        is_plain(prefix),
        0 <= base,
        base + 8 <= names.len() <= usize::MAX,
        names_differ(names),
        forall|i: int| 0 <= i < 8 ==> (#[trigger] names[base + i])@ == hex_names(prefix)[i],
    ensures
        expression_meaning(joined_from(hex_words(prefix), 0), names) == Ok::<Seq<Seq<Factor>>, RegionFault>(
            seq![each_alone(hex_terms(base))],
        ),
{
    reveal_strlit("_side");
    reveal_strlit("_zmin");
    reveal_strlit("_zmax");
    let parts = hex_words(prefix);
    let terms = hex_terms(base);
    assert forall|k: int| 0 <= k < parts.len() implies is_plain(#[trigger] parts[k]) && parts[k].len() > 0 by {
        let ending = if k < 6 {
            "_side"@ + decimal(k)
        } else if k == 6 {
            "_zmin"@
        } else {
            "_zmax"@
        };
        lemma_decimal_plain(k);
        assert(is_plain(ending)) by {
            if k < 6 {
                assert forall|i: int| 0 <= i < ending.len() implies !is_white(#[trigger] ending[i]) && ending[i]
                    != '|' by {
                    if i >= 5 {
                        assert(ending[i] == decimal(k)[i - 5]);
                    }
                }
            }
        }
        assert(hex_names(prefix)[k] =~= prefix + ending);
        assert forall|i: int| 0 <= i < parts[k].len() implies !is_white(#[trigger] parts[k][i]) && parts[k][i]
            != '|' by {
            if 1 <= i < 1 + prefix.len() {
                assert(parts[k][i] == prefix[i - 1]);
            } else if i > prefix.len() {
                assert(parts[k][i] == ending[i - 1 - prefix.len()]);
            }
        }
    }
    assert forall|i: int| 0 <= i < parts.len() implies term_of(#[trigger] parts[i], names) == Ok::<
        Option<Term>,
        RegionFault,
    >(Some(terms[i])) by {
        assert(names[base + i]@ == hex_names(prefix)[i]);
        assert(first_named(names, hex_names(prefix)[i], base + i));
        lemma_signed_term(
            if i == 6 {
                '+'
            } else {
                '-'
            },
            hex_names(prefix)[i],
            names,
            base + i,
        );
    }
    law_joined_words_mean_all(parts, names, terms);
}

/// A nuclide has multipole data of its own or none: the file that is named for
/// `U<mass>.h5` is `092<mass>.h5`, and only three masses have one.
pub proof fn law_multipole_file_is_of_the_same_nuclide(file: &str, r: Option<&'static str>)
    requires
        call_ensures(wmp_path_for, (file,), r),
    ensures
        r matches Some(p) ==> file@.len() == 7 && file@[0] == 'U' && p@ == "092"@ + file@.skip(1),
        r is Some <==> file@ == "U234.h5"@ || file@ == "U235.h5"@ || file@ == "U238.h5"@,
{
    reveal_strlit("092");
    reveal_strlit("U234.h5");
    reveal_strlit("U235.h5");
    reveal_strlit("U238.h5");
    reveal_strlit("092234.h5");
    reveal_strlit("092235.h5");
    reveal_strlit("092238.h5");
    assert("U234.h5"@ != "U235.h5"@) by {
        assert("U234.h5"@[3] != "U235.h5"@[3]);
    }
    assert("092"@ + "U234.h5"@.skip(1) =~= "092234.h5"@);
    assert("092"@ + "U235.h5"@.skip(1) =~= "092235.h5"@);
    assert("092"@ + "U238.h5"@.skip(1) =~= "092238.h5"@);
}

/// Different nuclide files are given different multipole files.
pub proof fn law_multipole_files_differ(a: &str, b: &str, ra: Option<&'static str>, rb: Option<&'static str>)
    requires
        call_ensures(wmp_path_for, (a,), ra),
        call_ensures(wmp_path_for, (b,), rb),
        ra is Some,
        rb is Some,
        a@ != b@,
    ensures
        ra->0@ != rb->0@,
{
    law_multipole_file_is_of_the_same_nuclide(a, ra);
    law_multipole_file_is_of_the_same_nuclide(b, rb);
    reveal_strlit("092");
    if ra->0@ == rb->0@ {
        assert forall|i: int| 0 <= i < a@.len() implies a@[i] == b@[i] by {
            if i > 0 {
                assert(ra->0@[i + 2] == a@[i]);
                assert(rb->0@[i + 2] == b@[i]);
            }
        }
        assert(a@ =~= b@);
    }
}

/// A word of an expression: a sign before a name, with a tilde before it where the
/// side is denied.
pub open spec fn side_word(denied: bool, sign: char, name: Seq<char>) -> Seq<char> {
    if denied {
        seq!['~', sign] + name
    } else {
        seq![sign] + name
    }
}

proof fn lemma_side_word(denied: bool, sign: char, name: Seq<char>, names: Seq<String>, i: int)
    requires
        sign == '+' || sign == '-',
        first_named(names, name, i),
        names.len() <= usize::MAX,
    ensures
        term_of(side_word(denied, sign, name), names) == Ok::<Option<Term>, RegionFault>(
            Some(Term { surface: i as usize, inside: sign == '-', complement: denied }),
        ),
{
    if !denied {
        lemma_signed_term(sign, name, names, i);
    } else {
        let word = seq!['~', sign] + name;
        reveal_strlit("&");
        assert("&"@[0] == '&');
        assert(word[0] == '~');
        assert(word.skip(1) =~= seq![sign] + name);
        assert(word.skip(1)[0] == sign);
        assert(word.skip(1).skip(1) =~= name);
        assert(names[i]@ == name);
        let j = index_named(names, name);
        assert(first_named(names, name, j));
        assert(names[j]@ == name);
    }
}

/// An expression of sides means all of them: a minus the inside of the surface that it
/// names, a plus its outside, and a tilde before either the opposite.
pub proof fn law_sides_mean_all_of_them(
    expr: &str,
    names: &Vec<String>,
    denied: Seq<bool>,
    signs: Seq<char>,
    named: Seq<Seq<char>>,
    at: Seq<int>,
    r: Result<Region, RegionError>,
    sides: spec_fn(int, bool) -> bool,
)
    requires
        call_ensures(build_region, (expr, names), r),
        signs.len() > 0 && denied.len() == signs.len() && named.len() == signs.len() && at.len() == signs.len(),
        forall|k: int|
            0 <= k < signs.len() ==> (#[trigger] signs[k] == '+' || signs[k] == '-') && is_plain(named[k])
                && first_named(names@, named[k], at[k]),
        expr@ == joined_from(Seq::new(signs.len(), |k: int| side_word(denied[k], signs[k], named[k])), 0),
    ensures
        r is Ok,
        holds(r->Ok_0, sides) <==> forall|k: int|
            0 <= k < signs.len() ==> sides(at[k], #[trigger] signs[k] == '+') != denied[k],
{
    assert(names.len() == names@.len());
    let parts = Seq::new(signs.len(), |k: int| side_word(denied[k], signs[k], named[k]));
    let terms = Seq::new(
        signs.len(),
        |k: int| Term { surface: at[k] as usize, inside: signs[k] == '-', complement: denied[k] },
    );
    assert forall|k: int| 0 <= k < parts.len() implies is_plain(#[trigger] parts[k]) && parts[k].len() > 0 by {
        assert(signs[k] == '+' || signs[k] == '-');
        let word = side_word(denied[k], signs[k], named[k]);
        assert forall|i: int| 0 <= i < word.len() implies !is_white(#[trigger] word[i]) && word[i] != '|' by {
            if denied[k] && i >= 2 {
                assert(word[i] == named[k][i - 2]);
            } else if !denied[k] && i >= 1 {
                assert(word[i] == named[k][i - 1]);
            }
        }
    }
    assert forall|i: int| 0 <= i < parts.len() implies term_of(#[trigger] parts[i], names@) == Ok::<
        Option<Term>,
        RegionFault,
    >(Some(terms[i])) by {
        assert(signs[i] == '+' || signs[i] == '-');
        lemma_side_word(denied[i], signs[i], named[i], names@, at[i]);
    }
    law_joined_words_mean_all(parts, names@, terms);
    let all = seq![each_alone(terms)];
    assert forall|g: int| 0 <= g < all.len() implies group_filled(#[trigger] all[g]) by {}
    law_region_is_union_of_groups(all, 1, sides);
    let factors = each_alone(terms);
    assert(all[0] == factors);
    if holds(r->Ok_0, sides) {
        assert(all_hold(factors, sides));
        assert forall|k: int| 0 <= k < signs.len() implies sides(at[k], #[trigger] signs[k] == '+') != denied[k] by {
            assert(factor_holds(factors[k], sides));
            assert(terms[k].surface == at[k]);
        }
    }
    if forall|k: int| 0 <= k < signs.len() ==> sides(at[k], #[trigger] signs[k] == '+') != denied[k] {
        assert forall|k: int| 0 <= k < factors.len() implies factor_holds(#[trigger] factors[k], sides) by {
            assert(signs[k] == '+' || signs[k] == '-');
            assert(terms[k].surface == at[k]);
        }
        assert(all_hold(all[0], sides));
    }
}

/// A box adds six planes to a scene, in this order: at minus and at plus the half width
/// along each axis, all of one boundary condition; its text means the inside of them.
pub proof fn law_box_is_between_its_planes(
    scene: &mut Scene,
    prefix: &str,
    half: Vec3,
    bc: &str,
    text: String,
    expr: &str,
    names: &Vec<String>,
    region: Result<Region, RegionError>,
    sides: spec_fn(int, bool) -> bool,
)
    requires
        call_ensures(Scene::add_rect_box, (scene, prefix, half, bc), Ok(text)),
        call_ensures(build_region, (expr, names), region),
        expr@ == text@,
        names@ == final(scene).surface_names@,
        is_plain(prefix@),
    ensures
        bc_of(bc@) is Some,
        ({
            let base = old(scene).surfaces@.len() as int;
            let faces = final(scene).surfaces@.skip(base);
            &&& final(scene).surfaces@.take(base) == old(scene).surfaces@
            &&& faces.len() == 6
            &&& forall|i: int| 0 <= i < 6 ==> Some((#[trigger] faces[i]).bc) == bc_of(bc@)
            &&& faces[0].shape is PlaneX && is_opposite(faces[0].shape->x0, half.x)
            &&& faces[1].shape == (Shape::PlaneX { x0: half.x })
            &&& faces[2].shape is PlaneY && is_opposite(faces[2].shape->y0, half.y)
            &&& faces[3].shape == (Shape::PlaneY { y0: half.y })
            &&& faces[4].shape is PlaneZ && is_opposite(faces[4].shape->z0, half.z)
            &&& faces[5].shape == (Shape::PlaneZ { z0: half.z })
            &&& old(scene).wf() ==> region is Ok && (holds(region->Ok_0, sides) <==> sides(base, true) && sides(
                base + 1,
                false,
            ) && sides(base + 2, true) && sides(base + 3, false) && sides(base + 4, true) && sides(base + 5, false))
        }),
{
    let base = old(scene).surfaces@.len() as int;
    let (added, faces) = choose|added: Seq<String>, faces: Seq<Surface>| #[trigger]
        string_texts(added) == box_names(prefix@) && #[trigger] are_box_faces(faces, half, bc_of(bc@)->0) && registered(
            *old(scene),
            *final(scene),
            added,
            faces,
            Ok(()),
        );
    assert(final(scene).surfaces@.take(base) =~= old(scene).surfaces@);
    assert(final(scene).surfaces@.skip(base) =~= faces);
    if old(scene).wf() {
        let all = final(scene).surface_names@;
        assert(names.len() == names@.len());
        assert(added.len() == 6) by {
            assert(string_texts(added).len() == added.len());
        }
        assert forall|i: int| 0 <= i < 6 implies (#[trigger] all[base + i])@ == box_names(prefix@)[i] by {
            assert(all[base + i] == added[i]);
            assert(string_texts(added)[i] == added[i]@);
        }
        law_box_text_means_inside(prefix@, all, base);
        let terms = box_terms(base);
        let groups = seq![each_alone(terms)];
        assert forall|g: int| 0 <= g < groups.len() implies group_filled(#[trigger] groups[g]) by {}
        law_region_is_union_of_groups(groups, 1, sides);
        let factors = each_alone(terms);
        assert(groups[0] == factors);
        assert(forall|k: int| 0 <= k < 6 ==> (#[trigger] terms[k]).surface == base + k);
        if holds(region->Ok_0, sides) {
            assert(all_hold(factors, sides));
            assert(factor_holds(factors[0], sides) && factor_holds(factors[1], sides) && factor_holds(factors[2], sides)
                && factor_holds(factors[3], sides) && factor_holds(factors[4], sides) && factor_holds(
                factors[5],
                sides,
            ));
        }
        if sides(base, true) && sides(base + 1, false) && sides(base + 2, true) && sides(base + 3, false) && sides(
            base + 4,
            true,
        ) && sides(base + 5, false) {
            assert forall|k: int| 0 <= k < factors.len() implies factor_holds(#[trigger] factors[k], sides) by {
                assert(terms[k].surface == base + k);
            }
            assert(all_hold(groups[0], sides));
        }
    }
}

/// The cylinders of a pin stand round one axis with the radii given, in order, and let
/// particles through.
pub proof fn law_pin_cylinders_have_their_radii(
    scene: &mut Scene,
    prefix: &str,
    radii: &Vec<Binary64>,
    bounds: &Vec<Aabb>,
    x: Binary64,
    y: Binary64,
    added: Vec<String>,
    i: int,
)
    requires
        call_ensures(Scene::add_pin_cylinders, (scene, prefix, radii, bounds, x, y), Ok(added)),
        0 <= i < radii@.len(),
    ensures
        ({
            let base = old(scene).surfaces@.len() as int;
            let s = final(scene).surfaces@[base + i];
            &&& final(scene).surfaces@.len() == base + radii@.len()
            &&& added@.len() == radii@.len()
            &&& s.shape == (Shape::CylinderZ { center_x: x, center_y: y, radius: radii@[i] })
            &&& s.bc == BoundaryCondition::Transmission && s.bounds == bounds@[i]
            &&& old(scene).wf() ==> final(scene).surface_names@[base + i] == added@[i]
            &&& added@[i]@ == prefix@ + "_r"@ + decimal(i)
        }),
{
    let base = old(scene).surfaces@.len() as int;
    let (names, pins) = choose|names: Seq<String>, pins: Seq<Surface>| #[trigger]
        are_pin_names(names, prefix@, radii@.len() as int) && #[trigger] are_pins(pins, radii@, bounds@, x, y)
            && registered(*old(scene), *final(scene), names, pins, Ok(())) && added@ == names;
    assert(final(scene).surfaces@[base + i] == pins[i]);
    assert(names[i]@ == face_name(prefix@, "_r"@) + decimal(i));
    assert(pins[i].bounds == bounds@[i]);
}

/// A density that is set is read back, for the file that it was set for, and no other
/// nuclide changes.
pub proof fn law_density_is_set_for_its_file(
    m: &mut MaterialSpec,
    file: &str,
    density: Binary64,
    r: bool,
    k: int,
)
    requires
        call_ensures(MaterialSpec::set_atom_density, (m, file, density), r),
        0 <= k < old(m).nuclides@.len(),
    ensures
        old(m).nuclides@[k].hdf5_file@ == file@ ==> r,
        final(m).nuclides@.len() == old(m).nuclides@.len(),
        old(m).nuclides@[k].hdf5_file@ != file@ ==> final(m).nuclides@[k] == old(m).nuclides@[k],
        final(m).nuclides@[k].hdf5_file == old(m).nuclides@[k].hdf5_file,
        r ==> exists|i: int|
            0 <= i < final(m).nuclides@.len() && (#[trigger] final(m).nuclides@[i]).hdf5_file@ == file@
                && final(m).nuclides@[i].atom_density == density,
{
    if r {
        let i = choose|i: int| #[trigger]
            first_of_file(old(m).nuclides@, file@, i) && final(m).nuclides@ == old(m).nuclides@.update(
                i,
                (NuclideSpec { atom_density: density, ..old(m).nuclides@[i] }),
            );
        assert(final(m).nuclides@[i].hdf5_file@ == file@);
    }
}

/// A mode uses decompositions or tables, and multipole data in the mixed forms of
/// either; the best device of a build is the GPU where it has one.
pub proof fn law_modes_tell_what_they_use(mode: XsMode, svd: bool, wmp: bool, has_cuda: bool, best: Runner)
    requires
        call_ensures(XsMode::uses_svd, (mode,), svd),
        call_ensures(XsMode::uses_wmp, (mode,), wmp),
        call_ensures(Runner::recommended, (has_cuda,), best),
    ensures
        mode == XsMode::Table <==> !svd && !wmp,
        mode == XsMode::Svd <==> svd && !wmp,
        mode == XsMode::HybridSvdWmp <==> svd && wmp,
        mode == XsMode::HybridTableWmp <==> !svd && wmp,
        best == Runner::GpuCuda <==> has_cuda,
{
}

/// Orientations are told by the shape of the hexagon or by the axis, in either case.
pub proof fn law_orientations_have_their_words(word: &str, r: Option<HexOrientation>)
    requires
        call_ensures(parse_orientation, (word,), r),
    ensures
        word@ == "flat"@ || word@ == "Y"@ || word@ == "y"@ ==> r == Some(HexOrientation::Y),
        r == Some(HexOrientation::X) <==> word@ == "pointy"@ || word@ == "X"@ || word@ == "x"@,
        r is None <==> word@ != "flat"@ && word@ != "Y"@ && word@ != "y"@ && word@ != "pointy"@ && word@ != "X"@
            && word@ != "x"@,
{
    reveal_strlit("flat");
    reveal_strlit("Y");
    reveal_strlit("y");
    reveal_strlit("pointy");
    reveal_strlit("X");
    reveal_strlit("x");
    assert("flat"@.len() == 4 && "pointy"@.len() == 6 && "Y"@.len() == 1);
    assert("Y"@[0] == 'Y' && "y"@[0] == 'y' && "X"@[0] == 'X' && "x"@[0] == 'x');
}

/// A scene takes a material under a name that it does not have yet, and keeps what it
/// had; a name that it has is refused and changes nothing.
pub proof fn law_names_are_taken_once(
    scene: &mut Scene,
    name: String,
    material: MaterialSpec,
    r: Result<(), SceneError>,
)
    requires
        call_ensures(Scene::add_material, (scene, name, material), r),
    ensures
        r is Err <==> exists|i: int|
            0 <= i < old(scene).material_names@.len() && (#[trigger] old(scene).material_names@[i])@ == name@,
        r is Ok ==> final(scene).material_names@ == old(scene).material_names@.push(name) && final(scene).materials@
            == old(scene).materials@.push(material) && final(scene).cells == old(scene).cells && final(scene).surfaces
            == old(scene).surfaces,
        r is Err ==> *final(scene) == *old(scene),
{
}

/// A photon material is kept for its cell: a second one for the same cell takes the
/// place of the first, and those of other cells stay.
pub proof fn law_photon_material_is_kept_for_its_cell(
    scene: &mut Scene,
    cell: String,
    material: PhotonMaterialSpec,
    k: int,
)
    requires
        call_ensures(Scene::add_photon_material, (scene, cell, material), ()),
        old(scene).wf(),
        0 <= k < old(scene).photon_cells@.len(),
    ensures
        final(scene).photon_cells@[k]@ == old(scene).photon_cells@[k]@,
        old(scene).photon_cells@[k]@ == cell@ ==> final(scene).photon_materials@[k] == material,
        old(scene).photon_cells@[k]@ != cell@ ==> final(scene).photon_materials@[k] == old(scene).photon_materials@[k],
{
    let names = old(scene).photon_cells@;
    if is_named(names, cell@) {
        crate::region::lemma_index_named(names, cell@);
        let at = index_named(names, cell@);
        if names[k]@ == cell@ {
            assert(names[at]@ == names[k]@);
            assert(at == k);
        }
    } else {
        assert(names[k]@ != cell@);
    }
}

/// A hexagonal boundary adds six planes at the inradius, with the normals of its
/// orientation, and two planes across the axis at minus and at plus its half height,
/// each group of one boundary condition; its text means what lies within them.
pub proof fn law_hexagon_is_between_its_planes(
    scene: &mut Scene,
    prefix: &str,
    prism: &HexPrism,
    orientation: &str,
    xy_bc: &str,
    z_bc: &str,
    text: String,
    expr: &str,
    names: &Vec<String>,
    region: Result<Region, RegionError>,
    sides: spec_fn(int, bool) -> bool,
)
    requires
        call_ensures(Scene::add_hex_boundary, (scene, prefix, prism, orientation, xy_bc, z_bc), Ok(text)),
        call_ensures(build_region, (expr, names), region),
        expr@ == text@,
        names@ == final(scene).surface_names@,
        is_plain(prefix@),
    ensures
        ({
            let base = old(scene).surfaces@.len() as int;
            let faces = final(scene).surfaces@.skip(base);
            let flat = orientation@ == "flat"@ || orientation@ == "Y"@ || orientation@ == "y"@;
            &&& final(scene).surfaces@.take(base) == old(scene).surfaces@
            &&& faces.len() == 8
            &&& forall|i: int|
                0 <= i < 6 ==> Some((#[trigger] faces[i]).bc) == bc_of(xy_bc@) && faces[i].shape == (Shape::Plane {
                    normal: if flat {
                        prism.flat_normals@[i]
                    } else {
                        prism.pointy_normals@[i]
                    },
                    offset: prism.inradius,
                })
            &&& Some(faces[6].bc) == bc_of(z_bc@) && faces[6].shape is PlaneZ && is_opposite(
                faces[6].shape->z0,
                prism.z_half,
            )
            &&& Some(faces[7].bc) == bc_of(z_bc@) && faces[7].shape == (Shape::PlaneZ { z0: prism.z_half })
            &&& old(scene).wf() ==> region is Ok && (holds(region->Ok_0, sides) <==> (forall|i: int|
                0 <= i < 6 ==> #[trigger] sides(base + i, false)) && sides(base + 6, true) && sides(base + 7, false))
        }),
{
    let base = old(scene).surfaces@.len() as int;
    let (added, faces) = choose|added: Seq<String>, faces: Seq<Surface>| #[trigger]
        string_texts(added) == hex_names(prefix@) && #[trigger] are_hex_sides(
            faces,
            normals_for(*prism, orientation_of(orientation@)->0),
            prism.inradius,
            bc_of(xy_bc@)->0,
            prism.z_half,
            bc_of(z_bc@)->0,
        ) && registered(*old(scene), *final(scene), added, faces, Ok(()));
    assert(final(scene).surfaces@.take(base) =~= old(scene).surfaces@);
    assert(final(scene).surfaces@.skip(base) =~= faces);
    if old(scene).wf() {
        let all = final(scene).surface_names@;
        assert(names.len() == names@.len());
        assert(added.len() == 8) by {
            assert(string_texts(added).len() == added.len());
        }
        assert forall|i: int| 0 <= i < 8 implies (#[trigger] all[base + i])@ == hex_names(prefix@)[i] by {
            assert(all[base + i] == added[i]);
            assert(string_texts(added)[i] == added[i]@);
        }
        law_hex_text_means_inside(prefix@, all, base);
        let terms = hex_terms(base);
        let groups = seq![each_alone(terms)];
        assert forall|g: int| 0 <= g < groups.len() implies group_filled(#[trigger] groups[g]) by {}
        law_region_is_union_of_groups(groups, 1, sides);
        let factors = each_alone(terms);
        assert(groups[0] == factors);
        assert(forall|k: int| 0 <= k < 8 ==> (#[trigger] terms[k]).surface == base + k);
        if holds(region->Ok_0, sides) {
            assert(all_hold(factors, sides));
            assert forall|i: int| 0 <= i < 6 implies #[trigger] sides(base + i, false) by {
                assert(factor_holds(factors[i], sides));
                assert(terms[i].surface == base + i);
            }
            assert(factor_holds(factors[6], sides) && factor_holds(factors[7], sides));
        }
        if (forall|i: int| 0 <= i < 6 ==> #[trigger] sides(base + i, false)) && sides(base + 6, true) && sides(
            base + 7,
            false,
        ) {
            assert forall|k: int| 0 <= k < factors.len() implies factor_holds(#[trigger] factors[k], sides) by {
                assert(terms[k].surface == base + k);
                if k < 6 {
                    assert(sides(base + k, false));
                }
            }
            assert(all_hold(groups[0], sides));
        }
    }
}

/// A surface is taken under a new name behind those before; settings change nothing but
/// themselves, and a rank of zero is refused.
pub proof fn law_surfaces_and_ranks_are_kept(
    a: &mut Scene,
    name: String,
    surface: Surface,
    added: Result<(), SceneError>,
    b: &mut Scene,
    rank: usize,
    ranked: Result<(), SceneError>,
)
    requires
        call_ensures(Scene::add_surface, (a, name, surface), added),
        call_ensures(Scene::set_svd_rank, (b, rank), ranked),
    ensures
        added is Err <==> exists|i: int|
            0 <= i < old(a).surface_names@.len() && (#[trigger] old(a).surface_names@[i])@ == name@,
        added is Ok ==> final(a).surface_names@ == old(a).surface_names@.push(name),
        added is Ok ==> final(a).surfaces@ == old(a).surfaces@.push(surface),
        added is Ok ==> final(a).materials == old(a).materials && final(a).cells == old(a).cells,
        ranked is Ok <==> rank >= 1,
        ranked is Ok ==> final(b).svd_rank == rank,
        ranked is Err ==> final(b).svd_rank == old(b).svd_rank,
        final(b).surfaces == old(b).surfaces && final(b).materials == old(b).materials,
        final(b).xs_mode == old(b).xs_mode && final(b).runner == old(b).runner,
{
}

/// A new scene needs its directory, is empty, and runs over tables on the CPU until it is
/// told otherwise.
pub proof fn law_new_scene_is_empty(dir: String, exists_on_disk: bool, r: Result<Scene, SceneError>)
    requires
        call_ensures(Scene::new, (dir, exists_on_disk), r),
    ensures
        r is Ok <==> exists_on_disk,
        r matches Ok(s) ==> s.data_dir == dir && s.materials@.len() == 0 && s.surfaces@.len() == 0 && s.cells@.len()
            == 0 && s.photon_data_dir is None,
        r matches Ok(s) ==> s.xs_mode == XsMode::Table && s.runner == Runner::Cpu && s.svd_rank == 5,
{
}

/// A list of two sides under a tilde means that a point is not on both of them.
pub proof fn law_denied_list_means_not_both(
    expr: &str,
    names: &Vec<String>,
    a: char,
    v: Seq<char>,
    i: int,
    b: char,
    w: Seq<char>,
    j: int,
    r: Result<Region, RegionError>,
    sides: spec_fn(int, bool) -> bool,
)
    requires
        call_ensures(build_region, (expr, names), r),
        a == '+' || a == '-',
        b == '+' || b == '-',
        is_plain(v) && is_plain(w),
        v.len() > 0 && v.last() != ')',
        first_named(names@, v, i),
        first_named(names@, w, j),
        expr@ == not_both(seq![a] + v, seq![b] + w),
    ensures
        r is Ok,
        holds(r->Ok_0, sides) <==> !(sides(i, a == '+') && sides(j, b == '+')),
{
    assert(names.len() == names@.len());
    lemma_signed_term(a, v, names@, i);
    lemma_signed_term(b, w, names@, j);
    let (x, y) = (seq![a] + v, seq![b] + w);
    assert forall|k: int| 0 <= k < x.len() implies !is_white(#[trigger] x[k]) && x[k] != '|' by {
        if k > 0 {
            assert(x[k] == v[k - 1]);
        }
    }
    assert forall|k: int| 0 <= k < y.len() implies !is_white(#[trigger] y[k]) && y[k] != '|' by {
        if k > 0 {
            assert(y[k] == w[k - 1]);
        }
    }
    assert(x.last() == v.last());
    law_complemented_list_means_not_all(
        x,
        y,
        names@,
        Term { surface: i as usize, inside: a == '-', complement: false },
        Term { surface: j as usize, inside: b == '-', complement: false },
        sides,
    );
}

/// Settings of a scene are kept as given: its device, its mode, the ranks of single
/// reactions where none is zero, its photon data where the directory is there, and its
/// cells in the order in which they were added.
pub proof fn law_settings_are_kept(
    a: &mut Scene,
    runner: Runner,
    b: &mut Scene,
    mode: XsMode,
    c: &mut Scene,
    ranks: Vec<(u32, usize)>,
    ranked: Result<(), SceneError>,
    d: &mut Scene,
    dir: String,
    there: bool,
    set: Result<(), SceneError>,
    e: &mut Scene,
    cell: CellSpec,
)
    requires
        call_ensures(Scene::set_runner, (a, runner), ()),
        call_ensures(Scene::set_xs_mode, (b, mode), ()),
        call_ensures(Scene::set_svd_ranks, (c, ranks), ranked),
        call_ensures(Scene::set_photon_data_dir, (d, dir, there), set),
        call_ensures(Scene::add_cell, (e, cell), ()),
    ensures
        final(a).runner == runner && final(a).xs_mode == old(a).xs_mode && final(a).cells == old(a).cells,
        final(b).xs_mode == mode && final(b).runner == old(b).runner && final(b).cells == old(b).cells,
        ranked is Ok ==> final(c).svd_ranks_per_mt@ == ranks@ && forall|i: int|
            0 <= i < ranks@.len() ==> (#[trigger] ranks@[i]).1 >= 1,
        ranked is Err ==> final(c).svd_ranks_per_mt@ == old(c).svd_ranks_per_mt@ && exists|i: int|
            0 <= i < ranks@.len() && (#[trigger] ranks@[i]).1 == 0,
        there ==> final(d).photon_data_dir == Some(dir),
        !there ==> set is Err && final(d).photon_data_dir == old(d).photon_data_dir,
        final(e).cells@ == old(e).cells@.push(cell) && final(e).materials == old(e).materials,
{
    if ranked is Err {
        let mt = ranked->Err_0->RankZeroFor_0;
        let i = choose|i: int| 0 <= i < ranks@.len() && ranks@[i] == (mt, 0usize);
        assert(ranks@[i].1 == 0);
    }
}

/// The words for modes and devices.
pub proof fn law_modes_and_devices_have_their_words(
    table: &'static str,
    svd: &'static str,
    hybrid_svd: &'static str,
    hybrid_table: &'static str,
    cpu: &'static str,
    gpu: &'static str,
)
    requires
        call_ensures(XsMode::name, (XsMode::Table,), table),
        call_ensures(XsMode::name, (XsMode::Svd,), svd),
        call_ensures(XsMode::name, (XsMode::HybridSvdWmp,), hybrid_svd),
        call_ensures(XsMode::name, (XsMode::HybridTableWmp,), hybrid_table),
        call_ensures(Runner::name, (Runner::Cpu,), cpu),
        call_ensures(Runner::name, (Runner::GpuCuda,), gpu),
    ensures
        table@ == "table"@ && svd@ == "svd"@,
        hybrid_svd@ == "hybrid_"@ + svd@ + "_wmp"@,
        hybrid_table@ == "hybrid_"@ + table@ + "_wmp"@,
        cpu@ == "cpu"@ && gpu@ == "gpu_cuda"@,
{
    reveal_strlit("table");
    reveal_strlit("svd");
    reveal_strlit("hybrid_");
    reveal_strlit("_wmp");
    reveal_strlit("hybrid_svd_wmp");
    reveal_strlit("hybrid_table_wmp");
    assert("hybrid_"@ + "svd"@ + "_wmp"@ =~= "hybrid_svd_wmp"@);
    assert("hybrid_"@ + "table"@ + "_wmp"@ =~= "hybrid_table_wmp"@);
}

} // verus!
