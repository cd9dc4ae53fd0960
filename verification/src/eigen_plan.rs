//! What an eigenvalue run of a scene loads, and what it is made of.

use crate::binary64::Binary64;
use crate::data_files::{DataFiles, FileFault};
use crate::geometry::Aabb;
use crate::materials::NuclideEntry;
use crate::region::{
    aabb_from_region, build_region, expression_meaning, fault_of, find_name, index_named, is_expression_box,
    is_named, region_of, Region, RegionError,
};
use crate::reports::copy_ranks;
use crate::scene::{mode_word, wmp_file, wmp_path_for, CellSpec, MaterialSpec, NuclideSpec, Runner, Scene, XsMode};
use crate::text::same_text;
use vstd::prelude::*;

verus! {

/// Where a nuclide stands: its material and its place in the material.
pub type Place = (usize, usize);

/// The place exists.
pub open spec fn is_place(ms: Seq<MaterialSpec>, p: Place) -> bool {
    p.0 < ms.len() && p.1 < ms[p.0 as int].nuclides@.len()
}

/// The nuclide at a place.
pub open spec fn nuclide_at(ms: Seq<MaterialSpec>, p: Place) -> NuclideSpec {
    ms[p.0 as int].nuclides@[p.1 as int]
}

/// Two places read the same data: the same file at the same temperature.
pub open spec fn same_data(ms: Seq<MaterialSpec>, a: Place, b: Place) -> bool {
    &&& nuclide_at(ms, a).hdf5_file@ == nuclide_at(ms, b).hdf5_file@
    &&& ms[a.0 as int].temp_idx == ms[b.0 as int].temp_idx
}

/// The places of the first `n` materials, in order.
pub open spec fn places(ms: Seq<MaterialSpec>, n: int) -> Seq<Place>
    decreases n,
{
    if n <= 0 {
        Seq::empty()
    } else {
        places(ms, n - 1) + Seq::new(
            ms[n - 1].nuclides@.len(),
            |j: int| ((n - 1) as usize, j as usize),
        )
    }
}

/// The places are those that exist, each once.
proof fn lemma_places(ms: Seq<MaterialSpec>, n: int)
    requires
        0 <= n <= ms.len() <= usize::MAX,
    ensures
        forall|k: int|
            0 <= k < places(ms, n).len() ==> is_place(ms, #[trigger] places(ms, n)[k]) && places(ms, n)[k].0 < n,
        forall|p: Place| is_place(ms, p) && p.0 < n ==> #[trigger] places(ms, n).contains(p),
    decreases n,
{
    if n > 0 {
        lemma_places(ms, n - 1);
        let before = places(ms, n - 1);
        let here = Seq::new(ms[n - 1].nuclides@.len(), |j: int| ((n - 1) as usize, j as usize));
        let all = places(ms, n);
        assert forall|k: int| 0 <= k < all.len() implies is_place(ms, #[trigger] all[k]) && all[k].0 < n by {
            if k < before.len() {
                assert(all[k] == before[k]);
            } else {
                assert(all[k] == here[k - before.len()]);
            }
        }
        assert forall|p: Place| is_place(ms, p) && p.0 < n implies #[trigger] all.contains(p) by {
            if p.0 < n - 1 {
                assert(before.contains(p));
                let k = choose|k: int| 0 <= k < before.len() && before[k] == p;
                assert(all[k] == p);
            } else {
                assert(here[p.1 as int] == p);
                assert(all[before.len() + p.1] == p);
            }
        }
    }
}

/// Lists every nuclide of every material.
fn list_places(ms: &Vec<MaterialSpec>) -> (r: Vec<Place>)
    ensures
        r@ == places(ms@, ms@.len() as int),
{
    let mut out: Vec<Place> = Vec::new();
    let mut i: usize = 0;
    while i < ms.len()
        invariant
            i <= ms@.len(),
            out@ == places(ms@, i as int),
        decreases ms@.len() - i,
    {
        let n: usize = ms[i].nuclides.len();
        let ghost before = out@;
        let mut j: usize = 0;
        while j < n
            invariant
                i < ms@.len(),
                n == ms@[i as int].nuclides@.len(),
                j <= n,
                out@ == before + Seq::new(j as nat, |k: int| (i, k as usize)),
            decreases n - j,
        {
            out.push((i, j));
            j += 1;
            assert(out@ =~= before + Seq::new(j as nat, |k: int| (i, k as usize)));
        }
        assert(out@ =~= places(ms@, i + 1));
        i += 1;
    }
    out
}

/// Of the first `n` places, those that read data which none before them reads.
pub open spec fn firsts(ms: Seq<MaterialSpec>, ps: Seq<Place>, n: int) -> Seq<Place>
    decreases n,
{
    if n <= 0 {
        Seq::empty()
    } else {
        let before = firsts(ms, ps, n - 1);
        if exists|k: int| 0 <= k < before.len() && same_data(ms, #[trigger] before[k], ps[n - 1]) {
            before
        } else {
            before.push(ps[n - 1])
        }
    }
}

/// `i` is the entry of a table that reads the same data as place `p`.
pub open spec fn reads(ms: Seq<MaterialSpec>, table: Seq<Place>, p: Place, i: int) -> bool {
    0 <= i < table.len() && same_data(ms, table[i], p)
}

/// Some entry of a table reads the same data as place `p`.
pub open spec fn is_read(ms: Seq<MaterialSpec>, table: Seq<Place>, p: Place) -> bool {
    exists|i: int| reads(ms, table, p, i)
}

/// The table of nuclides holds every nuclide of the scene once: each place reads
/// exactly one entry, and each entry is a place.
pub proof fn law_nuclide_table_is_complete(ms: Seq<MaterialSpec>, ps: Seq<Place>, n: int)
    requires
        0 <= n <= ps.len(),
        forall|k: int| 0 <= k < ps.len() ==> is_place(ms, #[trigger] ps[k]),
    ensures
        forall|k: int| 0 <= k < n ==> is_read(ms, firsts(ms, ps, n), #[trigger] ps[k]),
        forall|i: int, j: int|
            0 <= i < j < firsts(ms, ps, n).len() ==> !same_data(
                ms,
                #[trigger] firsts(ms, ps, n)[i],
                #[trigger] firsts(ms, ps, n)[j],
            ),
        forall|i: int| 0 <= i < firsts(ms, ps, n).len() ==> is_place(ms, #[trigger] firsts(ms, ps, n)[i]),
    decreases n,
{
    if n > 0 {
        law_nuclide_table_is_complete(ms, ps, n - 1);
        let before = firsts(ms, ps, n - 1);
        let after = firsts(ms, ps, n);
        assert forall|k: int| 0 <= k < n implies is_read(ms, after, #[trigger] ps[k]) by {
            if k < n - 1 {
                assert(is_read(ms, before, ps[k]));
                let i = choose|i: int| reads(ms, before, ps[k], i);
                assert(after[i] == before[i]);
                assert(reads(ms, after, ps[k], i));
            } else if after == before {
                let i = choose|i: int| 0 <= i < before.len() && same_data(ms, #[trigger] before[i], ps[n - 1]);
                assert(reads(ms, after, ps[k], i));
            } else {
                assert(reads(ms, after, ps[k], after.len() - 1));
            }
        }
    }
}

fn is_same_data(ms: &Vec<MaterialSpec>, a: Place, b: Place) -> (r: bool)
    requires
        is_place(ms@, a),
        is_place(ms@, b),
    ensures
        r == same_data(ms@, a, b),
{
    same_text(
        ms[a.0].nuclides[a.1].hdf5_file.as_str(),
        ms[b.0].nuclides[b.1].hdf5_file.as_str(),
    ) && ms[a.0].temp_idx == ms[b.0].temp_idx
}

/// Finds the entry of a table that reads the same data as a place.
fn find_entry(ms: &Vec<MaterialSpec>, table: &Vec<Place>, p: Place) -> (r: Option<usize>)
    requires
        is_place(ms@, p),
        forall|i: int| 0 <= i < table@.len() ==> is_place(ms@, #[trigger] table@[i]),
    ensures
        r matches Some(i) ==> reads(ms@, table@, p, i as int),
        r is None ==> forall|i: int| 0 <= i < table@.len() ==> !same_data(ms@, #[trigger] table@[i], p),
{
    let mut i: usize = 0;
    while i < table.len()
        invariant
            i <= table@.len(),
            is_place(ms@, p),
            forall|k: int| 0 <= k < table@.len() ==> is_place(ms@, #[trigger] table@[k]),
            forall|k: int| 0 <= k < i ==> !same_data(ms@, #[trigger] table@[k], p),
        decreases table@.len() - i,
    {
        if is_same_data(ms, table[i], p) {
            return Some(i);
        }
        i += 1;
    }
    None
}

/// The nuclides that a scene loads: each pair of file and temperature once, in
/// the order in which they first appear.
fn nuclide_table(ms: &Vec<MaterialSpec>, ps: &Vec<Place>) -> (r: Vec<Place>)
    requires
        forall|k: int| 0 <= k < ps@.len() ==> is_place(ms@, #[trigger] ps@[k]),
    ensures
        r@ == firsts(ms@, ps@, ps@.len() as int),
        forall|i: int| 0 <= i < r@.len() ==> is_place(ms@, #[trigger] r@[i]),
{
    let mut table: Vec<Place> = Vec::new();
    let mut k: usize = 0;
    while k < ps.len()
        invariant
            k <= ps@.len(),
            forall|i: int| 0 <= i < ps@.len() ==> is_place(ms@, #[trigger] ps@[i]),
            forall|i: int| 0 <= i < table@.len() ==> is_place(ms@, #[trigger] table@[i]),
            table@ == firsts(ms@, ps@, k as int),
        decreases ps@.len() - k,
    {
        match find_entry(ms, &table, ps[k]) {
            Some(i) => {
                assert(same_data(ms@, table@[i as int], ps@[k as int]));
            },
            None => {
                table.push(ps[k]);
            },
        }
        k += 1;
    }
    table
}

/// A nuclide to load.
pub struct NuclideLoad {
    pub hdf5_file: String,
    pub awr: Binary64,
    pub nubar: Binary64,
    pub temp_idx: usize,
}

/// `l` loads what place `p` reads, with the constants given there.
pub open spec fn loads(ms: Seq<MaterialSpec>, l: NuclideLoad, p: Place) -> bool {
    &&& l.hdf5_file@ == nuclide_at(ms, p).hdf5_file@
    &&& l.awr == nuclide_at(ms, p).awr
    &&& l.nubar == nuclide_at(ms, p).nubar
    &&& l.temp_idx == ms[p.0 as int].temp_idx
}

fn nuclide_loads(ms: &Vec<MaterialSpec>, table: &Vec<Place>) -> (r: Vec<NuclideLoad>)
    requires
        forall|i: int| 0 <= i < table@.len() ==> is_place(ms@, #[trigger] table@[i]),
    ensures
        r@.len() == table@.len(),
        forall|i: int| 0 <= i < r@.len() ==> loads(ms@, #[trigger] r@[i], table@[i]),
{
    let mut out: Vec<NuclideLoad> = Vec::new();
    let mut i: usize = 0;
    while i < table.len()
        invariant
            i <= table@.len(),
            forall|k: int| 0 <= k < table@.len() ==> is_place(ms@, #[trigger] table@[k]),
            out@.len() == i,
            forall|k: int| 0 <= k < i ==> loads(ms@, #[trigger] out@[k], table@[k]),
        decreases table@.len() - i,
    {
        let p: Place = table[i];
        assert(is_place(ms@, table@[i as int]));
        let n = &ms[p.0].nuclides[p.1];
        out.push(
            NuclideLoad { hdf5_file: n.hdf5_file.clone(), awr: n.awr, nubar: n.nubar, temp_idx: ms[p.0].temp_idx },
        );
        i += 1;
    }
    out
}

/// Why a run of a scene cannot be planned or summed up.
#[derive(Debug)]
pub enum EigenError {
    /// The file of a nuclide is not there.
    MissingNuclide(String),
    /// Two uses of a nuclide name different thermal files.
    ThermalConflict { hdf5_file: String, existing: String, other: String },
    /// A thermal file is not there or cannot be read.
    ThermalFile(FileFault),
    /// The region of a cell is wrong.
    Region { cell: String, error: RegionError },
    /// A cell is filled with a material that is not there.
    UnknownMaterial { cell: String, material: String },
    /// The GPU was asked for in a build without it.
    NoCuda,
    /// No batch was active.
    NoActiveBatches,
}

/// Entry `i` of the table is the first whose file is not there.
pub open spec fn first_missing(data: DataFiles, ms: Seq<MaterialSpec>, table: Seq<Place>, i: int) -> bool {
    &&& 0 <= i < table.len()
    &&& !data.has(nuclide_at(ms, table[i]).hdf5_file@)
    &&& forall|k: int| 0 <= k < i ==> data.has(nuclide_at(ms, #[trigger] table[k]).hdf5_file@)
}

/// The file of every entry of the table is there.
pub open spec fn nuclides_present(data: DataFiles, ms: Seq<MaterialSpec>, table: Seq<Place>) -> bool {
    forall|i: int| 0 <= i < table.len() ==> data.has(nuclide_at(ms, #[trigger] table[i]).hdf5_file@)
}

/// Looks for the file of every entry of the table.
fn find_nuclides(
    data: &DataFiles,
    Ghost(ms): Ghost<Seq<MaterialSpec>>,
    Ghost(table): Ghost<Seq<Place>>,
    nuclides: &Vec<NuclideLoad>,
) -> (r: Result<(), EigenError>)
    requires
        nuclides@.len() == table.len(),
        forall|i: int| 0 <= i < table.len() ==> loads(ms, #[trigger] nuclides@[i], table[i]),
    ensures
        r is Ok <==> nuclides_present(*data, ms, table),
        r matches Err(e) ==> {
            &&& e is MissingNuclide
            &&& exists|i: int| #[trigger]
                first_missing(*data, ms, table, i) && e->MissingNuclide_0@ == nuclide_at(ms, table[i]).hdf5_file@
        },
{
    let mut i: usize = 0;
    while i < nuclides.len()
        invariant
            i <= nuclides@.len() == table.len(),
            forall|k: int| 0 <= k < table.len() ==> loads(ms, #[trigger] nuclides@[k], table[k]),
            forall|k: int| 0 <= k < i ==> data.has(nuclide_at(ms, #[trigger] table[k]).hdf5_file@),
        decreases nuclides@.len() - i,
    {
        assert(loads(ms, nuclides@[i as int], table[i as int]));
        if !data.contains(nuclides[i].hdf5_file.as_str()) {
            assert(first_missing(*data, ms, table, i as int));
            return Err(EigenError::MissingNuclide(nuclides[i].hdf5_file.clone()));
        }
        i += 1;
    }
    Ok(())
}

/// The thermal file that a place names.
pub open spec fn thermal_at(ms: Seq<MaterialSpec>, p: Place) -> Option<Seq<char>> {
    match nuclide_at(ms, p).thermal_file {
        Some(t) => Some(t@),
        None => None,
    }
}

/// Among the first `n` places, those that read the same data name no two
/// different thermal files.
pub open spec fn thermal_agrees(ms: Seq<MaterialSpec>, ps: Seq<Place>, n: int) -> bool {
    forall|a: int, b: int|
        0 <= a < b < n && same_data(ms, #[trigger] ps[a], #[trigger] ps[b]) && thermal_at(ms, ps[a]) is Some
            && thermal_at(ms, ps[b]) is Some ==> thermal_at(ms, ps[a]) == thermal_at(ms, ps[b])
}

/// Among the first `n` places, some place that reads the same data as `q` names
/// the thermal file `t`.
pub open spec fn names_thermal(ms: Seq<MaterialSpec>, ps: Seq<Place>, n: int, q: Place, t: Seq<char>) -> bool {
    exists|a: int| 0 <= a < n && same_data(ms, #[trigger] ps[a], q) && thermal_at(ms, ps[a]) == Some(t)
}

/// `files` gives each entry of the table the thermal file that the first `n`
/// places name for it.
pub open spec fn are_thermal_files(
    files: Seq<Option<String>>,
    ms: Seq<MaterialSpec>,
    ps: Seq<Place>,
    n: int,
    table: Seq<Place>,
) -> bool {
    &&& files.len() == table.len()
    &&& forall|i: int|
        0 <= i < table.len() ==> match #[trigger] files[i] {
            Some(t) => names_thermal(ms, ps, n, table[i], t@),
            None => forall|t: Seq<char>| !names_thermal(ms, ps, n, table[i], t),
        }
}

/// Place `b` is the first that names another thermal file than a place before it
/// that reads the same data.
pub open spec fn first_disagreement(ms: Seq<MaterialSpec>, ps: Seq<Place>, a: int, b: int) -> bool {
    &&& 0 <= a < b < ps.len()
    &&& same_data(ms, ps[a], ps[b])
    &&& thermal_at(ms, ps[a]) is Some
    &&& thermal_at(ms, ps[b]) is Some
    &&& thermal_at(ms, ps[a]) != thermal_at(ms, ps[b])
    &&& thermal_agrees(ms, ps, b)
}

proof fn lemma_same_data_is_equivalence(ms: Seq<MaterialSpec>, a: Place, b: Place, c: Place)
    ensures
        same_data(ms, a, a),
        same_data(ms, a, b) ==> same_data(ms, b, a),
        same_data(ms, a, b) && same_data(ms, b, c) ==> same_data(ms, a, c),
{
}

/// The table reads every place once.
pub open spec fn is_table_of(ms: Seq<MaterialSpec>, ps: Seq<Place>, table: Seq<Place>) -> bool {
    &&& forall|k: int| 0 <= k < ps.len() ==> is_place(ms, #[trigger] ps[k])
    &&& forall|k: int| 0 <= k < ps.len() ==> is_read(ms, table, #[trigger] ps[k])
    &&& forall|i: int, j: int|
        0 <= i < j < table.len() ==> !same_data(ms, #[trigger] table[i], #[trigger] table[j])
    &&& forall|i: int| 0 <= i < table.len() ==> is_place(ms, #[trigger] table[i])
}

fn no_files(n: usize) -> (r: Vec<Option<String>>)
    ensures
        r@.len() == n,
        forall|i: int| 0 <= i < n ==> (#[trigger] r@[i]) is None,
{
    let mut v: Vec<Option<String>> = Vec::new();
    while v.len() < n
        invariant
            v@.len() <= n,
            forall|i: int| 0 <= i < v@.len() ==> (#[trigger] v@[i]) is None,
        decreases n - v@.len(),
    {
        v.push(None);
    }
    v
}

/// What one more place does to the thermal files.
proof fn lemma_thermal_step(
    before: Seq<Option<String>>,
    after: Seq<Option<String>>,
    ms: Seq<MaterialSpec>,
    ps: Seq<Place>,
    n: int,
    table: Seq<Place>,
    e: int,
)
    requires
        is_table_of(ms, ps, table),
        0 <= n < ps.len(),
        reads(ms, table, ps[n], e),
        are_thermal_files(before, ms, ps, n, table),
        after.len() == before.len(),
        forall|i: int| 0 <= i < before.len() && i != e ==> #[trigger] after[i] == before[i],
        thermal_at(ms, ps[n]) is None ==> after[e] == before[e],
        thermal_at(ms, ps[n]) is Some ==> after[e] is Some && (after[e]->0@ == thermal_at(ms, ps[n])->0 || after[e]
            == before[e]),
    ensures
        are_thermal_files(after, ms, ps, n + 1, table),
{
    let m = n + 1;
    assert forall|i: int| 0 <= i < table.len() implies match #[trigger] after[i] {
        Some(t) => names_thermal(ms, ps, m, table[i], t@),
        None => forall|t: Seq<char>| !names_thermal(ms, ps, m, table[i], t),
    } by {
        assert(match before[i] {
            Some(t) => names_thermal(ms, ps, n, table[i], t@),
            None => forall|t: Seq<char>| !names_thermal(ms, ps, n, table[i], t),
        });
        lemma_same_data_is_equivalence(ms, table[e], ps[n], table[i]);
        lemma_same_data_is_equivalence(ms, ps[n], table[i], table[i]);
        if i != e && same_data(ms, ps[n], table[i]) {
            assert(same_data(ms, table[e], table[i]));
            if i < e {
                lemma_same_data_is_equivalence(ms, table[e], table[i], table[i]);
                assert(!same_data(ms, table[i], table[e]));
            } else {
                assert(!same_data(ms, table[e], table[i]));
            }
        }
        match after[i] {
            Some(t) => {
                if after[i] == before[i] {
                    let a = choose|a: int|
                        0 <= a < n && same_data(ms, #[trigger] ps[a], table[i]) && thermal_at(ms, ps[a]) == Some(
                            t@,
                        );
                    assert(same_data(ms, ps[a], table[i]));
                } else {
                    assert(i == e);
                    assert(same_data(ms, ps[n], table[e]));
                }
                assert(names_thermal(ms, ps, m, table[i], t@));
            },
            None => {
                assert forall|t: Seq<char>| !#[trigger] names_thermal(ms, ps, m, table[i], t) by {
                    if names_thermal(ms, ps, m, table[i], t) {
                        let a = choose|a: int|
                            0 <= a < n + 1 && same_data(ms, #[trigger] ps[a], table[i]) && thermal_at(ms, ps[a])
                                == Some(t);
                        if a < n {
                            assert(names_thermal(ms, ps, n, table[i], t));
                        }
                    }
                }
            },
        }
    }
}

/// The thermal file of each entry of the table. Uses of a nuclide have to agree;
/// where they do not, the first that differs is reported.
fn bind_thermal_files(ms: &Vec<MaterialSpec>, ps: &Vec<Place>, table: &Vec<Place>) -> (r: Result<
    Vec<Option<String>>,
    EigenError,
>)
    requires
        is_table_of(ms@, ps@, table@),
    ensures
        r is Ok <==> thermal_agrees(ms@, ps@, ps@.len() as int),
        r matches Ok(files) ==> are_thermal_files(files@, ms@, ps@, ps@.len() as int, table@),
        r matches Err(e) ==> {
            &&& e matches EigenError::ThermalConflict { hdf5_file, existing, other }
            &&& exists|a: int, b: int| #[trigger]
                first_disagreement(ms@, ps@, a, b) && hdf5_file@ == nuclide_at(ms@, ps@[b]).hdf5_file@
                    && thermal_at(ms@, ps@[a]) == Some(existing@) && thermal_at(ms@, ps@[b]) == Some(other@)
        },
{
    let mut files = no_files(table.len());
    let mut n: usize = 0;
    while n < ps.len()
        invariant
            is_table_of(ms@, ps@, table@),
            n <= ps@.len(),
            are_thermal_files(files@, ms@, ps@, n as int, table@),
            thermal_agrees(ms@, ps@, n as int),
        decreases ps@.len() - n,
    {
        let p: Place = ps[n];
        assert(is_place(ms@, ps@[n as int]));
        let ghost before = files@;
        let e: usize = match find_entry(ms, table, p) {
            Some(e) => e,
            None => {
                proof {
                    assert(is_read(ms@, table@, ps@[n as int]));
                    let i = choose|i: int| reads(ms@, table@, ps@[n as int], i);
                    assert(same_data(ms@, table@[i], p));
                }
                0
            },
        };
        assert(reads(ms@, table@, p, e as int));
        if let Some(t) = &ms[p.0].nuclides[p.1].thermal_file {
            let known: Option<String> = match &files[e] {
                Some(x) => Some(x.clone()),
                None => None,
            };
            match known {
                None => {
                    proof {
                        assert forall|a: int, b: int|
                            0 <= a < b < n + 1 && same_data(ms@, #[trigger] ps@[a], #[trigger] ps@[b])
                                && thermal_at(ms@, ps@[a]) is Some && thermal_at(ms@, ps@[b]) is Some implies thermal_at(
                            ms@,
                            ps@[a],
                        ) == thermal_at(ms@, ps@[b]) by {
                            if b == n {
                                lemma_same_data_is_equivalence(ms@, ps@[a], ps@[b], table@[e as int]);
                                lemma_same_data_is_equivalence(ms@, table@[e as int], p, p);
                                assert(names_thermal(ms@, ps@, n as int, table@[e as int], thermal_at(
                                    ms@,
                                    ps@[a],
                                )->0));
                            }
                        }
                    }
                    files[e] = Some(t.clone());
                },
                Some(x) => {
                    if !same_text(x.as_str(), t.as_str()) {
                        proof {
                            let a = choose|a: int|
                                0 <= a < n && same_data(ms@, #[trigger] ps@[a], table@[e as int]) && thermal_at(
                                    ms@,
                                    ps@[a],
                                ) == Some(x@);
                            lemma_same_data_is_equivalence(ms@, ps@[a], table@[e as int], p);
                            assert(first_disagreement(ms@, ps@, a, n as int));
                            assert(!thermal_agrees(ms@, ps@, ps@.len() as int));
                        }
                        return Err(
                            EigenError::ThermalConflict {
                                hdf5_file: ms[p.0].nuclides[p.1].hdf5_file.clone(),
                                existing: x,
                                other: t.clone(),
                            },
                        );
                    }
                    proof {
                        let w = choose|w: int|
                            0 <= w < n && same_data(ms@, #[trigger] ps@[w], table@[e as int]) && thermal_at(
                                ms@,
                                ps@[w],
                            ) == Some(x@);
                        assert forall|a: int, b: int|
                            0 <= a < b < n + 1 && same_data(ms@, #[trigger] ps@[a], #[trigger] ps@[b])
                                && thermal_at(ms@, ps@[a]) is Some && thermal_at(ms@, ps@[b]) is Some implies thermal_at(
                            ms@,
                            ps@[a],
                        ) == thermal_at(ms@, ps@[b]) by {
                            if b == n {
                                lemma_same_data_is_equivalence(ms@, ps@[w], table@[e as int], p);
                                lemma_same_data_is_equivalence(ms@, ps@[a], p, ps@[w]);
                                lemma_same_data_is_equivalence(ms@, ps@[w], p, ps@[a]);
                                if a < w {
                                    assert(same_data(ms@, ps@[a], ps@[w]));
                                } else if w < a {
                                    assert(same_data(ms@, ps@[w], ps@[a]));
                                }
                            }
                        }
                    }
                },
            }
        }
        proof {
            lemma_thermal_step(before, files@, ms@, ps@, n as int, table@, e as int);
        }
        n += 1;
    }
    Ok(files)
}

/// Entry `i` of the table is the first with a thermal file that cannot be used, and
/// that file is `t`.
pub open spec fn first_thermal_fault(
    data: DataFiles,
    ms: Seq<MaterialSpec>,
    ps: Seq<Place>,
    table: Seq<Place>,
    i: int,
    t: Seq<char>,
) -> bool {
    &&& 0 <= i < table.len()
    &&& names_thermal(ms, ps, ps.len() as int, table[i], t)
    &&& !data.is_readable(t)
    &&& forall|k: int, u: Seq<char>|
        0 <= k < i && #[trigger] names_thermal(ms, ps, ps.len() as int, table[k], u) ==> data.is_readable(u)
}

/// Every thermal file that an entry of the table is given can be used.
pub open spec fn thermal_readable(data: DataFiles, ms: Seq<MaterialSpec>, ps: Seq<Place>, table: Seq<Place>) -> bool {
    forall|k: int, u: Seq<char>|
        0 <= k < table.len() && #[trigger] names_thermal(ms, ps, ps.len() as int, table[k], u) ==> data.is_readable(
            u,
        )
}

proof fn lemma_agreed_file_is_unique(
    ms: Seq<MaterialSpec>,
    ps: Seq<Place>,
    n: int,
    q: Place,
    t: Seq<char>,
    u: Seq<char>,
)
    requires
        thermal_agrees(ms, ps, n),
        names_thermal(ms, ps, n, q, t),
        names_thermal(ms, ps, n, q, u),
    ensures
        t == u,
{
    let a = choose|a: int| 0 <= a < n && same_data(ms, #[trigger] ps[a], q) && thermal_at(ms, ps[a]) == Some(t);
    let b = choose|b: int| 0 <= b < n && same_data(ms, #[trigger] ps[b], q) && thermal_at(ms, ps[b]) == Some(u);
    lemma_same_data_is_equivalence(ms, ps[b], q, ps[a]);
    lemma_same_data_is_equivalence(ms, q, ps[b], ps[a]);
    if a < b {
        assert(same_data(ms, ps[a], ps[b]));
    } else if b < a {
        assert(same_data(ms, ps[b], ps[a]));
    }
}

/// Looks at every thermal file.
fn check_thermal_files(
    data: &DataFiles,
    Ghost(ms): Ghost<Seq<MaterialSpec>>,
    Ghost(ps): Ghost<Seq<Place>>,
    Ghost(table): Ghost<Seq<Place>>,
    files: &Vec<Option<String>>,
) -> (r: Result<(), EigenError>)
    requires
        thermal_agrees(ms, ps, ps.len() as int),
        are_thermal_files(files@, ms, ps, ps.len() as int, table),
    ensures
        r is Ok <==> thermal_readable(*data, ms, ps, table),
        r matches Err(e) ==> {
            &&& e is ThermalFile
            &&& exists|i: int, t: Seq<char>| #[trigger]
                first_thermal_fault(*data, ms, ps, table, i, t) && data.is_fault(e->ThermalFile_0, t)
        },
{
    let mut i: usize = 0;
    while i < files.len()
        invariant
            i <= files@.len(),
            thermal_agrees(ms, ps, ps.len() as int),
            are_thermal_files(files@, ms, ps, ps.len() as int, table),
            forall|k: int, u: Seq<char>|
                0 <= k < i && #[trigger] names_thermal(ms, ps, ps.len() as int, table[k], u) ==> data.is_readable(u),
        decreases files@.len() - i,
    {
        assert(match files@[i as int] {
            Some(t) => names_thermal(ms, ps, ps.len() as int, table[i as int], t@),
            None => forall|t: Seq<char>| !names_thermal(ms, ps, ps.len() as int, table[i as int], t),
        });
        if let Some(t) = &files[i] {
            match data.check(t.as_str()) {
                Err(fault) => {
                    assert(first_thermal_fault(*data, ms, ps, table, i as int, t@));
                    return Err(EigenError::ThermalFile(fault));
                },
                Ok(()) => {
                    assert forall|u: Seq<char>|
                        names_thermal(ms, ps, ps.len() as int, table[i as int], u) implies data.is_readable(u) by {
                        lemma_agreed_file_is_unique(ms, ps, ps.len() as int, table[i as int], t@, u);
                    }
                },
            }
        }
        i += 1;
    }
    Ok(())
}

/// The thermal files of a table are fixed by what its places name: two plans of one
/// scene give every nuclide the same one.
pub proof fn law_thermal_files_are_unique(
    a: Seq<Option<String>>,
    b: Seq<Option<String>>,
    ms: Seq<MaterialSpec>,
    ps: Seq<Place>,
    table: Seq<Place>,
    i: int,
)
    requires
        thermal_agrees(ms, ps, ps.len() as int),
        are_thermal_files(a, ms, ps, ps.len() as int, table),
        are_thermal_files(b, ms, ps, ps.len() as int, table),
        0 <= i < table.len(),
    ensures
        a[i] is Some <==> b[i] is Some,
        a[i] is Some ==> a[i]->0@ == b[i]->0@,
{
    let n = ps.len() as int;
    assert(match a[i] {
        Some(t) => names_thermal(ms, ps, n, table[i], t@),
        None => forall|t: Seq<char>| !names_thermal(ms, ps, n, table[i], t),
    });
    assert(match b[i] {
        Some(t) => names_thermal(ms, ps, n, table[i], t@),
        None => forall|t: Seq<char>| !names_thermal(ms, ps, n, table[i], t),
    });
    if a[i] is Some && b[i] is Some {
        lemma_agreed_file_is_unique(ms, ps, n, table[i], a[i]->0@, b[i]->0@);
    }
}

/// A material ready for the engine: its nuclides point into the table.
pub struct PlannedMaterial {
    pub name: String,
    pub temperature: Binary64,
    pub nuclides: Vec<NuclideEntry>,
}

/// Nuclide `j` of material `m` points at the entry that reads its data.
pub open spec fn is_bound(ms: Seq<MaterialSpec>, table: Seq<Place>, m: int, j: int, e: NuclideEntry) -> bool {
    &&& e.atom_density == ms[m].nuclides@[j].atom_density
    &&& reads(ms, table, (m as usize, j as usize), e.xs_kernel_idx as int)
}

/// `pm` is material `m` with its nuclides bound to the table.
pub open spec fn is_planned(ms: Seq<MaterialSpec>, table: Seq<Place>, m: int, pm: PlannedMaterial) -> bool {
    &&& pm.name@ == ms[m].name@
    &&& pm.temperature == ms[m].temperature
    &&& pm.nuclides@.len() == ms[m].nuclides@.len()
    &&& forall|j: int| 0 <= j < pm.nuclides@.len() ==> is_bound(ms, table, m, j, #[trigger] pm.nuclides@[j])
}

fn plan_materials(ms: &Vec<MaterialSpec>, ps: &Vec<Place>, table: &Vec<Place>) -> (r: Vec<PlannedMaterial>)
    requires
        ps@ == places(ms@, ms@.len() as int),
        is_table_of(ms@, ps@, table@),
    ensures
        r@.len() == ms@.len(),
        forall|m: int| 0 <= m < r@.len() ==> is_planned(ms@, table@, m, #[trigger] r@[m]),
{
    let mut out: Vec<PlannedMaterial> = Vec::new();
    let mut m: usize = 0;
    while m < ms.len()
        invariant
            ps@ == places(ms@, ms@.len() as int),
            is_table_of(ms@, ps@, table@),
            m <= ms@.len(),
            out@.len() == m,
            forall|k: int| 0 <= k < m ==> is_planned(ms@, table@, k, #[trigger] out@[k]),
        decreases ms@.len() - m,
    {
        let n: usize = ms[m].nuclides.len();
        let mut entries: Vec<NuclideEntry> = Vec::new();
        let mut j: usize = 0;
        while j < n
            invariant
                ps@ == places(ms@, ms@.len() as int),
                is_table_of(ms@, ps@, table@),
                m < ms@.len(),
                n == ms@[m as int].nuclides@.len(),
                j <= n,
                entries@.len() == j,
                forall|k: int| 0 <= k < j ==> is_bound(ms@, table@, m as int, k, #[trigger] entries@[k]),
            decreases n - j,
        {
            let p: Place = (m, j);
            let count: usize = ms.len();
            proof {
                assert(is_place(ms@, p));
                lemma_places(ms@, ms@.len() as int);
                assert(ps@.contains(p));
                let k = choose|k: int| 0 <= k < ps@.len() && ps@[k] == p;
                assert(is_read(ms@, table@, ps@[k]));
            }
            let e: usize = match find_entry(ms, table, p) {
                Some(e) => e,
                None => {
                    proof {
                        let i = choose|i: int| reads(ms@, table@, p, i);
                        assert(same_data(ms@, table@[i], p));
                    }
                    0
                },
            };
            entries.push(NuclideEntry { atom_density: ms[m].nuclides[j].atom_density, xs_kernel_idx: e });
            j += 1;
        }
        out.push(
            PlannedMaterial { name: ms[m].name.clone(), temperature: ms[m].temperature, nuclides: entries },
        );
        m += 1;
    }
    out
}

/// What fills a cell.
#[derive(Clone, Copy, Debug, PartialEq, Eq, Structural)]
pub enum CellFill {
    Void,
    /// The material with this index.
    Material(usize),
}

/// A cell ready for the engine.
pub struct PlannedCell {
    pub region: Region,
    pub aabb: Aabb,
    pub fill: CellFill,
    pub temperature: Binary64,
}

/// The fill of a cell names a material that is there, or is void.
pub open spec fn fill_known(c: CellSpec, material_names: Seq<String>) -> bool {
    c.fill is Some ==> is_named(material_names, c.fill->0@)
}

/// The cell can be planned.
pub open spec fn cell_ok(c: CellSpec, surface_names: Seq<String>, material_names: Seq<String>) -> bool {
    expression_meaning(c.region_expr@, surface_names) is Ok && fill_known(c, material_names)
}

/// `pc` is the cell over the surfaces and materials of a scene.
pub open spec fn is_planned_cell(pc: PlannedCell, c: CellSpec, scene: Scene) -> bool {
    let found = expression_meaning(c.region_expr@, scene.surface_names@);
    &&& found is Ok
    &&& pc.region == region_of(found->Ok_0, found->Ok_0.len() as int)
    &&& is_expression_box(pc.aabb, c.region_expr@, scene.surface_names@, scene.surfaces@)
    &&& pc.temperature == c.temperature
    &&& match c.fill {
        None => pc.fill == CellFill::Void,
        Some(name) => {
            &&& is_named(scene.material_names@, name@)
            &&& pc.fill == CellFill::Material(index_named(scene.material_names@, name@) as usize)
        },
    }
}

/// `e` is what is wrong with a cell: its region first, then its fill.
pub open spec fn is_cell_error(e: EigenError, c: CellSpec, scene: Scene) -> bool {
    match expression_meaning(c.region_expr@, scene.surface_names@) {
        Err(fault) => {
            &&& e matches EigenError::Region { cell, error }
            &&& cell@ == c.name@
            &&& fault_of(error) == fault
        },
        Ok(_) => {
            &&& !fill_known(c, scene.material_names@)
            &&& e matches EigenError::UnknownMaterial { cell, material }
            &&& cell@ == c.name@
            &&& material@ == c.fill->0@
        },
    }
}

fn plan_cell(c: &CellSpec, scene: &Scene) -> (r: Result<PlannedCell, EigenError>)
    requires
        scene.wf(),
    ensures
        r is Ok <==> cell_ok(*c, scene.surface_names@, scene.material_names@),
        r matches Ok(pc) ==> is_planned_cell(pc, *c, *scene),
        r matches Err(e) ==> is_cell_error(e, *c, *scene),
{
    let region = match build_region(c.region_expr.as_str(), &scene.surface_names) {
        Ok(region) => region,
        Err(error) => {
            return Err(EigenError::Region { cell: c.name.clone(), error });
        },
    };
    let aabb = aabb_from_region(c.region_expr.as_str(), &scene.surfaces, &scene.surface_names);
    let fill = match &c.fill {
        None => CellFill::Void,
        Some(name) => match find_name(&scene.material_names, name.as_str()) {
            Some(i) => CellFill::Material(i),
            None => {
                return Err(EigenError::UnknownMaterial { cell: c.name.clone(), material: name.clone() });
            },
        },
    };
    Ok(PlannedCell { region, aabb, fill, temperature: c.temperature })
}

/// Plans the cells of a scene, or reports what is wrong with the first that cannot
/// be planned.
fn plan_cells(scene: &Scene) -> (r: Result<Vec<PlannedCell>, EigenError>)
    requires
        scene.wf(),
    ensures
        r is Ok <==> forall|i: int|
            0 <= i < scene.cells@.len() ==> cell_ok(
                #[trigger] scene.cells@[i],
                scene.surface_names@,
                scene.material_names@,
            ),
        r matches Ok(v) ==> {
            &&& v@.len() == scene.cells@.len()
            &&& forall|i: int| 0 <= i < v@.len() ==> is_planned_cell(#[trigger] v@[i], scene.cells@[i], *scene)
        },
        r matches Err(e) ==> exists|i: int| #[trigger]
            first_bad_cell(*scene, i) && is_cell_error(e, scene.cells@[i], *scene),
{
    let mut out: Vec<PlannedCell> = Vec::new();
    let mut i: usize = 0;
    while i < scene.cells.len()
        invariant
            scene.wf(),
            i <= scene.cells@.len(),
            out@.len() == i,
            forall|k: int|
                0 <= k < i ==> cell_ok(
                    #[trigger] scene.cells@[k],
                    scene.surface_names@,
                    scene.material_names@,
                ),
            forall|k: int| 0 <= k < i ==> is_planned_cell(#[trigger] out@[k], scene.cells@[k], *scene),
        decreases scene.cells@.len() - i,
    {
        match plan_cell(&scene.cells[i], scene) {
            Err(e) => {
                assert(first_bad_cell(*scene, i as int));
                return Err(e);
            },
            Ok(pc) => {
                out.push(pc);
            },
        }
        i += 1;
    }
    Ok(out)
}

/// `i` is the first cell that cannot be planned.
pub open spec fn first_bad_cell(scene: Scene, i: int) -> bool {
    &&& 0 <= i < scene.cells@.len()
    &&& !cell_ok(scene.cells@[i], scene.surface_names@, scene.material_names@)
    &&& forall|k: int|
        0 <= k < i ==> cell_ok(#[trigger] scene.cells@[k], scene.surface_names@, scene.material_names@)
}

/// Which forms of cross sections a run loads.
#[derive(Clone, Copy, Debug, PartialEq, Eq, Structural)]
pub struct LoadNeeds {
    pub tables: bool,
    pub kernels: bool,
    /// The rank at which kernels are loaded.
    pub kernel_rank: usize,
    pub multipoles: bool,
}

/// A decomposing mode needs kernels, at the rank of the scene. The GPU needs
/// kernels in every mode, those of the table modes at rank one. Tables are needed
/// only on the CPU.
pub open spec fn needs_of(mode: XsMode, runner: Runner, svd_rank: usize) -> LoadNeeds {
    LoadNeeds {
        tables: !mode.decomposes() && runner == Runner::Cpu,
        kernels: mode.decomposes() || runner == Runner::GpuCuda,
        kernel_rank: if mode.decomposes() {
            svd_rank
        } else {
            1
        },
        multipoles: mode.multipole(),
    }
}

/// Which forms of cross sections a run loads.
pub fn load_needs(mode: XsMode, runner: Runner, svd_rank: usize) -> (r: LoadNeeds)
    ensures
        r == needs_of(mode, runner, svd_rank),
{
    let svd: bool = mode.uses_svd();
    let on_gpu: bool = match runner {
        Runner::GpuCuda => true,
        Runner::Cpu => false,
    };
    LoadNeeds {
        tables: !svd && !on_gpu,
        kernels: svd || on_gpu,
        kernel_rank: if svd {
            svd_rank
        } else {
            1
        },
        multipoles: mode.uses_wmp(),
    }
}

/// Every run loads exactly one form of cross sections.
pub proof fn law_one_form_is_loaded(mode: XsMode, runner: Runner, svd_rank: usize)
    ensures
        needs_of(mode, runner, svd_rank).tables != needs_of(mode, runner, svd_rank).kernels,
{
}

/// The rank that a result reports: none where tables were asked for.
pub fn reported_rank(mode: XsMode, svd_rank: usize) -> (r: usize)
    ensures
        r == if mode.decomposes() {
            svd_rank
        } else {
            0
        },
{
    if mode.uses_svd() {
        svd_rank
    } else {
        0
    }
}

/// What a run of a scene loads and is made of.
pub struct EigenPlan {
    pub nuclides: Vec<NuclideLoad>,
    /// The thermal file of each nuclide.
    pub thermal_files: Vec<Option<String>>,
    pub materials: Vec<PlannedMaterial>,
    pub cells: Vec<PlannedCell>,
    pub needs: LoadNeeds,
    /// The multipole file of each nuclide, in a mode that uses them.
    pub wmp_files: Vec<Option<String>>,
}

/// The places of a scene.
pub open spec fn scene_places(scene: Scene) -> Seq<Place> {
    places(scene.materials@, scene.materials@.len() as int)
}

/// The nuclide table of a scene.
pub open spec fn scene_table(scene: Scene) -> Seq<Place> {
    firsts(scene.materials@, scene_places(scene), scene_places(scene).len() as int)
}

/// The plan is that of the scene.
pub open spec fn plan_fits(plan: EigenPlan, scene: Scene) -> bool {
    let table = scene_table(scene);
    &&& plan.nuclides@.len() == table.len()
    &&& forall|i: int| 0 <= i < table.len() ==> loads(scene.materials@, #[trigger] plan.nuclides@[i], table[i])
    &&& plan.materials@.len() == scene.materials@.len()
    &&& forall|m: int|
        0 <= m < plan.materials@.len() ==> is_planned(scene.materials@, table, m, #[trigger] plan.materials@[m])
    &&& plan.cells@.len() == scene.cells@.len()
    &&& forall|i: int|
        0 <= i < plan.cells@.len() ==> is_planned_cell(#[trigger] plan.cells@[i], scene.cells@[i], scene)
    &&& are_thermal_files(
        plan.thermal_files@,
        scene.materials@,
        scene_places(scene),
        scene_places(scene).len() as int,
        table,
    )
    &&& plan.needs == needs_of(scene.xs_mode, scene.runner, scene.svd_rank)
    &&& if scene.xs_mode.multipole() {
        &&& plan.wmp_files@.len() == table.len()
        &&& forall|i: int|
            0 <= i < table.len() ==> wmp_matches(
                #[trigger] plan.wmp_files@[i],
                nuclide_at(scene.materials@, table[i]).hdf5_file@,
            )
    } else {
        plan.wmp_files@.len() == 0
    }
}

/// `w` is the multipole file of a nuclide file.
pub open spec fn wmp_matches(w: Option<String>, file: Seq<char>) -> bool {
    match w {
        Some(x) => wmp_file(file) == Some(x@),
        None => wmp_file(file) is None,
    }
}

fn wmp_requests(loads_list: &Vec<NuclideLoad>) -> (r: Vec<Option<String>>)
    ensures
        r@.len() == loads_list@.len(),
        forall|i: int| 0 <= i < r@.len() ==> wmp_matches(#[trigger] r@[i], loads_list@[i].hdf5_file@),
{
    let mut out: Vec<Option<String>> = Vec::new();
    let mut i: usize = 0;
    while i < loads_list.len()
        invariant
            i <= loads_list@.len(),
            out@.len() == i,
            forall|k: int| 0 <= k < i ==> wmp_matches(#[trigger] out@[k], loads_list@[k].hdf5_file@),
        decreases loads_list@.len() - i,
    {
        match wmp_path_for(loads_list[i].hdf5_file.as_str()) {
            Some(f) => {
                out.push(Some(f.to_owned()));
            },
            None => {
                out.push(None);
            },
        }
        i += 1;
    }
    out
}

/// Every cell of the scene can be planned.
pub open spec fn cells_ok(scene: Scene) -> bool {
    forall|i: int|
        0 <= i < scene.cells@.len() ==> cell_ok(
            #[trigger] scene.cells@[i],
            scene.surface_names@,
            scene.material_names@,
        )
}

fn scene_tables(scene: &Scene) -> (r: (Vec<Place>, Vec<Place>))
    ensures
        r.0@ == scene_places(*scene),
        r.1@ == scene_table(*scene),
        is_table_of(scene.materials@, r.0@, r.1@),
{
    let ps = list_places(&scene.materials);
    proof {
        assert(scene.materials.len() == scene.materials@.len());
        lemma_places(scene.materials@, scene.materials@.len() as int);
    }
    let table = nuclide_table(&scene.materials, &ps);
    proof {
        law_nuclide_table_is_complete(scene.materials@, ps@, ps@.len() as int);
    }
    (ps, table)
}

/// The neutron side of a run: what is loaded, and what materials and cells are made
/// of.
pub struct NeutronSide {
    pub nuclides: Vec<NuclideLoad>,
    pub thermal_files: Vec<Option<String>>,
    pub materials: Vec<PlannedMaterial>,
    pub cells: Vec<PlannedCell>,
}

/// The neutron side is that of the scene.
pub open spec fn side_fits(side: NeutronSide, scene: Scene) -> bool {
    let ms = scene.materials@;
    let ps = scene_places(scene);
    let table = scene_table(scene);
    &&& side.nuclides@.len() == table.len()
    &&& forall|i: int| 0 <= i < table.len() ==> loads(ms, #[trigger] side.nuclides@[i], table[i])
    &&& are_thermal_files(side.thermal_files@, ms, ps, ps.len() as int, table)
    &&& side.materials@.len() == ms.len()
    &&& forall|m: int| 0 <= m < ms.len() ==> is_planned(ms, table, m, #[trigger] side.materials@[m])
    &&& side.cells@.len() == scene.cells@.len()
    &&& forall|i: int|
        0 <= i < side.cells@.len() ==> is_planned_cell(#[trigger] side.cells@[i], scene.cells@[i], scene)
}

/// The neutron side of a scene can be planned: every file of a nuclide is there, the
/// thermal files agree and can be read, and every cell can be built.
pub open spec fn neutron_side_ok(scene: Scene, data: DataFiles) -> bool {
    let ms = scene.materials@;
    let ps = scene_places(scene);
    let table = scene_table(scene);
    &&& nuclides_present(data, ms, table)
    &&& thermal_agrees(ms, ps, ps.len() as int)
    &&& thermal_readable(data, ms, ps, table)
    &&& cells_ok(scene)
}

/// `e` is the first thing that is wrong with the neutron side of a scene. Files of
/// nuclides come first, then thermal files that disagree, then those that cannot be
/// read, then cells.
pub open spec fn is_neutron_side_error(e: EigenError, scene: Scene, data: DataFiles) -> bool {
    let ms = scene.materials@;
    let ps = scene_places(scene);
    let table = scene_table(scene);
    if !nuclides_present(data, ms, table) {
        &&& e is MissingNuclide
        &&& exists|i: int| #[trigger]
            first_missing(data, ms, table, i) && e->MissingNuclide_0@ == nuclide_at(ms, table[i]).hdf5_file@
    } else if !thermal_agrees(ms, ps, ps.len() as int) {
        &&& e matches EigenError::ThermalConflict { hdf5_file, existing, other }
        &&& exists|a: int, b: int| #[trigger]
            first_disagreement(ms, ps, a, b) && hdf5_file@ == nuclide_at(ms, ps[b]).hdf5_file@ && thermal_at(
                ms,
                ps[a],
            ) == Some(existing@) && thermal_at(ms, ps[b]) == Some(other@)
    } else if !thermal_readable(data, ms, ps, table) {
        &&& e is ThermalFile
        &&& exists|i: int, t: Seq<char>| #[trigger]
            first_thermal_fault(data, ms, ps, table, i, t) && data.is_fault(e->ThermalFile_0, t)
    } else {
        exists|i: int| #[trigger] first_bad_cell(scene, i) && is_cell_error(e, scene.cells@[i], scene)
    }
}

/// Plans the neutron side of a scene, given what the data directory holds.
pub(crate) fn plan_neutron_side(scene: &Scene, data: &DataFiles) -> (r: Result<NeutronSide, EigenError>)
    requires
        scene.wf(),
    ensures
        r is Ok <==> neutron_side_ok(*scene, *data),
        r matches Ok(side) ==> side_fits(side, *scene),
        r matches Err(e) ==> is_neutron_side_error(e, *scene, *data),
{
    let (ps, table) = scene_tables(scene);
    let nuclides = nuclide_loads(&scene.materials, &table);
    if let Err(e) = find_nuclides(data, Ghost(scene.materials@), Ghost(table@), &nuclides) {
        return Err(e);
    }
    let thermal_files = match bind_thermal_files(&scene.materials, &ps, &table) {
        Ok(files) => files,
        Err(e) => {
            return Err(e);
        },
    };
    if let Err(e) = check_thermal_files(data, Ghost(scene.materials@), Ghost(ps@), Ghost(table@), &thermal_files) {
        return Err(e);
    }
    let materials = plan_materials(&scene.materials, &ps, &table);
    match plan_cells(scene) {
        Ok(cells) => Ok(NeutronSide { nuclides, thermal_files, materials, cells }),
        Err(e) => Err(e),
    }
}

/// Plans an eigenvalue run, given what the data directory holds. A device that the
/// build lacks is refused last.
pub fn plan_eigenvalue(scene: &Scene, data: &DataFiles, has_cuda: bool) -> (r: Result<EigenPlan, EigenError>)
    requires
        scene.wf(),
    ensures
        r is Ok <==> neutron_side_ok(*scene, *data) && (scene.runner == Runner::GpuCuda ==> has_cuda),
        r matches Ok(plan) ==> plan_fits(plan, *scene),
        r matches Err(e) ==> if neutron_side_ok(*scene, *data) {
            e is NoCuda
        } else {
            is_neutron_side_error(e, *scene, *data)
        },
{
    let side = match plan_neutron_side(scene, data) {
        Ok(side) => side,
        Err(e) => {
            return Err(e);
        },
    };
    let needs = load_needs(scene.xs_mode, scene.runner, scene.svd_rank);
    let wmp_files = if needs.multipoles {
        wmp_requests(&side.nuclides)
    } else {
        Vec::new()
    };
    match scene.runner {
        Runner::GpuCuda => {
            if !has_cuda {
                return Err(EigenError::NoCuda);
            }
        },
        Runner::Cpu => {},
    }
    proof {
        let table = scene_table(*scene);
        if scene.xs_mode.multipole() {
            assert forall|i: int| 0 <= i < table.len() implies wmp_matches(
                #[trigger] wmp_files@[i],
                nuclide_at(scene.materials@, table[i]).hdf5_file@,
            ) by {
                assert(loads(scene.materials@, side.nuclides@[i], table[i]));
            }
        }
    }
    Ok(
        EigenPlan {
            nuclides: side.nuclides,
            thermal_files: side.thermal_files,
            materials: side.materials,
            cells: side.cells,
            needs,
            wmp_files,
        },
    )
}

/// `kept` is the multipole file that was asked for, unless it cannot be used.
pub open spec fn is_usable_multipole(kept: Option<String>, asked: Option<String>, data: DataFiles) -> bool {
    if asked is Some && data.is_readable(asked->0@) {
        kept is Some && kept->0@ == asked->0@
    } else {
        kept is None
    }
}

/// Leaves out the multipole files that cannot be used, given what their directory
/// holds, and counts those that can. A nuclide without one falls back on the form
/// that the mode builds on.
pub fn usable_multipoles(asked: &Vec<Option<String>>, data: &DataFiles) -> (r: (Vec<Option<String>>, usize))
    ensures
        r.0@.len() == asked@.len(),
        forall|i: int| 0 <= i < asked@.len() ==> is_usable_multipole(#[trigger] r.0@[i], asked@[i], *data),
        r.1 == r.0@.filter(|k: Option<String>| k is Some).len(),
{
    let ghost is_kept = |k: Option<String>| k is Some;
    let mut kept: Vec<Option<String>> = Vec::new();
    let mut covered: usize = 0;
    let mut i: usize = 0;
    proof {
        reveal(Seq::filter);
    }
    while i < asked.len()
        invariant
            is_kept == (|k: Option<String>| k is Some),
            i <= asked@.len(),
            kept@.len() == i,
            covered <= i,
            covered == kept@.filter(is_kept).len(),
            forall|k: int| 0 <= k < i ==> is_usable_multipole(#[trigger] kept@[k], asked@[k], *data),
        decreases asked@.len() - i,
    {
        let ghost before = kept@;
        let entry: Option<String> = match &asked[i] {
            None => None,
            Some(f) => if data.check(f.as_str()).is_ok() {
                Some(f.clone())
            } else {
                None
            },
        };
        if entry.is_some() {
            covered += 1;
        }
        kept.push(entry);
        proof {
            crate::pipeline::lemma_filter_step(kept@, is_kept, i as int);
            assert(kept@.take(i as int) =~= before);
            assert(kept@.take(i + 1) =~= kept@);
        }
        i += 1;
    }
    (kept, covered)
}

/// One batch of an eigenvalue run.
#[derive(Clone, Copy, Debug, PartialEq, Eq, Structural)]
pub struct EigenBatch {
    pub active: bool,
    pub k_eff: Binary64,
    pub shannon_entropy: Binary64,
    pub collisions: u64,
    pub fissions: u64,
    pub leakage: u64,
}

/// The sum of a count over the active ones of the first `n` batches.
pub open spec fn active_total(batches: Seq<EigenBatch>, n: int, count: spec_fn(EigenBatch) -> int) -> int
    decreases n,
{
    if n <= 0 {
        0
    } else {
        active_total(batches, n - 1, count) + if batches[n - 1].active {
            count(batches[n - 1])
        } else {
            0
        }
    }
}

proof fn lemma_active_total_grows(batches: Seq<EigenBatch>, a: int, b: int, count: spec_fn(EigenBatch) -> int)
    requires
        0 <= a <= b <= batches.len(),
        forall|x: EigenBatch| 0 <= #[trigger] count(x),
    ensures
        0 <= active_total(batches, a, count) <= active_total(batches, b, count),
    decreases b,
{
    if a < b {
        lemma_active_total_grows(batches, a, b - 1, count);
    } else if a > 0 {
        lemma_active_total_grows(batches, a - 1, b - 1, count);
    }
}

pub open spec fn collisions_of() -> spec_fn(EigenBatch) -> int {
    |b: EigenBatch| b.collisions as int
}

pub open spec fn fissions_of() -> spec_fn(EigenBatch) -> int {
    |b: EigenBatch| b.fissions as int
}

pub open spec fn leakage_of() -> spec_fn(EigenBatch) -> int {
    |b: EigenBatch| b.leakage as int
}

/// One for each batch.
pub open spec fn one_each() -> spec_fn(EigenBatch) -> int {
    |b: EigenBatch| 1int
}

/// What the batches of a run come to.
pub struct EigenTally {
    /// Estimates of the active batches.
    pub active_k: Vec<Binary64>,
    pub k_per_batch: Vec<Binary64>,
    pub entropy_per_batch: Vec<Binary64>,
    pub active_mask: Vec<bool>,
    pub total_collisions: u64,
    pub total_fissions: u64,
    pub total_leakage: u64,
    pub total_histories: u64,
}

/// The totals of a run fit their counters.
pub open spec fn totals_fit(batches: Seq<EigenBatch>, particles: u32) -> bool {
    let n = batches.len() as int;
    &&& active_total(batches, n, collisions_of()) <= u64::MAX
    &&& active_total(batches, n, fissions_of()) <= u64::MAX
    &&& active_total(batches, n, leakage_of()) <= u64::MAX
    &&& active_total(batches, n, one_each()) * particles <= u64::MAX
}

/// `t` is the tally of a run.
pub open spec fn tally_of(t: EigenTally, batches: Seq<EigenBatch>, particles: u32) -> bool {
    let n = batches.len() as int;
    &&& t.active_k@ == batches.filter(|b: EigenBatch| b.active).map_values(|b: EigenBatch| b.k_eff)
    &&& t.k_per_batch@ == batches.map_values(|b: EigenBatch| b.k_eff)
    &&& t.entropy_per_batch@ == batches.map_values(|b: EigenBatch| b.shannon_entropy)
    &&& t.active_mask@ == batches.map_values(|b: EigenBatch| b.active)
    &&& t.total_collisions == active_total(batches, n, collisions_of())
    &&& t.total_fissions == active_total(batches, n, fissions_of())
    &&& t.total_leakage == active_total(batches, n, leakage_of())
    &&& t.total_histories == t.active_k@.len() * particles
}

/// No batch is active.
pub open spec fn none_active(batches: Seq<EigenBatch>) -> bool {
    forall|i: int| 0 <= i < batches.len() ==> !(#[trigger] batches[i]).active
}

/// Sums up a run: estimates and entropies batch by batch, counts over the active
/// batches. A run without an active batch is an error.
pub fn roll_up(batches: &Vec<EigenBatch>, particles: u32) -> (r: Result<EigenTally, EigenError>)
    requires
        totals_fit(batches@, particles),
    ensures
        r is Err <==> forall|i: int| 0 <= i < batches@.len() ==> !(#[trigger] batches@[i]).active,
        r is Err <==> none_active(batches@),
        r matches Err(e) ==> e is NoActiveBatches,
        r matches Ok(t) ==> tally_of(t, batches@, particles),
{
    let ghost is_active = |b: EigenBatch| b.active;
    let ghost k_of = |b: EigenBatch| b.k_eff;
    let ghost n = batches@.len() as int;
    let mut active_k: Vec<Binary64> = Vec::new();
    let mut k_per_batch: Vec<Binary64> = Vec::new();
    let mut entropy_per_batch: Vec<Binary64> = Vec::new();
    let mut active_mask: Vec<bool> = Vec::new();
    let mut collisions: u64 = 0;
    let mut fissions: u64 = 0;
    let mut leakage: u64 = 0;
    let mut i: usize = 0;
    proof {
        reveal(Seq::filter);
        assert(active_k@ =~= batches@.take(0).filter(is_active).map_values(k_of));
    }
    while i < batches.len()
        invariant
            n == batches@.len(),
            is_active == (|b: EigenBatch| b.active),
            k_of == (|b: EigenBatch| b.k_eff),
            totals_fit(batches@, particles),
            i <= n,
            active_k@ == batches@.take(i as int).filter(is_active).map_values(k_of),
            active_k@.len() == active_total(batches@, i as int, one_each()),
            active_k@.len() > 0 <==> exists|k: int| 0 <= k < i && (#[trigger] batches@[k]).active,
            k_per_batch@.len() == i,
            entropy_per_batch@.len() == i,
            active_mask@.len() == i,
            forall|k: int| 0 <= k < i ==> k_per_batch@[k] == batches@[k].k_eff,
            forall|k: int| 0 <= k < i ==> entropy_per_batch@[k] == batches@[k].shannon_entropy,
            forall|k: int| 0 <= k < i ==> active_mask@[k] == batches@[k].active,
            collisions == active_total(batches@, i as int, collisions_of()),
            fissions == active_total(batches@, i as int, fissions_of()),
            leakage == active_total(batches@, i as int, leakage_of()),
        decreases n - i,
    {
        let b: EigenBatch = batches[i];
        proof {
            crate::pipeline::lemma_filter_step(batches@, is_active, i as int);
            lemma_active_total_grows(batches@, i + 1, n, collisions_of());
            lemma_active_total_grows(batches@, i + 1, n, fissions_of());
            lemma_active_total_grows(batches@, i + 1, n, leakage_of());
        }
        let ghost had = active_k@;
        if b.active {
            active_k.push(b.k_eff);
            collisions = collisions + b.collisions;
            fissions = fissions + b.fissions;
            leakage = leakage + b.leakage;
        }
        k_per_batch.push(b.k_eff);
        entropy_per_batch.push(b.shannon_entropy);
        active_mask.push(b.active);
        proof {
            assert(active_k@ =~= batches@.take(i + 1).filter(is_active).map_values(k_of));
            if b.active {
                assert(batches@[i as int].active);
            }
        }
        i += 1;
    }
    proof {
        assert(batches@.take(i as int) =~= batches@);
        assert(k_per_batch@ =~= batches@.map_values(|b: EigenBatch| b.k_eff));
        assert(entropy_per_batch@ =~= batches@.map_values(|b: EigenBatch| b.shannon_entropy));
        assert(active_mask@ =~= batches@.map_values(|b: EigenBatch| b.active));
    }
    if active_k.len() == 0 {
        return Err(EigenError::NoActiveBatches);
    }
    let count: u64 = active_k.len() as u64;
    let total_histories: u64 = count * (particles as u64);
    Ok(
        EigenTally {
            active_k,
            k_per_batch,
            entropy_per_batch,
            active_mask,
            total_collisions: collisions,
            total_fissions: fissions,
            total_leakage: leakage,
            total_histories,
        },
    )
}

/// What a run of a scene reports besides its estimate.
pub struct EigenReport {
    pub tally: EigenTally,
    pub active_batches: usize,
    pub cell_names: Vec<String>,
    pub mode_used: String,
    pub svd_rank: usize,
    pub svd_ranks_per_mt: Vec<(u32, usize)>,
    pub wmp_covered_nuclides: usize,
}

/// Puts the report of a run together.
pub fn report_run(scene: &Scene, tally: EigenTally, covered: usize) -> (r: EigenReport)
    ensures
        r.tally == tally,
        r.active_batches == tally.active_k@.len(),
        r.cell_names@.len() == scene.cells@.len(),
        forall|i: int| 0 <= i < scene.cells@.len() ==> (#[trigger] r.cell_names@[i])@ == scene.cells@[i].name@,
        r.mode_used@ == mode_word(scene.xs_mode),
        r.svd_rank == if scene.xs_mode.decomposes() {
            scene.svd_rank
        } else {
            0
        },
        r.svd_ranks_per_mt@ == scene.svd_ranks_per_mt@,
        r.wmp_covered_nuclides == covered,
{
    let mut cell_names: Vec<String> = Vec::new();
    let mut i: usize = 0;
    while i < scene.cells.len()
        invariant
            i <= scene.cells@.len(),
            cell_names@.len() == i,
            forall|k: int| 0 <= k < i ==> (#[trigger] cell_names@[k])@ == scene.cells@[k].name@,
        decreases scene.cells@.len() - i,
    {
        cell_names.push(scene.cells[i].name.clone());
        i += 1;
    }
    let ranks = copy_ranks(&scene.svd_ranks_per_mt);
    let active_batches: usize = tally.active_k.len();
    EigenReport {
        tally,
        active_batches,
        cell_names,
        mode_used: scene.xs_mode.name().to_owned(),
        svd_rank: reported_rank(scene.xs_mode, scene.svd_rank),
        svd_ranks_per_mt: ranks,
        wmp_covered_nuclides: covered,
    }
}

/// What a mode and a device load: tables for the modes over tables on the CPU,
/// decompositions otherwise, of the rank asked for in the modes over decompositions
/// and of rank one else, and multipole data in the two mixed modes.
pub proof fn law_mode_decides_what_is_loaded(mode: XsMode, runner: Runner, rank: usize, r: LoadNeeds, told: usize)
    requires
        call_ensures(load_needs, (mode, runner, rank), r),
        call_ensures(reported_rank, (mode, rank), told),
    ensures
        ({
            let svd = mode == XsMode::Svd || mode == XsMode::HybridSvdWmp;
            &&& r.tables <==> !svd && runner == Runner::Cpu
            &&& r.kernels <==> svd || runner == Runner::GpuCuda
            &&& svd ==> r.kernel_rank == rank && told == rank
            &&& !svd ==> r.kernel_rank == 1 && told == 0
            &&& r.multipoles <==> mode == XsMode::HybridSvdWmp || mode == XsMode::HybridTableWmp
        }),
{
}

/// A plan gives every nuclide of every material the data of its own file at the
/// temperature of its material, with its own density, and keeps materials in order
/// with their names and temperatures.
pub proof fn law_plan_binds_nuclides_to_their_own_files(
    scene: &Scene,
    data: &DataFiles,
    has_cuda: bool,
    plan: EigenPlan,
    m: int,
    j: int,
)
    requires
        call_ensures(plan_eigenvalue, (scene, data, has_cuda), Ok(plan)),
        0 <= m < scene.materials@.len(),
        0 <= j < scene.materials@[m].nuclides@.len(),
    ensures
        plan.materials@.len() == scene.materials@.len(),
        plan.materials@[m].name@ == scene.materials@[m].name@,
        plan.materials@[m].temperature == scene.materials@[m].temperature,
        plan.materials@[m].nuclides@.len() == scene.materials@[m].nuclides@.len(),
        ({
            let own = scene.materials@[m].nuclides@[j];
            let bound = plan.materials@[m].nuclides@[j];
            let at = bound.xs_kernel_idx as int;
            &&& bound.atom_density == own.atom_density
            &&& at < plan.nuclides@.len()
            &&& plan.nuclides@[at].hdf5_file@ == own.hdf5_file@
            &&& plan.nuclides@[at].temp_idx == scene.materials@[m].temp_idx
            &&& is_named(data.present@, own.hdf5_file@)
        }),
{
    let ms = scene.materials@;
    let table = scene_table(*scene);
    let pm = plan.materials@[m];
    assert(is_planned(ms, table, m, pm));
    assert(is_bound(ms, table, m, j, pm.nuclides@[j]));
    let at = pm.nuclides@[j].xs_kernel_idx as int;
    assert(loads(ms, plan.nuclides@[at], table[at]));
    assert(m as usize == m && j as usize == j) by {
        assert(scene.materials.len() == ms.len());
        assert(ms[m].nuclides.len() == ms[m].nuclides@.len());
    }
    assert(nuclides_present(*data, ms, table));
    assert(data.has(nuclide_at(ms, table[at]).hdf5_file@));
}

/// No two entries of a plan's table load the same file at the same temperature, and
/// each is there for some nuclide of the scene, with that nuclide's own weight and
/// neutrons per fission.
pub proof fn law_plan_loads_nothing_twice(
    scene: &Scene,
    data: &DataFiles,
    has_cuda: bool,
    plan: EigenPlan,
    a: int,
    b: int,
)
    requires
        call_ensures(plan_eigenvalue, (scene, data, has_cuda), Ok(plan)),
        0 <= a < b < plan.nuclides@.len(),
    ensures
        plan.nuclides@[a].hdf5_file@ != plan.nuclides@[b].hdf5_file@ || plan.nuclides@[a].temp_idx
            != plan.nuclides@[b].temp_idx,
        exists|m: int, j: int|
            0 <= m < scene.materials@.len() && 0 <= j < scene.materials@[m].nuclides@.len()
                && #[trigger] scene.materials@[m].nuclides@[j].hdf5_file@ == plan.nuclides@[a].hdf5_file@
                && scene.materials@[m].temp_idx == plan.nuclides@[a].temp_idx && scene.materials@[m].nuclides@[j].awr
                == plan.nuclides@[a].awr && scene.materials@[m].nuclides@[j].nubar == plan.nuclides@[a].nubar,
{
    let ms = scene.materials@;
    let ps = scene_places(*scene);
    let table = scene_table(*scene);
    assert(ms.len() <= usize::MAX) by {
        assert(scene.materials.len() == ms.len());
    }
    lemma_places(ms, ms.len() as int);
    law_nuclide_table_is_complete(ms, ps, ps.len() as int);
    assert(!same_data(ms, table[a], table[b]));
    assert(loads(ms, plan.nuclides@[a], table[a]) && loads(ms, plan.nuclides@[b], table[b]));
    assert(is_place(ms, table[a]));
    assert(ms[table[a].0 as int].nuclides@[table[a].1 as int].hdf5_file@ == plan.nuclides@[a].hdf5_file@);
}

/// A nuclide with a thermal-scattering file is given that file.
pub proof fn law_plan_keeps_thermal_files(
    scene: &Scene,
    data: &DataFiles,
    has_cuda: bool,
    plan: EigenPlan,
    m: int,
    j: int,
)
    requires
        call_ensures(plan_eigenvalue, (scene, data, has_cuda), Ok(plan)),
        0 <= m < scene.materials@.len(),
        0 <= j < scene.materials@[m].nuclides@.len(),
        scene.materials@[m].nuclides@[j].thermal_file is Some,
    ensures
        ({
            let at = plan.materials@[m].nuclides@[j].xs_kernel_idx as int;
            &&& at < plan.thermal_files@.len()
            &&& plan.thermal_files@[at] is Some
            &&& plan.thermal_files@[at]->0@ == scene.materials@[m].nuclides@[j].thermal_file->0@
        }),
{
    let ms = scene.materials@;
    let ps = scene_places(*scene);
    let n = ps.len() as int;
    let table = scene_table(*scene);
    let p: Place = (m as usize, j as usize);
    assert(m as usize == m && j as usize == j) by {
        assert(scene.materials.len() == ms.len());
        assert(ms[m].nuclides.len() == ms[m].nuclides@.len());
    }
    let pm = plan.materials@[m];
    assert(is_planned(ms, table, m, pm));
    assert(is_bound(ms, table, m, j, pm.nuclides@[j]));
    let at = pm.nuclides@[j].xs_kernel_idx as int;
    assert(ms.len() <= usize::MAX) by {
        assert(scene.materials.len() == ms.len());
    }
    lemma_places(ms, ms.len() as int);
    assert(is_place(ms, p));
    assert(ps.contains(p));
    let k = choose|k: int| 0 <= k < ps.len() && ps[k] == p;
    let t = ms[m].nuclides@[j].thermal_file->0@;
    lemma_same_data_is_equivalence(ms, table[at], p, p);
    assert(same_data(ms, ps[k], table[at]));
    assert(names_thermal(ms, ps, n, table[at], t));
    match plan.thermal_files@[at] {
        Some(u) => {
            lemma_agreed_file_is_unique(ms, ps, n, table[at], t, u@);
        },
        None => {},
    }
}

/// In a mixed mode a nuclide is given its own multipole file, `092<mass>.h5` for
/// `U<mass>.h5`, where it is one of the three that have one; no other is given any,
/// and in the other modes none is asked for.
pub proof fn law_plan_asks_for_own_multipoles(
    scene: &Scene,
    data: &DataFiles,
    has_cuda: bool,
    plan: EigenPlan,
    m: int,
    j: int,
)
    requires
        call_ensures(plan_eigenvalue, (scene, data, has_cuda), Ok(plan)),
        0 <= m < scene.materials@.len(),
        0 <= j < scene.materials@[m].nuclides@.len(),
    ensures
        scene.xs_mode != XsMode::HybridSvdWmp && scene.xs_mode != XsMode::HybridTableWmp ==> plan.wmp_files@.len() == 0,
        scene.xs_mode == XsMode::HybridSvdWmp || scene.xs_mode == XsMode::HybridTableWmp ==> {
            let file = scene.materials@[m].nuclides@[j].hdf5_file@;
            let at = plan.materials@[m].nuclides@[j].xs_kernel_idx as int;
            &&& at < plan.wmp_files@.len()
            &&& plan.wmp_files@[at] is Some <==> file == "U234.h5"@ || file == "U235.h5"@ || file == "U238.h5"@
            &&& plan.wmp_files@[at] matches Some(w) ==> file.len() == 7 && file[0] == 'U' && w@ == "092"@ + file.skip(1)
        },
{
    let ms = scene.materials@;
    let table = scene_table(*scene);
    let pm = plan.materials@[m];
    assert(is_planned(ms, table, m, pm));
    assert(is_bound(ms, table, m, j, pm.nuclides@[j]));
    let at = pm.nuclides@[j].xs_kernel_idx as int;
    assert(m as usize == m && j as usize == j) by {
        assert(scene.materials.len() == ms.len());
        assert(ms[m].nuclides.len() == ms[m].nuclides@.len());
    }
    if scene.xs_mode.multipole() {
        assert(wmp_matches(plan.wmp_files@[at], nuclide_at(ms, table[at]).hdf5_file@));
        lemma_wmp_file(nuclide_at(ms, table[at]).hdf5_file@);
    }
}

/// A cell of a plan stands for the cell of the scene at its place: its temperature,
/// the material of the name that fills it, and the region that its expression means.
pub proof fn law_plan_fills_cells_with_their_materials(
    scene: &Scene,
    data: &DataFiles,
    has_cuda: bool,
    plan: EigenPlan,
    i: int,
)
    requires
        call_ensures(plan_eigenvalue, (scene, data, has_cuda), Ok(plan)),
        0 <= i < scene.cells@.len(),
        scene.wf(),
    ensures
        plan.cells@.len() == scene.cells@.len(),
        plan.cells@[i].temperature == scene.cells@[i].temperature,
        scene.cells@[i].fill is None <==> plan.cells@[i].fill == CellFill::Void,
        scene.cells@[i].fill matches Some(name) ==> plan.cells@[i].fill matches CellFill::Material(k) && k
            < scene.material_names@.len() && scene.material_names@[k as int]@ == name@,
        is_expression_box(plan.cells@[i].aabb, scene.cells@[i].region_expr@, scene.surface_names@, scene.surfaces@),
{
    let c = scene.cells@[i];
    assert(is_planned_cell(plan.cells@[i], c, *scene));
    if c.fill is Some {
        crate::region::lemma_index_named(scene.material_names@, c.fill->0@);
        assert(scene.material_names.len() == scene.material_names@.len());
    }
}

/// A run on the GPU is refused exactly where everything else is in order and there
/// is no GPU in the build; a nuclide whose file is missing is told by that file.
pub proof fn law_plan_is_refused_for_a_reason(
    scene: &Scene,
    data: &DataFiles,
    has_cuda: bool,
    r: Result<EigenPlan, EigenError>,
)
    requires
        call_ensures(plan_eigenvalue, (scene, data, has_cuda), r),
    ensures
        r matches Err(EigenError::NoCuda) ==> scene.runner == Runner::GpuCuda && !has_cuda,
        r is Ok && scene.runner == Runner::GpuCuda ==> has_cuda,
        r matches Err(EigenError::MissingNuclide(file)) ==> !is_named(data.present@, file@) && exists|m: int, j: int|
            0 <= m < scene.materials@.len() && 0 <= j < scene.materials@[m].nuclides@.len()
                && #[trigger] scene.materials@[m].nuclides@[j].hdf5_file@ == file@,
{
    let ms = scene.materials@;
    let ps = scene_places(*scene);
    let table = scene_table(*scene);
    assert(ms.len() <= usize::MAX) by {
        assert(scene.materials.len() == ms.len());
    }
    lemma_places(ms, ms.len() as int);
    law_nuclide_table_is_complete(ms, ps, ps.len() as int);
    if let Err(EigenError::MissingNuclide(file)) = r {
        if !neutron_side_ok(*scene, *data) {
            let i = choose|i: int| #[trigger]
                first_missing(*data, ms, table, i) && file@ == nuclide_at(ms, table[i]).hdf5_file@;
            assert(is_place(ms, table[i]));
            assert(ms[table[i].0 as int].nuclides@[table[i].1 as int].hdf5_file@ == file@);
        }
    }
}

proof fn lemma_wmp_file(file: Seq<char>)
    ensures
        wmp_file(file) matches Some(p) ==> file.len() == 7 && file[0] == 'U' && p == "092"@ + file.skip(1),
        wmp_file(file) is Some <==> file == "U234.h5"@ || file == "U235.h5"@ || file == "U238.h5"@,
{
    reveal_strlit("092");
    reveal_strlit("U234.h5");
    reveal_strlit("U235.h5");
    reveal_strlit("U238.h5");
    reveal_strlit("092234.h5");
    reveal_strlit("092235.h5");
    reveal_strlit("092238.h5");
    assert("092"@ + "U234.h5"@.skip(1) =~= "092234.h5"@);
    assert("092"@ + "U235.h5"@.skip(1) =~= "092235.h5"@);
    assert("092"@ + "U238.h5"@.skip(1) =~= "092238.h5"@);
}

/// A multipole file is used exactly where it was asked for and can be read, and is
/// then the one that was asked for.
pub proof fn law_readable_multipoles_are_used(
    asked: &Vec<Option<String>>,
    data: &DataFiles,
    r: (Vec<Option<String>>, usize),
    i: int,
)
    requires
        call_ensures(usable_multipoles, (asked, data), r),
        0 <= i < asked@.len(),
    ensures
        r.0@.len() == asked@.len(),
        r.0@[i] is Some <==> asked@[i] is Some && is_named(data.present@, asked@[i]->0@) && forall|k: int|
            0 <= k < data.unreadable@.len() ==> (#[trigger] data.unreadable@[k]).file@ != asked@[i]->0@,
        r.0@[i] is Some ==> r.0@[i]->0@ == asked@[i]->0@,
        r.1 == r.0@.filter(|k: Option<String>| k is Some).len(),
{
    assert(is_usable_multipole(r.0@[i], asked@[i], *data));
}

proof fn lemma_active_total_push(batches: Seq<EigenBatch>, b: EigenBatch, n: int, count: spec_fn(EigenBatch) -> int)
    requires
        0 <= n <= batches.len(),
    ensures
        active_total(batches.push(b), n, count) == active_total(batches, n, count),
    decreases n,
{
    if n > 0 {
        lemma_active_total_push(batches, b, n - 1, count);
        assert(batches.push(b)[n - 1] == batches[n - 1]);
    }
}

/// One more batch adds its own counts to the totals, its factor to those that count
/// and its particles to the histories where it is active, and nothing where it is
/// not; in the order of the batches it is recorded either way.
pub proof fn law_batch_adds_its_own_counts(
    batches: &Vec<EigenBatch>,
    longer: &Vec<EigenBatch>,
    b: EigenBatch,
    particles: u32,
    s: EigenTally,
    t: EigenTally,
)
    requires
        call_ensures(roll_up, (batches, particles), Ok(s)),
        call_ensures(roll_up, (longer, particles), Ok(t)),
        longer@ == batches@.push(b),
    ensures
        t.total_collisions - s.total_collisions == if b.active {
            b.collisions as int
        } else {
            0
        },
        t.total_fissions - s.total_fissions == if b.active {
            b.fissions as int
        } else {
            0
        },
        t.total_leakage - s.total_leakage == if b.active {
            b.leakage as int
        } else {
            0
        },
        t.total_histories - s.total_histories == if b.active {
            particles as int
        } else {
            0
        },
        t.active_k@ == if b.active {
            s.active_k@.push(b.k_eff)
        } else {
            s.active_k@
        },
        t.k_per_batch@ == s.k_per_batch@.push(b.k_eff),
        t.entropy_per_batch@ == s.entropy_per_batch@.push(b.shannon_entropy),
        t.active_mask@ == s.active_mask@.push(b.active),
{
    let n = batches@.len() as int;
    lemma_active_total_push(batches@, b, n, collisions_of());
    lemma_active_total_push(batches@, b, n, fissions_of());
    lemma_active_total_push(batches@, b, n, leakage_of());
    reveal(Seq::filter);
    let p = |x: EigenBatch| x.active;
    let k = |x: EigenBatch| x.k_eff;
    assert(longer@.drop_last() =~= batches@);
    assert(longer@.last() == b);
    if b.active {
        assert(longer@.filter(p) == batches@.filter(p).push(b));
        assert(longer@.filter(p).map_values(k) =~= batches@.filter(p).map_values(k).push(b.k_eff));
        let a = s.active_k@.len() as int;
        assert((a + 1) * particles == a * particles + particles) by (nonlinear_arith);
    } else {
        assert(longer@.filter(p) == batches@.filter(p));
    }
    assert(t.k_per_batch@ =~= s.k_per_batch@.push(b.k_eff));
    assert(t.entropy_per_batch@ =~= s.entropy_per_batch@.push(b.shannon_entropy));
    assert(t.active_mask@ =~= s.active_mask@.push(b.active));
}

/// A single active batch is its own total.
pub proof fn law_single_batch_is_its_own_total(batches: &Vec<EigenBatch>, particles: u32, t: EigenTally)
    requires
        call_ensures(roll_up, (batches, particles), Ok(t)),
        batches@.len() == 1,
        batches@[0].active,
    ensures
        t.total_collisions == batches@[0].collisions,
        t.total_fissions == batches@[0].fissions,
        t.total_leakage == batches@[0].leakage,
        t.total_histories == particles,
        t.active_k@ == seq![batches@[0].k_eff],
{
    reveal_with_fuel(active_total, 3);
    reveal(Seq::filter);
    let p = |x: EigenBatch| x.active;
    let k = |x: EigenBatch| x.k_eff;
    assert(batches@.drop_last() =~= Seq::<EigenBatch>::empty());
    assert(batches@.drop_last().filter(p) =~= Seq::<EigenBatch>::empty());
    assert(batches@.filter(p) =~= seq![batches@[0]]);
    assert(batches@.filter(p).map_values(k) =~= seq![batches@[0].k_eff]);
    assert(1 * particles == particles);
}

/// A report names the cells of its scene in order, tells how many factors count, and
/// tells a rank only for the modes over decompositions.
pub proof fn law_report_tells_of_its_scene(scene: &Scene, tally: EigenTally, covered: usize, r: EigenReport, i: int)
    requires
        call_ensures(report_run, (scene, tally, covered), r),
        0 <= i < scene.cells@.len(),
    ensures
        r.tally == tally && r.active_batches == tally.active_k@.len() && r.wmp_covered_nuclides == covered,
        r.cell_names@.len() == scene.cells@.len(),
        r.svd_rank == if scene.xs_mode == XsMode::Svd || scene.xs_mode == XsMode::HybridSvdWmp {
            scene.svd_rank
        } else {
            0
        },
        r.svd_ranks_per_mt@ == scene.svd_ranks_per_mt@,
{
}

/// A run is summed up exactly where some batch counts.
pub proof fn law_run_needs_an_active_batch(batches: &Vec<EigenBatch>, particles: u32, r: Result<EigenTally, EigenError>, i: int)
    requires
        call_ensures(roll_up, (batches, particles), r),
        0 <= i < batches@.len(),
    ensures
        batches@[i].active ==> r is Ok,
        r is Ok ==> exists|k: int| 0 <= k < batches@.len() && (#[trigger] batches@[k]).active,
        r matches Ok(t) ==> t.k_per_batch@.len() == batches@.len() && t.k_per_batch@[i] == batches@[i].k_eff
            && t.entropy_per_batch@[i] == batches@[i].shannon_entropy && t.active_mask@[i] == batches@[i].active,
{
}

} // verus!
