//! What a run puts on a device before it starts.

use crate::binary64::{is_quotient, lemma_above_one, Binary64, EXPONENT_WEIGHT};
use vstd::arithmetic::power2::{lemma2_to64, pow2};
use vstd::prelude::*;

verus! {

/// A thermal table to put on the device.
#[derive(Clone, Copy, Debug, PartialEq, Eq, Structural)]
pub struct DeviceSlot {
    pub nuclide: usize,
    /// Temperature of the table to take.
    pub temperature: usize,
}

/// The tables of the first `n` nuclides: one for each that has one.
pub open spec fn slots_of(thermal: Seq<Option<usize>>, n: int) -> Seq<DeviceSlot>
    decreases n,
{
    if n <= 0 {
        Seq::empty()
    } else {
        match thermal[n - 1] {
            Some(t) => slots_of(thermal, n - 1).push(DeviceSlot { nuclide: (n - 1) as usize, temperature: t }),
            None => slots_of(thermal, n - 1),
        }
    }
}

/// Lists the thermal tables to put on the device. `thermal` gives, for each
/// nuclide that has a table, the temperature to take.
pub fn device_slots(thermal: &Vec<Option<usize>>) -> (r: Vec<DeviceSlot>)
    ensures
        r@ == slots_of(thermal@, thermal@.len() as int),
{
    let mut out: Vec<DeviceSlot> = Vec::new();
    let mut i: usize = 0;
    while i < thermal.len()
        invariant
            i <= thermal@.len(),
            out@ == slots_of(thermal@, i as int),
        decreases thermal@.len() - i,
    {
        if let Some(t) = thermal[i] {
            out.push(DeviceSlot { nuclide: i, temperature: t });
        }
        i += 1;
    }
    out
}

/// The first nuclide with a table, or -1; kept for kernels that know one table
/// only.
pub fn first_slot(slots: &Vec<DeviceSlot>) -> (r: i32)
    requires
        slots@.len() > 0 ==> slots@[0].nuclide <= i32::MAX,
    ensures
        r == (if slots@.len() > 0 {
            slots@[0].nuclide as int
        } else {
            -1
        }),
{
    if slots.len() > 0 {
        slots[0].nuclide as i32
    } else {
        -1
    }
}

proof fn lemma_slots_of(thermal: Seq<Option<usize>>, n: int)
    requires
        0 <= n <= thermal.len() <= usize::MAX,
    ensures
        forall|k: int|
            0 <= k < slots_of(thermal, n).len() ==> {
                let s = #[trigger] slots_of(thermal, n)[k];
                s.nuclide < n && thermal[s.nuclide as int] == Some(s.temperature)
            },
        forall|k: int, l: int|
            0 <= k < l < slots_of(thermal, n).len() ==> (#[trigger] slots_of(thermal, n)[k]).nuclide < (
            #[trigger] slots_of(thermal, n)[l]).nuclide,
        forall|i: int|
            0 <= i < n && #[trigger] thermal[i] is Some ==> exists|k: int|
                0 <= k < slots_of(thermal, n).len() && (#[trigger] slots_of(thermal, n)[k]).nuclide == i,
    decreases n,
{
    if n > 0 {
        lemma_slots_of(thermal, n - 1);
        let before = slots_of(thermal, n - 1);
        let after = slots_of(thermal, n);
        assert forall|i: int| 0 <= i < n && #[trigger] thermal[i] is Some implies exists|k: int|
            0 <= k < after.len() && (#[trigger] after[k]).nuclide == i by {
            if i == n - 1 {
                assert(after[after.len() - 1].nuclide == i);
            } else {
                let k = choose|k: int| 0 <= k < before.len() && (#[trigger] before[k]).nuclide == i;
                assert(after[k].nuclide == i);
            }
        }
    }
}

/// Every nuclide with a table gets exactly one slot, and no other nuclide gets
/// one.
pub proof fn law_slots_match_tables(thermal: Seq<Option<usize>>)
    requires
        thermal.len() <= usize::MAX,
    ensures
        ({
            let slots = slots_of(thermal, thermal.len() as int);
            &&& forall|k: int|
                0 <= k < slots.len() ==> {
                    let s = #[trigger] slots[k];
                    s.nuclide < thermal.len() && thermal[s.nuclide as int] == Some(s.temperature)
                }
            &&& forall|k: int, l: int|
                0 <= k < l < slots.len() ==> (#[trigger] slots[k]).nuclide < (#[trigger] slots[l]).nuclide
            &&& forall|i: int|
                0 <= i < thermal.len() && #[trigger] thermal[i] is Some ==> exists|k: int|
                    0 <= k < slots.len() && (#[trigger] slots[k]).nuclide == i
        }),
{
    lemma_slots_of(thermal, thermal.len() as int);
}

/// The bits of 294.
pub const ROOM_TEMPERATURE_BITS: u64 = 0x4072_6000_0000_0000;

/// The temperature that thermal tables are taken at: that of the first material,
/// and room temperature where there is none.
pub fn table_temperature(materials: &Vec<Binary64>) -> (r: Binary64)
    ensures
        materials@.len() > 0 ==> r == materials@[0],
        materials@.len() == 0 ==> r.bits == ROOM_TEMPERATURE_BITS,
{
    if materials.len() > 0 {
        materials[0]
    } else {
        Binary64::from_bits(ROOM_TEMPERATURE_BITS)
    }
}

/// Whether any nuclide has multipole data to put on the device.
pub fn any_multipole(found: &Vec<bool>) -> (r: bool)
    ensures
        r == exists|i: int| 0 <= i < found@.len() && #[trigger] found@[i],
{
    let mut i: usize = 0;
    while i < found.len()
        invariant
            i <= found@.len(),
            forall|k: int| 0 <= k < i ==> !#[trigger] found@[k],
        decreases found@.len() - i,
    {
        if found[i] {
            return true;
        }
        i += 1;
    }
    false
}

/// What a failure on the device is reported as.
pub fn device_error(what: &str, detail: &str) -> (r: String)
    ensures
        r@ == "GPU "@ + what@ + ": "@ + detail@,
{
    let mut s: String = "GPU ".to_owned();
    s.append(what);
    s.append(": ");
    s.append(detail);
    s
}

/// Where the cross sections of a run come from.
#[derive(Clone, Copy, Debug, PartialEq, Eq, Structural)]
pub enum XsSource {
    Svd,
    Table,
    /// Tables, with multipole data where there is some.
    Hybrid,
}

/// What the bare-sphere benchmark runs on.
#[derive(Clone, Copy, Debug, PartialEq, Eq, Structural)]
pub enum SphereMode {
    Svd,
    Table,
    Both,
    Wmp,
    All,
}

/// The runs of a mode, in order.
pub fn sphere_runs(mode: SphereMode) -> (r: Vec<XsSource>)
    ensures
        r@ == (match mode {
            SphereMode::Svd => seq![XsSource::Svd],
            SphereMode::Table => seq![XsSource::Table],
            SphereMode::Both => seq![XsSource::Svd, XsSource::Table],
            SphereMode::Wmp => seq![XsSource::Hybrid],
            SphereMode::All => seq![XsSource::Svd, XsSource::Table, XsSource::Hybrid],
        }),
{
    match mode {
        SphereMode::Svd => vec![XsSource::Svd],
        SphereMode::Table => vec![XsSource::Table],
        SphereMode::Both => vec![XsSource::Svd, XsSource::Table],
        SphereMode::Wmp => vec![XsSource::Hybrid],
        SphereMode::All => vec![XsSource::Svd, XsSource::Table, XsSource::Hybrid],
    }
}

/// How a nuclide of the bare sphere is loaded.
#[derive(Clone, Copy, Debug, PartialEq, Eq, Structural)]
pub enum SphereLoad {
    /// Its file is missing: it reacts with nothing.
    Empty,
    /// At a temperature.
    At(Binary64),
    /// At an entry of its list of temperatures.
    Column(usize),
    /// It cannot be opened, and is left out.
    LeftOut,
}

/// What decides how a nuclide of the bare sphere is loaded.
#[derive(Clone, Debug)]
pub struct SphereRequest {
    pub present: bool,
    pub target: Option<Binary64>,
    pub discrete_rank: Option<usize>,
    pub column: usize,
    /// The temperatures of the file, where it could be opened.
    pub temperatures: Option<Vec<Binary64>>,
}

/// How a nuclide of the bare sphere is loaded as a decomposition: at the target
/// temperature where there is one; else, where the discrete levels have a rank of
/// their own, at the temperature of the column, for which the file is opened.
pub open spec fn svd_load(q: SphereRequest) -> SphereLoad {
    if !q.present {
        SphereLoad::Empty
    } else if q.target is Some {
        SphereLoad::At(q.target->0)
    } else if q.discrete_rank is None {
        SphereLoad::Column(q.column)
    } else {
        match q.temperatures {
            None => SphereLoad::LeftOut,
            Some(ts) => SphereLoad::At(
                if q.column < ts@.len() {
                    ts@[q.column as int]
                } else {
                    Binary64 { bits: ROOM_TEMPERATURE_BITS }
                },
            ),
        }
    }
}

/// Decides how a nuclide of the bare sphere is loaded as a decomposition.
pub fn load_svd(q: &SphereRequest) -> (r: SphereLoad)
    ensures
        r == svd_load(*q),
{
    if !q.present {
        return SphereLoad::Empty;
    }
    if let Some(t) = q.target {
        return SphereLoad::At(t);
    }
    if q.discrete_rank.is_none() {
        return SphereLoad::Column(q.column);
    }
    match &q.temperatures {
        None => SphereLoad::LeftOut,
        Some(ts) => if q.column < ts.len() {
            SphereLoad::At(ts[q.column])
        } else {
            SphereLoad::At(Binary64::from_bits(ROOM_TEMPERATURE_BITS))
        },
    }
}

/// Decides how a nuclide of the bare sphere is loaded as a table.
pub fn load_table(present: bool, target: Option<Binary64>, column: usize) -> (r: SphereLoad)
    ensures
        r == (if !present {
            SphereLoad::Empty
        } else {
            match target {
                Some(t) => SphereLoad::At(t),
                None => SphereLoad::Column(column),
            }
        }),
{
    if !present {
        return SphereLoad::Empty;
    }
    match target {
        Some(t) => SphereLoad::At(t),
        None => SphereLoad::Column(column),
    }
}

/// How many nuclides have multipole data.
pub fn covered(found: &Vec<bool>) -> (r: usize)
    ensures
        r == found@.filter(|b: bool| b).len(),
{
    let mut n: usize = 0;
    let mut i: usize = 0;
    proof {
        reveal(Seq::filter);
    }
    while i < found.len()
        invariant
            i <= found@.len(),
            n <= i,
            n == found@.take(i as int).filter(|b: bool| b).len(),
        decreases found@.len() - i,
    {
        proof {
            crate::pipeline::lemma_filter_step(found@, |b: bool| b, i as int);
        }
        if found[i] {
            n += 1;
        }
        i += 1;
    }
    assert(found@.take(i as int) =~= found@);
    n
}

/// The slots on the device are the nuclides with a thermal table, each once, in
/// order, each with its own temperature; the first of them is the one that is told,
/// or minus one where there is none.
pub proof fn law_device_slots_are_the_thermal_nuclides(thermal: &Vec<Option<usize>>, r: Vec<DeviceSlot>, first: i32)
    requires
        call_ensures(device_slots, (thermal,), r),
        call_ensures(first_slot, (&r,), first),
    ensures
        forall|k: int|
            0 <= k < r@.len() ==> (#[trigger] r@[k]).nuclide < thermal@.len() && thermal@[r@[k].nuclide as int] == Some(
                r@[k].temperature,
            ),
        forall|k: int, l: int| 0 <= k < l < r@.len() ==> (#[trigger] r@[k]).nuclide < (#[trigger] r@[l]).nuclide,
        forall|i: int|
            0 <= i < thermal@.len() && #[trigger] thermal@[i] is Some ==> exists|k: int|
                0 <= k < r@.len() && (#[trigger] r@[k]).nuclide == i,
        first == -1 <==> r@.len() == 0,
        r@.len() > 0 ==> first == r@[0].nuclide,
{
    assert(thermal@.len() <= usize::MAX) by {
        assert(thermal.len() == thermal@.len());
    }
    law_slots_match_tables(thermal@);
}

/// What is loaded of a nuclide: nothing where it is not there, else the data at the
/// temperature asked for, else its column; a decomposition of a set rank is loaded
/// at the temperature of its column, which has to be known.
pub proof fn law_nuclide_is_loaded_as_asked(q: &SphereRequest, r: SphereLoad)
    requires
        call_ensures(load_svd, (q,), r),
    ensures
        r == SphereLoad::Empty <==> !q.present,
        q.present && q.target is Some ==> r == SphereLoad::At(q.target->0),
        q.present && q.target is None && q.discrete_rank is None ==> r == SphereLoad::Column(q.column),
        r == SphereLoad::LeftOut <==> q.present && q.target is None && q.discrete_rank is Some && q.temperatures is None,
        q.present && q.target is None && q.discrete_rank is Some && q.temperatures is Some && q.column
            < q.temperatures->0@.len() ==> r == SphereLoad::At(q.temperatures->0@[q.column as int]),
        q.present && q.target is None && q.discrete_rank is Some && q.temperatures is Some && q.column
            >= q.temperatures->0@.len() ==> r is At && is_quotient(r->At_0, 294, 1),
{
    lemma_room_temperature();
}

/// A table is loaded under the same conditions: at the temperature asked for, else as
/// its column.
pub proof fn law_table_is_loaded_as_asked(present: bool, target: Option<Binary64>, column: usize, r: SphereLoad)
    requires
        call_ensures(load_table, (present, target, column), r),
    ensures
        r == SphereLoad::Empty <==> !present,
        present && target is Some ==> r == SphereLoad::At(target->0),
        present && target is None ==> r == SphereLoad::Column(column),
{
}

/// A mode runs each of its sources once, decompositions before tables before the
/// mixed form, and the mode for all of them runs all.
pub proof fn law_mode_runs_its_sources(mode: SphereMode, r: Vec<XsSource>)
    requires
        call_ensures(sphere_runs, (mode,), r),
    ensures
        r@.contains(XsSource::Svd) <==> mode == SphereMode::Svd || mode == SphereMode::Both || mode == SphereMode::All,
        r@.contains(XsSource::Table) <==> mode == SphereMode::Table || mode == SphereMode::Both || mode
            == SphereMode::All,
        r@.contains(XsSource::Hybrid) <==> mode == SphereMode::Wmp || mode == SphereMode::All,
        r@.no_duplicates(),
        mode == SphereMode::Both || mode == SphereMode::All ==> r@[0] == XsSource::Svd && r@[1] == XsSource::Table,
{
    match mode {
        SphereMode::Svd => {
            assert(r@[0] == XsSource::Svd);
        },
        SphereMode::Table => {
            assert(r@[0] == XsSource::Table);
        },
        SphereMode::Both => {
            assert(r@[0] == XsSource::Svd && r@[1] == XsSource::Table);
        },
        SphereMode::Wmp => {
            assert(r@[0] == XsSource::Hybrid);
        },
        SphereMode::All => {
            assert(r@[0] == XsSource::Svd && r@[1] == XsSource::Table && r@[2] == XsSource::Hybrid);
        },
    }
}

/// Multipole data are in use exactly where some nuclide has them, and as many
/// nuclides are covered as have them.
pub proof fn law_multipole_cover_is_counted(found: &Vec<bool>, any: bool, n: usize)
    requires
        call_ensures(any_multipole, (found,), any),
        call_ensures(covered, (found,), n),
    ensures
        any <==> found@.contains(true),
        n == found@.filter(|b: bool| b).len(),
        any <==> n > 0,
{
    broadcast use vstd::seq_lib::group_filter_ensures;

    let kept = found@.filter(|b: bool| b);
    if any {
        let i = choose|i: int| 0 <= i < found@.len() && #[trigger] found@[i];
        assert(found@[i] == true);
        assert(kept.contains(found@[i]));
    }
    if kept.len() > 0 {
        let p = |b: bool| b;
        assert(kept.contains(kept[0]));
        assert(p(kept[0]));
        found@.lemma_filter_contains_rev(p, kept[0]);
        assert(found@.contains(true));
    }
    if found@.contains(true) {
        let i = choose|i: int| 0 <= i < found@.len() && found@[i] == true;
        assert(found@[i]);
    }
}

/// The table temperature is that of the first material, and 294 without one.
pub proof fn law_first_material_sets_the_temperature(materials: &Vec<Binary64>, r: Binary64)
    requires
        call_ensures(table_temperature, (materials,), r),
    ensures
        materials@.len() > 0 ==> r == materials@[0],
        materials@.len() == 0 ==> is_quotient(r, 294, 1),
{
    lemma_room_temperature();
}

proof fn lemma_room_temperature()
    ensures
        is_quotient(Binary64 { bits: ROOM_TEMPERATURE_BITS }, 294, 1),
{
    let x = Binary64 { bits: ROOM_TEMPERATURE_BITS };
    assert(x.bits as int / EXPONENT_WEIGHT as int == 1031 && x.bits as int % EXPONENT_WEIGHT as int == 668503069687808);
    let p = lemma_above_one(x, 8);
    lemma2_to64();
    assert(pow2(8) * p == 256 * p);
}

} // verus!
