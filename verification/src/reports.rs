//! Settings and results as texts and tables.

use crate::binary64::Binary64;
use crate::burnup::Chain;
use crate::eigen_plan::EigenReport;
use crate::scene::Scene;
use crate::text::{append_decimal, decimal, same_text};
use vstd::prelude::*;

verus! {

/// A recorded value.
#[derive(Debug)]
pub enum FieldValue {
    Number(Binary64),
    Unsigned(u64),
    Text(String),
    /// Ranks by reaction.
    Ranks(Vec<(u32, usize)>),
}

/// A recorded value, with texts in place of strings.
pub enum FieldView {
    Number(Binary64),
    Unsigned(int),
    Text(Seq<char>),
    Ranks(Seq<(u32, usize)>),
}

/// A named value.
#[derive(Debug)]
pub struct Field {
    pub name: &'static str,
    pub value: FieldValue,
}

pub open spec fn value_view(v: FieldValue) -> FieldView {
    match v {
        FieldValue::Number(x) => FieldView::Number(x),
        FieldValue::Unsigned(n) => FieldView::Unsigned(n as int),
        FieldValue::Text(s) => FieldView::Text(s@),
        FieldValue::Ranks(v) => FieldView::Ranks(v@),
    }
}

/// A field has this name and this value.
pub open spec fn field_is(f: Field, name: Seq<char>, value: FieldView) -> bool {
    f.name@ == name && value_view(f.value) == value
}

/// Batches and histories of a run.
#[derive(Clone, Copy, Debug, PartialEq, Eq, Structural)]
pub struct Settings {
    pub batches: u32,
    pub inactive: u32,
    pub particles: u32,
    pub seed: u64,
}

impl Default for Settings {
    fn default() -> (r: Self)
        ensures
            r == (Settings { batches: 50, inactive: 10, particles: 5000, seed: 1 }),
    {
        Settings { batches: 50, inactive: 10, particles: 5000, seed: 1 }
    }
}

impl Settings {
    /// The settings in words.
    pub fn text(&self) -> (r: String)
        ensures
            r@ == "<Settings batches="@ + decimal(self.batches as int) + " inactive="@ + decimal(self.inactive as int)
                + " particles="@ + decimal(self.particles as int) + " seed="@ + decimal(self.seed as int) + ">"@,
    {
        let mut s = "<Settings batches=".to_owned();
        append_decimal(&mut s, self.batches as u64);
        s.append(" inactive=");
        append_decimal(&mut s, self.inactive as u64);
        s.append(" particles=");
        append_decimal(&mut s, self.particles as u64);
        s.append(" seed=");
        append_decimal(&mut s, self.seed);
        s.append(">");
        s
    }
}

/// A scene in words.
pub fn scene_text(scene: &Scene) -> (r: String)
    ensures
        r@ == "<Scene data_dir="@ + scene.data_dir@ + " materials="@ + decimal(scene.materials@.len() as int)
            + " surfaces="@ + decimal(scene.surfaces@.len() as int) + " cells="@ + decimal(
            scene.cells@.len() as int,
        ) + ">"@,
{
    let mut s = "<Scene data_dir=".to_owned();
    s.append(scene.data_dir.as_str());
    s.append(" materials=");
    append_decimal(&mut s, scene.materials.len() as u64);
    s.append(" surfaces=");
    append_decimal(&mut s, scene.surfaces.len() as u64);
    s.append(" cells=");
    append_decimal(&mut s, scene.cells.len() as u64);
    s.append(">");
    s
}

/// A depletion chain in words.
pub fn chain_text(name: &str, chain: &Chain) -> (r: String)
    ensures
        r@ == "<Chain '"@ + name@ + "': "@ + decimal(chain.nuclides@.len() as int) + " nuclides, "@ + decimal(
            chain.reactions@.len() as int,
        ) + " reactions>"@,
{
    let mut s = "<Chain '".to_owned();
    s.append(name);
    s.append("': ");
    append_decimal(&mut s, chain.nuclides.len() as u64);
    s.append(" nuclides, ");
    append_decimal(&mut s, chain.reactions.len() as u64);
    s.append(" reactions>");
    s
}

/// Entry `i` of a list is under the key.
pub open spec fn is_under(d: Seq<(Seq<char>, Binary64)>, key: Seq<char>, i: int) -> bool {
    0 <= i < d.len() && d[i].0 == key
}

/// The list has an entry under the key.
pub open spec fn has_key(d: Seq<(Seq<char>, Binary64)>, key: Seq<char>) -> bool {
    exists|i: int| is_under(d, key, i)
}

/// The list after a value was put under a key: in place of the one that stood
/// there, or behind the others.
pub open spec fn put(d: Seq<(Seq<char>, Binary64)>, key: Seq<char>, value: Binary64) -> Seq<(Seq<char>, Binary64)> {
    if has_key(d, key) {
        d.update(choose|i: int| is_under(d, key, i), (key, value))
    } else {
        d.push((key, value))
    }
}

/// The first `n` values put under their names, one after the other.
pub open spec fn put_all(names: Seq<String>, values: Seq<Binary64>, n: int) -> Seq<(Seq<char>, Binary64)>
    decreases n,
{
    if n <= 0 {
        Seq::empty()
    } else {
        put(put_all(names, values, n - 1), names[n - 1]@, values[n - 1])
    }
}

/// No key occurs twice.
pub open spec fn keys_differ(d: Seq<(Seq<char>, Binary64)>) -> bool {
    forall|i: int, j: int| 0 <= i < j < d.len() ==> (#[trigger] d[i]).0 != (#[trigger] d[j]).0
}

proof fn lemma_put_keeps_keys_apart(names: Seq<String>, values: Seq<Binary64>, n: int)
    requires
        0 <= n <= names.len(),
    ensures
        keys_differ(put_all(names, values, n)),
        put_all(names, values, n).len() <= n,
    decreases n,
{
    if n > 0 {
        lemma_put_keeps_keys_apart(names, values, n - 1);
        let d = put_all(names, values, n - 1);
        let key = names[n - 1]@;
        let e = put(d, key, values[n - 1]);
        if has_key(d, key) {
            let at = choose|i: int| is_under(d, key, i);
            assert forall|i: int, j: int| 0 <= i < j < e.len() implies (#[trigger] e[i]).0 != (#[trigger] e[j]).0 by {
                assert(d[i].0 != d[j].0);
            }
        } else {
            assert forall|i: int, j: int| 0 <= i < j < e.len() implies (#[trigger] e[i]).0 != (#[trigger] e[j]).0 by {
                if j < d.len() {
                    assert(d[i].0 != d[j].0);
                } else {
                    assert(e[i] == d[i]);
                    if e[i].0 == key {
                        assert(is_under(d, key, i));
                    }
                }
            }
        }
    }
}

/// A table of values by name names every name once, and under it the last value
/// that was given for it.
pub proof fn law_table_holds_the_last_values(names: Seq<String>, values: Seq<Binary64>, k: int)
    requires
        names.len() == values.len(),
        0 <= k < names.len(),
        forall|j: int| k < j < names.len() ==> (#[trigger] names[j])@ != names[k]@,
    ensures
        keys_differ(put_all(names, values, names.len() as int)),
        put_all(names, values, names.len() as int).contains((names[k]@, values[k])),
{
    lemma_put_keeps_keys_apart(names, values, names.len() as int);
    lemma_last_value_stays(names, values, k, names.len() as int);
}

proof fn lemma_last_value_stays(names: Seq<String>, values: Seq<Binary64>, k: int, n: int)
    requires
        0 <= k < n <= names.len(),
        names.len() == values.len(),
        forall|j: int| k < j < n ==> (#[trigger] names[j])@ != names[k]@,
    ensures
        put_all(names, values, n).contains((names[k]@, values[k])),
    decreases n,
{
    let d = put_all(names, values, n - 1);
    let e = put_all(names, values, n);
    let key = names[n - 1]@;
    if k == n - 1 {
        if has_key(d, key) {
            let at = choose|i: int| is_under(d, key, i);
            assert(e[at] == (key, values[k]));
        } else {
            assert(e[d.len() as int] == (key, values[k]));
        }
    } else {
        lemma_last_value_stays(names, values, k, n - 1);
        let i = choose|i: int| 0 <= i < d.len() && d[i] == (names[k]@, values[k]);
        assert(names[n - 1]@ != names[k]@);
        assert(e[i] == d[i]);
    }
}

/// The texts of a table.
pub open spec fn entry_texts(d: Seq<(String, Binary64)>) -> Seq<(Seq<char>, Binary64)> {
    d.map_values(|e: (String, Binary64)| (e.0@, e.1))
}

/// Values by name, such as captures or heating by cell. Where a name comes again,
/// the later value stands.
pub fn table_by_name(names: &Vec<String>, values: &Vec<Binary64>) -> (r: Vec<(String, Binary64)>)
    requires
        names@.len() == values@.len(),
    ensures
        entry_texts(r@) == put_all(names@, values@, names@.len() as int),
{
    let mut out: Vec<(String, Binary64)> = Vec::new();
    let mut n: usize = 0;
    assert(entry_texts(out@) =~= put_all(names@, values@, 0));
    while n < names.len()
        invariant
            n <= names@.len() == values@.len(),
            entry_texts(out@) == put_all(names@, values@, n as int),
        decreases names@.len() - n,
    {
        let ghost d = entry_texts(out@);
        let ghost key = names@[n as int]@;
        let mut at: usize = 0;
        while at < out.len() && !same_text(out[at].0.as_str(), names[n].as_str())
            invariant
                n < names@.len(),
                key == names@[n as int]@,
                d == entry_texts(out@),
                at <= out@.len(),
                forall|i: int| 0 <= i < at ==> (#[trigger] d[i]).0 != key,
            decreases out@.len() - at,
        {
            assert(d[at as int].0 == out@[at as int].0@);
            at += 1;
        }
        let value: Binary64 = values[n];
        if at < out.len() {
            proof {
                lemma_put_keeps_keys_apart(names@, values@, n as int);
                assert(d[at as int].0 == out@[at as int].0@);
                assert(is_under(d, key, at as int));
                let i = choose|i: int| is_under(d, key, i);
                assert(i == at) by {
                    if i < at {
                        assert(d[i].0 != d[at as int].0);
                    } else if at < i {
                        assert(d[at as int].0 != d[i].0);
                    }
                }
            }
            out[at] = (names[n].clone(), value);
            assert(entry_texts(out@) =~= d.update(at as int, (key, value)));
        } else {
            assert(!has_key(d, key)) by {
                if has_key(d, key) {
                    let i = choose|i: int| is_under(d, key, i);
                    assert(d[i].0 != key);
                }
            }
            out.push((names[n].clone(), value));
            assert(entry_texts(out@) =~= d.push((key, value)));
        }
        n += 1;
    }
    out
}

/// The figures of a run, in seconds, bytes and nanoseconds.
#[derive(Clone, Copy, Debug, PartialEq, Eq, Structural)]
pub struct RunFigures {
    pub k_eff: Binary64,
    pub k_sigma: Binary64,
    pub load_time_seconds: Binary64,
    pub sim_time_seconds: Binary64,
    pub runtime_seconds: Binary64,
    pub xs_memory_bytes: u64,
    pub xs_memory_mib: Binary64,
    /// The time of a simulation divided by its histories.
    pub ns_per_history: Binary64,
}

/// The fields are the statistics of a run.
pub open spec fn are_statistics(fs: Seq<Field>, r: EigenReport, f: RunFigures) -> bool {
    &&& fs.len() == 17
    &&& field_is(fs[0], "mode"@, FieldView::Text(r.mode_used@))
    &&& field_is(fs[1], "svd_rank"@, FieldView::Unsigned(r.svd_rank as int))
    &&& field_is(fs[2], "k_eff"@, FieldView::Number(f.k_eff))
    &&& field_is(fs[3], "k_sigma"@, FieldView::Number(f.k_sigma))
    &&& field_is(fs[4], "active_batches"@, FieldView::Unsigned(r.active_batches as int))
    &&& field_is(fs[5], "total_histories"@, FieldView::Unsigned(r.tally.total_histories as int))
    &&& field_is(fs[6], "load_time_seconds"@, FieldView::Number(f.load_time_seconds))
    &&& field_is(fs[7], "sim_time_seconds"@, FieldView::Number(f.sim_time_seconds))
    &&& field_is(fs[8], "runtime_seconds"@, FieldView::Number(f.runtime_seconds))
    &&& field_is(fs[9], "xs_memory_bytes"@, FieldView::Unsigned(f.xs_memory_bytes as int))
    &&& field_is(fs[10], "xs_memory_mib"@, FieldView::Number(f.xs_memory_mib))
    &&& field_is(fs[11], "wmp_covered_nuclides"@, FieldView::Unsigned(r.wmp_covered_nuclides as int))
    &&& field_is(fs[12], "svd_ranks_per_mt"@, FieldView::Ranks(r.svd_ranks_per_mt@))
    &&& field_is(fs[13], "total_collisions"@, FieldView::Unsigned(r.tally.total_collisions as int))
    &&& field_is(fs[14], "total_fissions"@, FieldView::Unsigned(r.tally.total_fissions as int))
    &&& field_is(fs[15], "total_leakage"@, FieldView::Unsigned(r.tally.total_leakage as int))
    &&& field_is(
        fs[16],
        "ns_per_history"@,
        FieldView::Number(
            if r.tally.total_histories > 0 {
                f.ns_per_history
            } else {
                Binary64 { bits: 0 }
            },
        ),
    )
}

/// The statistics of a run. One without histories took no time for each.
pub fn run_statistics(report: &EigenReport, figures: &RunFigures) -> (r: Vec<Field>)
    ensures
        are_statistics(r@, *report, *figures),
{
    let t = &report.tally;
    let mut out: Vec<Field> = Vec::new();
    out.push(Field { name: "mode", value: FieldValue::Text(report.mode_used.clone()) });
    out.push(Field { name: "svd_rank", value: FieldValue::Unsigned(report.svd_rank as u64) });
    out.push(Field { name: "k_eff", value: FieldValue::Number(figures.k_eff) });
    out.push(Field { name: "k_sigma", value: FieldValue::Number(figures.k_sigma) });
    out.push(Field { name: "active_batches", value: FieldValue::Unsigned(report.active_batches as u64) });
    out.push(Field { name: "total_histories", value: FieldValue::Unsigned(t.total_histories) });
    out.push(Field { name: "load_time_seconds", value: FieldValue::Number(figures.load_time_seconds) });
    out.push(Field { name: "sim_time_seconds", value: FieldValue::Number(figures.sim_time_seconds) });
    out.push(Field { name: "runtime_seconds", value: FieldValue::Number(figures.runtime_seconds) });
    out.push(Field { name: "xs_memory_bytes", value: FieldValue::Unsigned(figures.xs_memory_bytes) });
    out.push(Field { name: "xs_memory_mib", value: FieldValue::Number(figures.xs_memory_mib) });
    out.push(Field { name: "wmp_covered_nuclides", value: FieldValue::Unsigned(report.wmp_covered_nuclides as u64) });
    let ranks = copy_ranks(&report.svd_ranks_per_mt);
    out.push(Field { name: "svd_ranks_per_mt", value: FieldValue::Ranks(ranks) });
    out.push(Field { name: "total_collisions", value: FieldValue::Unsigned(t.total_collisions) });
    out.push(Field { name: "total_fissions", value: FieldValue::Unsigned(t.total_fissions) });
    out.push(Field { name: "total_leakage", value: FieldValue::Unsigned(t.total_leakage) });
    let ns: Binary64 = if t.total_histories > 0 {
        figures.ns_per_history
    } else {
        Binary64::zero()
    };
    out.push(Field { name: "ns_per_history", value: FieldValue::Number(ns) });
    out
}

/// Copies ranks by reaction.
pub(crate) fn copy_ranks(ranks: &Vec<(u32, usize)>) -> (r: Vec<(u32, usize)>)
    ensures
        r@ == ranks@,
{
    let mut out: Vec<(u32, usize)> = Vec::new();
    let mut j: usize = 0;
    assert(out@ =~= ranks@.take(0));
    while j < ranks.len()
        invariant
            j <= ranks@.len(),
            out@ == ranks@.take(j as int),
        decreases ranks@.len() - j,
    {
        out.push(ranks[j]);
        j += 1;
        assert(out@ =~= ranks@.take(j as int));
    }
    assert(out@ =~= ranks@);
    out
}

/// A field of this name has this value.
pub open spec fn holds_field(fs: Seq<Field>, name: Seq<char>, value: FieldView) -> bool {
    exists|i: int| 0 <= i < fs.len() && (#[trigger] fs[i]).name@ == name && value_view(fs[i].value) == value
}

/// The statistics of a run hold, under their names, the figures of the run and the
/// totals of its report.
pub proof fn law_statistics_stand_under_their_names(report: &EigenReport, figures: &RunFigures, r: Vec<Field>)
    requires
        call_ensures(run_statistics, (report, figures), r),
    ensures
        r@.len() == 17,
        holds_field(r@, "mode"@, FieldView::Text(report.mode_used@)),
        holds_field(r@, "svd_rank"@, FieldView::Unsigned(report.svd_rank as int)),
        holds_field(r@, "k_eff"@, FieldView::Number(figures.k_eff)),
        holds_field(r@, "k_sigma"@, FieldView::Number(figures.k_sigma)),
        holds_field(r@, "active_batches"@, FieldView::Unsigned(report.active_batches as int)),
        holds_field(r@, "total_histories"@, FieldView::Unsigned(report.tally.total_histories as int)),
        holds_field(r@, "load_time_seconds"@, FieldView::Number(figures.load_time_seconds)),
        holds_field(r@, "sim_time_seconds"@, FieldView::Number(figures.sim_time_seconds)),
        holds_field(r@, "runtime_seconds"@, FieldView::Number(figures.runtime_seconds)),
        holds_field(r@, "xs_memory_bytes"@, FieldView::Unsigned(figures.xs_memory_bytes as int)),
        holds_field(r@, "xs_memory_mib"@, FieldView::Number(figures.xs_memory_mib)),
        holds_field(r@, "wmp_covered_nuclides"@, FieldView::Unsigned(report.wmp_covered_nuclides as int)),
        holds_field(r@, "svd_ranks_per_mt"@, FieldView::Ranks(report.svd_ranks_per_mt@)),
        holds_field(r@, "total_collisions"@, FieldView::Unsigned(report.tally.total_collisions as int)),
        holds_field(r@, "total_fissions"@, FieldView::Unsigned(report.tally.total_fissions as int)),
        holds_field(r@, "total_leakage"@, FieldView::Unsigned(report.tally.total_leakage as int)),
        report.tally.total_histories > 0 ==> holds_field(
            r@,
            "ns_per_history"@,
            FieldView::Number(figures.ns_per_history),
        ),
{
}

/// A table by name has each name once, with the last value that was given for it.
pub proof fn law_table_by_name_keeps_last_values(
    names: &Vec<String>,
    values: &Vec<Binary64>,
    r: Vec<(String, Binary64)>,
    k: int,
)
    requires
        call_ensures(table_by_name, (names, values), r),
        names@.len() == values@.len(),
        0 <= k < names@.len(),
        forall|j: int| k < j < names@.len() ==> (#[trigger] names@[j])@ != names@[k]@,
    ensures
        exists|i: int| 0 <= i < r@.len() && (#[trigger] r@[i]).0@ == names@[k]@ && r@[i].1 == values@[k],
        forall|i: int, j: int| 0 <= i < j < r@.len() ==> (#[trigger] r@[i]).0@ != (#[trigger] r@[j]).0@,
{
    law_table_holds_the_last_values(names@, values@, k);
    let d = entry_texts(r@);
    let i = choose|i: int| 0 <= i < d.len() && d[i] == (names@[k]@, values@[k]);
    assert(r@[i].0@ == names@[k]@);
    assert forall|i: int, j: int| 0 <= i < j < r@.len() implies (#[trigger] r@[i]).0@ != (#[trigger] r@[j]).0@ by {
        assert(d[i].0 != d[j].0);
    }
}

/// A run that is told nothing has fifty batches of five thousand particles, ten of them
/// inactive.
pub proof fn law_defaults_of_a_run(r: Settings)
    requires
        call_ensures(Settings::default, (), r),
    ensures
        r.batches == 50 && r.inactive == 10 && r.particles == 5000 && r.seed == 1,
{
}

} // verus!
