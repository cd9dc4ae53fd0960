//! Grading a result and recording it.

use crate::binary64::{lemma_above_one, lemma_scaled_magnitude_increases, one, Binary64, EXPONENT_WEIGHT};
use crate::csv_table::{
    csv_line, csv_rows, csv_table, is_table, read_rows, text_rows, texts, write_line,
};
use crate::executor::{BackendUsed, ExecutionResult};
use crate::text::{decimal, decimal_text, holds_text};
use vstd::arithmetic::power2::{lemma2_to64, pow2};
use vstd::prelude::*;

verus! {

/// The grade of a case.
#[derive(Clone, Copy, Debug, PartialEq, Eq, Structural)]
pub enum Verdict {
    Pass,
    Fail,
    /// The engine did not finish the case, so there is nothing to grade.
    Error,
}

/// The bits of 150.0, the acceptance bound in pcm that no case falls below.
pub const BOUND_FLOOR_BITS: u64 = 0x4062_c000_0000_0000;

/// How far a result lies from its reference, in pcm.
#[derive(Clone, Copy, Debug, PartialEq, Eq, Structural)]
pub struct Deviation {
    /// Calculated minus reference factor.
    pub delta_pcm: Binary64,
    /// The accepted number of standard deviations times the combined standard
    /// deviation.
    pub envelope_pcm: Binary64,
}

/// `b` is the larger of the envelope and the floor; an envelope that is not a
/// number leaves the floor.
pub open spec fn is_bound(b: Binary64, d: Deviation) -> bool {
    let floor = Binary64 { bits: BOUND_FLOOR_BITS };
    if floor.less(d.envelope_pcm) {
        b == d.envelope_pcm
    } else {
        b.same_number(floor)
    }
}

/// The deviation lies within the bound.
pub open spec fn within_bound(d: Deviation) -> bool {
    let floor = Binary64 { bits: BOUND_FLOOR_BITS };
    let size = Binary64 { bits: d.delta_pcm.unsigned() as u64 };
    size.at_most(floor) || size.at_most(d.envelope_pcm)
}

impl Deviation {
    /// The acceptance bound in pcm.
    pub fn bound_pcm(&self) -> (r: Binary64)
        ensures
            is_bound(r, *self),
            !r.nan(),
    {
        proof {
            assert(!Binary64 { bits: BOUND_FLOOR_BITS }.nan());
        }
        self.envelope_pcm.max(Binary64::from_bits(BOUND_FLOOR_BITS))
    }
}

/// What a case with this error and this deviation is graded.
pub open spec fn verdict_of(errored: bool, d: Deviation) -> Verdict {
    if errored {
        Verdict::Error
    } else if within_bound(d) {
        Verdict::Pass
    } else {
        Verdict::Fail
    }
}

/// The word for a verdict in tables.
pub open spec fn verdict_word(v: Verdict) -> Seq<char> {
    match v {
        Verdict::Pass => "PASS"@,
        Verdict::Fail => "FAIL"@,
        Verdict::Error => "ERROR"@,
    }
}

/// The word for a backend in tables.
pub open spec fn backend_word(b: BackendUsed) -> Seq<char> {
    match b {
        BackendUsed::Cpu => "cpu"@,
        BackendUsed::Cuda => "cuda"@,
        BackendUsed::CpuVramDowngrade => "cpu_vram_downgrade"@,
    }
}

impl Verdict {
    /// Grades a result: an error is neither pass nor fail; otherwise the deviation
    /// has to lie within the bound.
    pub fn classify(result: &ExecutionResult, deviation: &Deviation) -> (r: Self)
        ensures
            r == verdict_of(result.error is Some, *deviation),
    {
        if result.error.is_some() {
            return Verdict::Error;
        }
        let size = deviation.delta_pcm.abs();
        proof {
            assert(size.bits == deviation.delta_pcm.unsigned() as u64);
        }
        if size.le(deviation.bound_pcm()) {
            Verdict::Pass
        } else {
            Verdict::Fail
        }
    }

    /// The word for the verdict in tables.
    pub fn word(self) -> (r: &'static str)
        ensures
            r@ == verdict_word(self),
    {
        match self {
            Verdict::Pass => "PASS",
            Verdict::Fail => "FAIL",
            Verdict::Error => "ERROR",
        }
    }
}

impl BackendUsed {
    /// The word for the backend in tables.
    pub fn word(self) -> (r: &'static str)
        ensures
            r@ == backend_word(self),
    {
        match self {
            BackendUsed::Cpu => "cpu",
            BackendUsed::Cuda => "cuda",
            BackendUsed::CpuVramDowngrade => "cpu_vram_downgrade",
        }
    }
}

/// How many standard deviations a result lies off: the quotient, or zero where
/// there is no spread to divide by.
pub fn sigma_ratio(sigma_combined: Binary64, quotient: Binary64) -> (r: Binary64)
    ensures
        (Binary64 { bits: 0 }).less(sigma_combined) ==> r == quotient,
        !(Binary64 { bits: 0 }).less(sigma_combined) ==> r.bits == 0,
{
    if Binary64::zero().lt(sigma_combined) {
        quotient
    } else {
        Binary64::zero()
    }
}

/// The columns of the result table.
pub open spec fn header_texts() -> Seq<Seq<char>> {
    seq![
        "case"@,
        "seq"@,
        "total"@,
        "verdict"@,
        "k_calc"@,
        "k_sigma"@,
        "k_ref"@,
        "sigma_exp"@,
        "delta_pcm"@,
        "bound_pcm"@,
        "sigma_ratio"@,
        "runtime_s"@,
        "load_s"@,
        "backend"@,
        "error"@,
    ]
}

/// The numbers of a row, as they are printed.
#[derive(Clone, Debug)]
pub struct RowNumbers {
    pub k_calc: String,
    pub k_sigma: String,
    pub k_ref: String,
    pub sigma_exp: String,
    pub delta_pcm: String,
    pub bound_pcm: String,
    pub sigma_ratio: String,
    pub runtime_s: String,
    pub load_s: String,
}

/// The row of a result.
pub open spec fn row_texts(result: ExecutionResult, verdict: Verdict, n: RowNumbers) -> Seq<Seq<char>> {
    seq![
        result.summary.case_id@,
        decimal(result.summary.seq as int),
        decimal(result.summary.total as int),
        verdict_word(verdict),
        n.k_calc@,
        n.k_sigma@,
        n.k_ref@,
        n.sigma_exp@,
        n.delta_pcm@,
        n.bound_pcm@,
        n.sigma_ratio@,
        n.runtime_s@,
        n.load_s@,
        backend_word(result.backend),
        match result.error {
            Some(e) => e@,
            None => Seq::empty(),
        },
    ]
}

fn header_row() -> (r: Vec<String>)
    ensures
        texts(r@) == header_texts(),
{
    let mut row: Vec<String> = Vec::new();
    row.push("case".to_owned());
    row.push("seq".to_owned());
    row.push("total".to_owned());
    row.push("verdict".to_owned());
    row.push("k_calc".to_owned());
    row.push("k_sigma".to_owned());
    row.push("k_ref".to_owned());
    row.push("sigma_exp".to_owned());
    row.push("delta_pcm".to_owned());
    row.push("bound_pcm".to_owned());
    row.push("sigma_ratio".to_owned());
    row.push("runtime_s".to_owned());
    row.push("load_s".to_owned());
    row.push("backend".to_owned());
    row.push("error".to_owned());
    assert(texts(row@) =~= header_texts());
    row
}

fn result_row(result: &ExecutionResult, verdict: Verdict, n: &RowNumbers) -> (r: Vec<String>)
    ensures
        texts(r@) == row_texts(*result, verdict, *n),
{
    let mut row: Vec<String> = Vec::new();
    row.push(result.summary.case_id.clone());
    row.push(decimal_text(result.summary.seq as u64));
    row.push(decimal_text(result.summary.total as u64));
    row.push(verdict.word().to_owned());
    row.push(n.k_calc.clone());
    row.push(n.k_sigma.clone());
    row.push(n.k_ref.clone());
    row.push(n.sigma_exp.clone());
    row.push(n.delta_pcm.clone());
    row.push(n.bound_pcm.clone());
    row.push(n.sigma_ratio.clone());
    row.push(n.runtime_s.clone());
    row.push(n.load_s.clone());
    row.push(result.backend.word().to_owned());
    match &result.error {
        Some(e) => {
            row.push(e.clone());
        },
        None => {
            row.push(String::new());
        },
    }
    assert(texts(row@) =~= row_texts(*result, verdict, *n));
    row
}

/// Writes the result table: each call gives the bytes to append to its file.
pub struct CsvWriter;

impl CsvWriter {
    /// What to append to the result file on opening it: the header where the file
    /// is missing or empty, nothing where a former sweep left rows.
    pub fn open(existing_len: Option<u64>) -> (r: (Self, Vec<u8>))
        ensures
            existing_len is None || existing_len == Some(0u64) ==> r.1@ == csv_line(header_texts()),
            existing_len is Some && existing_len->0 > 0 ==> r.1@ == Seq::<u8>::empty(),
    {
        let fresh: bool = match existing_len {
            None => true,
            Some(n) => n == 0,
        };
        let bytes: Vec<u8> = if fresh {
            write_line(&header_row())
        } else {
            Vec::new()
        };
        (CsvWriter, bytes)
    }

    /// What to append to the result file for one case.
    pub fn append(&self, result: &ExecutionResult, deviation: &Deviation, numbers: &RowNumbers) -> (r: Vec<u8>)
        ensures
            r@ == csv_line(
                row_texts(*result, verdict_of(result.error is Some, *deviation), *numbers),
            ),
    {
        let verdict = Verdict::classify(result, deviation);
        write_line(&result_row(result, verdict, numbers))
    }
}

/// `id` is the first field of a row, and not empty.
pub open spec fn names_case(row: Option<Seq<Seq<char>>>, id: Seq<char>) -> bool {
    row is Some && row->0.len() > 0 && row->0[0] == id && id.len() > 0
}

/// `id` is named by some row.
pub open spec fn is_completed(rows: Seq<Option<Seq<Seq<char>>>>, id: Seq<char>) -> bool {
    exists|i: int| 0 <= i < rows.len() && names_case(#[trigger] rows[i], id)
}

/// The list holds the text `id`.
pub open spec fn lists(ids: Seq<String>, id: Seq<char>) -> bool {
    exists|i: int| 0 <= i < ids.len() && (#[trigger] ids[i])@ == id
}

/// No text occurs twice in the list.
pub open spec fn distinct(ids: Seq<String>) -> bool {
    forall|i: int, j: int| 0 <= i < j < ids.len() ==> (#[trigger] ids[i])@ != (#[trigger] ids[j])@
}

/// The cases that rows name in their first field, each once.
pub fn completed_ids(rows: &Vec<Option<Vec<String>>>) -> (r: Vec<String>)
    ensures
        distinct(r@),
        forall|id: Seq<char>| #[trigger] lists(r@, id) <==> is_completed(text_rows(rows@), id),
{
    let mut ids: Vec<String> = Vec::new();
    let ghost all = text_rows(rows@);
    let mut i: usize = 0;
    while i < rows.len()
        invariant
            i <= rows@.len(),
            all == text_rows(rows@),
            distinct(ids@),
            forall|id: Seq<char>| #[trigger]
                lists(ids@, id) <==> exists|k: int| 0 <= k < i && names_case(#[trigger] all[k], id),
        decreases rows@.len() - i,
    {
        let ghost before = ids@;
        if let Some(fields) = &rows[i] {
            if fields.len() > 0 && !fields[0].as_str().is_empty() && !holds_text(&ids, fields[0].as_str()) {
                ids.push(fields[0].clone());
            }
        }
        proof {
            assert forall|id: Seq<char>| #[trigger] lists(ids@, id) <==> exists|k: int|
                0 <= k < i + 1 && names_case(#[trigger] all[k], id) by {
                if lists(before, id) {
                    let j = choose|j: int| 0 <= j < before.len() && (#[trigger] before[j])@ == id;
                    assert(ids@[j]@ == id);
                }
                if lists(ids@, id) && !lists(before, id) {
                    assert(ids@.last()@ == id);
                    assert(names_case(all[i as int], id));
                }
                if names_case(all[i as int], id) && !lists(before, id) {
                    assert(ids@.last()@ == id);
                    assert(ids@[ids@.len() - 1]@ == id);
                }
            }
        }
        i += 1;
    }
    ids
}

/// The cases that a result file already holds, given its bytes, or nothing where
/// there is no such file.
pub fn read_completed_case_ids(bytes: Option<Vec<u8>>) -> (r: Vec<String>)
    ensures
        distinct(r@),
        bytes is None ==> r@.len() == 0,
        bytes is Some ==> forall|id: Seq<char>| #[trigger]
            lists(r@, id) <==> is_completed(csv_rows(bytes->0@), id),
        bytes is Some ==> forall|rows: Seq<Seq<Seq<char>>>, id: Seq<char>|
            is_table(rows) && bytes->0@ == csv_table(rows) ==> (#[trigger] lists(r@, id) <==> recorded(
                #[trigger] csv_table(rows),
                rows,
                id,
            )),
{
    match bytes {
        None => Vec::new(),
        Some(b) => {
            let rows = read_rows(&b);
            let ids = completed_ids(&rows);
            proof {
                assert forall|table: Seq<Seq<Seq<char>>>, id: Seq<char>|
                    is_table(table) && b@ == csv_table(table) implies (#[trigger] lists(ids@, id) <==> recorded(
                    #[trigger] csv_table(table),
                    table,
                    id,
                )) by {
                    let below = table.skip(1).map_values(|row: Seq<Seq<char>>| Some(row));
                    assert(text_rows(rows@) == below);
                    if recorded(csv_table(table), table, id) {
                        let i = choose|i: int| 1 <= i < table.len() && #[trigger] table[i][0] == id;
                        assert(table[i].len() > 0);
                        assert(names_case(below[i - 1], id));
                    }
                    if is_completed(below, id) {
                        let i = choose|i: int| 0 <= i < below.len() && names_case(#[trigger] below[i], id);
                        assert(table[i + 1][0] == id);
                    }
                }
            }
            ids
        },
    }
}

/// A row below the header of a table begins with `id`, which is not empty.
pub open spec fn recorded(bytes: Seq<u8>, rows: Seq<Seq<Seq<char>>>, id: Seq<char>) -> bool {
    bytes == csv_table(rows) && id.len() > 0 && exists|i: int| 1 <= i < rows.len() && #[trigger] rows[i][0] == id
}

/// A file that holds the header and nothing else is a table.
pub proof fn law_header_starts_a_table()
    ensures
        is_table(seq![header_texts()]),
        csv_table(seq![header_texts()]) == csv_line(header_texts()),
{
    reveal_strlit("case");
    assert(seq![header_texts()].drop_last() =~= Seq::empty());
    assert(csv_table(Seq::empty()) =~= Seq::empty());
    assert(csv_table(seq![header_texts()]) =~= csv_line(header_texts()));
}

/// Appending the line of a result to a table gives a table with that row, and the
/// case of the row is then recorded, with every case that was recorded before.
pub proof fn law_appended_case_is_recorded(
    rows: Seq<Seq<Seq<char>>>,
    result: ExecutionResult,
    verdict: Verdict,
    numbers: RowNumbers,
)
    requires
        is_table(rows),
        result.summary.case_id@.len() > 0,
    ensures
        is_table(rows.push(row_texts(result, verdict, numbers))),
        csv_table(rows.push(row_texts(result, verdict, numbers))) == csv_table(rows) + csv_line(
            row_texts(result, verdict, numbers),
        ),
        recorded(
            csv_table(rows.push(row_texts(result, verdict, numbers))),
            rows.push(row_texts(result, verdict, numbers)),
            result.summary.case_id@,
        ),
        forall|id: Seq<char>|
            #![trigger recorded(csv_table(rows), rows, id)]
            recorded(csv_table(rows), rows, id) ==> recorded(
                csv_table(rows.push(row_texts(result, verdict, numbers))),
                rows.push(row_texts(result, verdict, numbers)),
                id,
            ),
{
    let row = row_texts(result, verdict, numbers);
    let longer = rows.push(row);
    assert(longer.drop_last() =~= rows);
    assert(longer[rows.len() as int][0] == result.summary.case_id@);
    assert forall|id: Seq<char>|
        #![trigger recorded(csv_table(rows), rows, id)]
        recorded(csv_table(rows), rows, id) implies recorded(csv_table(longer), longer, id) by {
        let i = choose|i: int| 1 <= i < rows.len() && #[trigger] rows[i][0] == id;
        assert(longer[i][0] == id);
    }
}

/// A wider envelope never turns a pass into a fail.
pub proof fn law_wider_envelope_keeps_passes(delta: Binary64, narrow: Binary64, wide: Binary64)
    requires
        narrow.at_most(wide),
        verdict_of(false, (Deviation { delta_pcm: delta, envelope_pcm: narrow })) == Verdict::Pass,
    ensures
        verdict_of(false, (Deviation { delta_pcm: delta, envelope_pcm: wide })) == Verdict::Pass,
{
}

/// The sign of the deviation does not matter.
pub proof fn law_verdict_ignores_sign(errored: bool, a: Binary64, b: Binary64, envelope: Binary64)
    requires
        a.unsigned() == b.unsigned(),
    ensures
        verdict_of(errored, (Deviation { delta_pcm: a, envelope_pcm: envelope })) == verdict_of(
            errored,
            (Deviation { delta_pcm: b, envelope_pcm: envelope }),
        ),
{
}

/// A deviation that is not a number never passes.
pub proof fn law_nan_never_passes(d: Deviation)
    requires
        d.delta_pcm.nan(),
    ensures
        verdict_of(false, d) == Verdict::Fail,
{
}

/// The floor of the bound is 150 times one.
proof fn lemma_floor_is_150()
    ensures
        !(Binary64 { bits: BOUND_FLOOR_BITS }).nan(),
        (Binary64 { bits: BOUND_FLOOR_BITS }).scaled() == 150 * one(),
        one() > 0,
{
    let x = Binary64 { bits: BOUND_FLOOR_BITS };
    assert(x.bits as int / EXPONENT_WEIGHT as int == 1030 && x.bits as int % EXPONENT_WEIGHT as int
        == 0x2_c000_0000_0000);
    let p = lemma_above_one(x, 7);
    lemma2_to64();
    assert(pow2(7) * p == 128 * p);
}

/// The size of a deviation as a number is its size as an exact value.
proof fn lemma_size_of_deviation(x: Binary64)
    ensures
        ({
            let size = Binary64 { bits: x.unsigned() as u64 };
            &&& size.nan() == x.nan()
            &&& size.scaled() == if x.scaled() < 0 {
                -x.scaled()
            } else {
                x.scaled()
            }
        }),
{
    if x.unsigned() > 0 {
        lemma_scaled_magnitude_increases(0, x.unsigned());
    }
}

/// A case without an error passes exactly where its deviation lies between minus
/// and plus the acceptance bound that is reported for it.
pub proof fn law_pass_means_within_the_bound(d: Deviation, b: Binary64)
    requires
        is_bound(b, d),
    ensures
        verdict_of(false, d) == Verdict::Pass <==> !d.delta_pcm.nan() && -b.scaled() <= d.delta_pcm.scaled()
            <= b.scaled(),
        verdict_of(false, d) != Verdict::Pass ==> verdict_of(false, d) == Verdict::Fail,
{
    lemma_size_of_deviation(d.delta_pcm);
    lemma_floor_is_150();
}

/// The grade of a result: an error exactly where the result has one, else a pass
/// exactly where the deviation, whatever its sign, is at most the bound.
pub proof fn law_grade_follows_the_reported_bound(
    result: &ExecutionResult,
    deviation: &Deviation,
    r: Verdict,
    bound: Binary64,
)
    requires
        call_ensures(Verdict::classify, (result, deviation), r),
        call_ensures(Deviation::bound_pcm, (deviation,), bound),
    ensures
        r == Verdict::Error <==> result.error is Some,
        r == Verdict::Pass <==> result.error is None && !deviation.delta_pcm.nan() && -bound.scaled()
            <= deviation.delta_pcm.scaled() <= bound.scaled(),
{
    law_pass_means_within_the_bound(*deviation, bound);
}

/// The bound is 150 pcm or the envelope, whichever is larger; an envelope that is
/// not a number does not count.
pub proof fn law_bound_is_the_larger(deviation: &Deviation, bound: Binary64)
    requires
        call_ensures(Deviation::bound_pcm, (deviation,), bound),
    ensures
        !bound.nan(),
        bound.scaled() >= 150 * one(),
        !deviation.envelope_pcm.nan() ==> bound.scaled() >= deviation.envelope_pcm.scaled(),
        bound.scaled() == 150 * one() || bound == deviation.envelope_pcm,
{
    lemma_floor_is_150();
}

/// A deviation beyond 150 pcm and beyond the envelope is a fail.
pub proof fn law_large_deviation_fails(result: &ExecutionResult, deviation: &Deviation, r: Verdict)
    requires
        call_ensures(Verdict::classify, (result, deviation), r),
        result.error is None,
        deviation.delta_pcm.scaled() > 150 * one()
            || -deviation.delta_pcm.scaled() > 150 * one(),
        deviation.envelope_pcm.nan() || deviation.delta_pcm.scaled() > deviation.envelope_pcm.scaled()
            || -deviation.delta_pcm.scaled() > deviation.envelope_pcm.scaled(),
    ensures
        r == Verdict::Fail,
{
    lemma_size_of_deviation(deviation.delta_pcm);
    lemma_floor_is_150();
}

/// A field of a row stands under the column of a name.
pub open spec fn under(row: Seq<Seq<char>>, column: Seq<char>, field: Seq<char>) -> bool {
    exists|j: int| 0 <= j < row.len() && header_texts()[j] == column && #[trigger] row[j] == field
}

/// The line of a result holds one field for each column of the header, and every
/// field stands under the column that names it.
pub proof fn law_fields_stand_under_their_columns(
    writer: &CsvWriter,
    result: &ExecutionResult,
    deviation: &Deviation,
    n: &RowNumbers,
    bytes: Vec<u8>,
    verdict: Verdict,
) -> (row: Seq<Seq<char>>)
    requires
        call_ensures(CsvWriter::append, (writer, result, deviation, n), bytes),
        call_ensures(Verdict::classify, (result, deviation), verdict),
    ensures
        bytes@ == csv_line(row),
        row.len() == header_texts().len(),
        under(row, "case"@, result.summary.case_id@),
        under(row, "seq"@, decimal(result.summary.seq as int)),
        under(row, "total"@, decimal(result.summary.total as int)),
        under(
            row,
            "verdict"@,
            if verdict == Verdict::Pass {
                "PASS"@
            } else if verdict == Verdict::Fail {
                "FAIL"@
            } else {
                "ERROR"@
            },
        ),
        under(row, "k_calc"@, n.k_calc@),
        under(row, "k_sigma"@, n.k_sigma@),
        under(row, "k_ref"@, n.k_ref@),
        under(row, "sigma_exp"@, n.sigma_exp@),
        under(row, "delta_pcm"@, n.delta_pcm@),
        under(row, "bound_pcm"@, n.bound_pcm@),
        under(row, "sigma_ratio"@, n.sigma_ratio@),
        under(row, "runtime_s"@, n.runtime_s@),
        under(row, "load_s"@, n.load_s@),
        under(
            row,
            "backend"@,
            if result.backend == BackendUsed::Cuda {
                "cuda"@
            } else if result.backend == BackendUsed::Cpu {
                "cpu"@
            } else {
                "cpu_vram_downgrade"@
            },
        ),
        under(
            row,
            "error"@,
            if result.error is Some {
                result.error->0@
            } else {
                Seq::empty()
            },
        ),
{
    let row = row_texts(*result, verdict, *n);
    assert(row[0] == result.summary.case_id@);
    assert(row[1] == decimal(result.summary.seq as int));
    assert(row[2] == decimal(result.summary.total as int));
    assert(row[3] == verdict_word(verdict));
    assert(row[4] == n.k_calc@);
    assert(row[5] == n.k_sigma@);
    assert(row[6] == n.k_ref@);
    assert(row[7] == n.sigma_exp@);
    assert(row[8] == n.delta_pcm@);
    assert(row[9] == n.bound_pcm@);
    assert(row[10] == n.sigma_ratio@);
    assert(row[11] == n.runtime_s@);
    assert(row[12] == n.load_s@);
    assert(row[13] == backend_word(result.backend));
    assert(header_texts()[14] == "error"@ && row[14] == row[14]);
    row
}

/// The header is written exactly once: to a file that is missing or empty.
pub proof fn law_header_is_written_to_an_empty_file(existing: Option<u64>, r: (CsvWriter, Vec<u8>))
    requires
        call_ensures(CsvWriter::open, (existing,), r),
    ensures
        existing is None ==> r.1@ == csv_line(header_texts()),
        existing matches Some(n) ==> (n == 0 ==> r.1@ == csv_line(header_texts())) && (n > 0 ==> r.1@.len() == 0),
{
}

/// A ratio is taken only over a positive spread.
pub proof fn law_ratio_needs_a_spread(sigma: Binary64, quotient: Binary64, r: Binary64)
    requires
        call_ensures(sigma_ratio, (sigma, quotient), r),
    ensures
        !sigma.nan() && sigma.scaled() > 0 ==> r == quotient,
        sigma.nan() || sigma.scaled() <= 0 ==> r.scaled() == 0 && !r.nan(),
{
}

} // verus!
