//! What is recorded of a case for later study.

use crate::executor::{BackendUsed, ExecutionResult};
use crate::json::{
    in_braces, json_of_members, json_of_text, json_of_unsigned, json_rendered, object_value, on_one_line, render_json,
    text_value, unsigned_value,
};
use crate::result_processor::{backend_word, verdict_of, verdict_word, Deviation, Verdict};
use vstd::prelude::*;

verus! {

/// The numbers of a row as JSON values.
pub struct TelemetryNumbers {
    /// Seconds since the start of 1970.
    pub timestamp_unix: serde_json::Value,
    pub k_calc: serde_json::Value,
    pub k_sigma: serde_json::Value,
    pub k_ref: serde_json::Value,
    pub sigma_exp: serde_json::Value,
    pub delta_pcm: serde_json::Value,
    pub k_track: serde_json::Value,
    pub k_track_sigma: serde_json::Value,
    pub runtime_s: serde_json::Value,
    pub load_s: serde_json::Value,
}

/// What is recorded of a result, by name.
pub open spec fn telemetry_row(
    r: ExecutionResult,
    d: Deviation,
    n: TelemetryNumbers,
    extra: serde_json::Value,
) -> Seq<(Seq<char>, serde_json::Value)> {
    seq![
        ("timestamp_unix"@, n.timestamp_unix),
        ("case_id"@, json_of_text(Some(r.summary.case_id@))),
        ("seq"@, json_of_unsigned(r.summary.seq as u64)),
        ("total"@, json_of_unsigned(r.summary.total as u64)),
        ("source_path"@, json_of_text(Some(r.summary.source_path@))),
        ("verdict"@, json_of_text(Some(verdict_word(verdict_of(r.error is Some, d))))),
        ("backend"@, json_of_text(Some(backend_word(r.backend)))),
        ("k_calc"@, n.k_calc),
        ("k_sigma"@, n.k_sigma),
        ("k_ref"@, n.k_ref),
        ("sigma_exp"@, n.sigma_exp),
        ("delta_pcm"@, n.delta_pcm),
        ("k_track"@, n.k_track),
        ("k_track_sigma"@, n.k_track_sigma),
        ("runtime_s"@, n.runtime_s),
        ("load_s"@, n.load_s),
        ("n_histories"@, json_of_unsigned(r.n_histories)),
        (
            "error"@,
            json_of_text(
                match r.error {
                    Some(e) => Some(e@),
                    None => None,
                },
            ),
        ),
        ("extra"@, extra),
    ]
}

/// What a cache of the device holds, and how often it was of use.
#[derive(Clone, Copy, Debug, PartialEq, Eq, Structural)]
pub struct CacheUse {
    pub entries: u64,
    pub bytes: u64,
    pub hits: u64,
}

/// The caches of the device: cross sections by nuclide, and thermal scattering.
#[derive(Clone, Copy, Debug, PartialEq, Eq, Structural)]
pub struct DeviceCaches {
    pub per_nuclide: CacheUse,
    pub thermal: CacheUse,
}

/// The use of a cache as a JSON object.
pub open spec fn cache_object(c: CacheUse) -> serde_json::Value {
    json_of_members(
        seq![
            ("entries"@, json_of_unsigned(c.entries)),
            ("bytes"@, json_of_unsigned(c.bytes)),
            ("hits"@, json_of_unsigned(c.hits)),
        ],
    )
}

fn cache_value(c: CacheUse) -> (r: serde_json::Value)
    ensures
        r == cache_object(c),
{
    let mut members: Vec<(String, serde_json::Value)> = Vec::new();
    members.push(("entries".to_owned(), unsigned_value(c.entries)));
    members.push(("bytes".to_owned(), unsigned_value(c.bytes)));
    members.push(("hits".to_owned(), unsigned_value(c.hits)));
    assert(members@.map_values(|m: (String, serde_json::Value)| (m.0@, m.1)) =~= seq![
        ("entries"@, json_of_unsigned(c.entries)),
        ("bytes"@, json_of_unsigned(c.bytes)),
        ("hits"@, json_of_unsigned(c.hits)),
    ]);
    object_value(members)
}

/// What a row says of the state of the machine: the use of the device's caches, or
/// `null` where there is no device.
pub fn build_telemetry_extra(device: Option<DeviceCaches>) -> (r: serde_json::Value)
    ensures
        r == match device {
            Some(d) => json_of_members(
                seq![
                    ("per_nuclide_cache"@, cache_object(d.per_nuclide)),
                    ("sab_buffer_cache"@, cache_object(d.thermal)),
                ],
            ),
            None => json_of_text(None),
        },
{
    match device {
        None => text_value(None),
        Some(d) => {
            let mut members: Vec<(String, serde_json::Value)> = Vec::new();
            members.push(("per_nuclide_cache".to_owned(), cache_value(d.per_nuclide)));
            members.push(("sab_buffer_cache".to_owned(), cache_value(d.thermal)));
            assert(members@.map_values(|m: (String, serde_json::Value)| (m.0@, m.1)) =~= seq![
                ("per_nuclide_cache"@, cache_object(d.per_nuclide)),
                ("sab_buffer_cache"@, cache_object(d.thermal)),
            ]);
            object_value(members)
        },
    }
}

/// Writes what is recorded of results, one JSON object per case, each on a line of
/// its own.
#[derive(Clone, Copy, Debug)]
pub struct TelemetryWriter;

impl TelemetryWriter {
    /// The line of a result, with the line end that closes it.
    pub fn append(
        &self,
        result: &ExecutionResult,
        deviation: &Deviation,
        numbers: TelemetryNumbers,
        extra: serde_json::Value,
    ) -> (r: String)
        ensures
            r@ == json_rendered(json_of_members(telemetry_row(*result, *deviation, numbers, extra))) + "\n"@,
            r@.last() == '\n',
            on_one_line(r@.drop_last()),
            in_braces(r@.drop_last()),
    {
        let s = &result.summary;
        let verdict = Verdict::classify(result, deviation);
        let mut row: Vec<(String, serde_json::Value)> = Vec::new();
        row.push(("timestamp_unix".to_owned(), numbers.timestamp_unix));
        row.push(("case_id".to_owned(), text_value(Some(s.case_id.clone()))));
        row.push(("seq".to_owned(), unsigned_value(s.seq as u64)));
        row.push(("total".to_owned(), unsigned_value(s.total as u64)));
        row.push(("source_path".to_owned(), text_value(Some(s.source_path.clone()))));
        row.push(("verdict".to_owned(), text_value(Some(verdict.word().to_owned()))));
        row.push(("backend".to_owned(), text_value(Some(result.backend.word().to_owned()))));
        row.push(("k_calc".to_owned(), numbers.k_calc));
        row.push(("k_sigma".to_owned(), numbers.k_sigma));
        row.push(("k_ref".to_owned(), numbers.k_ref));
        row.push(("sigma_exp".to_owned(), numbers.sigma_exp));
        row.push(("delta_pcm".to_owned(), numbers.delta_pcm));
        row.push(("k_track".to_owned(), numbers.k_track));
        row.push(("k_track_sigma".to_owned(), numbers.k_track_sigma));
        row.push(("runtime_s".to_owned(), numbers.runtime_s));
        row.push(("load_s".to_owned(), numbers.load_s));
        row.push(("n_histories".to_owned(), unsigned_value(result.n_histories)));
        let error: Option<String> = match &result.error {
            Some(e) => Some(e.clone()),
            None => None,
        };
        row.push(("error".to_owned(), text_value(error)));
        row.push(("extra".to_owned(), extra));
        proof {
            reveal_strlit("\n");
            assert(row@.map_values(|m: (String, serde_json::Value)| (m.0@, m.1)) =~= telemetry_row(
                *result,
                *deviation,
                numbers,
                extra,
            ));
        }
        let mut line = match render_json(&object_value(row)) {
            Ok(text) => text,
            Err(_) => "{}".to_owned(),
        };
        let ghost text = line@;
        line.append("\n");
        assert(line@.drop_last() =~= text);
        line
    }
}

/// A row holds this value under this name.
pub open spec fn records(
    row: Seq<(Seq<char>, serde_json::Value)>,
    name: Seq<char>,
    value: serde_json::Value,
) -> bool {
    exists|j: int| 0 <= j < row.len() && #[trigger] row[j] == (name, value)
}

/// The line of a result is written from a row that holds, under their names, what the
/// case is called and where it stands, its grade, the device it ran on, its numbers,
/// its error where it has one, and the state of the machine.
pub proof fn law_row_records_the_result(
    writer: &TelemetryWriter,
    result: &ExecutionResult,
    deviation: &Deviation,
    n: TelemetryNumbers,
    extra: serde_json::Value,
    line: String,
    verdict: Verdict,
) -> (row: Seq<(Seq<char>, serde_json::Value)>)
    requires
        call_ensures(TelemetryWriter::append, (writer, result, deviation, n, extra), line),
        call_ensures(Verdict::classify, (result, deviation), verdict),
    ensures
        line@ == json_rendered(json_of_members(row)) + "\n"@,
        row.len() == 19,
        records(row, "timestamp_unix"@, n.timestamp_unix),
        records(row, "case_id"@, json_of_text(Some(result.summary.case_id@))),
        records(row, "seq"@, json_of_unsigned(result.summary.seq as u64)),
        records(row, "total"@, json_of_unsigned(result.summary.total as u64)),
        records(row, "source_path"@, json_of_text(Some(result.summary.source_path@))),
        verdict == Verdict::Pass ==> records(row, "verdict"@, json_of_text(Some("PASS"@))),
        verdict == Verdict::Fail ==> records(row, "verdict"@, json_of_text(Some("FAIL"@))),
        verdict == Verdict::Error ==> records(row, "verdict"@, json_of_text(Some("ERROR"@))),
        result.backend == BackendUsed::Cpu ==> records(row, "backend"@, json_of_text(Some("cpu"@))),
        result.backend == BackendUsed::Cuda ==> records(row, "backend"@, json_of_text(Some("cuda"@))),
        records(row, "k_calc"@, n.k_calc),
        records(row, "k_sigma"@, n.k_sigma),
        records(row, "k_ref"@, n.k_ref),
        records(row, "sigma_exp"@, n.sigma_exp),
        records(row, "delta_pcm"@, n.delta_pcm),
        records(row, "k_track"@, n.k_track),
        records(row, "k_track_sigma"@, n.k_track_sigma),
        records(row, "runtime_s"@, n.runtime_s),
        records(row, "load_s"@, n.load_s),
        records(row, "n_histories"@, json_of_unsigned(result.n_histories)),
        result.error matches Some(e) ==> records(row, "error"@, json_of_text(Some(e@))),
        result.error is None ==> records(row, "error"@, json_of_text(None)),
        records(row, "extra"@, extra),
{
    let row = telemetry_row(*result, *deviation, n, extra);
    assert(row[0] == ("timestamp_unix"@, n.timestamp_unix));
    assert(row[1] == ("case_id"@, json_of_text(Some(result.summary.case_id@))));
    assert(row[2] == ("seq"@, json_of_unsigned(result.summary.seq as u64)));
    assert(row[3] == ("total"@, json_of_unsigned(result.summary.total as u64)));
    assert(row[4] == ("source_path"@, json_of_text(Some(result.summary.source_path@))));
    assert(row[5] == ("verdict"@, json_of_text(Some(verdict_word(verdict)))));
    assert(row[6] == ("backend"@, json_of_text(Some(backend_word(result.backend)))));
    assert(row[7] == ("k_calc"@, n.k_calc));
    assert(row[8] == ("k_sigma"@, n.k_sigma));
    assert(row[9] == ("k_ref"@, n.k_ref));
    assert(row[10] == ("sigma_exp"@, n.sigma_exp));
    assert(row[11] == ("delta_pcm"@, n.delta_pcm));
    assert(row[12] == ("k_track"@, n.k_track));
    assert(row[13] == ("k_track_sigma"@, n.k_track_sigma));
    assert(row[14] == ("runtime_s"@, n.runtime_s));
    assert(row[15] == ("load_s"@, n.load_s));
    assert(row[16] == ("n_histories"@, json_of_unsigned(result.n_histories)));
    assert(row[17].0 == "error"@);
    assert(row[18] == ("extra"@, extra));
    row
}

/// The state of the machine is that of the two caches of its device, each with its
/// entries, bytes and hits, and `null` without a device.
pub proof fn law_extra_tells_of_the_caches(device: Option<DeviceCaches>, r: serde_json::Value)
    requires
        call_ensures(build_telemetry_extra, (device,), r),
    ensures
        device is None ==> r == json_of_text(None),
        device matches Some(d) ==> {
            let use_of = |c: CacheUse|
                json_of_members(
                    seq![
                        ("entries"@, json_of_unsigned(c.entries)),
                        ("bytes"@, json_of_unsigned(c.bytes)),
                        ("hits"@, json_of_unsigned(c.hits)),
                    ],
                );
            r == json_of_members(
                seq![("per_nuclide_cache"@, use_of(d.per_nuclide)), ("sab_buffer_cache"@, use_of(d.thermal))],
            )
        },
{
}

} // verus!
