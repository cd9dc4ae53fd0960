//! Tables in comma-separated form.

use vstd::prelude::*;

verus! {

/// The texts of a row.
pub open spec fn texts(row: Seq<String>) -> Seq<Seq<char>> {
    row.map_values(|s: String| s@)
}

/// The texts of the rows that a reader made out.
pub open spec fn text_rows(rows: Seq<Option<Vec<String>>>) -> Seq<Option<Seq<Seq<char>>>> {
    rows.map_values(
        |row: Option<Vec<String>>|
            match row {
                Some(fields) => Some(texts(fields@)),
                None => None,
            },
    )
}

/// The bytes that a `csv::Writer` with its default settings makes of one row.
pub uninterp spec fn csv_line(row: Seq<Seq<char>>) -> Seq<u8>;

/// The rows that a flexible `csv::Reader` makes out below the header, nothing
/// standing for a row that is not valid text.
pub uninterp spec fn csv_rows(bytes: Seq<u8>) -> Seq<Option<Seq<Seq<char>>>>;

/// The bytes of several rows, one after the other.
pub open spec fn csv_table(rows: Seq<Seq<Seq<char>>>) -> Seq<u8>
    decreases rows.len(),
{
    if rows.len() == 0 {
        Seq::empty()
    } else {
        csv_table(rows.drop_last()) + csv_line(rows.last())
    }
}

/// A header and rows that all have a field, with a header that does not begin with
/// the byte order mark that a reader drops.
pub open spec fn is_table(rows: Seq<Seq<Seq<char>>>) -> bool {
    &&& rows.len() > 0
    &&& forall|i: int| 0 <= i < rows.len() ==> (#[trigger] rows[i]).len() > 0
    &&& rows[0][0].len() > 0 ==> rows[0][0][0] != '\u{feff}'
}

/// `csv::Writer::write_record` on a writer into memory. Claimed: the bytes depend
/// on the texts of the row alone.
#[verifier::external_body]
pub(crate) fn write_line(row: &Vec<String>) -> (r: Vec<u8>)
    ensures
        r@ == csv_line(texts(row@)),
{
    let mut writer = csv::WriterBuilder::new().from_writer(Vec::new());
    writer.write_record(row).expect("writing to memory does not fail");
    writer.into_inner().expect("writing to memory does not fail")
}

/// The records of a flexible `csv::Reader` with a header, over bytes in memory.
/// Claimed: they depend on the bytes alone, and where the bytes are a header and
/// rows as `csv::Writer` writes them, they are those rows without the header.
#[verifier::external_body]
pub(crate) fn read_rows(bytes: &Vec<u8>) -> (r: Vec<Option<Vec<String>>>)
    ensures
        text_rows(r@) == csv_rows(bytes@),
        forall|rows: Seq<Seq<Seq<char>>>|
            is_table(rows) && bytes@ == #[trigger] csv_table(rows) ==> text_rows(r@) == rows.skip(1).map_values(
                |row: Seq<Seq<char>>| Some(row),
            ),
{
    csv::ReaderBuilder::new()
        .has_headers(true)
        .flexible(true)
        .from_reader(bytes.as_slice())
        .into_records()
        .map(|record| record.ok().map(|fields| fields.iter().map(String::from).collect()))
        .collect()
}

} // verus!
