//! Reading a comma-separated table from bytes. The `csv` crate does the
//! reading; what it returns is taken on trust and named, not restated.

use vstd::prelude::*;
use crate::loader::{kept_rows, load_rows, row_texts, skipped_rows, table_texts, Dataset};

verus! {

/// One record as `csv` holds it.
#[verifier::external_type_specification]
#[verifier::external_body]
pub struct ExStringRecord(csv::StringRecord);

/// The error that `csv` reports.
#[verifier::external_type_specification]
#[verifier::external_body]
pub struct ExCsvError(csv::Error);

/// The records that a `csv::Reader` yields from `data`, each as the texts of
/// its fields, or `None` where it reports an error before the end. The reader
/// is built with `flexible(true)` and otherwise with the default settings: the
/// first line is a header and is not among the records, and the records may
/// differ in their number of fields.
pub uninterp spec fn csv_records(data: Seq<u8>) -> Option<Seq<Seq<Seq<char>>>>;

/// The texts of the fields of a record, in order.
pub uninterp spec fn record_cells(record: csv::StringRecord) -> Seq<Seq<char>>;

/// Builds a reader with `csv::ReaderBuilder::flexible(true)` and
/// `ReaderBuilder::from_reader` on the bytes, and collects what
/// `Reader::records` yields. Trusted: the outcome is the one that
/// [`csv_records`] names, an error where that is `None`, and otherwise records
/// whose fields are the named texts.
#[verifier::external_body]
fn read_records(data: &[u8]) -> (r: Result<Vec<csv::StringRecord>, csv::Error>)
    ensures
        match r {
            Ok(records) => csv_records(data@) == Some(
                Seq::new(records.len() as nat, |i: int| record_cells(records[i])),
            ),
            Err(_) => csv_records(data@).is_none(),
        },
{
    csv::ReaderBuilder::new().flexible(true).from_reader(data).records().collect()
}

/// Calls `csv::StringRecord::len`. Trusted: it returns the number of fields.
#[verifier::external_body]
fn cell_count(record: &csv::StringRecord) -> (n: usize)
    ensures
        n == record_cells(*record).len(),
{
    record.len()
}

/// Calls `csv::StringRecord::get`. Trusted: it returns the text of the field
/// at `index`, and `None` exactly where the record has no such field.
#[verifier::external_body]
fn cell<'a>(record: &'a csv::StringRecord, index: usize) -> (r: Option<&'a str>)
    ensures
        match r {
            Some(text) => index < record_cells(*record).len() && text@ == record_cells(
                *record,
            )[index as int],
            None => index >= record_cells(*record).len(),
        },
{
    record.get(index)
}

/// Calls `to_string` on a `csv::Error`. Nothing is claimed of the text.
#[verifier::external_body]
fn error_text(error: &csv::Error) -> (text: String) {
    error.to_string()
}

/// The table could not be read as comma-separated values.
#[derive(Debug)]
pub struct LoadError {
    /// What the reader reported.
    pub detail: String,
}

/// Copies the fields of a record into strings.
fn cells_of(record: &csv::StringRecord) -> (cells: Vec<String>)
    ensures
        row_texts(cells@) == record_cells(*record),
{
    let n: usize = cell_count(record);
    let mut cells: Vec<String> = Vec::new();
    let mut i: usize = 0;
    while i < n
        invariant
            n == record_cells(*record).len(),
            i <= n,
            cells.len() == i,
            forall|j: int| 0 <= j < i ==> cells[j]@ == record_cells(*record)[j],
        decreases n - i,
    {
        if let Some(text) = cell(record, i) {
            cells.push(text.to_owned());
        }
        i = i + 1;
    }
    assert(row_texts(cells@) =~= record_cells(*record));
    cells
}

/// Reads a comma-separated table whose first line is a header, and loads its
/// rows. A table that cannot be read gives an error; a row that cannot be
/// understood, or that lacks a cell, is only left out.
pub fn read_dataset(data: &[u8]) -> (r: Result<Dataset, LoadError>)
    ensures
        match csv_records(data@) {
            Some(table) => {
                &&& table.len() <= usize::MAX
                &&& r matches Ok(d) && d.individuals@ == kept_rows(table, table.len())
                    && d.skipped@ == skipped_rows(table, table.len()) && forall|k: int|
                    0 <= k < d.individuals.len() ==> (#[trigger] d.individuals[k]).id == k
            },
            None => r.is_err(),
        },
{
    match read_records(data) {
        Err(error) => Err(LoadError { detail: error_text(&error) }),
        Ok(records) => {
            let n: usize = records.len();
            let ghost table = csv_records(data@).unwrap();
            let mut rows: Vec<Vec<String>> = Vec::new();
            let mut i: usize = 0;
            while i < n
                invariant
                    n == records.len(),
                    n == table.len(),
                    i <= n,
                    rows.len() == i,
                    forall|j: int| 0 <= j < n ==> table[j] == record_cells(#[trigger] records[j]),
                    forall|j: int| 0 <= j < i ==> row_texts(#[trigger] rows[j]@) == table[j],
                decreases n - i,
            {
                let cells = cells_of(&records[i]);
                rows.push(cells);
                i = i + 1;
            }
            assert(table_texts(rows@) =~= table);
            Ok(load_rows(rows.as_slice()))
        },
    }
}

} // verus!
