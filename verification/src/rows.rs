//! Rows of comma-separated text, as the `csv` crate reads them.

use vstd::prelude::*;

verus! {

/// `csv::Reader`, the reader of rows, held as a value that cannot be
/// looked into.
#[verifier::external_type_specification]
#[verifier::external_body]
#[verifier::reject_recursive_types(R)]
pub struct ExReader<R>(csv::Reader<R>);

/// `csv::Error`, what `csv` reports for a row that it cannot give out, held
/// as a value that cannot be looked into.
#[verifier::external_type_specification]
#[verifier::external_body]
pub struct ExError(csv::Error);

/// The views of the fields of a row.
pub open spec fn texts(fields: Seq<String>) -> Seq<Seq<char>> {
    fields.map_values(|field: String| field@)
}

/// The rows that `csv` reads out of `data` when it trims every field and
/// sets no row apart as a header: for each row in order its fields, or
/// nothing for a row that `csv` reports as an error.
pub uninterp spec fn csv_rows(data: Seq<u8>) -> Seq<Option<Seq<Seq<char>>>>;

/// The rows that `reader` has yet to give out.
pub uninterp spec fn pending(reader: csv::Reader<&[u8]>) -> Seq<Option<Seq<Seq<char>>>>;

/// Calls `csv::ReaderBuilder::from_reader` on `data`, on a builder set to
/// trim all fields and to treat the first row like any other. The claim is
/// only that what the reader will give out is a function of `data`.
#[verifier::external_body]
pub(crate) fn reader_over(data: &[u8]) -> (reader: csv::Reader<&[u8]>)
    ensures
        pending(reader) == csv_rows(data@),
{
    csv::ReaderBuilder::new().has_headers(false).trim(csv::Trim::All).from_reader(data)
}

/// Calls `csv::Reader::read_record`, which reads the next row into a
/// `StringRecord`. The claim: at the end of the input it returns nothing
/// and the reader stays as it is; otherwise it takes the first pending row
/// off the reader and returns its fields, or the error where `csv` reports
/// one for that row.
#[verifier::external_body]
pub(crate) fn read_row(reader: &mut csv::Reader<&[u8]>) -> (row: Option<
    Result<Vec<String>, csv::Error>,
>)
    ensures
        match row {
            None => pending(*old(reader)).len() == 0 && pending(*final(reader)) == pending(
                *old(reader),
            ),
            Some(outcome) => {
                &&& pending(*old(reader)).len() > 0
                &&& pending(*final(reader)) == pending(*old(reader)).skip(1)
                &&& match outcome {
                    Ok(fields) => pending(*old(reader))[0] == Some(texts(fields@)),
                    Err(_) => pending(*old(reader))[0] is None,
                }
            },
        },
{
    let mut record = csv::StringRecord::new();
    match reader.read_record(&mut record) {
        Ok(true) => Some(Ok(record.iter().map(String::from).collect())),
        Ok(false) => None,
        Err(error) => Some(Err(error)),
    }
}

} // verus!
