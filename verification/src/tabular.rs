//! Parsing of delimited tabular text (comma separator, double-quote quoting,
//! doubled-quote escaping, `\n` or `\r\n` row separators) into a
//! [`TabularDocument`]. The dialect itself is delegated to the `csv` crate;
//! what that parser returns for given bytes is named by [`csv_table_of`] and
//! everything downstream is stated over that name.

use vstd::prelude::*;

use crate::table::{ConvertError, TabularDocument};

verus! {

#[verifier::external_type_specification]
#[verifier::external_body]
pub struct ExCsvError(csv::Error);

/// What the `csv` crate's parser yields for the given bytes: the rows in
/// input order, each row its fields in left-to-right order, or nothing if
/// the bytes violate the dialect. The outcome depends on the bytes alone.
pub uninterp spec fn csv_table_of(bytes: Seq<u8>) -> Option<Seq<Seq<Seq<char>>>>;

/// Relies on `csv::ReaderBuilder` / `csv::Reader`: parses comma-separated
/// records with double-quote quoting and doubled-quote escaping, rows in
/// input order, no header row (`has_headers(false)`), unequal field counts
/// allowed (`flexible(true)`); empty input yields no records. Fails on bytes
/// that violate the dialect and aborts at the first bad record.
#[verifier::external_body]
fn read_rows(bytes: &[u8]) -> (r: Result<Vec<Vec<String>>, csv::Error>)
    ensures
        r is Ok <==> csv_table_of(bytes@) is Some,
        r is Ok ==> Some(r.unwrap().deep_view()) == csv_table_of(bytes@),
        bytes@.len() == 0 ==> r is Ok && r.unwrap().deep_view() == Seq::<Seq<Seq<char>>>::empty(),
{
    let mut reader = csv::ReaderBuilder::new().has_headers(false).flexible(true).from_reader(
        bytes,
    );
    let mut rows: Vec<Vec<String>> = Vec::new();
    for record in reader.records() {
        let record = record?;
        let mut row: Vec<String> = Vec::new();
        for field in record.iter() {
            row.push(field.to_string());
        }
        rows.push(row);
    }
    Ok(rows)
}

/// Parses delimited tabular text into a document: rows in input order, each
/// row's own field count kept (no padding or truncation), zero data rows
/// allowed. Fails with `MalformedInput` exactly when the bytes violate the
/// dialect; no partial document is returned.
pub fn parse_tabular(bytes: &Vec<u8>) -> (r: Result<TabularDocument, ConvertError>)
    ensures
        r is Ok <==> csv_table_of(bytes@) is Some,
        r is Ok ==> Some(r.unwrap()@) == csv_table_of(bytes@),
        r is Err ==> r->Err_0 == ConvertError::MalformedInput,
        bytes@.len() == 0 ==> r is Ok && r.unwrap()@ == Seq::<Seq<Seq<char>>>::empty(),
{
    match read_rows(bytes.as_slice()) {
        Ok(rows) => Ok(TabularDocument { rows }),
        Err(_) => Err(ConvertError::MalformedInput),
    }
}

} // verus!
