//! The conversion pipeline's in-memory core: delimited text bytes in, a
//! spreadsheet cell plan out. Reading the source file, serializing the
//! worksheet to document bytes and emitting the encoded line happen at the
//! caller's edge.

use vstd::prelude::*;

use crate::table::{
    build_spreadsheet, fits_extents, plan_of, ConvertError, SpreadsheetDocument,
};
use crate::tabular::{csv_table_of, parse_tabular};

verus! {

/// Parses delimited text and maps it onto a spreadsheet in one step.
/// Succeeds exactly when the bytes conform to the dialect and the parsed
/// document fits the addressable extents; the resulting worksheet holds one
/// cell per field, at the field's own coordinates, and nothing else.
pub fn plan_from_bytes(input: &Vec<u8>) -> (r: Result<SpreadsheetDocument, ConvertError>)
    ensures
        r is Ok <==> (csv_table_of(input@) is Some && fits_extents(csv_table_of(input@)->Some_0)),
        r is Ok ==> r.unwrap()@ == plan_of(csv_table_of(input@)->Some_0),
        csv_table_of(input@) is None ==> r == Err::<SpreadsheetDocument, ConvertError>(
            ConvertError::MalformedInput,
        ),
        csv_table_of(input@) is Some && !fits_extents(csv_table_of(input@)->Some_0) ==> r
            == Err::<SpreadsheetDocument, ConvertError>(ConvertError::CapacityExceeded),
{
    match parse_tabular(input) {
        Ok(doc) => build_spreadsheet(&doc),
        Err(e) => Err(e),
    }
}

} // verus!
