//! Conversion of delimited tabular text into a single-sheet spreadsheet cell
//! plan, together with a printable radix-64 transport encoding for the
//! serialized document bytes.
//!
//! The pipeline has three stages: parse delimited text into a
//! [`table::TabularDocument`], map every row/field pair onto a spreadsheet
//! cell at the same coordinates, and encode the serialized spreadsheet bytes
//! as a single line of printable text.

pub mod codec;
pub mod convert;
pub mod table;
pub mod tabular;
