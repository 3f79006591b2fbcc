//! A table definition as one field of another frame.

use super::definition::{
    table_decoded, table_fits, table_frame, table_roundtrip, table_shrinks, table_valid,
    CreateTable, TableView,
};
use super::error::SchemaCodecError;
use vstd::prelude::*;

verus! {

/// Whether a definition is one that decoding can give.
#[verifier::opaque]
pub open spec fn part_valid(table: TableView) -> bool {
    table_valid(table)
}

/// Whether a definition can be written.
#[verifier::opaque]
pub open spec fn part_fits(table: TableView) -> bool {
    table_fits(table)
}

/// Decoding the frame of a definition gives it back.
pub proof fn part_roundtrip(table: TableView)
    requires
        part_valid(table),
        part_fits(table),
    ensures
        table_decoded(table_frame(table)) == Ok::<TableView, SchemaCodecError>(table),
{
    reveal(part_valid);
    reveal(part_fits);
    table_roundtrip(table);
}

/// A decoded definition can be written again, in no more bytes.
pub proof fn part_shrinks(b: Seq<u8>)
    ensures
        table_decoded(b) matches Ok(table) ==> part_valid(table) && part_fits(table)
            && table_frame(table).len() <= b.len(),
{
    reveal(part_valid);
    reveal(part_fits);
    table_shrinks(b);
}

/// Encode a definition.
pub fn encode_part(table: &CreateTable) -> (r: Vec<u8>)
    requires
        part_fits(table@),
    ensures
        r@ == table_frame(table@),
{
    reveal(part_fits);
    table.encode()
}

} // verus!
