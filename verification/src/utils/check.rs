//! Field checks on the input edge table, run before validation starts.

use vstd::prelude::*;

use crate::table::{Column, EdgeTable, ValidationError};

verus! {

/// The error that checking one column reports: the column must be present
/// and must hold at least one row.
pub open spec fn field_error(table: EdgeTable, column: Column) -> Option<ValidationError> {
    if !table.has_column(column) {
        Some(ValidationError::SchemaFieldMissing(column))
    } else if table.column_len(column) == 0 {
        Some(ValidationError::EmptyColumn(column))
    } else {
        None
    }
}

/// Checks that `column` is present in `edges` and holds at least one row.
pub fn check_field(edges: &EdgeTable, column: Column) -> (r: Result<(), ValidationError>)
    ensures
        r matches Err(e) ==> field_error(*edges, column) == Some(e),
        r is Ok <==> field_error(*edges, column) is None,
{
    match edges.column_state(column) {
        None => Err(ValidationError::SchemaFieldMissing(column)),
        Some(0) => Err(ValidationError::EmptyColumn(column)),
        Some(_) => Ok(()),
    }
}

} // verus!
