//! Marker type for the typed-dump reader.
//!
//! The reader itself does I/O and lives in the surrounding application:
//! it loads the per-datatype tables of a dump and hands the core one
//! edge table with a `dtype` column.

use vstd::prelude::*;

verus! {

/// The reader of typed relational dumps.
pub struct DumpUtils;

} // verus!
