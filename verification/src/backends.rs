//! Marker types for ingest and egress backends.
//!
//! The verified core works on plain edge tables; reading and writing
//! them is the surrounding application's business.  The application
//! implements its backend trait for these markers and hands the core an
//! `EdgeTable`.

use vstd::prelude::*;

verus! {

/// The DuckDB database backend: the application reads an edge table out
/// of a relational dump.
pub struct DuckDB;

} // verus!
