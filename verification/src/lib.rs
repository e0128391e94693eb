//! Validation of integer edge tables against shape-expression schemas.
//!
//! A schema is a tree of constraint nodes (`shape::shex::Shape`).  The
//! validator decomposes the tree into levels, deepest constraints first
//! (`shape::shape_tree::ShapeTree`), and runs one bulk-synchronous
//! superstep per level over a columnar edge table (`pschema::PSchema`),
//! growing a `labels` list per vertex.  The result is the subset of edges
//! whose source vertex carries at least one label.

pub mod backends;
pub mod dtype;
pub mod duckdb_dump;
pub mod id;
pub mod pschema;
pub mod shape;
pub mod table;
pub mod utils;
