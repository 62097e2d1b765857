//! Query building, formatting and viewer decisions of a desktop Parquet reader.
use vstd::prelude::*;

pub mod text;
pub mod query;
pub mod formatting;
pub mod duckdb_service;
pub mod viewer;

verus! {

} // verus!
