//! A minimal single-table query engine: an in-memory column-major table,
//! a small textual query language (`PROJECT <cols> FILTER <col> <op> <value>, ...`),
//! and a lazy filter/projection engine that yields the matching, projected rows.

pub mod error;
pub mod text;
pub mod filter;
pub mod table;
pub mod csv_table;
pub mod parser;
