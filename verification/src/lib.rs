//! Core engine of a day-precision personal ledger.
//!
//! The crate provides calendar primitives with exact day indexing, an
//! interval algebra over dates, span resolution relative to a reference
//! date, proportional allocation of monetary amounts, a disjoint-bucket
//! aggregation calendar, and a template instantiation engine with
//! structured diagnostics.

pub mod date;
pub mod entry;
pub mod fmtnum;
pub mod period;
pub mod record;
pub mod summary;
pub mod template;
