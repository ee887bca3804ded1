//! An interactive item picker's verified core: a query over whitespace-separated
//! terms, case-insensitive substring matching, an incrementally maintained match
//! set over a growing item list, and cursor/viewport pagination.

pub mod engine;
pub mod match_list;
pub mod query;
pub mod render;
pub mod session;
pub mod text;
