//! Column-name resolution over a chain of row scopes, as used while evaluating
//! row-filtering predicates over joined and nested row sources.

pub mod blend;
pub mod data;
pub mod filter_context;
pub mod laws;
mod text;
