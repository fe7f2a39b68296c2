//! Lookup of entities by what their properties hold.

pub mod query;
pub mod route;
