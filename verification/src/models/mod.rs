//! Contexts and the store that owns every entity.

pub mod context;
pub mod schema;
