//! The entities of the graph and the property table they carry.

pub mod edge;
pub mod node;
pub mod properties;
