//! Settings of the process that hosts the store.

pub mod config;
