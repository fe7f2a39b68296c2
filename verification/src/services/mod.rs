//! The service through which entities are attached to contexts.

pub mod context_service;
