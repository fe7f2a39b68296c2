//! An in-process graph store: labelled nodes and directed edges with string
//! properties, grouped under named contexts.
//!
//! * `database` holds the entities, nodes and edges, and the property table
//!   that each entity carries.
//! * `models` holds contexts and the store that owns every entity.
//! * `services` holds the service that lets a node or an edge in only for a
//!   context that exists.
//! * `api` holds the exact-match queries by property and the grammar of the
//!   requests that a front end receives.
//! * `config` holds the settings record.
//! * `text` compares strings.
//!
//! Every data type has a view made of integers, sequences of characters and
//! maps; the contracts speak of these views.

pub mod api;
pub mod config;
pub mod database;
pub mod models;
pub mod services;
pub mod text;
