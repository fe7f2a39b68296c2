//! The settings record.

use vstd::prelude::*;

verus! {

/// Where the database is reached and how it may be used.
#[derive(Debug)]
pub struct Config {
    pub database_url: String,
    pub max_connections: u32,
    pub timeout: u32,
}

impl Config {
    /// The settings as given.
    pub fn new(database_url: &str, max_connections: u32, timeout: u32) -> (r: Self)
        ensures
            r.database_url@ == database_url@,
            r.max_connections == max_connections,
            r.timeout == timeout,
    {
        Config { database_url: database_url.to_owned(), max_connections, timeout }
    }
}

} // verus!
