//! The server's settings.
use vstd::prelude::*;

verus! {

/// Where the server keeps its data, which relays it listens to, and where
/// it serves requests.
pub struct Config {
    /// Connection string of the database.
    pub pg_url: String,
    /// Relays to connect to.
    pub relay: Vec<String>,
    /// Path of the event database.
    pub events_db: String,
    /// Address the web server binds to.
    pub bind: String,
    /// Port the web server listens on.
    pub port: u16,
}

} // verus!
