//! The service's configuration values. Reading them from the process
//! environment is the embedding program's business; the library only
//! defines what a configuration holds.

use vstd::prelude::*;

verus! {

/// The values the service starts with.
#[derive(Debug, Clone)]
pub struct Config {
    /// The database connection string.
    pub db_dsn: String,
    /// The port the service listens on.
    pub listen: u16,
    /// The root API key, when one is configured.
    pub root_api_key: Option<String>,
    /// The root API secret, when one is configured.
    pub root_api_secret: Option<String>,
    /// Whether diagnostic output is enabled.
    pub debug: bool,
}

} // verus!
