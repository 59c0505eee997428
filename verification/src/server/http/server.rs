//! Settings of the HTTP server.
use vstd::prelude::*;

verus! {

/// Settings of the HTTP server.
#[derive(Clone, Copy)]
pub struct Config {
    /// Whether the server runs.
    pub enabled: bool,
    /// The port on which it listens.
    pub port: u16,
}

impl Default for Config {
    fn default() -> (config: Self)
        ensures
            config.enabled,
            config.port == 19000,
    {
        Config { enabled: true, port: 19000 }
    }
}

}
