//! A model for the web server's configuration.
//!
//! The values live here as plain data; reading a configuration file and
//! parsing it happen outside the library.

use vstd::prelude::*;

verus! {

/// Configuration related to the database.
pub struct DatabaseConfig {
    /// The URL to use to connect to the database (e.g.
    /// `"sqlite:///tmp/recipes.db"`).
    pub connection_url: String,

    /// The maximum number of connections to establish with the database.
    pub max_connections: u32,
}

/// Configuration related to the HTTP server.
pub struct ServerConfig {
    /// The textual form of the IP address on which to serve the HTTP
    /// server.
    pub ip_address: String,

    /// The port on which to serve the HTTP server.
    pub port: u16,
}

/// The minimum verbosity below which logs are ignored.
#[derive(Clone, Copy, PartialEq, Eq, Structural, Debug)]
pub enum LogLevel {
    Off,
    Error,
    Warn,
    Info,
    Debug,
    Trace,
}

/// Configuration related to logging.
pub struct LoggingConfig {
    /// The path of the file to which logs are written.
    pub log_file_path: String,

    /// The minimum verbosity below which logs are ignored.
    pub verbosity: LogLevel,
}

/// A model for the web server's configuration.
pub struct Config {
    /// The server's database-related configuration.
    pub database: DatabaseConfig,

    /// The server's HTTP/hosting-related configuration.
    pub server: ServerConfig,

    /// The server's logging-related configuration.
    pub logging: LoggingConfig,
}

/// The number of database connections used when the configuration names
/// none.
pub fn default_max_connections() -> (v: u32)
    ensures
        v == 16,
{
    16
}

} // verus!
