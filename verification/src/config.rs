//! Configuration values the service is constructed from. Reading and
//! parsing the configuration file stays with the caller; the library
//! only holds the parsed values.

use vstd::prelude::*;

verus! {

/// Whole service configuration.
#[derive(Debug, Clone)]
pub struct Config {
    /// HTTP settings.
    pub http: ConfigHTTP,
    /// Session-token settings.
    pub jwt: ConfigJWT,
    /// Storage settings.
    pub storage: ConfigStorage,
}

/// HTTP settings.
#[derive(Debug, Clone)]
pub struct ConfigHTTP {
    /// Host to bind.
    pub host: String,
    /// Port to bind.
    pub port: u16,
    /// Origins allowed by cross-origin resource sharing.
    pub cors: Vec<String>,
}

/// Session-token settings.
#[derive(Debug, Clone)]
pub struct ConfigJWT {
    /// Secret the tokens are signed with.
    pub secret: String,
    /// Token validity window in hours.
    pub expires: i64,
}

/// Storage settings.
#[derive(Debug, Clone)]
pub struct ConfigStorage {
    /// Directory under which every user's files live.
    pub path: String,
}

} // verus!
