//! Server configuration: the listening address, TLS material paths, and the
//! secret that salts password hashes and access tokens. Reading and writing
//! the configuration file is left to the surrounding application.
use vstd::prelude::*;

verus! {

pub struct Config {
    pub binding: String,
    pub ssl_key_path: String,
    pub ssl_cert_path: String,
    pub secret: String,
}

} // verus!
