//! The configuration of the command line client.
use vstd::prelude::*;

verus! {

/// Where the catalog server listens.
#[derive(Debug, Clone)]
pub struct Server {
    pub address: String,
}

/// The configuration.
#[derive(Debug, Clone)]
pub struct Settings {
    pub server: Server,
}

} // verus!
