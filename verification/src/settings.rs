//! The configuration of the first server: one catalog and the database.
use vstd::prelude::*;

verus! {

/// The source repository server and its credentials.
#[derive(Debug, Clone)]
pub struct StashConfig {
    pub base_uri: String,
    pub user: String,
    pub pwd: String,
}

/// Where the database lives.
#[derive(Debug, Clone)]
pub struct Database {
    pub rusqlite_path: String,
}

/// The configuration.
#[derive(Debug, Clone)]
pub struct Settings {
    pub catalog_path: String,
    pub catalog_dir: String,
    pub stash_config: StashConfig,
    pub database: Database,
}

} // verus!
