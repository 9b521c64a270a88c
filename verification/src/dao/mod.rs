//! The repositories kept in the catalog's database: domains, APIs, tiers,
//! environments, deployments and metrics.
pub mod catalog;
pub mod repo_apis;
pub mod repo_domains;
pub mod repo_envs;
pub mod repo_metrics;

use vstd::prelude::*;
use vstd::string::*;
use crate::shared::settings::Database;

verus! {

/// The name of the database file inside the configured directory.
pub const DATABASE_FILE: &'static str = "/apis-catalog-all.db";

/// The path of the database file: the configured directory followed by
/// `/apis-catalog-all.db`.
pub fn database_file(config: &Database) -> (r: String)
    ensures
        r@ == config.rusqlite_path@ + DATABASE_FILE@,
{
    let mut db_path = config.rusqlite_path.clone();
    db_path.append(DATABASE_FILE);
    db_path
}

} // verus!
