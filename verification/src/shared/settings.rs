//! The server's configuration: catalogs, database, server and repositories.
use vstd::prelude::*;
use crate::text::str_eq;

verus! {

#[derive(Debug, Clone)]
pub struct StashConfig {
    pub base_uri: String,
    pub access_token: String,
}

#[derive(Debug, Clone)]
pub struct Server {
    pub bind_adress: String,
    pub static_resources_path: String,
}

#[derive(Debug, Clone)]
pub struct Database {
    pub rusqlite_path: String,
}

#[derive(Debug, Clone)]
pub struct DomainRepoType {
    pub domain_impl: String,
    pub domain_catalog_path: String,
}

#[derive(Debug, Clone)]
pub struct SystemsAndLayers {
    pub systems_catalog_path: String,
}

/// A catalog of specifications: a directory (usually a clone of a
/// repository) and the commands that clone and refresh it.
#[derive(Debug, Clone)]
pub struct Catalog {
    pub catalog_id: String,
    pub catalog_name: String,
    pub catalog_path: String,
    pub catalog_dir: String,
    pub catalog_scm_clone_cmd: String,
    pub catalog_scm_pull_cmd: String,
    pub catalog_scm_clone: bool,
    pub catalog_http_base_uri: String,
    pub catalog_include_glob_pattern: Vec<String>,
}

#[derive(Debug, Clone)]
pub struct Settings {
    pub catalogs: Vec<Catalog>,
    pub stash_config: StashConfig,
    pub database: Database,
    pub server: Server,
    pub domain_repo_type: DomainRepoType,
    pub systems_and_layers: SystemsAndLayers,
}

/// The index of the last catalog whose id is `id`.
pub open spec fn last_catalog_index(catalogs: Seq<Catalog>, id: Seq<char>) -> Option<int>
    decreases catalogs.len(),
{
    if catalogs.len() == 0 {
        None
    } else if catalogs.last().catalog_id@ == id {
        Some(catalogs.len() - 1)
    } else {
        last_catalog_index(catalogs.drop_last(), id)
    }
}

pub proof fn lemma_last_catalog_index_bounds(catalogs: Seq<Catalog>, id: Seq<char>)
    ensures
        last_catalog_index(catalogs, id) matches Some(i) ==> 0 <= i < catalogs.len() && catalogs[i].catalog_id@ == id,
    decreases catalogs.len(),
{
    if catalogs.len() > 0 {
        lemma_last_catalog_index_bounds(catalogs.drop_last(), id);
    }
}

/// The catalog with the given id (the last one, when several share it).
pub fn get_catalog_by_id<'a>(catalogs: &'a Vec<Catalog>, id: &str) -> (r: Option<&'a Catalog>)
    ensures
        match last_catalog_index(catalogs@, id@) {
            Some(i) => r matches Some(c) && *c == catalogs@[i],
            None => r is None,
        },
{
    let mut i = catalogs.len();
    proof {
        assert(catalogs@.subrange(0, i as int) =~= catalogs@);
    }
    while i > 0
        invariant
            i <= catalogs@.len(),
            last_catalog_index(catalogs@, id@) == last_catalog_index(catalogs@.subrange(0, i as int), id@),
        decreases i,
    {
        proof {
            assert(catalogs@.subrange(0, i as int).drop_last() =~= catalogs@.subrange(0, i - 1));
        }
        if str_eq(catalogs[i - 1].catalog_id.as_str(), id) {
            return Some(&catalogs[i - 1]);
        }
        i = i - 1;
    }
    None
}

impl Settings {
    /// The configured catalog with the given id.
    pub fn get_catalog_by_id(&self, id: &str) -> (r: Option<&Catalog>)
        ensures
            match last_catalog_index(self.catalogs@, id@) {
                Some(i) => r matches Some(c) && *c == self.catalogs@[i],
                None => r is None,
            },
    {
        get_catalog_by_id(&self.catalogs, id)
    }
}

} // verus!
