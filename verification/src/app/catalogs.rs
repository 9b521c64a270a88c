//! The configured catalogs as the endpoints report them, and the refresh of
//! the catalogs, of the cache and of the search index.
use vstd::prelude::*;
use crate::shared::settings::{last_catalog_index, lemma_last_catalog_index_bounds};
use crate::shared::settings::Catalog as RepoCatalog;
use crate::app::dao::catalog::{RefreshCommand, refresh_commands, refresh_command_of};
use crate::app::dao::catalog::cache::CatalogCache;
use crate::app::dao::catalog::spec::SpecItem;
use crate::app::dao::search::{IndexDocument, index_documents, documents_of, specs_indexable};

verus! {

/// A catalog as the endpoints report it.
#[derive(Debug, Clone)]
pub struct Catalog {
    pub id: String,
    pub name: String,
    pub http_base_uri: String,
}

/// A list of catalogs.
#[derive(Debug, Clone)]
pub struct Catalogs {
    pub catalogs: Vec<Catalog>,
}

/// `c` reports the configured catalog `repo`.
pub open spec fn catalog_of(c: Catalog, repo: RepoCatalog) -> bool {
    c.id@ == repo.catalog_id@ && c.name@ == repo.catalog_name@ && c.http_base_uri@ == repo.catalog_http_base_uri@
}

fn catalog_from(repo: &RepoCatalog) -> (r: Catalog)
    ensures
        catalog_of(r, *repo),
{
    Catalog {
        id: repo.catalog_id.clone(),
        name: repo.catalog_name.clone(),
        http_base_uri: repo.catalog_http_base_uri.clone(),
    }
}

/// The configured catalog with the given id (the last one, when several
/// share it).
pub fn get_catalog_by_id(catalogs: &Vec<RepoCatalog>, id: &str) -> (r: Catalog)
    requires
        last_catalog_index(catalogs@, id@) is Some,
    ensures
        catalog_of(r, catalogs@[last_catalog_index(catalogs@, id@).unwrap()]),
{
    proof {
        lemma_last_catalog_index_bounds(catalogs@, id@);
    }
    match crate::shared::settings::get_catalog_by_id(catalogs, id) {
        Some(c) => catalog_from(c),
        None => {
            proof {
                assert(false);
            }
            Catalog { id: String::new(), name: String::new(), http_base_uri: String::new() }
        },
    }
}

/// All the configured catalogs, in order.
pub fn get_all_catalog(catalogs: &Vec<RepoCatalog>) -> (r: Vec<Catalog>)
    ensures
        r@.len() == catalogs@.len(),
        forall|i: int| 0 <= i < r@.len() ==> catalog_of(#[trigger] r@[i], catalogs@[i]),
{
    let mut returned: Vec<Catalog> = Vec::new();
    let mut i: usize = 0;
    while i < catalogs.len()
        invariant
            i <= catalogs@.len(),
            returned@.len() == i,
            forall|j: int| 0 <= j < i ==> catalog_of(#[trigger] returned@[j], catalogs@[j]),
        decreases catalogs@.len() - i,
    {
        returned.push(catalog_from(&catalogs[i]));
        i = i + 1;
    }
    returned
}

/// What happened last while refreshing the catalogs, the cache and the index.
pub enum RefreshEvent {
    /// The refresh is asked for.
    Start,
    /// The clone or pull commands have run.
    CommandsRun,
    /// The specifications of all the catalogs have been read (and cached).
    CatalogsRead(Vec<SpecItem>),
    /// The search index holds the new documents.
    IndexWritten,
}

/// What the refresh asks for next.
pub enum RefreshStep {
    /// Run these shell commands, in order.
    RunCommands(Vec<RefreshCommand>),
    /// Read the specifications of all the catalogs again.
    ReadCatalogs,
    /// Replace the documents of the search index with these.
    WriteIndex(Vec<IndexDocument>),
    /// The refresh is over.
    Done,
}

/// One step of the refresh of the catalogs (cloned at start up, `init`,
/// pulled otherwise), then of the cache (emptied once the commands have
/// run) and of the search index (rebuilt from the specifications read).
pub fn resfresh_caches_and_indexes(cache: &mut CatalogCache, catalogs: &Vec<RepoCatalog>, init: bool, event: RefreshEvent) -> (r: RefreshStep)
    requires
        old(cache).well_formed(),
        event matches RefreshEvent::CatalogsRead(specs) ==> specs_indexable(specs@),
    ensures
        final(cache).well_formed(),
        match event {
            RefreshEvent::Start => r matches RefreshStep::RunCommands(cmds) && cmds@.len() == catalogs@.len()
                && forall|i: int| 0 <= i < cmds@.len() ==> refresh_command_of(#[trigger] cmds@[i], catalogs@[i], init),
            RefreshEvent::CommandsRun => r is ReadCatalogs,
            RefreshEvent::CatalogsRead(specs) => r matches RefreshStep::WriteIndex(docs)
                && docs@.map_values(|d: IndexDocument| d@) == documents_of(specs@),
            RefreshEvent::IndexWritten => r is Done,
        },
        event is CommandsRun ==> final(cache).specs_held() is None && final(cache).errors_held() is None,
        !(event is CommandsRun) ==> *final(cache) == *old(cache),
{
    match event {
        RefreshEvent::Start => RefreshStep::RunCommands(refresh_commands(catalogs, init)),
        RefreshEvent::CommandsRun => {
            cache.invalidate_all();
            RefreshStep::ReadCatalogs
        },
        RefreshEvent::CatalogsRead(specs) => RefreshStep::WriteIndex(index_documents(&specs)),
        RefreshEvent::IndexWritten => RefreshStep::Done,
    }
}

} // verus!
