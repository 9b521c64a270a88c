//! Searching the specifications: the query, and the results as the
//! endpoint reports them.
use vstd::prelude::*;
use crate::app::dao::search::SearchResult;
use crate::app::systems::{shorten_spec_path, short_path_of, shortenable};
use crate::shared::settings::Catalog;

verus! {

/// A search query, in the query language of the index.
#[derive(Debug)]
pub struct Query {
    pub query: String,
}

/// A specification path that a search found.
#[derive(Debug, Clone)]
pub struct Result {
    pub audience: String,
    pub domain: String,
    pub layer: String,
    pub path: String,
    pub catalog_id: String,
    pub spec_path: String,
}

/// `r` reports the document `found`: its fields, with the path of its
/// specification made relative to its catalog's directory.
pub open spec fn result_of(r: Result, found: SearchResult, catalogs: Seq<Catalog>) -> bool {
    &&& r.audience@ == found.audience[0]@
    &&& r.domain@ == found.domain[0]@
    &&& r.layer@ == found.layer[0]@
    &&& r.path@ == found.path[0]@
    &&& r.catalog_id@ == found.catalog_id[0]@
    &&& r.spec_path@ == short_path_of(found.spec_path[0]@, catalogs, found.catalog_id[0]@)
}

/// The results of a search, one per document found, in order.
pub fn search_specs(found: &Vec<SearchResult>, catalogs: &Vec<Catalog>) -> (r: Vec<Result>)
    requires
        forall|i: int| 0 <= i < found@.len() ==>
            shortenable((#[trigger] found@[i]).spec_path[0]@, catalogs@, found@[i].catalog_id[0]@),
    ensures
        r@.len() == found@.len(),
        forall|i: int| 0 <= i < r@.len() ==> result_of(#[trigger] r@[i], found@[i], catalogs@),
{
    let mut results: Vec<Result> = Vec::new();
    let mut i: usize = 0;
    while i < found.len()
        invariant
            i <= found@.len(),
            forall|j: int| 0 <= j < found@.len() ==>
                shortenable((#[trigger] found@[j]).spec_path[0]@, catalogs@, found@[j].catalog_id[0]@),
            results@.len() == i,
            forall|j: int| 0 <= j < i ==> result_of(#[trigger] results@[j], found@[j], catalogs@),
        decreases found@.len() - i,
    {
        let item = &found[i];
        let catalog_id = item.catalog_id[0].clone();
        let spec_path = shorten_spec_path(item.spec_path[0].clone(), catalogs, catalog_id.clone());
        results.push(Result {
            audience: item.audience[0].clone(),
            domain: item.domain[0].clone(),
            layer: item.layer[0].clone(),
            path: item.path[0].clone(),
            catalog_id,
            spec_path,
        });
        i = i + 1;
    }
    results
}

} // verus!
