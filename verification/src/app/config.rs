//! What the user interface is told of its environment.
use vstd::prelude::*;

verus! {

/// The links and switches that the user interface reads.
#[derive(Debug, Clone)]
pub struct Config {
    pub api_doc_url: String,
    pub pact_url: String,
    pub stash_base_url: String,
    pub beta: bool,
}

} // verus!
