//! Data access: spec catalogs, systems and layers, and the search index.
pub mod catalog;
pub mod repo_layers;
pub mod search;
