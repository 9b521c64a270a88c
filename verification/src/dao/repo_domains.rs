//! The business domains declared in the database (or in a YAML catalog).
use vstd::prelude::*;
use crate::text::str_eq;

verus! {

/// A declared domain; `id` holds the 128 bits of its UUID.
#[derive(Debug, Clone)]
pub struct DomainItem {
    pub name: String,
    pub id: u128,
    pub description: String,
    pub owner: String,
}

/// Where the domains are kept.
#[derive(Debug, Clone, Copy, PartialEq, Eq, Structural)]
pub enum DomainImplType {
    YamlBasedDomainRepo,
    DbBasedDomainRepo,
}

/// Domains read from a YAML catalog file.
pub struct YamlBasedDomainRepo {}

/// Domains kept in the database.
pub struct DbBasedDomainRepo {}

/// Chooses the domain repository from the configuration.
pub struct DomainImplFactory;

/// The repository named `domain_impl`: the YAML one when it is named
/// `YamlBasedDomainRepo`, the database one otherwise.
pub open spec fn impl_type_of(domain_impl: Seq<char>) -> DomainImplType {
    if domain_impl == "YamlBasedDomainRepo"@ {
        DomainImplType::YamlBasedDomainRepo
    } else {
        DomainImplType::DbBasedDomainRepo
    }
}

impl DomainImplFactory {
    /// The repository that the configured `domain_impl` names.
    pub fn get_impl(domain_impl: &str) -> (r: DomainImplType)
        ensures
            r == impl_type_of(domain_impl@),
    {
        if str_eq(domain_impl, "YamlBasedDomainRepo") {
            DomainImplType::YamlBasedDomainRepo
        } else {
            DomainImplType::DbBasedDomainRepo
        }
    }
}

} // verus!
