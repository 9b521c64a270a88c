//! The APIs declared in the database, with their tier and their status.
use vstd::prelude::*;
use crate::text::{to_uppercase, uppercase_text};

verus! {

/// A tier of service; `id` holds the 128 bits of its UUID.
#[derive(Debug, Clone)]
pub struct TierItem {
    pub id: u128,
    pub name: String,
}

/// The status of an API.
#[derive(Debug, Clone)]
pub struct StatusItem {
    pub api_id: u128,
    pub status: String,
}

/// A declared API with its tier and its last status.
#[derive(Debug, Clone)]
pub struct ApiItem {
    pub name: String,
    pub id: u128,
    pub domain_id: u128,
    pub status: String,
    pub tier: TierItem,
}

/// The status reported when an API has none stored.
pub const NO_STATUS: &'static str = "NONE";

/// The name of the tier reported when an API's tier cannot be found.
pub const NO_TIER: &'static str = "N/A";

/// An API as the repository reports it: with its stored status, or `NONE`
/// when none can be read, and its tier, or the nil tier `N/A` when it
/// cannot be read.
pub fn api_item(id: u128, name: String, domain_id: u128, status: Option<String>, tier: Option<TierItem>) -> (r: ApiItem)
    ensures
        r.id == id,
        r.name@ == name@,
        r.domain_id == domain_id,
        r.status@ == match status {
            Some(s) => s@,
            None => NO_STATUS@,
        },
        match tier {
            Some(t) => r.tier.id == t.id && r.tier.name@ == t.name@,
            None => r.tier.id == 0 && r.tier.name@ == NO_TIER@,
        },
{
    let status = match status {
        Some(s) => s,
        None => NO_STATUS.to_string(),
    };
    let tier = match tier {
        Some(t) => t,
        None => TierItem { id: 0, name: NO_TIER.to_string() },
    };
    ApiItem { name, id, domain_id, status, tier }
}

/// The status as it is stored: in upper case.
pub fn status_to_store(status: &StatusItem) -> (r: StatusItem)
    ensures
        r.api_id == status.api_id,
        r.status@ == uppercase_text(status.status@),
{
    StatusItem { api_id: status.api_id, status: to_uppercase(status.status.as_str()) }
}

} // verus!
