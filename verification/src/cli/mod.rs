//! The command line client of the catalog server: the requests it sends and
//! the values it reads back.
pub mod settings;

use vstd::prelude::*;
use vstd::string::*;
use crate::text::str_eq;

verus! {

/// A catalog as the server lists it.
#[derive(Debug, Clone)]
pub struct Catalog {
    pub name: String,
    pub id: String,
    pub http_base_uri: String,
}

/// An API deployed in an environment.
#[derive(Debug, Clone)]
pub struct Deployment {
    pub api: String,
    pub env: String,
}

/// A list of deployments.
#[derive(Debug)]
pub struct Deployments {
    pub deployments: Vec<Deployment>,
}

/// A tier of service; `id` holds the 128 bits of its UUID.
#[derive(Debug, Clone)]
pub struct Tier {
    pub name: String,
    pub id: u128,
}

/// A list of tiers.
#[derive(Debug)]
pub struct Tiers {
    pub tiers: Vec<Tier>,
}

/// The status of an API.
#[derive(Debug, Clone, Copy, PartialEq, Eq, Structural)]
pub enum Status {
    VALIDATED,
    DEPRECATED,
    RETIRED,
    NONE,
}

/// An API; the ids hold the 128 bits of UUIDs.
#[derive(Debug)]
pub struct Api {
    pub id: u128,
    pub name: String,
    pub tier: String,
    pub status: Status,
    pub domain_id: u128,
    pub domain_name: String,
    pub spec_ids: Vec<String>,
}

/// A list of APIs.
#[derive(Debug)]
pub struct Apis {
    pub apis: Vec<Api>,
}

/// A list of environments.
#[derive(Debug)]
pub struct Envs {
    pub envs: Vec<Env>,
}

/// An environment; `id` holds the 128 bits of its UUID.
#[derive(Debug, Clone)]
pub struct Env {
    pub id: u128,
    pub name: String,
    pub description: String,
}

/// The status that a word names: `validated`, `deprecated` or `retired`;
/// any other word names no status.
pub open spec fn status_named(value: Seq<char>) -> Status {
    if value == "validated"@ {
        Status::VALIDATED
    } else if value == "deprecated"@ {
        Status::DEPRECATED
    } else if value == "retired"@ {
        Status::RETIRED
    } else {
        Status::NONE
    }
}

/// The status that the command line names.
pub fn status_from_str(value: &str) -> (r: Status)
    ensures
        r == status_named(value@),
{
    if str_eq(value, "validated") {
        Status::VALIDATED
    } else if str_eq(value, "deprecated") {
        Status::DEPRECATED
    } else if str_eq(value, "retired") {
        Status::RETIRED
    } else {
        Status::NONE
    }
}

/// The URL of a resource of the server at `address`: `http://`, the address,
/// then the resource's path.
pub fn server_url(address: &str, path: &str) -> (r: String)
    ensures
        r@ == "http://"@ + address@ + path@,
{
    let mut url = String::from_str("http://");
    url.append(address);
    url.append(path);
    url
}

/// The path of the deployments of one API, or of all of them.
pub fn deployments_path(api: Option<&str>) -> (r: String)
    ensures
        r@ == match api {
            Some(id) => "/v1/deployments/"@ + id@,
            None => "/v1/deployments"@,
        },
{
    match api {
        Some(id) => {
            let mut path = String::from_str("/v1/deployments/");
            path.append(id);
            path
        },
        None => String::from_str("/v1/deployments"),
    }
}

/// The path that sets the status (`status`) or the tier (`tier`) of an API.
pub fn api_attribute_path(id: &str, attribute: &str) -> (r: String)
    ensures
        r@ == "/v1/apis/"@ + id@ + "/"@ + attribute@,
{
    let mut path = String::from_str("/v1/apis/");
    path.append(id);
    path.append("/");
    path.append(attribute);
    path
}

/// The specification ids of a new API, as texts.
pub fn spec_ids_of(specs: &Vec<&str>) -> (r: Vec<String>)
    ensures
        r@.len() == specs@.len(),
        forall|i: int| 0 <= i < r@.len() ==> (#[trigger] r@[i])@ == specs@[i]@,
{
    let mut ids: Vec<String> = Vec::new();
    let mut i: usize = 0;
    while i < specs.len()
        invariant
            i <= specs@.len(),
            ids@.len() == i,
            forall|j: int| 0 <= j < i ==> (#[trigger] ids@[j])@ == specs@[j]@,
        decreases specs@.len() - i,
    {
        ids.push(String::from_str(specs[i]));
        i = i + 1;
    }
    ids
}

/// The API that the command line creates: no id yet, no status, no tier,
/// in the given domain with the given specifications.
pub fn new_api(name: &str, domain_id: u128, specs: &Vec<&str>) -> (r: Api)
    ensures
        r.id == 0,
        r.name@ == name@,
        r.status == Status::NONE,
        r.domain_id == domain_id,
        r.domain_name@ == Seq::<char>::empty(),
        r.tier@ == Seq::<char>::empty(),
        r.spec_ids@.len() == specs@.len(),
        forall|i: int| 0 <= i < specs@.len() ==> (#[trigger] r.spec_ids@[i])@ == specs@[i]@,
{
    Api {
        id: 0,
        name: String::from_str(name),
        tier: String::new(),
        status: Status::NONE,
        domain_id,
        domain_name: String::new(),
        spec_ids: spec_ids_of(specs),
    }
}

} // verus!
