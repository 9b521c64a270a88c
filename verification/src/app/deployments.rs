//! Deployments: which API is deployed in which environment.
use vstd::prelude::*;

verus! {

/// An API deployed in an environment.
#[derive(Debug, Clone)]
pub struct Deployment {
    pub api: String,
    pub env: String,
}

/// A list of deployments.
#[derive(Debug)]
pub struct Deployments {
    pub deployments: Vec<Deployment>,
}

/// `d` is the deployment that the stored pair `(api, env)` records.
pub open spec fn deployment_of(d: Deployment, pair: (String, String)) -> bool {
    d.api@ == pair.0@ && d.env@ == pair.1@
}

/// The stored pairs, last stored first; none when they could not be read.
pub open spec fn reported_pairs(pairs: Option<Vec<(String, String)>>) -> Seq<(String, String)> {
    match pairs {
        Some(v) => v@.reverse(),
        None => Seq::empty(),
    }
}

fn deployments_from(all_tuples: Option<Vec<(String, String)>>) -> (r: Deployments)
    ensures
        r.deployments@.len() == reported_pairs(all_tuples).len(),
        forall|i: int| 0 <= i < r.deployments@.len() ==> deployment_of(#[trigger] r.deployments@[i], reported_pairs(all_tuples)[i]),
{
    let mut deployments = Deployments { deployments: Vec::new() };
    let mut all_tuples = match all_tuples {
        Some(v) => v,
        None => Vec::new(),
    };
    let ghost pairs = all_tuples@;
    while all_tuples.len() > 0
        invariant
            all_tuples@ == pairs.subrange(0, pairs.len() - deployments.deployments@.len()),
            deployments.deployments@.len() <= pairs.len(),
            forall|i: int| 0 <= i < deployments.deployments@.len() ==>
                deployment_of(#[trigger] deployments.deployments@[i], pairs.reverse()[i]),
        decreases all_tuples@.len(),
    {
        let tuple = all_tuples.pop().unwrap();
        let deployment = Deployment { api: tuple.0, env: tuple.1 };
        deployments.deployments.push(deployment);
    }
    deployments
}

/// All the deployments, last stored first (none when they could not be read).
pub fn get_deployments(all_tuples: Option<Vec<(String, String)>>) -> (r: Deployments)
    ensures
        r.deployments@.len() == reported_pairs(all_tuples).len(),
        forall|i: int| 0 <= i < r.deployments@.len() ==> deployment_of(#[trigger] r.deployments@[i], reported_pairs(all_tuples)[i]),
{
    deployments_from(all_tuples)
}

/// The deployments of one API, last stored first (none when they could not
/// be read).
pub fn get_deployments_for_api(all_tuples: Option<Vec<(String, String)>>) -> (r: Deployments)
    ensures
        r.deployments@.len() == reported_pairs(all_tuples).len(),
        forall|i: int| 0 <= i < r.deployments@.len() ==> deployment_of(#[trigger] r.deployments@[i], reported_pairs(all_tuples)[i]),
{
    deployments_from(all_tuples)
}

} // verus!
