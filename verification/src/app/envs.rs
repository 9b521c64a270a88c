//! Environments in which APIs are deployed.
use vstd::prelude::*;
use crate::dao::repo_envs::EnvItem;

verus! {

/// An environment; `id` holds the 128 bits of its UUID.
#[derive(Debug, Clone)]
pub struct Env {
    pub id: u128,
    pub name: String,
    pub description: String,
}

/// A list of environments.
#[derive(Debug)]
pub struct Envs {
    pub envs: Vec<Env>,
}

/// `env` reports the stored environment `item`.
pub open spec fn env_of(env: Env, item: EnvItem) -> bool {
    env.id == item.id && env.name@ == item.name@ && env.description@ == item.description@
}

/// The stored environments, last stored first; none when they could not be read.
pub open spec fn reported_envs(items: Option<Vec<EnvItem>>) -> Seq<EnvItem> {
    match items {
        Some(v) => v@.reverse(),
        None => Seq::empty(),
    }
}

/// The environment that was found, if any (the endpoint answers "not
/// found" otherwise).
pub fn get_env(found: Option<EnvItem>) -> (r: Option<Env>)
    ensures
        match found {
            Some(item) => r matches Some(env) && env_of(env, item),
            None => r is None,
        },
{
    match found {
        Some(item) => Some(Env { id: item.id, name: item.name, description: item.description }),
        None => None,
    }
}

/// All the environments, last stored first (none when they could not be read).
pub fn list_env(all_tuples: Option<Vec<EnvItem>>) -> (r: Envs)
    ensures
        r.envs@.len() == reported_envs(all_tuples).len(),
        forall|i: int| 0 <= i < r.envs@.len() ==> env_of(#[trigger] r.envs@[i], reported_envs(all_tuples)[i]),
{
    let mut envs = Envs { envs: Vec::new() };
    let mut all_tuples = match all_tuples {
        Some(v) => v,
        None => Vec::new(),
    };
    let ghost items = all_tuples@;
    while all_tuples.len() > 0
        invariant
            all_tuples@ == items.subrange(0, items.len() - envs.envs@.len()),
            envs.envs@.len() <= items.len(),
            forall|i: int| 0 <= i < envs.envs@.len() ==> env_of(#[trigger] envs.envs@[i], items.reverse()[i]),
        decreases all_tuples@.len(),
    {
        let tuple = all_tuples.pop().unwrap();
        envs.envs.push(Env { id: tuple.id, name: tuple.name, description: tuple.description });
    }
    envs
}

} // verus!
