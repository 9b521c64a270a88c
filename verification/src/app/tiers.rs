//! Tiers of service that APIs are given.
use vstd::prelude::*;
use crate::dao::repo_apis::TierItem;

verus! {

/// A tier; `id` holds the 128 bits of its UUID.
#[derive(Debug, Clone)]
pub struct Tier {
    pub name: String,
    pub id: u128,
}

/// A list of tiers.
#[derive(Debug)]
pub struct Tiers {
    pub tiers: Vec<Tier>,
}

/// `tier` reports the stored tier `item`.
pub open spec fn tier_of(tier: Tier, item: TierItem) -> bool {
    tier.id == item.id && tier.name@ == item.name@
}

/// All the tiers, last stored first.
pub fn get_tiers(all_tiers: Vec<TierItem>) -> (r: Tiers)
    ensures
        r.tiers@.len() == all_tiers@.len(),
        forall|i: int| 0 <= i < r.tiers@.len() ==> tier_of(#[trigger] r.tiers@[i], all_tiers@.reverse()[i]),
{
    let mut all_tiers = all_tiers;
    let ghost items = all_tiers@;
    let mut tiers: Vec<Tier> = Vec::new();
    while all_tiers.len() > 0
        invariant
            all_tiers@ == items.subrange(0, items.len() - tiers@.len()),
            tiers@.len() <= items.len(),
            forall|i: int| 0 <= i < tiers@.len() ==> tier_of(#[trigger] tiers@[i], items.reverse()[i]),
        decreases all_tiers@.len(),
    {
        let tier = all_tiers.pop().unwrap();
        tiers.push(Tier { name: tier.name, id: tier.id });
    }
    Tiers { tiers }
}

} // verus!
