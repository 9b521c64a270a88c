//! The environments declared in the database.
use vstd::prelude::*;

verus! {

/// A declared environment; `id` holds the 128 bits of its UUID.
#[derive(Debug, Clone)]
pub struct EnvItem {
    pub id: u128,
    pub name: String,
    pub description: String,
}

} // verus!
