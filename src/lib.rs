//! Recipe reconciliation for a modded-game crafting catalog: aggregation of
//! item and fluid stacks by identity, the net balance of a two-recipe chain
//! after its intermediate flow cancels out, gross stats over several recipes,
//! exact recipe filters and a name search over the catalog.

use vstd::prelude::*;

pub mod aggregate;
pub mod balance;
pub mod catalog;
pub mod error;
pub mod ingredients;
pub mod recipe;
pub mod stats;
pub mod text;
pub mod viewer;

verus! {

/// Sum of two sizes.
pub fn add(left: usize, right: usize) -> (r: usize)
    requires
        left + right <= usize::MAX,
    ensures
        r == left + right,
{
    left + right
}

} // verus!
