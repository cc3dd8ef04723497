//! What a wallet holds.

use std::collections::BTreeMap;

use vstd::prelude::*;

use crate::address::AssetId;

verus! {

/// The amounts of each asset, by whether they can be spent.
#[derive(Clone, Debug)]
pub struct Balance {
    /// What can be spent.
    pub ready: BTreeMap<AssetId, u64>,
    /// What comes back from transactions that were submitted.
    pub submitted_change: BTreeMap<AssetId, u64>,
    /// What goes out in transactions that were submitted.
    pub submitted_spend: BTreeMap<AssetId, u64>,
}

impl Default for Balance {
    /// A balance of nothing.
    fn default() -> (balance: Self)
        ensures
            balance.ready@ == Map::<AssetId, u64>::empty(),
            balance.submitted_change@ == Map::<AssetId, u64>::empty(),
            balance.submitted_spend@ == Map::<AssetId, u64>::empty(),
    {
        Balance {
            ready: BTreeMap::new(),
            submitted_change: BTreeMap::new(),
            submitted_spend: BTreeMap::new(),
        }
    }
}

} // verus!
