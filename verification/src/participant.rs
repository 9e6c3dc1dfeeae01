//! A market participant as the risk engine sees it.

use vstd::prelude::*;
use std::collections::HashMap;
use crate::asset::AssetId;

verus! {

/// A participant and the balances the risk engine may reserve against.
/// Not every asset on the exchange must be present; an absent key means
/// the participant has never held that asset.
pub struct Participant {
    /// Unique id of the participant.
    pub id: u64,
    /// Balance held per asset.
    pub assets: HashMap<AssetId, u64>,
}

impl Participant {
    /// A participant with the given id and no holdings.
    pub fn new(id: u64) -> (r: Participant)
        ensures
            r.id == id,
            r.assets@ == Map::<AssetId, u64>::empty(),
    {
        Participant { id, assets: HashMap::new() }
    }
}

} // verus!
