//! A market participant's holdings outside the risk engine.

use vstd::prelude::*;
use std::collections::HashMap;
use crate::primitives::{Value, Volume};

verus! {

/// A market participant holding assets and cash. Assets are added to the
/// map dynamically as the account first receives them.
pub struct Account {
    /// A unique id representing the account.
    pub id: u64,
    /// How much of each asset the account holds, keyed by asset id.
    pub assets: HashMap<u64, Volume>,
    /// How much cash the account holds.
    pub cash: Value,
}

} // verus!
