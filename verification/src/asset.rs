//! Assets and tradable symbols.

use vstd::prelude::*;

verus! {

/// Identifier of an asset held by participants.
pub type AssetId = usize;

/// A tradable instrument: a pair of assets and the kind of contract.
#[derive(PartialEq, Eq, Hash, Clone, Copy, Structural)]
pub struct Symbol {
    pub symbol_type: SymbolType,
    pub base_asset: AssetId,
    pub quote_asset: AssetId,
}

/// Kind of instrument. Only spot exchange pairs are matched; the other
/// kinds are recognized but refuse work.
#[derive(PartialEq, Eq, Hash, Clone, Copy, Structural)]
pub enum SymbolType {
    ExchangePair,
    FuturesContract,
    OptionContract,
}

} // verus!
