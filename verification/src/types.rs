use vstd::prelude::*;

use crate::address::Address;
use crate::keyed_map::KeyedMap;

verus! {

/// The errors with which the oracle rejects a call.
#[derive(Clone, Copy, Debug, PartialEq, Eq, Structural)]
pub enum ErrorCode {
    NotAuthorized,
    AlreadyInitialized,
    AssetNotRegistered,
    AssetAlreadyRegistered,
    SourceAlreadyExists,
    SourceNotFound,
    InsufficientSources,
    InvalidPrice,
    NoData,
    InvalidConfiguration,
}

/// A price that a source submitted for an asset.
#[derive(Debug, PartialEq, Eq)]
pub struct PriceEntry {
    pub price: i128,
    pub timestamp: u64,
    pub source: Address,
    pub decimals: u32,
}

impl Clone for PriceEntry {
    fn clone(&self) -> (e: Self)
        ensures
            e == *self,
    {
        PriceEntry {
            price: self.price,
            timestamp: self.timestamp,
            source: self.source.duplicate(),
            decimals: self.decimals,
        }
    }
}

/// The aggregated price of an asset: the median of the prices its sources
/// submitted, the latest of their timestamps and how many sources counted.
#[derive(Clone, Copy, Debug, PartialEq, Eq, Structural)]
pub struct AggregatePrice {
    pub price: i128,
    pub timestamp: u64,
    pub num_sources: u32,
    pub decimals: u32,
}

/// An aggregate as it was recorded at a ledger.
#[derive(Clone, Copy, Debug, PartialEq, Eq, Structural)]
pub struct PriceHistoryEntry {
    pub price: i128,
    pub timestamp: u64,
    pub ledger: u32,
    pub num_sources: u32,
}

/// The sources that may submit prices, in the order they were added, and
/// the name each was given.
#[derive(Debug)]
pub struct OracleSources {
    pub sources: Vec<Address>,
    pub metadata: KeyedMap<Address, Vec<u8>>,
}

/// A reference oracle, and the asset that each of our assets stands for
/// there.
#[derive(Debug)]
pub struct ReferenceOracleEntry {
    pub contract_id: Address,
    pub asset_mapping: KeyedMap<Address, Address>,
}

/// Our price of an asset beside the price a reference oracle gave, and how
/// far apart they are in basis points of the reference price.
#[derive(Debug, PartialEq, Eq)]
pub struct CrossReferenceResult {
    pub our_price: i128,
    pub ref_price: i128,
    pub deviation_bps: u32,
    pub ref_contract: Address,
}

/// What the oracle publishes when our price and a reference price are
/// further apart than the configured threshold.
#[derive(Debug, PartialEq, Eq)]
pub struct CrossRefDeviationEvent {
    pub asset: Address,
    pub ref_contract: Address,
    pub our_price: i128,
    pub ref_price: i128,
    pub deviation_bps: u32,
    pub threshold_bps: u32,
}

} // verus!
