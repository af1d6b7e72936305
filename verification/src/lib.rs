//! A price oracle: registered sources submit prices for registered assets,
//! the oracle aggregates them by their median once enough sources have
//! reported, keeps a history of the aggregates, and compares its own price
//! with reference oracles.
pub mod address;
pub mod cross_reference;
pub mod keyed_map;
pub mod laws;
pub mod median;
pub mod mock;
pub mod oracle;
pub mod types;

pub use address::Address;
pub use cross_reference::{
    add_reference_oracle, compute_deviation_bps, get_cross_ref_deviation_threshold,
    get_cross_reference, get_reference_oracles, remove_reference_oracle, resume_cross_reference,
    set_cross_ref_deviation_threshold, CrossReferenceStep,
};
pub use keyed_map::KeyedMap;
pub use median::{compute_median, sort_prices};
pub use mock::MockReferenceOracle;
pub use oracle::{Call, PriceOracleContract};
pub use types::{
    AggregatePrice, CrossRefDeviationEvent, CrossReferenceResult, ErrorCode, OracleSources,
    PriceEntry, PriceHistoryEntry, ReferenceOracleEntry,
};
