//! A price-reference oracle core.
//!
//! Trusted relayers feed price observations, keyed by symbol and guarded by a
//! freshness rule, into a ledger kept in a CosmWasm key-value storage; anyone
//! may read single observations and cross rates derived from two of them.
//! Every operation is an executable function whose contract is stated over a
//! mathematical model of the ledger (`model`) and proved from what the
//! storage is taken to do (`state`); `laws` holds what follows for the
//! ledger as a whole.
pub mod contract;
pub mod error;
pub mod laws;
pub mod model;
pub mod msg;
pub mod rate;
pub mod state;
pub mod struct_types;
pub mod symbols;
