//! The requests that the ledger takes and the answers that it gives.
use vstd::prelude::*;
use crate::struct_types::{Config, RefData, ReferenceData};

verus! {

/// The request that sets a ledger up. It carries nothing: the caller
/// becomes the owner.
#[derive(Clone, Copy, Debug, PartialEq, Eq, Structural)]
pub struct InstantiateMsg {}

/// The request that moves a ledger to a later revision. It carries nothing.
#[derive(Clone, Copy, Debug, PartialEq, Eq, Structural)]
pub struct MigrateMsg {}

/// What a relay does with an entry that is no fresher than what the ledger
/// holds of its symbol.
#[derive(Clone, Copy, Debug, PartialEq, Eq, Structural)]
pub enum StalePolicy {
    /// Pass the entry over and go on with the batch.
    Skip,
    /// Refuse the whole batch.
    Reject,
}

/// A request to write.
#[derive(Clone, Debug, PartialEq, Eq)]
pub enum ExecuteMsg {
    /// Hands the ledger to a new owner.
    UpdateConfig { new_owner: String },
    /// Admits identities as relayers.
    AddRelayers { relayers: Vec<String> },
    /// Dismisses identities as relayers.
    RemoveRelayers { relayers: Vec<String> },
    /// Takes in `rates[i]` for `symbols[i]`, where it is fresher than what
    /// the ledger holds.
    Relay { symbols: Vec<String>, rates: Vec<u128>, resolve_time: u64, request_id: u64 },
    /// Writes `rates[i]` for `symbols[i]`, whatever the ledger holds.
    ForceRelay { symbols: Vec<String>, rates: Vec<u128>, resolve_time: u64, request_id: u64 },
}

/// A request to read.
#[derive(Clone, Debug, PartialEq, Eq)]
pub enum QueryMsg {
    /// Who owns the ledger.
    Config {},
    /// Whether `relayer` may submit observations.
    IsRelayer { relayer: String },
    /// The observation of `symbol`.
    GetRef { symbol: String },
    /// The rate of `base_symbol` in units of `quote_symbol`.
    GetReferenceData { base_symbol: String, quote_symbol: String },
    /// The rates of `base_symbols[i]` in units of `quote_symbols[i]`.
    GetReferenceDataBulk { base_symbols: Vec<String>, quote_symbols: Vec<String> },
}

/// The answer to a `QueryMsg`, one form for each request.
#[derive(Clone, Debug, PartialEq, Eq)]
pub enum QueryResponse {
    Config(Config),
    IsRelayer(bool),
    Ref(RefData),
    ReferenceData(ReferenceData),
    ReferenceDataBulk(Vec<ReferenceData>),
}

} // verus!
