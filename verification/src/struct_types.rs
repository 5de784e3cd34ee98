//! The records that the ledger stores and serves.
use vstd::prelude::*;

verus! {

/// The administrator record: the one identity allowed to manage the ledger.
#[derive(Clone, Debug, PartialEq, Eq)]
pub struct Config {
    pub owner: String,
}

/// An identity that may submit observations.
#[derive(Clone, Debug, PartialEq, Eq)]
pub struct Relayer {
    pub address: String,
}

/// A rate between two symbols, with the resolve times of both sides.
///
/// `rate` is a fixed-point number scaled by `10^9`.
#[derive(Clone, Copy, Debug, Default, PartialEq, Eq, Structural)]
pub struct ReferenceData {
    pub rate: u128,
    pub last_updated_base: u64,
    pub last_updated_quote: u64,
}

impl ReferenceData {
    pub fn new(rate: u128, last_updated_base: u64, last_updated_quote: u64) -> (r: Self)
        ensures
            r.rate == rate,
            r.last_updated_base == last_updated_base,
            r.last_updated_quote == last_updated_quote,
    {
        ReferenceData { rate, last_updated_base, last_updated_quote }
    }
}

/// One observation of a symbol: its rate against USD scaled by `10^9`, the
/// time at which the rate was resolved and the request that produced it.
#[derive(Clone, Copy, Debug, Default, PartialEq, Eq, Structural)]
pub struct RefData {
    pub rate: u128,
    pub resolve_time: u64,
    pub request_id: u64,
}

impl RefData {
    pub fn new(rate: u128, resolve_time: u64, request_id: u64) -> (r: Self)
        ensures
            r.rate == rate,
            r.resolve_time == resolve_time,
            r.request_id == request_id,
    {
        RefData { rate, resolve_time, request_id }
    }
}

} // verus!
