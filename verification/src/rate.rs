//! Cross rates in fixed point.
use vstd::prelude::*;
use crate::error::{outcome, ContractError, ErrorView};
use crate::struct_types::{RefData, ReferenceData};

verus! {

/// The scale of every rate: a rate `r` stands for `r / 10^9`.
pub const E9: u128 = 1_000_000_000;

/// The square of the scale.
pub const E18: u128 = 1_000_000_000_000_000_000;

/// `base * numerator / denominator`, the product taken in full and the
/// quotient rounded down: `None` where the denominator is zero or the
/// quotient does not fit in 128 bits.
pub open spec fn ratio(base: u128, numerator: u128, denominator: u128) -> Option<u128> {
    if denominator == 0 || base * numerator / (denominator as int) > u128::MAX {
        None
    } else {
        Some((base * numerator / (denominator as int)) as u128)
    }
}

/// The rate of `base` in units of `quote`, scaled by `10^18`, with the
/// resolve times of both; `None` where `ratio` gives none.
pub open spec fn cross_rate(base: RefData, quote: RefData) -> Option<ReferenceData> {
    match ratio(base.rate, E18, quote.rate) {
        Some(rate) => Some(
            ReferenceData {
                rate,
                last_updated_base: base.resolve_time,
                last_updated_quote: quote.resolve_time,
            },
        ),
        None => None,
    }
}

/// What `compute_cross_rate` returns for two observations.
pub open spec fn cross_rate_outcome(base: RefData, quote: RefData) -> Result<ReferenceData, ErrorView> {
    match cross_rate(base, quote) {
        Some(data) => Ok(data),
        None => Err(ErrorView::Arithmetic),
    }
}

/// `Uint128::checked_multiply_ratio` of `cosmwasm_std`.
///
/// It multiplies in 256 bits, divides, and narrows the quotient to 128 bits.
/// A zero denominator and a quotient that does not fit are its two errors;
/// both become `None` here.
#[verifier::external_body]
pub(crate) fn multiply_ratio(base: u128, numerator: u128, denominator: u128) -> (r: Option<u128>)
    ensures
        r == ratio(base, numerator, denominator),
{
    cosmwasm_std::Uint128::new(base)
        .checked_multiply_ratio(numerator, denominator)
        .ok()
        .map(|quotient| quotient.u128())
}

/// The cross rate of two observations: `base.rate * 10^18 / quote.rate`,
/// rounded down, with the resolve times of both sides.
///
/// Fails with `Arithmetic` where `quote.rate` is zero or the rate does not
/// fit in 128 bits.
pub fn compute_cross_rate(base: RefData, quote: RefData) -> (r: Result<ReferenceData, ContractError>)
    ensures
        outcome(r) == cross_rate_outcome(base, quote),
{
    match multiply_ratio(base.rate, E18, quote.rate) {
        Some(rate) => Ok(ReferenceData::new(rate, base.resolve_time, quote.resolve_time)),
        None => Err(ContractError::Arithmetic),
    }
}

} // verus!
