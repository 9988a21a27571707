//! Multiplying an amount by a ratio of two others, with a 256-bit
//! intermediate product.

use cosmwasm_std::{CheckedMultiplyRatioError, Uint128};
use vstd::prelude::*;

verus! {

/// Why a ratio could not be applied.
#[derive(Clone, Copy, Debug, PartialEq, Eq, Structural)]
pub enum RatioError {
    /// The denominator is zero.
    DivideByZero,
    /// The quotient does not fit in 128 bits.
    Overflow,
}

/// `base * numerator / denominator`, rounded down, where it is defined and
/// fits in 128 bits.
pub open spec fn spec_multiply_ratio(base: u128, numerator: u128, denominator: u128) -> Result<
    u128,
    RatioError,
> {
    if denominator == 0 {
        Err(RatioError::DivideByZero)
    } else if base * numerator / (denominator as int) > u128::MAX {
        Err(RatioError::Overflow)
    } else {
        Ok((base * numerator / (denominator as int)) as u128)
    }
}

/// Calls `cosmwasm_std::Uint128::checked_multiply_ratio`, which is trusted,
/// not proved, to do what its documentation says: it multiplies `base` by
/// `numerator` without loss, divides by `denominator` rounding down, and
/// reports a zero denominator or a quotient beyond 128 bits as an error.
#[verifier::external_body]
pub(crate) fn checked_multiply_ratio(base: u128, numerator: u128, denominator: u128) -> (r: Result<
    u128,
    RatioError,
>)
    ensures
        r == spec_multiply_ratio(base, numerator, denominator),
{
    match Uint128::new(base).checked_multiply_ratio(numerator, denominator) {
        Ok(quotient) => Ok(quotient.u128()),
        Err(CheckedMultiplyRatioError::DivideByZero) => Err(RatioError::DivideByZero),
        Err(CheckedMultiplyRatioError::Overflow) => Err(RatioError::Overflow),
    }
}

/// Calls `cosmwasm_std::Uint128::multiply_ratio`, which is trusted, not
/// proved, to do what its documentation says: it returns `base *
/// numerator / denominator`, rounded down, the product being taken
/// without loss. It panics on a zero denominator and on a quotient beyond
/// 128 bits, which the precondition rules out.
#[verifier::external_body]
pub(crate) fn multiply_ratio(base: u128, numerator: u128, denominator: u128) -> (quotient: u128)
    requires
        denominator != 0,
        base * numerator / (denominator as int) <= u128::MAX,
    ensures
        quotient == base * numerator / (denominator as int),
{
    Uint128::new(base).multiply_ratio(numerator, denominator).u128()
}

} // verus!
