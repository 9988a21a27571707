//! The fee taken from every bet.

use crate::error::ContractError;
use crate::msg::Config;
use crate::ratio::checked_multiply_ratio;
use vstd::prelude::*;

verus! {

/// The scale of a percentage.
pub const FEE_PRECISION: u128 = 100;

/// What a fee rate is divided by: a rate of 100 is one percent.
pub const FEE_DIVISOR: u128 = FEE_PRECISION * 100;

/// The fee on a bet of `gross` at the rate `gaming_fee`, rounded down.
pub open spec fn fee(gaming_fee: u128, gross: u128) -> int {
    gaming_fee * gross / (FEE_DIVISOR as int)
}

/// The fee on a bet of `gross` under `config`, or `Overflow` where it does
/// not fit in 128 bits.
pub fn compute_gaming_fee(config: &Config, gross: u128) -> (r: Result<u128, ContractError>)
    ensures
        fee(config.gaming_fee, gross) <= u128::MAX ==> r == Ok::<u128, ContractError>(
            fee(config.gaming_fee, gross) as u128,
        ),
        fee(config.gaming_fee, gross) > u128::MAX ==> r == Err::<u128, ContractError>(
            ContractError::Overflow,
        ),
{
    match checked_multiply_ratio(config.gaming_fee, gross, FEE_DIVISOR) {
        Ok(amount) => Ok(amount),
        Err(_) => Err(ContractError::Overflow),
    }
}

} // verus!
