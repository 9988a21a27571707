//! The failures an operation can report.

use crate::msg::Direction;
use vstd::prelude::*;

verus! {

/// Why an operation was refused. A refused operation changes nothing.
#[derive(Debug, PartialEq, Eq)]
pub enum ContractError {
    /// Betting and advancing are paused.
    Haulted,
    /// A privileged operation was called by someone other than the
    /// administrator. `admin` is `None` where the market has none.
    Unauthorized { admin: Option<String>, sender: String },
    /// No round is open for betting.
    NoBiddingRound,
    /// The bet names a round other than the one open for betting.
    WrongRound { requested: u128, current: u128 },
    /// The bet is below the configured minimum.
    InsufficientFundsForBet,
    /// The round named by the bet stopped taking bets `seconds_ago` seconds
    /// before the bet arrived.
    BettingClosed { round_id: u128, seconds_ago: u64 },
    /// The player already holds a bet in this round.
    AlreadyBet { direction: Direction, amount: u128 },
    /// The player has nothing to collect.
    NothingToClaim,
    /// A price was needed and the feed gave none.
    PriceUnavailable,
    /// An amount, a round number or a time left the range it is stored in.
    Overflow,
    /// A listing was asked for `limit` bets, more than the `maximum` a page
    /// may hold.
    LimitExceeded { limit: u32, maximum: u32 },
    /// No round has finished yet.
    NoFinishedRound,
    /// The stored contract is of another kind than this one.
    WrongContract,
}

} // verus!
