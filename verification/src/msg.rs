//! The messages the market accepts, what it answers, and the records of a
//! round in each of its three phases.

use crate::timestamp::Timestamp;
use vstd::prelude::*;

verus! {

#[derive(Debug, PartialEq, Eq)]
pub struct InstantiateMsg {
    pub config: Config,
}

#[derive(Debug, PartialEq, Eq)]
pub enum ExecuteMsg {
    /// Replace the configuration.
    UpdateConfig { config: Config },
    /// Bet that the price goes up. `round_id` names the round the player
    /// means, in case the message arrives late.
    BetBull { round_id: u128, amount: u128 },
    /// Bet that the price goes down.
    BetBear { round_id: u128, amount: u128 },
    /// Close the live round and open the next, as far as they are due.
    CloseRound {  },
    /// Pay the sender what their settled bets are worth.
    CollectWinnings {  },
    Hault {  },
    Resume {  },
}

#[derive(Debug, PartialEq, Eq)]
pub enum QueryMsg {
    Config {  },
    Status {  },
    MyCurrentPosition { address: String },
    FinishedRound { round_id: u128 },
    MyGameList { player: String, start_after: Option<u128>, limit: Option<u32> },
    ReverseMyGameList { player: String, start_after: Option<u128>, limit: Option<u32> },
    MyPendingReward { player: String },
}

#[derive(Clone, Copy, Debug, PartialEq, Eq, Structural)]
pub struct MigrateMsg {}

/// The side of a bet: `Bull` wins when the price rises, `Bear` when it falls.
#[derive(Clone, Copy, Debug, PartialEq, Eq, Structural)]
pub enum Direction {
    Bull,
    Bear,
}

impl Direction {
    /// The lower-case name of the direction.
    pub open spec fn spec_name(self) -> Seq<char> {
        match self {
            Direction::Bull => "bull"@,
            Direction::Bear => "bear"@,
        }
    }

    pub fn to_string(&self) -> (name: String)
        ensures
            name@ == self.spec_name(),
    {
        match self {
            Direction::Bull => "bull".to_owned(),
            Direction::Bear => "bear".to_owned(),
        }
    }
}

#[derive(Clone, Copy, Debug, PartialEq, Eq, Structural)]
pub struct StatusResponse {
    pub bidding_round: Option<NextRound>,
    pub live_round: Option<LiveRound>,
    pub total_volume: u128,
    pub current_time: u64,
    pub finished_round: FinishedRound,
}

#[derive(Clone, Copy, Debug, PartialEq, Eq, Structural)]
pub struct MyCurrentPositionResponse {
    pub live_bear_amount: u128,
    pub live_bull_amount: u128,
    pub next_bear_amount: u128,
    pub next_bull_amount: u128,
}

/// The parameters an administrator can change.
#[derive(Debug, PartialEq, Eq)]
pub struct Config {
    /// How long a round stays live, and how long the one after it takes bets.
    pub next_round_seconds: u128,
    pub fast_oracle_addr: String,
    pub minimum_bet: u128,
    pub burn_fee: u128,
    /// The fee taken from every bet, in hundredths of a percent.
    pub gaming_fee: u128,
    pub token_addr: String,
}

impl Config {
    /// The length of a round in seconds: `next_round_seconds`, of which
    /// only the lowest 64 bits count.
    pub open spec fn spec_round_seconds(self) -> u64 {
        (self.next_round_seconds % 0x1_0000_0000_0000_0000) as u64
    }

    pub fn round_seconds(&self) -> (seconds: u64)
        ensures
            seconds == self.spec_round_seconds(),
    {
        (self.next_round_seconds % 0x1_0000_0000_0000_0000) as u64
    }
}

impl Clone for Config {
    fn clone(&self) -> (copy: Self)
        ensures
            copy == *self,
    {
        Config {
            next_round_seconds: self.next_round_seconds,
            fast_oracle_addr: self.fast_oracle_addr.clone(),
            minimum_bet: self.minimum_bet,
            burn_fee: self.burn_fee,
            gaming_fee: self.gaming_fee,
            token_addr: self.token_addr.clone(),
        }
    }
}

/// A round that is taking bets.
#[derive(Clone, Copy, Debug, PartialEq, Eq, Structural)]
pub struct NextRound {
    pub id: u128,
    pub bid_time: Timestamp,
    pub open_time: Timestamp,
    pub close_time: Timestamp,
    pub bull_amount: u128,
    pub bear_amount: u128,
}

/// A round whose opening price is fixed and whose closing price is awaited.
#[derive(Clone, Copy, Debug, PartialEq, Eq, Structural)]
pub struct LiveRound {
    pub id: u128,
    pub bid_time: Timestamp,
    pub open_time: Timestamp,
    pub close_time: Timestamp,
    pub open_price: u128,
    pub bull_amount: u128,
    pub bear_amount: u128,
}

/// A settled round. `winner` is `None` where the price did not move.
#[derive(Clone, Copy, Debug, PartialEq, Eq, Structural)]
pub struct FinishedRound {
    pub id: u128,
    pub bid_time: Timestamp,
    pub open_time: Timestamp,
    pub close_time: Timestamp,
    pub open_price: u128,
    pub close_price: u128,
    pub winner: Option<Direction>,
    pub bull_amount: u128,
    pub bear_amount: u128,
}

#[derive(Clone, Copy, Debug, PartialEq, Eq, Structural)]
pub enum FastOracleQueryMsg {
    Price {  },
}

#[derive(Debug, PartialEq, Eq)]
pub enum FastOracleExecuteMsg {
    Update { price: u128 },
    Owner { owner: String },
}

#[derive(Clone, Copy, Debug, PartialEq, Eq, Structural)]
pub struct FastOracleInstantiateMsg {}

} // verus!
