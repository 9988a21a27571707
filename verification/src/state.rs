//! What the market remembers between operations.

use crate::ledger::{ordered_by_round, staked, unique_keys, BetLedger};
use crate::msg::{Config, Direction, FinishedRound, LiveRound, NextRound};
use crate::settlement::{pool, side_amount};
use vstd::prelude::*;

verus! {

/// One player's bet in one round. `amount` is what is left of the stake
/// after the fee.
#[derive(Debug, PartialEq, Eq)]
pub struct BetInfo {
    pub player: String,
    pub round_id: u128,
    pub amount: u128,
    pub direction: Direction,
}

impl Clone for BetInfo {
    fn clone(&self) -> (copy: Self)
        ensures
            copy == *self,
    {
        BetInfo {
            player: self.player.clone(),
            round_id: self.round_id,
            amount: self.amount,
            direction: self.direction,
        }
    }
}

/// What a bet is found by: its round and its player.
pub type BetInfoKey = (u128, String);

/// The key of the bet of `player` in round `round_id`.
pub fn bet_info_key(round_id: u128, player: &String) -> (key: BetInfoKey)
    ensures
        key.0 == round_id,
        key.1 == *player,
{
    (round_id, player.clone())
}

/// The answer to a listing of a player's bets.
#[derive(Debug, PartialEq, Eq)]
pub struct MyGameResponse {
    pub my_game_list: Vec<BetInfo>,
}

/// The answer to a question for a player's uncollected winnings.
#[derive(Clone, Copy, Debug, PartialEq, Eq, Structural)]
pub struct PendingRewardResponse {
    pub pending_reward: u128,
}

/// The ledger that a new market starts with: it holds no bet.
pub fn bet_info_storage() -> (ledger: BetLedger)
    ensures
        ledger@ == Seq::<BetInfo>::empty(),
        ledger.wf(),
{
    BetLedger::new()
}

/// The whole state of a market.
#[derive(Debug, PartialEq, Eq)]
pub struct Market {
    /// While this is set, no bet is taken and no round advances.
    pub is_haulted: bool,
    pub config: Config,
    /// The number of rounds created so far; the next round gets it as its
    /// id.
    pub next_round_id: u128,
    /// The round that is open for betting.
    pub next_round: Option<NextRound>,
    /// The live round; it takes no bets.
    pub live_round: Option<LiveRound>,
    /// All fees taken so far.
    pub accumulated_fee: u128,
    /// The finished rounds; the round with id `i` stands at index `i`.
    pub rounds: Vec<FinishedRound>,
    /// All stakes ever placed, after the fee.
    pub total_volume: u128,
    pub bets: BetLedger,
}

impl Clone for Market {
    fn clone(&self) -> (copy: Self)
        ensures
            copy@ == self@,
    {
        let mut rounds: Vec<FinishedRound> = Vec::new();
        let mut i: usize = 0;
        while i < self.rounds.len()
            invariant
                i <= self.rounds.len(),
                rounds@ == self.rounds@.take(i as int),
            decreases self.rounds.len() - i,
        {
            rounds.push(self.rounds[i]);
            assert(self.rounds@.take(i + 1) =~= self.rounds@.take(i as int).push(
                self.rounds@[i as int],
            ));
            i += 1;
        }
        assert(self.rounds@.take(self.rounds.len() as int) =~= self.rounds@);
        Market {
            is_haulted: self.is_haulted,
            config: self.config.clone(),
            next_round_id: self.next_round_id,
            next_round: self.next_round,
            live_round: self.live_round,
            accumulated_fee: self.accumulated_fee,
            rounds,
            total_volume: self.total_volume,
            bets: self.bets.clone(),
        }
    }
}

/// A market as a mathematical value.
pub struct MarketView {
    pub is_haulted: bool,
    pub config: Config,
    pub next_round_id: u128,
    pub next_round: Option<NextRound>,
    pub live_round: Option<LiveRound>,
    pub accumulated_fee: u128,
    pub rounds: Seq<FinishedRound>,
    pub total_volume: u128,
    pub bets: Seq<BetInfo>,
}

impl View for Market {
    type V = MarketView;

    open spec fn view(&self) -> MarketView {
        MarketView {
            is_haulted: self.is_haulted,
            config: self.config,
            next_round_id: self.next_round_id,
            next_round: self.next_round,
            live_round: self.live_round,
            accumulated_fee: self.accumulated_fee,
            rounds: self.rounds@,
            total_volume: self.total_volume,
            bets: self.bets@,
        }
    }
}

/// The sum of the pools of `rounds`.
pub open spec fn pools_total(rounds: Seq<FinishedRound>) -> int
    decreases rounds.len(),
{
    if rounds.len() == 0 {
        0
    } else {
        pools_total(rounds.drop_last()) + pool(rounds.last())
    }
}

/// What is staked on `direction` in a live round.
pub open spec fn live_side(round: LiveRound, direction: Direction) -> u128 {
    match direction {
        Direction::Bull => round.bull_amount,
        Direction::Bear => round.bear_amount,
    }
}

/// What is staked on `direction` in a round that is taking bets.
pub open spec fn bidding_side(round: NextRound, direction: Direction) -> u128 {
    match direction {
        Direction::Bull => round.bull_amount,
        Direction::Bear => round.bear_amount,
    }
}

impl MarketView {
    /// The number of finished rounds.
    pub open spec fn finished(self) -> int {
        self.rounds.len() as int
    }

    /// Round `round_id` has finished.
    pub open spec fn settled(self, round_id: u128) -> bool {
        round_id < self.rounds.len()
    }

    /// What the record of round `round_id` says was staked on `direction`,
    /// whatever phase the round is in; nothing for a round that does not
    /// exist.
    pub open spec fn pool_of(self, round_id: u128, direction: Direction) -> int {
        if round_id < self.rounds.len() {
            side_amount(self.rounds[round_id as int], direction) as int
        } else if self.live_round is Some && self.live_round.unwrap().id == round_id {
            live_side(self.live_round.unwrap(), direction) as int
        } else if self.next_round is Some && self.next_round.unwrap().id == round_id {
            bidding_side(self.next_round.unwrap(), direction) as int
        } else {
            0
        }
    }

    /// What is staked in the two rounds that have not finished.
    pub open spec fn open_pools(self) -> int {
        (match self.live_round {
            Some(live) => live.bull_amount + live.bear_amount,
            None => 0,
        }) + (match self.next_round {
            Some(bidding) => bidding.bull_amount + bidding.bear_amount,
            None => 0,
        })
    }

    /// Every round that was ever created is in exactly one phase. The
    /// finished rounds are the oldest and stand by their ids; the live
    /// round, if any, is the one after them; the bidding round is the
    /// newest, and it opens when the live round closes.
    pub open spec fn rounds_wf(self) -> bool {
        &&& forall|i: int| 0 <= i < self.rounds.len() ==> (#[trigger] self.rounds[i]).id == i
        &&& match (self.next_round, self.live_round) {
            (None, None) => self.next_round_id == 0 && self.rounds.len() == 0,
            (Some(bidding), None) => {
                &&& self.next_round_id == 1
                &&& bidding.id == 0
                &&& self.rounds.len() == 0
            },
            (Some(bidding), Some(live)) => {
                &&& self.next_round_id == self.rounds.len() + 2
                &&& bidding.id == self.rounds.len() + 1
                &&& live.id == self.rounds.len()
                &&& bidding.open_time == live.close_time
            },
            (None, Some(_)) => false,
        }
    }

    /// Every bet belongs to a round that exists. In a round that has not
    /// finished, each pool is the sum of the bets on its side; in a
    /// finished round it is no less, as bets leave the ledger when they
    /// are collected.
    pub open spec fn bets_wf(self) -> bool {
        &&& forall|i: int|
            0 <= i < self.bets.len() ==> (#[trigger] self.bets[i]).round_id < self.next_round_id
        &&& forall|round_id: u128, direction: Direction|
            #![trigger staked(self.bets, round_id, direction)]
            #![trigger self.pool_of(round_id, direction)]
            if self.settled(round_id) {
                staked(self.bets, round_id, direction) <= self.pool_of(round_id, direction)
            } else {
                staked(self.bets, round_id, direction) == self.pool_of(round_id, direction)
            }
    }

    /// The total volume is the sum of all pools.
    pub open spec fn volume_wf(self) -> bool {
        self.total_volume == pools_total(self.rounds) + self.open_pools()
    }

    /// The market is well formed.
    pub open spec fn wf(self) -> bool {
        &&& self.rounds_wf()
        &&& unique_keys(self.bets)
        &&& ordered_by_round(self.bets)
        &&& self.bets_wf()
        &&& self.volume_wf()
    }
}

impl Market {
    /// The market is well formed: see [`MarketView::wf`].
    pub open spec fn wf(self) -> bool {
        self@.wf()
    }

    /// A market with the given configuration in which nothing has happened
    /// yet.
    pub fn new(config: Config) -> (market: Market)
        ensures
            market@ == (MarketView {
                is_haulted: false,
                config,
                next_round_id: 0,
                next_round: None,
                live_round: None,
                accumulated_fee: 0,
                rounds: Seq::empty(),
                total_volume: 0,
                bets: Seq::empty(),
            }),
            market.wf(),
    {
        let market = Market {
            is_haulted: false,
            config,
            next_round_id: 0,
            next_round: None,
            live_round: None,
            accumulated_fee: 0,
            rounds: Vec::new(),
            total_volume: 0,
            bets: bet_info_storage(),
        };
        proof {
            assert forall|round_id: u128, direction: Direction|
                staked(market@.bets, round_id, direction) == 0 by {}
        }
        market
    }
}

/// What a well formed market says of one round and one side: the bets on
/// it add up to its pool or, once the round has finished, to no more.
pub proof fn lemma_stakes_within_pool(market: MarketView, round_id: u128, direction: Direction)
    requires
        market.bets_wf(),
    ensures
        staked(market.bets, round_id, direction) <= market.pool_of(round_id, direction),
        !market.settled(round_id) ==> staked(market.bets, round_id, direction) == market.pool_of(
            round_id,
            direction,
        ),
{
}

/// Adding a finished round adds its pool to the total.
pub proof fn lemma_pools_total_push(rounds: Seq<FinishedRound>, round: FinishedRound)
    ensures
        pools_total(rounds.push(round)) == pools_total(rounds) + pool(round),
{
    assert(rounds.push(round).drop_last() =~= rounds);
}

/// The total of the pools is at least the pool of each round.
pub proof fn lemma_pools_total_covers(rounds: Seq<FinishedRound>, i: int)
    requires
        0 <= i < rounds.len(),
    ensures
        0 <= pool(rounds[i]) <= pools_total(rounds),
    decreases rounds.len(),
{
    lemma_pools_total_nonnegative(rounds.drop_last());
    if i < rounds.len() - 1 {
        lemma_pools_total_covers(rounds.drop_last(), i);
    }
}

/// The total of the pools is never negative.
pub proof fn lemma_pools_total_nonnegative(rounds: Seq<FinishedRound>)
    ensures
        0 <= pools_total(rounds),
    decreases rounds.len(),
{
    if rounds.len() > 0 {
        lemma_pools_total_nonnegative(rounds.drop_last());
    }
}

/// The pools of the first rounds are no more than the pools of all.
pub proof fn lemma_pools_total_prefix(rounds: Seq<FinishedRound>, n: int)
    requires
        0 <= n <= rounds.len(),
    ensures
        0 <= pools_total(rounds.take(n)) <= pools_total(rounds),
    decreases rounds.len() - n,
{
    lemma_pools_total_nonnegative(rounds.take(n));
    if n == rounds.len() {
        assert(rounds.take(n) =~= rounds);
    } else {
        lemma_pools_total_prefix(rounds, n + 1);
        assert(rounds.take(n + 1).drop_last() =~= rounds.take(n));
    }
}

} // verus!
