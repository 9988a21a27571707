//! Placing a bet.
//!
//! A bet is taken only for the round that is open for betting, before that
//! round's opening time, from a player who has no bet in it yet. The fee
//! is taken out of the stake; what is left is recorded in the ledger and
//! added to the pool of its side, to the total volume and, as for the fee,
//! to the accumulated fee.

use crate::error::ContractError;
use crate::fee::{compute_gaming_fee, fee};
use crate::ledger::{has_key, holds, lemma_staked_push, lookup, staked};
use crate::msg::{Direction, NextRound};
use crate::state::{
    bet_info_key, lemma_pools_total_nonnegative, lemma_stakes_within_pool, BetInfo, Market,
    MarketView,
};
use crate::timestamp::Timestamp;
use vstd::prelude::*;

verus! {

/// The bidding round `bidding` after a stake of `net` on `direction`.
pub open spec fn with_stake(bidding: NextRound, direction: Direction, net: u128) -> NextRound {
    match direction {
        Direction::Bull => NextRound {
            bull_amount: (bidding.bull_amount + net) as u128,
            ..bidding
        },
        Direction::Bear => NextRound {
            bear_amount: (bidding.bear_amount + net) as u128,
            ..bidding
        },
    }
}

impl MarketView {
    /// The fee on a bet of `gross`.
    pub open spec fn fee_on(self, gross: u128) -> int {
        fee(self.config.gaming_fee, gross)
    }

    /// Taking a bet of `gross` would take an amount out of its range: the
    /// fee exceeds the stake, or the accumulated fee or the total volume
    /// would pass 128 bits.
    pub open spec fn bet_overflows(self, gross: u128) -> bool {
        ||| self.fee_on(gross) > gross
        ||| self.accumulated_fee + self.fee_on(gross) > u128::MAX
        ||| self.total_volume + (gross - self.fee_on(gross)) > u128::MAX
    }

    /// Why a bet is refused, if it is. The checks are made in this order
    /// and the first that fails decides.
    pub open spec fn bet_rejection(
        self,
        round_id: u128,
        player: Seq<char>,
        gross: u128,
        now: Timestamp,
    ) -> Option<ContractError> {
        if self.next_round is None {
            Some(ContractError::NoBiddingRound)
        } else if round_id != self.next_round.unwrap().id {
            Some(
                ContractError::WrongRound {
                    requested: round_id,
                    current: self.next_round.unwrap().id,
                },
            )
        } else if gross < self.config.minimum_bet {
            Some(ContractError::InsufficientFundsForBet)
        } else if now.nanos >= self.next_round.unwrap().open_time.nanos {
            Some(
                ContractError::BettingClosed {
                    round_id,
                    seconds_ago: (now.spec_seconds() - self.next_round.unwrap().open_time.spec_seconds()) as u64,
                },
            )
        } else if lookup(self.bets, round_id, player) is Some {
            Some(
                ContractError::AlreadyBet {
                    direction: lookup(self.bets, round_id, player).unwrap().direction,
                    amount: lookup(self.bets, round_id, player).unwrap().amount,
                },
            )
        } else if self.bet_overflows(gross) {
            Some(ContractError::Overflow)
        } else {
            None
        }
    }

    /// The record of a bet that is taken.
    pub open spec fn bet_record(
        self,
        round_id: u128,
        player: String,
        gross: u128,
        direction: Direction,
    ) -> BetInfo {
        BetInfo { player, round_id, amount: (gross - self.fee_on(gross)) as u128, direction }
    }

    /// The market after a bet has been taken.
    pub open spec fn bet_placed(
        self,
        round_id: u128,
        player: String,
        gross: u128,
        direction: Direction,
    ) -> MarketView {
        let bet = self.bet_record(round_id, player, gross, direction);
        MarketView {
            next_round: Some(with_stake(self.next_round.unwrap(), direction, bet.amount)),
            accumulated_fee: (self.accumulated_fee + self.fee_on(gross)) as u128,
            total_volume: (self.total_volume + bet.amount) as u128,
            bets: self.bets.push(bet),
            ..self
        }
    }

    /// What placing a bet does: the market after it and the record of the
    /// bet, or why the bet was refused.
    pub open spec fn bet_result(
        self,
        round_id: u128,
        player: String,
        gross: u128,
        direction: Direction,
        now: Timestamp,
    ) -> Result<(MarketView, BetInfo), ContractError> {
        match self.bet_rejection(round_id, player@, gross, now) {
            Some(e) => Err(e),
            None => Ok(
                (
                    self.bet_placed(round_id, player, gross, direction),
                    self.bet_record(round_id, player, gross, direction),
                ),
            ),
        }
    }
}

/// Checks that `round_id` names the round that is open for betting, and
/// returns that round.
pub fn assert_is_current_round(market: &Market, round_id: u128) -> (r: Result<
    NextRound,
    ContractError,
>)
    ensures
        market.next_round is None ==> r == Err::<NextRound, ContractError>(
            ContractError::NoBiddingRound,
        ),
        market.next_round matches Some(bidding) ==> r == if round_id == bidding.id {
            Ok::<NextRound, ContractError>(bidding)
        } else {
            Err::<NextRound, ContractError>(
                ContractError::WrongRound { requested: round_id, current: bidding.id },
            )
        },
{
    match market.next_round {
        None => Err(ContractError::NoBiddingRound),
        Some(open_round) => {
            if round_id != open_round.id {
                return Err(
                    ContractError::WrongRound { requested: round_id, current: open_round.id },
                );
            }
            Ok(open_round)
        },
    }
}

impl Market {
    /// Places a bet of `gross` on `direction` for `player` in round
    /// `round_id` at the time `now`, and returns its record. A bet that is
    /// refused changes nothing.
    pub fn place_bet(
        &mut self,
        round_id: u128,
        player: &String,
        gross: u128,
        direction: Direction,
        now: Timestamp,
    ) -> (r: Result<BetInfo, ContractError>)
        requires
            old(self).wf(),
        ensures
            final(self).wf(),
            match old(self)@.bet_result(round_id, *player, gross, direction, now) {
                Ok((market, bet)) => final(self)@ == market && r == Ok::<BetInfo, ContractError>(
                    bet,
                ),
                Err(e) => final(self)@ == old(self)@ && r == Err::<BetInfo, ContractError>(e),
            },
    {
        let bet_round = match assert_is_current_round(self, round_id) {
            Ok(bet_round) => bet_round,
            Err(e) => {
                return Err(e);
            },
        };
        if gross < self.config.minimum_bet {
            return Err(ContractError::InsufficientFundsForBet);
        }
        if now.nanos >= bet_round.open_time.nanos {
            let current_time = now.seconds();
            let open_time = bet_round.open_time.seconds();
            assert(current_time >= open_time) by (nonlinear_arith)
                requires
                    now.nanos >= bet_round.open_time.nanos,
                    current_time == now.nanos / 1_000_000_000,
                    open_time == bet_round.open_time.nanos / 1_000_000_000,
            ;
            return Err(
                ContractError::BettingClosed { round_id, seconds_ago: current_time - open_time },
            );
        }
        let key = bet_info_key(round_id, player);
        match self.bets.may_load(&key) {
            Some(existing) => {
                return Err(
                    ContractError::AlreadyBet {
                        direction: existing.direction,
                        amount: existing.amount,
                    },
                );
            },
            None => {},
        }
        let staker_fee = match compute_gaming_fee(&self.config, gross) {
            Ok(staker_fee) => staker_fee,
            Err(e) => {
                return Err(e);
            },
        };
        let fee_after = match self.accumulated_fee.checked_add(staker_fee) {
            Some(fee_after) => fee_after,
            None => {
                return Err(ContractError::Overflow);
            },
        };
        let bet_amt = match gross.checked_sub(staker_fee) {
            Some(bet_amt) => bet_amt,
            None => {
                return Err(ContractError::Overflow);
            },
        };
        let volume_after = match self.total_volume.checked_add(bet_amt) {
            Some(volume_after) => volume_after,
            None => {
                return Err(ContractError::Overflow);
            },
        };
        let bet = BetInfo { player: player.clone(), round_id, amount: bet_amt, direction };
        proof {
            lemma_bet_keeps_wf(old(self)@, round_id, *player, gross, direction, now);
        }
        let recorded = bet.clone();
        self.bets.append(bet);
        self.next_round = Some(
            match direction {
                Direction::Bull => NextRound {
                    bull_amount: bet_round.bull_amount + bet_amt,
                    ..bet_round
                },
                Direction::Bear => NextRound {
                    bear_amount: bet_round.bear_amount + bet_amt,
                    ..bet_round
                },
            },
        );
        self.accumulated_fee = fee_after;
        self.total_volume = volume_after;
        assert(self@ == old(self)@.bet_placed(round_id, *player, gross, direction));
        Ok(recorded)
    }
}

/// A bet that is taken keeps the market well formed, and neither the pool
/// of its side nor the record of its stake leaves the range of 128 bits.
pub proof fn lemma_bet_keeps_wf(
    market: MarketView,
    round_id: u128,
    player: String,
    gross: u128,
    direction: Direction,
    now: Timestamp,
)
    requires
        market.wf(),
        market.bet_rejection(round_id, player@, gross, now) is None,
    ensures
        market.bet_placed(round_id, player, gross, direction).wf(),
        market.next_round.unwrap().bull_amount + market.next_round.unwrap().bear_amount
            + market.bet_record(round_id, player, gross, direction).amount <= u128::MAX,
        forall|i: int|
            0 <= i < market.bets.len() ==> (#[trigger] market.bets[i]).round_id <= round_id,
{
    let bet = market.bet_record(round_id, player, gross, direction);
    let after = market.bet_placed(round_id, player, gross, direction);
    lemma_pools_total_nonnegative(market.rounds);
    assert(fee(market.config.gaming_fee, gross) >= 0) by (nonlinear_arith)
        requires
            fee(market.config.gaming_fee, gross) == market.config.gaming_fee * gross / 10000,
    ;
    assert forall|i: int| 0 <= i < market.bets.len() implies (#[trigger] market.bets[i]).round_id
        <= round_id by {}
    assert forall|i: int, j: int| 0 <= i < j < after.bets.len() implies !has_key(
        #[trigger] after.bets[i],
        (#[trigger] after.bets[j]).round_id,
        after.bets[j].player@,
    ) by {
        if j < market.bets.len() {
            assert(after.bets[i] == market.bets[i] && after.bets[j] == market.bets[j]);
        } else {
            assert(after.bets[i] == market.bets[i]);
        }
    }
    assert forall|i: int, j: int| 0 <= i <= j < after.bets.len() implies (#[trigger] after.bets[i]).round_id
        <= (#[trigger] after.bets[j]).round_id by {
        if j < market.bets.len() {
            assert(after.bets[i] == market.bets[i] && after.bets[j] == market.bets[j]);
        } else if i < market.bets.len() {
            assert(after.bets[i] == market.bets[i]);
        }
    }
    assert forall|i: int| 0 <= i < after.bets.len() implies (#[trigger] after.bets[i]).round_id
        < after.next_round_id by {
        if i < market.bets.len() {
            assert(after.bets[i] == market.bets[i]);
        }
    }
    assert forall|r: u128, d: Direction|
        #![trigger staked(after.bets, r, d)]
        #![trigger after.pool_of(r, d)]
        if after.settled(r) {
            staked(after.bets, r, d) <= after.pool_of(r, d)
        } else {
            staked(after.bets, r, d) == after.pool_of(r, d)
        } by {
        lemma_staked_push(market.bets, bet, r, d);
        lemma_stakes_within_pool(market, r, d);
    }
}

/// One bet per player and round. Where the ledger holds a bet of a
/// player in a round, every further bet of that player in that round is
/// refused, whatever its direction, its amount and its time.
pub proof fn lemma_second_bet_refused(
    market: MarketView,
    round_id: u128,
    player: String,
    gross: u128,
    direction: Direction,
    now: Timestamp,
)
    requires
        holds(market.bets, round_id, player@),
    ensures
        market.bet_result(round_id, player, gross, direction, now) is Err,
{
}

/// A bet that was taken is in the ledger, so that the same player cannot
/// bet in the same round again.
pub proof fn lemma_bet_taken_once(
    market: MarketView,
    round_id: u128,
    player: String,
    gross: u128,
    direction: Direction,
    now: Timestamp,
    gross_again: u128,
    direction_again: Direction,
    now_again: Timestamp,
)
    requires
        market.bet_result(round_id, player, gross, direction, now) is Ok,
    ensures
        market.bet_result(round_id, player, gross, direction, now).unwrap().0.bet_result(
            round_id,
            player,
            gross_again,
            direction_again,
            now_again,
        ) is Err,
{
    let after = market.bet_placed(round_id, player, gross, direction);
    assert(has_key(after.bets[market.bets.len() as int], round_id, player@));
    lemma_second_bet_refused(after, round_id, player, gross_again, direction_again, now_again);
}

} // verus!
