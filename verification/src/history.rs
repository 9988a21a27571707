//! What holds of a market over its whole life.
//!
//! A market starts empty and changes only through the messages it is
//! sent. The laws here speak of every sequence of messages, accepted or
//! refused, in any order and at any times.

use crate::betting::lemma_bet_keeps_wf;
use crate::execute::{lemma_setting_keeps_wf, Env, MessageInfo, Response};
use crate::ledger::{lemma_staked_push, stake_on, staked};
use crate::msg::{Config, Direction, ExecuteMsg};
use crate::scheduler::{lemma_advance_keeps_pools, lemma_advance_keeps_wf};
use crate::settlement::{lemma_collect_keeps_wf, pool};
use crate::state::{BetInfo, MarketView};
use vstd::prelude::*;

verus! {

/// One message with what the host says about its call.
#[derive(Debug, PartialEq, Eq)]
pub struct Call {
    pub env: Env,
    pub info: MessageInfo,
    pub msg: ExecuteMsg,
}

/// The market that a new contract starts with.
pub open spec fn new_market(config: Config) -> MarketView {
    MarketView {
        is_haulted: false,
        config,
        next_round_id: 0,
        next_round: None,
        live_round: None,
        accumulated_fee: 0,
        rounds: Seq::empty(),
        total_volume: 0,
        bets: Seq::empty(),
    }
}

/// The market after a call: what the call made of it or, where the call
/// was refused, what it was before.
pub open spec fn after_call(market: MarketView, call: Call) -> MarketView {
    match market.execute_result(call.env, call.info, call.msg) {
        Ok((after, _)) => after,
        Err(_) => market,
    }
}

/// The bet that a call placed, if it placed one.
pub open spec fn bet_taken(market: MarketView, call: Call) -> Option<BetInfo> {
    match market.execute_result(call.env, call.info, call.msg) {
        Ok((_, Response::Bet { bet, .. })) => Some(bet),
        _ => None,
    }
}

/// What a call pulled from its sender: the whole stake of the bet it
/// placed, fee included.
pub open spec fn stake_taken(market: MarketView, call: Call) -> int {
    match call.msg {
        ExecuteMsg::BetBull { amount, .. } | ExecuteMsg::BetBear { amount, .. } => if bet_taken(
            market,
            call,
        ) is Some {
            amount as int
        } else {
            0
        },
        _ => 0,
    }
}

/// The market after a sequence of calls.
pub open spec fn after_calls(market: MarketView, calls: Seq<Call>) -> MarketView
    decreases calls.len(),
{
    if calls.len() == 0 {
        market
    } else {
        after_call(after_calls(market, calls.drop_last()), calls.last())
    }
}

/// The records of all bets placed in the course of `calls`, in their
/// order.
pub open spec fn bets_taken(market: MarketView, calls: Seq<Call>) -> Seq<BetInfo>
    decreases calls.len(),
{
    if calls.len() == 0 {
        Seq::empty()
    } else {
        let earlier = bets_taken(market, calls.drop_last());
        match bet_taken(after_calls(market, calls.drop_last()), calls.last()) {
            Some(bet) => earlier.push(bet),
            None => earlier,
        }
    }
}

/// The sum of all stakes pulled from players in the course of `calls`,
/// fees included.
pub open spec fn stakes_taken(market: MarketView, calls: Seq<Call>) -> int
    decreases calls.len(),
{
    if calls.len() == 0 {
        0
    } else {
        stakes_taken(market, calls.drop_last()) + stake_taken(
            after_calls(market, calls.drop_last()),
            calls.last(),
        )
    }
}

/// One call keeps a market well formed, adds to the pools exactly the bet
/// it places, and leaves every finished round as it was recorded.
pub proof fn lemma_call(market: MarketView, call: Call, round_id: u128, direction: Direction)
    requires
        market.wf(),
    ensures
        after_call(market, call).wf(),
        after_call(market, call).pool_of(round_id, direction) == market.pool_of(round_id, direction)
            + match bet_taken(market, call) {
            Some(bet) => stake_on(bet, round_id, direction),
            None => 0,
        },
        after_call(market, call).accumulated_fee + after_call(market, call).total_volume
            == market.accumulated_fee + market.total_volume + stake_taken(market, call),
        market.settled(round_id) ==> after_call(market, call).settled(round_id) && after_call(
            market,
            call,
        ).rounds[round_id as int] == market.rounds[round_id as int],
        after_call(market, call).accumulated_fee >= market.accumulated_fee,
        after_call(market, call).total_volume >= market.total_volume,
        after_call(market, call).next_round_id >= market.next_round_id,
        after_call(market, call).finished() >= market.finished(),
        bet_taken(market, call) matches Some(bet) ==> market.next_round is Some && bet.round_id
            == market.next_round.unwrap().id,
{
    let after = after_call(market, call);
    if market.execute_result(call.env, call.info, call.msg) is Ok {
        match call.msg {
            ExecuteMsg::UpdateConfig { .. } | ExecuteMsg::Hault {  } | ExecuteMsg::Resume {  } => {
                lemma_setting_keeps_wf(market, after);
            },
            ExecuteMsg::BetBull { round_id: bet_round, amount } => {
                lemma_bet_keeps_wf(
                    market,
                    bet_round,
                    call.info.sender,
                    amount,
                    Direction::Bull,
                    call.env.time,
                );
            },
            ExecuteMsg::BetBear { round_id: bet_round, amount } => {
                lemma_bet_keeps_wf(
                    market,
                    bet_round,
                    call.info.sender,
                    amount,
                    Direction::Bear,
                    call.env.time,
                );
            },
            ExecuteMsg::CloseRound {  } => {
                let feed = if market.needs_price(call.env.time) {
                    call.env.price.unwrap()
                } else {
                    0
                };
                lemma_advance_keeps_wf(market, call.env.time, feed);
                lemma_advance_keeps_pools(market, call.env.time, feed, round_id, direction);
            },
            ExecuteMsg::CollectWinnings {  } => {
                lemma_collect_keeps_wf(market, call.info.sender@);
            },
        }
    }
}

/// What holds after every sequence of calls: see the laws below.
proof fn lemma_calls(market: MarketView, calls: Seq<Call>, round_id: u128, direction: Direction)
    requires
        market.wf(),
    ensures
        after_calls(market, calls).wf(),
        after_calls(market, calls).pool_of(round_id, direction) == market.pool_of(
            round_id,
            direction,
        ) + staked(bets_taken(market, calls), round_id, direction),
        after_calls(market, calls).accumulated_fee + after_calls(market, calls).total_volume
            == market.accumulated_fee + market.total_volume + stakes_taken(market, calls),
    decreases calls.len(),
{
    if calls.len() > 0 {
        let before = after_calls(market, calls.drop_last());
        lemma_calls(market, calls.drop_last(), round_id, direction);
        lemma_call(before, calls.last(), round_id, direction);
        match bet_taken(before, calls.last()) {
            Some(bet) => {
                lemma_staked_push(
                    bets_taken(market, calls.drop_last()),
                    bet,
                    round_id,
                    direction,
                );
            },
            None => {},
        }
    }
}

/// The market stays well formed, whatever it is sent.
pub proof fn lemma_always_well_formed(config: Config, calls: Seq<Call>)
    ensures
        after_calls(new_market(config), calls).wf(),
{
    let market = new_market(config);
    assert forall|round_id: u128, direction: Direction|
        staked(market.bets, round_id, direction) == 0 by {}
    lemma_calls(market, calls, 0, Direction::Bull);
}

/// The pools are the bets. In every round, finished or not, what the
/// record says was staked on a side is the sum of the stakes, after the
/// fee, of all bets ever placed on that side in that round. For a
/// finished round in particular, the pool of both sides is the sum of
/// all bets placed while the round took bets.
pub proof fn lemma_pools_are_the_bets(config: Config, calls: Seq<Call>, round_id: u128)
    ensures
        after_calls(new_market(config), calls).pool_of(round_id, Direction::Bull) == staked(
            bets_taken(new_market(config), calls),
            round_id,
            Direction::Bull,
        ),
        after_calls(new_market(config), calls).pool_of(round_id, Direction::Bear) == staked(
            bets_taken(new_market(config), calls),
            round_id,
            Direction::Bear,
        ),
        after_calls(new_market(config), calls).settled(round_id) ==> pool(
            after_calls(new_market(config), calls).rounds[round_id as int],
        ) == staked(bets_taken(new_market(config), calls), round_id, Direction::Bull) + staked(
            bets_taken(new_market(config), calls),
            round_id,
            Direction::Bear,
        ),
{
    let market = new_market(config);
    assert forall|round_id: u128, direction: Direction|
        staked(market.bets, round_id, direction) == 0 by {}
    lemma_calls(market, calls, round_id, Direction::Bull);
    lemma_calls(market, calls, round_id, Direction::Bear);
}

/// The fee reconciles with the stakes. What was taken as fee and what
/// was added to the pools are together what the players have paid in.
pub proof fn lemma_fee_reconciles(config: Config, calls: Seq<Call>)
    ensures
        after_calls(new_market(config), calls).accumulated_fee + after_calls(
            new_market(config),
            calls,
        ).total_volume == stakes_taken(new_market(config), calls),
{
    let market = new_market(config);
    assert forall|round_id: u128, direction: Direction|
        staked(market.bets, round_id, direction) == 0 by {}
    lemma_calls(market, calls, 0, Direction::Bull);
}

/// Nothing is taken back. No call lowers the accumulated fee, the total
/// volume, the number of rounds created or the number of rounds finished.
pub proof fn lemma_counters_never_decrease(market: MarketView, calls: Seq<Call>)
    requires
        market.wf(),
    ensures
        after_calls(market, calls).accumulated_fee >= market.accumulated_fee,
        after_calls(market, calls).total_volume >= market.total_volume,
        after_calls(market, calls).next_round_id >= market.next_round_id,
        after_calls(market, calls).finished() >= market.finished(),
    decreases calls.len(),
{
    if calls.len() > 0 {
        lemma_counters_never_decrease(market, calls.drop_last());
        lemma_calls(market, calls.drop_last(), 0, Direction::Bull);
        lemma_call(after_calls(market, calls.drop_last()), calls.last(), 0, Direction::Bull);
    }
}

/// Pools are frozen when betting ends. A call changes no pool but that of
/// the round that takes bets: once a round is live, and ever after, its
/// pools are what they were when it went live.
pub proof fn lemma_pools_frozen(market: MarketView, call: Call, round_id: u128, direction: Direction)
    requires
        market.wf(),
        market.next_round is Some ==> market.next_round.unwrap().id != round_id,
    ensures
        after_call(market, call).pool_of(round_id, direction) == market.pool_of(
            round_id,
            direction,
        ),
{
    lemma_call(market, call, round_id, direction);
}

/// Finished rounds are final. No call changes the record of a round that
/// has finished.
pub proof fn lemma_finished_rounds_are_final(market: MarketView, calls: Seq<Call>, round_id: u128)
    requires
        market.wf(),
        market.settled(round_id),
    ensures
        after_calls(market, calls).settled(round_id),
        after_calls(market, calls).rounds[round_id as int] == market.rounds[round_id as int],
    decreases calls.len(),
{
    if calls.len() > 0 {
        lemma_finished_rounds_are_final(market, calls.drop_last(), round_id);
        lemma_calls(market, calls.drop_last(), round_id, Direction::Bull);
        lemma_call(
            after_calls(market, calls.drop_last()),
            calls.last(),
            round_id,
            Direction::Bull,
        );
    }
}

} // verus!
