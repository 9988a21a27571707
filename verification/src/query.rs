//! The questions the market answers. None of them changes it.

use crate::error::ContractError;
use crate::execute::Env;
use crate::ledger::{lookup, select, Order};
use crate::msg::{
    Config, Direction, FinishedRound, MyCurrentPositionResponse, QueryMsg, StatusResponse,
};
use crate::state::{
    bet_info_key, BetInfo, Market, MarketView, MyGameResponse, PendingRewardResponse,
};
use crate::timestamp::Timestamp;
use vstd::prelude::*;

verus! {

/// The number of bets a listing returns where the caller names none.
pub const DEFAULT_QUERY_LIMIT: u32 = 10;

/// The largest number of bets a listing may be asked for.
pub const MAX_QUERY_LIMIT: u32 = 30;

/// The answer to a question.
#[derive(Debug, PartialEq, Eq)]
pub enum QueryResponse {
    Config(Config),
    Status(StatusResponse),
    MyCurrentPosition(MyCurrentPositionResponse),
    FinishedRound(FinishedRound),
    MyGameList(MyGameResponse),
    MyPendingReward(PendingRewardResponse),
}

/// The caller asks for more bets than a page may hold.
pub open spec fn limit_exceeded(limit: Option<u32>) -> bool {
    limit is Some && limit.unwrap() > MAX_QUERY_LIMIT
}

/// The refusal of a limit that is beyond the maximum.
pub open spec fn limit_refusal(limit: Option<u32>) -> ContractError {
    ContractError::LimitExceeded { limit: limit.unwrap(), maximum: MAX_QUERY_LIMIT }
}

/// The number of bets a listing returns at most: what the caller asked
/// for, or the default where the caller named no limit.
pub open spec fn page_size(limit: Option<u32>) -> int {
    match limit {
        Some(limit) => limit as int,
        None => DEFAULT_QUERY_LIMIT as int,
    }
}

/// The bets of `player` beyond the cursor, in the given order: those in
/// rounds after it from the oldest on, or those in rounds before it from
/// the newest on. Without a cursor, all bets of the player.
pub open spec fn listing(
    bets: Seq<BetInfo>,
    player: Seq<char>,
    cursor: Option<u128>,
    order: Order,
) -> Seq<BetInfo> {
    match order {
        Order::Ascending => select(bets, player, cursor, None),
        Order::Descending => select(bets, player, None, cursor).reverse(),
    }
}

/// The first `n` of `bets`, or all of them where there are fewer.
pub open spec fn first_page(bets: Seq<BetInfo>, n: int) -> Seq<BetInfo> {
    if n < bets.len() {
        bets.take(n)
    } else {
        bets
    }
}

/// `page` is the page of the bets of `player` beyond the cursor in the given
/// order that an allowed limit asks for: the first [`page_size`] of them,
/// and so never more than [`MAX_QUERY_LIMIT`].
pub open spec fn is_page(
    page: Seq<BetInfo>,
    bets: Seq<BetInfo>,
    player: Seq<char>,
    cursor: Option<u128>,
    limit: Option<u32>,
    order: Order,
) -> bool {
    &&& page == first_page(listing(bets, player, cursor, order), page_size(limit))
    &&& page.len() <= MAX_QUERY_LIMIT
}

/// What is reported of a round that has not finished: an empty record
/// with id 0 that names the bears as winners.
pub open spec fn no_round() -> FinishedRound {
    FinishedRound {
        id: 0,
        bid_time: Timestamp { nanos: 0 },
        open_time: Timestamp { nanos: 0 },
        close_time: Timestamp { nanos: 0 },
        open_price: 0,
        close_price: 0,
        winner: Some(Direction::Bear),
        bull_amount: 0,
        bear_amount: 0,
    }
}

/// What a bet, if there is one, stakes on `direction`.
pub open spec fn position(bet: Option<BetInfo>, direction: Direction) -> u128 {
    match bet {
        Some(bet) => if bet.direction == direction {
            bet.amount
        } else {
            0
        },
        None => 0,
    }
}

impl MarketView {
    /// The record of round `round_id` where it has finished.
    pub open spec fn finished_round(self, round_id: u128) -> FinishedRound {
        if round_id < self.rounds.len() {
            self.rounds[round_id as int]
        } else {
            no_round()
        }
    }

    /// The bet of `player` in the round created `back` rounds ago, the
    /// newest round being one round back.
    pub open spec fn recent_bet(self, player: Seq<char>, back: u128) -> Option<BetInfo> {
        if self.next_round_id >= back {
            lookup(self.bets, (self.next_round_id - back) as u128, player)
        } else {
            None
        }
    }

    /// What `player` has staked in the bidding round and in the live
    /// round.
    pub open spec fn current_position(self, player: Seq<char>) -> MyCurrentPositionResponse {
        MyCurrentPositionResponse {
            live_bear_amount: position(self.recent_bet(player, 2), Direction::Bear),
            live_bull_amount: position(self.recent_bet(player, 2), Direction::Bull),
            next_bear_amount: position(self.recent_bet(player, 1), Direction::Bear),
            next_bull_amount: position(self.recent_bet(player, 1), Direction::Bull),
        }
    }

    /// A round has finished before the live round.
    pub open spec fn has_status(self) -> bool {
        &&& self.live_round is Some
        &&& 1 <= self.live_round.unwrap().id <= self.rounds.len()
    }

    /// The state of the market at `now`, where [`Self::has_status`].
    pub open spec fn status(self, now: Timestamp) -> StatusResponse {
        StatusResponse {
            bidding_round: self.next_round,
            live_round: self.live_round,
            total_volume: self.total_volume,
            current_time: now.spec_seconds(),
            finished_round: self.rounds[self.live_round.unwrap().id - 1],
        }
    }
}

impl Market {
    /// A page of the bets of `player`: at most [`page_size`] bets in the
    /// given order, starting strictly beyond the cursor. A limit beyond
    /// [`MAX_QUERY_LIMIT`] is refused.
    pub fn list_bets(
        &self,
        player: &String,
        cursor: Option<u128>,
        limit: Option<u32>,
        order: Order,
    ) -> (r: Result<Vec<BetInfo>, ContractError>)
        ensures
            limit_exceeded(limit) ==> r == Err::<Vec<BetInfo>, ContractError>(
                limit_refusal(limit),
            ),
            !limit_exceeded(limit) ==> (r matches Ok(page) && is_page(
                page@,
                self@.bets,
                player@,
                cursor,
                limit,
                order,
            )),
    {
        let size = match query_limit(limit) {
            Ok(size) => size,
            Err(e) => {
                return Err(e);
            },
        };
        let mut page = match order {
            Order::Ascending => self.bets.player_range(player, cursor, None, Order::Ascending),
            Order::Descending => self.bets.player_range(player, None, cursor, Order::Descending),
        };
        page.truncate(size);
        assert(page@ =~= first_page(listing(self@.bets, player@, cursor, order), page_size(limit)));
        Ok(page)
    }
}

/// Answers one question.
pub fn query(market: &Market, env: Env, msg: QueryMsg) -> (r: Result<QueryResponse, ContractError>)
    requires
        market.wf(),
    ensures
        match msg {
            QueryMsg::Config {  } => r matches Ok(QueryResponse::Config(config)) && config
                == market.config,
            QueryMsg::Status {  } => r == if market@.has_status() {
                Ok::<QueryResponse, ContractError>(
                    QueryResponse::Status(market@.status(env.time)),
                )
            } else {
                Err::<QueryResponse, ContractError>(ContractError::NoFinishedRound)
            },
            QueryMsg::MyCurrentPosition { address } => r == Ok::<QueryResponse, ContractError>(
                QueryResponse::MyCurrentPosition(market@.current_position(address@)),
            ),
            QueryMsg::FinishedRound { round_id } => r == Ok::<QueryResponse, ContractError>(
                QueryResponse::FinishedRound(market@.finished_round(round_id)),
            ),
            QueryMsg::MyGameList { player, start_after, limit } => if limit_exceeded(limit) {
                r == Err::<QueryResponse, ContractError>(limit_refusal(limit))
            } else {
                r matches Ok(QueryResponse::MyGameList(games)) && is_page(
                    games.my_game_list@,
                    market@.bets,
                    player@,
                    start_after,
                    limit,
                    Order::Ascending,
                )
            },
            QueryMsg::ReverseMyGameList { player, start_after, limit } => if limit_exceeded(
                limit,
            ) {
                r == Err::<QueryResponse, ContractError>(limit_refusal(limit))
            } else {
                r matches Ok(QueryResponse::MyGameList(games)) && is_page(
                    games.my_game_list@,
                    market@.bets,
                    player@,
                    start_after,
                    limit,
                    Order::Descending,
                )
            },
            QueryMsg::MyPendingReward { player } => r == Ok::<QueryResponse, ContractError>(
                QueryResponse::MyPendingReward(
                    PendingRewardResponse {
                        pending_reward: market@.pending_reward(player@) as u128,
                    },
                ),
            ),
        },
{
    match msg {
        QueryMsg::Config {  } => Ok(QueryResponse::Config(query_config(market))),
        QueryMsg::Status {  } => match query_status(market, env) {
            Ok(status) => Ok(QueryResponse::Status(status)),
            Err(e) => Err(e),
        },
        QueryMsg::MyCurrentPosition { address } => Ok(
            QueryResponse::MyCurrentPosition(query_my_current_position(market, address)),
        ),
        QueryMsg::FinishedRound { round_id } => Ok(
            QueryResponse::FinishedRound(query_finished_round(market, round_id)),
        ),
        QueryMsg::MyGameList { player, start_after, limit } => match query_my_games(
            market,
            player,
            start_after,
            limit,
        ) {
            Ok(games) => Ok(QueryResponse::MyGameList(games)),
            Err(e) => Err(e),
        },
        QueryMsg::MyPendingReward { player } => Ok(
            QueryResponse::MyPendingReward(query_my_pending_reward(market, player)),
        ),
        QueryMsg::ReverseMyGameList { player, start_after, limit } => match query_reverse_my_games(
            market,
            player,
            start_after,
            limit,
        ) {
            Ok(games) => Ok(QueryResponse::MyGameList(games)),
            Err(e) => Err(e),
        },
    }
}

/// The record of a finished round, or [`no_round`] where the round has
/// not finished.
pub fn query_finished_round(market: &Market, round_id: u128) -> (round: FinishedRound)
    ensures
        round == market@.finished_round(round_id),
{
    if round_id < market.rounds.len() as u128 {
        market.rounds[round_id as usize]
    } else {
        FinishedRound {
            id: 0,
            bid_time: Timestamp::from_nanos(0),
            open_time: Timestamp::from_nanos(0),
            close_time: Timestamp::from_nanos(0),
            open_price: 0,
            close_price: 0,
            winner: Some(Direction::Bear),
            bull_amount: 0,
            bear_amount: 0,
        }
    }
}

/// What the player at `address` has staked in the bidding round and in
/// the live round.
pub fn query_my_current_position(market: &Market, address: String) -> (r:
    MyCurrentPositionResponse)
    ensures
        r == market@.current_position(address@),
{
    let round_id = market.next_round_id;
    let mut next_bull_amount: u128 = 0;
    let mut next_bear_amount: u128 = 0;
    if round_id > 0 {
        let next_bet_key = bet_info_key(round_id - 1, &address);
        match market.bets.may_load(&next_bet_key) {
            Some(bet_info) => match bet_info.direction {
                Direction::Bull => {
                    next_bull_amount = bet_info.amount;
                },
                Direction::Bear => {
                    next_bear_amount = bet_info.amount;
                },
            },
            None => {},
        }
    }
    let mut live_bull_amount: u128 = 0;
    let mut live_bear_amount: u128 = 0;
    if round_id > 1 {
        let live_bet_key = bet_info_key(round_id - 2, &address);
        match market.bets.may_load(&live_bet_key) {
            Some(bet_info) => match bet_info.direction {
                Direction::Bull => {
                    live_bull_amount = bet_info.amount;
                },
                Direction::Bear => {
                    live_bear_amount = bet_info.amount;
                },
            },
            None => {},
        }
    }
    MyCurrentPositionResponse {
        next_bear_amount,
        next_bull_amount,
        live_bear_amount,
        live_bull_amount,
    }
}

/// The state of the market at the time of the call, with the round that
/// finished last; `NoFinishedRound` before a round has finished.
pub fn query_status(market: &Market, env: Env) -> (r: Result<StatusResponse, ContractError>)
    ensures
        r == if market@.has_status() {
            Ok::<StatusResponse, ContractError>(market@.status(env.time))
        } else {
            Err::<StatusResponse, ContractError>(ContractError::NoFinishedRound)
        },
{
    let live_round = market.live_round;
    let bidding_round = market.next_round;
    let total_volume = market.total_volume;
    let current_time = env.time.seconds();
    let live_id = match live_round {
        Some(live) => live.id,
        None => {
            return Err(ContractError::NoFinishedRound);
        },
    };
    if live_id < 1 || live_id > market.rounds.len() as u128 {
        return Err(ContractError::NoFinishedRound);
    }
    let finished_round = market.rounds[(live_id - 1) as usize];
    Ok(StatusResponse { bidding_round, live_round, total_volume, current_time, finished_round })
}

/// The configuration.
pub fn query_config(market: &Market) -> (config: Config)
    ensures
        config == market.config,
{
    market.config.clone()
}

/// The number of bets a listing returns at most for the limit the caller
/// gave: ten where none is given. A limit beyond thirty is refused.
pub fn query_limit(limit: Option<u32>) -> (r: Result<usize, ContractError>)
    ensures
        r == if limit_exceeded(limit) {
            Err::<usize, ContractError>(limit_refusal(limit))
        } else {
            Ok::<usize, ContractError>(page_size(limit) as usize)
        },
{
    match limit {
        Some(limit) => {
            if limit > MAX_QUERY_LIMIT {
                return Err(
                    ContractError::LimitExceeded { limit, maximum: MAX_QUERY_LIMIT },
                );
            }
            Ok(limit as usize)
        },
        None => Ok(DEFAULT_QUERY_LIMIT as usize),
    }
}

/// A page of the bets of `player`, oldest round first, starting with the
/// round after `start_after`. A limit beyond [`MAX_QUERY_LIMIT`] is
/// refused.
pub fn query_my_games(
    market: &Market,
    player: String,
    start_after: Option<u128>,
    limit: Option<u32>,
) -> (r: Result<MyGameResponse, ContractError>)
    ensures
        limit_exceeded(limit) ==> r == Err::<MyGameResponse, ContractError>(limit_refusal(limit)),
        !limit_exceeded(limit) ==> (r matches Ok(games) && is_page(
            games.my_game_list@,
            market@.bets,
            player@,
            start_after,
            limit,
            Order::Ascending,
        )),
{
    match market.list_bets(&player, start_after, limit, Order::Ascending) {
        Ok(my_game_list) => Ok(MyGameResponse { my_game_list }),
        Err(e) => Err(e),
    }
}

/// A page of the bets of `player`, newest round first, starting with the
/// round before `start_after`. A limit beyond [`MAX_QUERY_LIMIT`] is
/// refused.
pub fn query_reverse_my_games(
    market: &Market,
    player: String,
    start_after: Option<u128>,
    limit: Option<u32>,
) -> (r: Result<MyGameResponse, ContractError>)
    ensures
        limit_exceeded(limit) ==> r == Err::<MyGameResponse, ContractError>(limit_refusal(limit)),
        !limit_exceeded(limit) ==> (r matches Ok(games) && is_page(
            games.my_game_list@,
            market@.bets,
            player@,
            start_after,
            limit,
            Order::Descending,
        )),
{
    match market.list_bets(&player, start_after, limit, Order::Descending) {
        Ok(my_game_list) => Ok(MyGameResponse { my_game_list }),
        Err(e) => Err(e),
    }
}

/// What `player` can collect: the sum of the payouts of their bets in
/// finished rounds.
pub fn query_my_pending_reward(market: &Market, player: String) -> (r: PendingRewardResponse)
    requires
        market.wf(),
    ensures
        r.pending_reward == market@.pending_reward(player@),
{
    PendingRewardResponse { pending_reward: market.pending_reward(&player) }
}

/// All bets of `player`, oldest round first.
pub fn query_my_games_without_limit(market: &Market, player: String) -> (r: MyGameResponse)
    ensures
        r.my_game_list@ == market@.games_of(player@),
{
    let my_game_list = market.bets.player_range(&player, None, None, Order::Ascending);
    MyGameResponse { my_game_list }
}

} // verus!
