use price_prediction::error::ContractError;
use price_prediction::execute::Env;
use price_prediction::ledger::{BetLedger, Order};
use price_prediction::msg::{
    Config, Direction, FinishedRound, MyCurrentPositionResponse, QueryMsg, StatusResponse,
};
use price_prediction::query::{
    query, query_config, query_finished_round, query_limit, query_my_current_position,
    query_my_games, query_my_games_without_limit, query_my_pending_reward,
    query_reverse_my_games, query_status, QueryResponse, DEFAULT_QUERY_LIMIT, MAX_QUERY_LIMIT,
};
use price_prediction::state::{bet_info_key, bet_info_storage, BetInfo, Market, PendingRewardResponse};
use price_prediction::timestamp::Timestamp;

fn config() -> Config {
    Config {
        next_round_seconds: 100,
        fast_oracle_addr: "oracle".to_string(),
        minimum_bet: 1,
        burn_fee: 0,
        gaming_fee: 0,
        token_addr: "token".to_string(),
    }
}

fn at(seconds: u64) -> Timestamp {
    Timestamp::from_seconds(seconds).unwrap()
}

fn env(seconds: u64) -> Env {
    Env { time: at(seconds), contract_address: "market".to_string(), admin: None, price: None }
}

fn name(player: &str) -> String {
    player.to_string()
}

/// A market in which `rounds` rounds were created, one every 100 seconds,
/// and in which "a" bet 10 on the bulls in every round and "b" 20 on the
/// bears in every second round.
fn busy_market(rounds: u64) -> Market {
    let mut market = Market::new(config());
    for round in 0..rounds {
        let now = round * 100;
        market.advance(at(now), Some(1_000 + round as u128 * (round as u128 % 3))).unwrap();
        market.place_bet(round as u128, &name("a"), 10, Direction::Bull, at(now + 1)).unwrap();
        if round % 2 == 0 {
            market.place_bet(round as u128, &name("b"), 20, Direction::Bear, at(now + 2)).unwrap();
        }
    }
    assert!(market.is_well_formed());
    market
}

fn rounds_of(games: &[BetInfo]) -> Vec<u128> {
    games.iter().map(|game| game.round_id).collect()
}

#[test]
fn listing_is_ascending_and_starts_after_the_cursor() {
    let market = busy_market(6);
    let all = query_my_games(&market, name("a"), None, None).unwrap().my_game_list;
    assert_eq!(rounds_of(&all), vec![0, 1, 2, 3, 4, 5]);
    assert!(all.iter().all(|game| game.player == "a" && game.amount == 10));
    let page = query_my_games(&market, name("a"), Some(2), None).unwrap().my_game_list;
    assert_eq!(rounds_of(&page), vec![3, 4, 5]);
    let page = query_my_games(&market, name("a"), Some(2), Some(2)).unwrap().my_game_list;
    assert_eq!(rounds_of(&page), vec![3, 4]);
    let page = query_my_games(&market, name("a"), Some(5), Some(2)).unwrap().my_game_list;
    assert!(page.is_empty());
    let page = query_my_games(&market, name("b"), Some(0), None).unwrap().my_game_list;
    assert_eq!(rounds_of(&page), vec![2, 4]);
    let page = query_my_games(&market, name("b"), Some(1), None).unwrap().my_game_list;
    assert_eq!(rounds_of(&page), vec![2, 4]);
    let page = query_my_games(&market, name("nobody"), None, None).unwrap().my_game_list;
    assert!(page.is_empty());
}

#[test]
fn reverse_listing_is_descending_and_starts_before_the_cursor() {
    let market = busy_market(6);
    let all = query_reverse_my_games(&market, name("a"), None, None).unwrap().my_game_list;
    assert_eq!(rounds_of(&all), vec![5, 4, 3, 2, 1, 0]);
    let page = query_reverse_my_games(&market, name("a"), Some(3), None).unwrap().my_game_list;
    assert_eq!(rounds_of(&page), vec![2, 1, 0]);
    let page = query_reverse_my_games(&market, name("a"), Some(3), Some(2)).unwrap().my_game_list;
    assert_eq!(rounds_of(&page), vec![2, 1]);
    let page = query_reverse_my_games(&market, name("a"), Some(0), None).unwrap().my_game_list;
    assert!(page.is_empty());
    let page = query_reverse_my_games(&market, name("b"), Some(4), None).unwrap().my_game_list;
    assert_eq!(rounds_of(&page), vec![2, 0]);
    let page = query_reverse_my_games(&market, name("b"), None, Some(1)).unwrap().my_game_list;
    assert_eq!(rounds_of(&page), vec![4]);
}

#[test]
fn page_size_defaults_to_ten_and_may_be_up_to_thirty() {
    assert_eq!(DEFAULT_QUERY_LIMIT, 10);
    assert_eq!(MAX_QUERY_LIMIT, 30);
    assert_eq!(query_limit(None), Ok(10));
    assert_eq!(query_limit(Some(0)), Ok(0));
    assert_eq!(query_limit(Some(7)), Ok(7));
    assert_eq!(query_limit(Some(30)), Ok(30));

    let market = busy_market(40);
    assert_eq!(query_my_games(&market, name("a"), None, None).unwrap().my_game_list.len(), 10);
    assert_eq!(query_my_games(&market, name("a"), None, Some(25)).unwrap().my_game_list.len(), 25);
    assert_eq!(query_my_games(&market, name("a"), None, Some(30)).unwrap().my_game_list.len(), 30);
    assert_eq!(query_my_games(&market, name("a"), None, Some(0)).unwrap().my_game_list.len(), 0);
    assert_eq!(query_my_games(&market, name("b"), None, Some(30)).unwrap().my_game_list.len(), 20);
    let page = query_my_games(&market, name("a"), Some(4), Some(30)).unwrap().my_game_list;
    assert_eq!(rounds_of(&page), (5..35).collect::<Vec<u128>>());
    let page = query_reverse_my_games(&market, name("a"), Some(38), Some(30)).unwrap().my_game_list;
    assert_eq!(rounds_of(&page), (8..38).rev().collect::<Vec<u128>>());
    let page = query_reverse_my_games(&market, name("a"), None, None).unwrap().my_game_list;
    assert_eq!(rounds_of(&page), (30..40).rev().collect::<Vec<u128>>());
    assert_eq!(query_my_games_without_limit(&market, name("a")).my_game_list.len(), 40);
    assert_eq!(query_my_games_without_limit(&market, name("b")).my_game_list.len(), 20);
}

#[test]
fn limit_above_thirty_is_refused() {
    let refusal = |limit: u32| ContractError::LimitExceeded { limit, maximum: 30 };
    assert_eq!(query_limit(Some(31)), Err(refusal(31)));
    assert_eq!(query_limit(Some(u32::MAX)), Err(refusal(u32::MAX)));

    for market in [Market::new(config()), busy_market(3), busy_market(40)] {
        assert_eq!(query_my_games(&market, name("a"), None, Some(31)), Err(refusal(31)));
        assert_eq!(query_my_games(&market, name("a"), Some(2), Some(1_000)), Err(refusal(1_000)));
        assert_eq!(
            query_reverse_my_games(&market, name("a"), None, Some(31)),
            Err(refusal(31))
        );
        assert_eq!(
            query_reverse_my_games(&market, name("nobody"), Some(5), Some(u32::MAX)),
            Err(refusal(u32::MAX))
        );
        assert_eq!(
            market.list_bets(&name("a"), None, Some(31), Order::Ascending),
            Err(refusal(31))
        );
        assert_eq!(
            market.list_bets(&name("b"), Some(1), Some(64), Order::Descending),
            Err(refusal(64))
        );
        assert_eq!(
            query(
                &market,
                env(0),
                QueryMsg::MyGameList { player: name("a"), start_after: None, limit: Some(31) }
            ),
            Err(refusal(31))
        );
        assert_eq!(
            query(
                &market,
                env(0),
                QueryMsg::ReverseMyGameList {
                    player: name("a"),
                    start_after: Some(3),
                    limit: Some(500)
                }
            ),
            Err(refusal(500))
        );
        // the largest limit that is allowed still gets its page
        let page = market.list_bets(&name("a"), None, Some(30), Order::Ascending).unwrap();
        assert!(page.len() <= 30);
    }
}

#[test]
fn pages_are_listed_in_either_order() {
    let market = busy_market(6);
    let a = name("a");
    let page = market.list_bets(&a, Some(1), Some(3), Order::Ascending).unwrap();
    assert_eq!(rounds_of(&page), vec![2, 3, 4]);
    let page = market.list_bets(&a, Some(4), Some(3), Order::Descending).unwrap();
    assert_eq!(rounds_of(&page), vec![3, 2, 1]);
    let page = market.list_bets(&a, None, None, Order::Descending).unwrap();
    assert_eq!(rounds_of(&page), vec![5, 4, 3, 2, 1, 0]);
    let page = market.list_bets(&a, None, Some(0), Order::Ascending).unwrap();
    assert!(page.is_empty());
    let page = market.list_bets(&name("b"), Some(9), None, Order::Descending).unwrap();
    assert_eq!(rounds_of(&page), vec![4, 2, 0]);
    let page = market.list_bets(&name("b"), Some(9), None, Order::Ascending).unwrap();
    assert!(page.is_empty());
}

#[test]
fn ledger_ranges_have_exclusive_bounds_on_both_sides() {
    let market = busy_market(8);
    let ledger = &market.bets;
    let found = ledger.player_range(&name("a"), Some(1), Some(5), Order::Ascending);
    assert_eq!(rounds_of(&found), vec![2, 3, 4]);
    let found = ledger.player_range(&name("a"), Some(1), Some(5), Order::Descending);
    assert_eq!(rounds_of(&found), vec![4, 3, 2]);
    let found = ledger.player_range(&name("b"), Some(2), Some(6), Order::Ascending);
    assert_eq!(rounds_of(&found), vec![4]);
    let found = ledger.player_range(&name("a"), Some(5), Some(5), Order::Ascending);
    assert!(found.is_empty());
    let found = ledger.player_range(&name("a"), Some(7), None, Order::Descending);
    assert!(found.is_empty());
}

#[test]
fn ledger_finds_a_bet_by_round_and_player() {
    let market = busy_market(3);
    let found = market.bets.may_load(&bet_info_key(2, &name("b"))).unwrap();
    assert_eq!(
        found,
        BetInfo { player: name("b"), round_id: 2, amount: 20, direction: Direction::Bear }
    );
    assert_eq!(market.bets.may_load(&bet_info_key(1, &name("b"))), None);
    assert_eq!(market.bets.may_load(&bet_info_key(3, &name("a"))), None);
    assert_eq!(market.bets.may_load(&bet_info_key(0, &name("c"))), None);
    assert_eq!(bet_info_key(7, &name("x")), (7, name("x")));
    assert_eq!(market.bets.len(), 5);
}

#[test]
fn index_holds_the_bets_of_each_player() {
    let mut market = busy_market(4);
    let index = market.bets.indexes();
    assert_eq!(index.player.len(), 2);
    assert_eq!(index.player[0].player, "a");
    assert_eq!(rounds_of(&index.player[0].games), vec![0, 1, 2, 3]);
    assert_eq!(index.player[1].player, "b");
    assert_eq!(rounds_of(&index.player[1].games), vec![0, 2]);
    assert_eq!(index.find(&name("b")), Some(1));
    assert_eq!(index.find(&name("c")), None);

    // rounds 0 and 1 have finished; the bulls won round 0, round 1 had bulls only
    assert_eq!(market.collect(&name("b")), Err(ContractError::NothingToClaim));
    assert_eq!(market.collect(&name("a")), Ok(40));
    let index = market.bets.indexes();
    assert_eq!(index.player[0].player, "b");
    assert_eq!(rounds_of(&index.player[0].games), vec![0, 2]);
    assert_eq!(index.player[1].player, "a");
    assert_eq!(rounds_of(&index.player[1].games), vec![2, 3]);
    assert_eq!(index.find(&name("a")), Some(1));
    assert_eq!(rounds_of(market.bets.records()), vec![0, 2, 2, 3]);
    assert!(market.is_well_formed());
}

#[test]
fn index_forgets_a_player_without_bets() {
    let mut market = Market::new(config());
    market.advance(at(0), None).unwrap();
    market.place_bet(0, &name("a"), 10, Direction::Bull, at(1)).unwrap();
    market.place_bet(0, &name("b"), 10, Direction::Bull, at(1)).unwrap();
    market.advance(at(100), Some(1)).unwrap();
    market.advance(at(200), Some(2)).unwrap();
    assert_eq!(market.collect(&name("a")), Ok(10));
    let index = market.bets.indexes();
    assert_eq!(index.player.len(), 1);
    assert_eq!(index.player[0].player, "b");
    assert_eq!(market.bets, BetLedger::from_bets(market.bets.records().clone()));
}

#[test]
fn new_ledger_is_empty() {
    let ledger = bet_info_storage();
    assert_eq!(ledger.len(), 0);
    assert!(ledger.records().is_empty());
    assert!(ledger.indexes().player.is_empty());
    assert!(ledger.is_well_formed());
    assert_eq!(ledger, BetLedger::new());
    assert_eq!(ledger, BetLedger::from_bets(Vec::new()));
}

#[test]
fn position_shows_the_bets_in_the_bidding_and_the_live_round() {
    let market = Market::new(config());
    let nothing = MyCurrentPositionResponse {
        live_bear_amount: 0,
        live_bull_amount: 0,
        next_bear_amount: 0,
        next_bull_amount: 0,
    };
    assert_eq!(query_my_current_position(&market, name("a")), nothing);

    let market = busy_market(1);
    assert_eq!(
        query_my_current_position(&market, name("a")),
        MyCurrentPositionResponse { next_bull_amount: 10, ..nothing }
    );
    assert_eq!(
        query_my_current_position(&market, name("b")),
        MyCurrentPositionResponse { next_bear_amount: 20, ..nothing }
    );

    let market = busy_market(4);
    // round 3 takes bets, round 2 is live
    assert_eq!(
        query_my_current_position(&market, name("a")),
        MyCurrentPositionResponse { next_bull_amount: 10, live_bull_amount: 10, ..nothing }
    );
    assert_eq!(
        query_my_current_position(&market, name("b")),
        MyCurrentPositionResponse { live_bear_amount: 20, ..nothing }
    );
    assert_eq!(query_my_current_position(&market, name("c")), nothing);
}

#[test]
fn finished_round_is_found_by_its_id() {
    let market = busy_market(4);
    assert_eq!(market.rounds.len(), 2);
    assert_eq!(query_finished_round(&market, 0), market.rounds[0]);
    assert_eq!(query_finished_round(&market, 1), market.rounds[1]);
    assert_eq!(query_finished_round(&market, 1).id, 1);
    let placeholder = FinishedRound {
        id: 0,
        bid_time: Timestamp::from_nanos(0),
        open_time: Timestamp::from_nanos(0),
        close_time: Timestamp::from_nanos(0),
        open_price: 0,
        close_price: 0,
        winner: Some(Direction::Bear),
        bull_amount: 0,
        bear_amount: 0,
    };
    assert_eq!(query_finished_round(&market, 2), placeholder);
    assert_eq!(query_finished_round(&market, 3), placeholder);
    assert_eq!(query_finished_round(&market, u128::MAX), placeholder);
}

#[test]
fn status_needs_a_finished_round() {
    for rounds in 0..3 {
        let market = busy_market(rounds);
        assert_eq!(query_status(&market, env(1_000)), Err(ContractError::NoFinishedRound));
    }
    let market = busy_market(3);
    let now = Timestamp::from_nanos(1_234_567_890_123);
    let status = query_status(
        &market,
        Env { time: now, contract_address: name("market"), admin: None, price: None },
    );
    assert_eq!(
        status,
        Ok(StatusResponse {
            bidding_round: market.next_round,
            live_round: market.live_round,
            total_volume: 10 + 20 + 10 + 10 + 20,
            current_time: 1_234,
            finished_round: market.rounds[0],
        })
    );
    let market = busy_market(5);
    let status = query_status(&market, env(1_000)).unwrap();
    assert_eq!(status.finished_round.id, 2);
    assert_eq!(status.live_round.unwrap().id, 3);
    assert_eq!(status.bidding_round.unwrap().id, 4);
    assert_eq!(status.current_time, 1_000);
}

#[test]
fn pending_reward_counts_finished_rounds_only() {
    let market = busy_market(4);
    let first = market.rounds[0];
    let second = market.rounds[1];
    assert_eq!((first.open_price, first.close_price), (1_001, 1_004));
    assert_eq!(first.winner, Some(Direction::Bull));
    assert_eq!((second.open_price, second.close_price), (1_004, 1_000));
    assert_eq!(second.winner, Some(Direction::Bear));
    // round 0: a wins the pool of 30; round 1: only a bet, and gets 10 back
    assert_eq!(
        query_my_pending_reward(&market, name("a")),
        PendingRewardResponse { pending_reward: 40 }
    );
    assert_eq!(
        query_my_pending_reward(&market, name("b")),
        PendingRewardResponse { pending_reward: 0 }
    );
    assert_eq!(
        query_my_pending_reward(&market, name("c")),
        PendingRewardResponse { pending_reward: 0 }
    );
}

#[test]
fn query_answers_each_question() {
    let market = busy_market(4);
    assert_eq!(query_config(&market), config());
    assert_eq!(
        query(&market, env(0), QueryMsg::Config {}),
        Ok(QueryResponse::Config(config()))
    );
    assert_eq!(
        query(&market, env(500), QueryMsg::Status {}),
        Ok(QueryResponse::Status(query_status(&market, env(500)).unwrap()))
    );
    assert_eq!(
        query(&Market::new(config()), env(500), QueryMsg::Status {}),
        Err(ContractError::NoFinishedRound)
    );
    assert_eq!(
        query(&market, env(0), QueryMsg::MyCurrentPosition { address: name("a") }),
        Ok(QueryResponse::MyCurrentPosition(query_my_current_position(&market, name("a"))))
    );
    assert_eq!(
        query(&market, env(0), QueryMsg::FinishedRound { round_id: 1 }),
        Ok(QueryResponse::FinishedRound(market.rounds[1]))
    );
    assert_eq!(
        query(
            &market,
            env(0),
            QueryMsg::MyGameList { player: name("a"), start_after: Some(0), limit: Some(2) }
        ),
        Ok(QueryResponse::MyGameList(
            query_my_games(&market, name("a"), Some(0), Some(2)).unwrap()
        ))
    );
    assert_eq!(
        query(
            &market,
            env(0),
            QueryMsg::ReverseMyGameList { player: name("a"), start_after: None, limit: None }
        ),
        Ok(QueryResponse::MyGameList(
            query_reverse_my_games(&market, name("a"), None, None).unwrap()
        ))
    );
    assert_eq!(
        query(&market, env(0), QueryMsg::MyPendingReward { player: name("a") }),
        Ok(QueryResponse::MyPendingReward(PendingRewardResponse { pending_reward: 40 }))
    );
}
