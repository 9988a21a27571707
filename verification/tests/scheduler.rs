use price_prediction::error::ContractError;
use price_prediction::execute::{execute, Env, MessageInfo, Response};
use price_prediction::msg::{Config, Direction, ExecuteMsg, FinishedRound, LiveRound, NextRound};
use price_prediction::scheduler::{
    compute_round_close, compute_round_open, new_bid_round, AdvanceOutcome,
};
use price_prediction::state::Market;
use price_prediction::timestamp::Timestamp;

fn config(seconds: u128) -> Config {
    Config {
        next_round_seconds: seconds,
        fast_oracle_addr: "oracle".to_string(),
        minimum_bet: 10,
        burn_fee: 0,
        gaming_fee: 100,
        token_addr: "token".to_string(),
    }
}

fn at(seconds: u64) -> Timestamp {
    Timestamp::from_seconds(seconds).unwrap()
}

fn nothing() -> AdvanceOutcome {
    AdvanceOutcome { closed: None, opened: None, created: None }
}

fn live_round(open_price: u128) -> LiveRound {
    LiveRound {
        id: 4,
        bid_time: at(100),
        open_time: at(400),
        close_time: at(700),
        open_price,
        bull_amount: 11,
        bear_amount: 22,
    }
}

#[test]
fn first_call_creates_round_zero() {
    let mut market = Market::new(config(300));
    let outcome = market.advance(at(1_000), None).unwrap();
    let created = NextRound {
        id: 0,
        bid_time: at(1_000),
        open_time: at(1_300),
        close_time: at(1_600),
        bull_amount: 0,
        bear_amount: 0,
    };
    assert_eq!(outcome, AdvanceOutcome { closed: None, opened: None, created: Some(created) });
    assert_eq!(market.next_round, Some(created));
    assert_eq!(market.live_round, None);
    assert_eq!(market.next_round_id, 1);
    assert!(market.rounds.is_empty());
}

#[test]
fn call_before_a_boundary_changes_nothing() {
    let mut market = Market::new(config(300));
    market.advance(at(0), None).unwrap();
    let before = market.clone();
    assert!(!market.needs_price(at(299)));
    assert_eq!(market.advance(at(1), None), Ok(nothing()));
    assert_eq!(market.advance(at(299), Some(5)), Ok(nothing()));
    assert_eq!(market, before);

    market.advance(at(300), Some(5)).unwrap();
    let before = market.clone();
    assert_eq!(market.advance(at(300), None), Ok(nothing()));
    assert_eq!(market.advance(at(599), None), Ok(nothing()));
    assert_eq!(market, before);
}

#[test]
fn bidding_round_goes_live_at_its_opening_time() {
    let mut market = Market::new(config(300));
    market.advance(at(0), None).unwrap();
    assert!(market.needs_price(at(300)));
    let outcome = market.advance(at(310), Some(50)).unwrap();
    let live = LiveRound {
        id: 0,
        bid_time: at(0),
        open_time: at(310),
        close_time: at(610),
        open_price: 50,
        bull_amount: 0,
        bear_amount: 0,
    };
    let created = NextRound {
        id: 1,
        bid_time: at(310),
        open_time: at(610),
        close_time: at(910),
        bull_amount: 0,
        bear_amount: 0,
    };
    assert_eq!(
        outcome,
        AdvanceOutcome { closed: None, opened: Some(live), created: Some(created) }
    );
    assert_eq!(market.live_round, Some(live));
    assert_eq!(market.next_round, Some(created));
    assert_eq!(market.next_round_id, 2);
}

#[test]
fn live_round_closes_and_the_next_goes_live_in_one_call() {
    let mut market = Market::new(config(300));
    market.advance(at(0), None).unwrap();
    market.advance(at(300), Some(50)).unwrap();
    let outcome = market.advance(at(650), Some(40)).unwrap();
    let finished = FinishedRound {
        id: 0,
        bid_time: at(0),
        open_time: at(300),
        close_time: at(600),
        open_price: 50,
        close_price: 40,
        winner: Some(Direction::Bear),
        bull_amount: 0,
        bear_amount: 0,
    };
    assert_eq!(outcome.closed, Some(finished));
    assert_eq!(market.rounds, vec![finished]);
    let live = market.live_round.unwrap();
    assert_eq!((live.id, live.open_time, live.close_time, live.open_price), (1, at(650), at(950), 40));
    let bidding = market.next_round.unwrap();
    assert_eq!((bidding.id, bidding.open_time, bidding.close_time), (2, at(950), at(1_250)));
    assert_eq!(outcome.opened, Some(live));
    assert_eq!(outcome.created, Some(bidding));
    assert_eq!(market.next_round_id, 3);
}

#[test]
fn at_most_one_live_and_one_bidding_round() {
    let mut market = Market::new(config(300));
    let times: [u64; 12] = [0, 0, 10, 299, 300, 300, 450, 600, 601, 5_000, 5_000, 5_299];
    let mut price = 100;
    for seconds in times {
        price += 7;
        market.advance(at(seconds), Some(price)).unwrap();
        assert!(market.is_well_formed());
        assert!(market.rounds_in_phase());
        let bidding = market.next_round.unwrap();
        assert_eq!(bidding.id + 1, market.next_round_id);
        if let Some(live) = market.live_round {
            assert_eq!(live.id + 1, bidding.id);
            assert_eq!(live.close_time, bidding.open_time);
            assert_eq!(market.rounds.len() as u128, live.id);
        } else {
            assert_eq!(market.next_round_id, 1);
        }
        for (i, round) in market.rounds.iter().enumerate() {
            assert_eq!(round.id, i as u128);
        }
    }
    assert_eq!(market.next_round_id, 4);
    assert_eq!(market.rounds.len(), 2);
}

#[test]
fn second_call_at_the_same_time_does_nothing() {
    let mut market = Market::new(config(300));
    for seconds in [0u64, 300, 600, 1_000] {
        market.advance(at(seconds), Some(9)).unwrap();
        let after_first = market.clone();
        assert!(!market.needs_price(at(seconds)));
        assert_eq!(market.advance(at(seconds), None), Ok(nothing()));
        assert_eq!(market, after_first);
    }
}

#[test]
fn missing_price_aborts_the_whole_call() {
    let mut market = Market::new(config(300));
    market.advance(at(0), None).unwrap();
    let before = market.clone();
    assert_eq!(market.advance(at(300), None), Err(ContractError::PriceUnavailable));
    assert_eq!(market, before);
    market.advance(at(300), Some(1)).unwrap();
    let before = market.clone();
    assert_eq!(market.advance(at(600), None), Err(ContractError::PriceUnavailable));
    assert_eq!(market, before);
}

#[test]
fn time_beyond_the_range_is_an_overflow() {
    let mut market = Market::new(config(300));
    let late = Timestamp::from_nanos(u64::MAX - 10);
    let before = market.clone();
    assert_eq!(market.advance(late, None), Err(ContractError::Overflow));
    assert_eq!(market, before);

    // the round can be created but not the one after it
    let mut market = Market::new(config(300));
    let edge = Timestamp::from_nanos(u64::MAX - 600_000_000_000);
    market.advance(edge, None).unwrap();
    let before = market.clone();
    let opening = market.next_round.unwrap().open_time;
    assert_eq!(market.advance(opening, Some(1)), Err(ContractError::Overflow));
    assert_eq!(market, before);
}

#[test]
fn round_length_counts_only_its_lowest_64_bits() {
    let two_to_64: u128 = 1 << 64;
    assert_eq!(config(300).round_seconds(), 300);
    assert_eq!(config(two_to_64 + 300).round_seconds(), 300);
    assert_eq!(config(two_to_64).round_seconds(), 0);
    assert_eq!(config(u64::MAX as u128).round_seconds(), u64::MAX);
    let mut market = Market::new(config(two_to_64 * 5 + 60));
    market.advance(at(0), None).unwrap();
    assert_eq!(market.next_round.unwrap().open_time, at(60));
}

#[test]
fn rounds_of_no_length_follow_each_other_at_once() {
    let mut market = Market::new(config(0));
    market.advance(at(5), Some(1)).unwrap();
    assert_eq!(market.next_round.unwrap().open_time, at(5));
    let outcome = market.advance(at(5), Some(2)).unwrap();
    assert_eq!(outcome.opened.unwrap().id, 0);
    let outcome = market.advance(at(5), Some(3)).unwrap();
    assert_eq!(outcome.closed.unwrap().winner, Some(Direction::Bull));
    assert_eq!(outcome.opened.unwrap().id, 1);
    assert!(market.is_well_formed());
}

#[test]
fn closing_price_decides_the_winner() {
    let live = live_round(50);
    assert_eq!(compute_round_close(&live, 51).winner, Some(Direction::Bull));
    assert_eq!(compute_round_close(&live, u128::MAX).winner, Some(Direction::Bull));
    assert_eq!(compute_round_close(&live, 49).winner, Some(Direction::Bear));
    assert_eq!(compute_round_close(&live, 0).winner, Some(Direction::Bear));
    assert_eq!(compute_round_close(&live, 50).winner, None);
    assert_eq!(
        compute_round_close(&live, 60),
        FinishedRound {
            id: 4,
            bid_time: at(100),
            open_time: at(400),
            close_time: at(700),
            open_price: 50,
            close_price: 60,
            winner: Some(Direction::Bull),
            bull_amount: 11,
            bear_amount: 22,
        }
    );
}

#[test]
fn opening_copies_the_pools_and_sets_the_times() {
    let bidding = NextRound {
        id: 3,
        bid_time: at(10),
        open_time: at(20),
        close_time: at(30),
        bull_amount: 5,
        bear_amount: 6,
    };
    assert_eq!(
        compute_round_open(&bidding, at(25), 77, 100),
        Some(LiveRound {
            id: 3,
            bid_time: at(10),
            open_time: at(25),
            close_time: at(125),
            open_price: 77,
            bull_amount: 5,
            bear_amount: 6,
        })
    );
    assert_eq!(compute_round_open(&bidding, Timestamp::from_nanos(u64::MAX), 77, 1), None);
    assert_eq!(compute_round_open(&bidding, at(25), 77, u64::MAX), None);
}

#[test]
fn new_round_opens_when_the_live_round_closes() {
    let live = live_round(1);
    assert_eq!(
        new_bid_round(5, at(450), Some(live), 300),
        Some(NextRound {
            id: 5,
            bid_time: at(450),
            open_time: at(700),
            close_time: at(1_000),
            bull_amount: 0,
            bear_amount: 0,
        })
    );
    assert_eq!(
        new_bid_round(0, at(450), None, 300),
        Some(NextRound {
            id: 0,
            bid_time: at(450),
            open_time: at(750),
            close_time: at(1_050),
            bull_amount: 0,
            bear_amount: 0,
        })
    );
    assert_eq!(new_bid_round(0, Timestamp::from_nanos(u64::MAX - 1), None, 1), None);
}

#[test]
fn anyone_may_advance_unless_paused() {
    let mut market = Market::new(config(300));
    let env = Env {
        time: at(0),
        contract_address: "market".to_string(),
        admin: Some("admin".to_string()),
        price: None,
    };
    let info = MessageInfo { sender: "stranger".to_string() };
    let response = execute(&mut market, env.clone(), info.clone(), ExecuteMsg::CloseRound {}).unwrap();
    match response {
        Response::RoundsAdvanced { outcome } => assert_eq!(outcome.created.unwrap().id, 0),
        other => panic!("unexpected {:?}", other),
    }
    market.is_haulted = true;
    let before = market.clone();
    assert_eq!(
        execute(&mut market, env, info, ExecuteMsg::CloseRound {}),
        Err(ContractError::Haulted)
    );
    assert_eq!(market, before);
}
