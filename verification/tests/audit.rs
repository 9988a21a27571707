use price_prediction::ledger::BetLedger;
use price_prediction::msg::{Config, Direction, FinishedRound};
use price_prediction::state::{BetInfo, Market};
use price_prediction::timestamp::Timestamp;

fn config() -> Config {
    Config {
        next_round_seconds: 100,
        fast_oracle_addr: "oracle".to_string(),
        minimum_bet: 1,
        burn_fee: 0,
        gaming_fee: 100,
        token_addr: "token".to_string(),
    }
}

fn at(seconds: u64) -> Timestamp {
    Timestamp::from_seconds(seconds).unwrap()
}

fn bet(player: &str, round_id: u128, amount: u128, direction: Direction) -> BetInfo {
    BetInfo { player: player.to_string(), round_id, amount, direction }
}

/// Rounds 0 and 1 have finished, round 2 is live, round 3 takes bets.
fn sound_market() -> Market {
    let mut market = Market::new(config());
    market.advance(at(0), None).unwrap();
    market.place_bet(0, &"a".to_string(), 1_000, Direction::Bull, at(1)).unwrap();
    market.place_bet(0, &"b".to_string(), 2_000, Direction::Bear, at(1)).unwrap();
    market.advance(at(100), Some(10)).unwrap();
    market.place_bet(1, &"a".to_string(), 500, Direction::Bear, at(101)).unwrap();
    market.advance(at(200), Some(11)).unwrap();
    market.place_bet(2, &"b".to_string(), 700, Direction::Bull, at(201)).unwrap();
    market.advance(at(300), Some(12)).unwrap();
    market.place_bet(3, &"a".to_string(), 300, Direction::Bull, at(301)).unwrap();
    market.place_bet(3, &"c".to_string(), 400, Direction::Bear, at(301)).unwrap();
    market
}

fn with_bets(market: &Market, bets: Vec<BetInfo>) -> Market {
    let mut changed = market.clone();
    changed.bets = BetLedger::from_bets(bets);
    changed
}

#[test]
fn markets_made_by_the_operations_are_well_formed() {
    let mut market = sound_market();
    assert!(market.is_well_formed());
    assert!(market.rounds_in_phase());
    assert!(market.bets.is_well_formed());
    assert!(market.bets_match_pools());
    assert!(market.volume_matches_pools());
    market.collect(&"a".to_string()).unwrap();
    assert!(market.is_well_formed());
    market.advance(at(400), Some(12)).unwrap();
    market.collect(&"a".to_string()).unwrap_err();
    market.collect(&"b".to_string()).unwrap();
    assert!(market.is_well_formed());
    assert!(market.clone().is_well_formed());
}

#[test]
fn pools_are_read_from_the_round_in_any_phase() {
    let market = sound_market();
    assert_eq!(market.pool_of(0, Direction::Bull), 990);
    assert_eq!(market.pool_of(0, Direction::Bear), 1_980);
    assert_eq!(market.pool_of(1, Direction::Bull), 0);
    assert_eq!(market.pool_of(1, Direction::Bear), 495);
    assert_eq!(market.pool_of(2, Direction::Bull), 693);
    assert_eq!(market.pool_of(3, Direction::Bull), 297);
    assert_eq!(market.pool_of(3, Direction::Bear), 396);
    assert_eq!(market.pool_of(4, Direction::Bear), 0);
    assert_eq!(market.bets.staked_on(0, Direction::Bear), Some(1_980));
    assert_eq!(market.bets.staked_on(3, Direction::Bull), Some(297));
    assert_eq!(market.bets.staked_on(9, Direction::Bull), Some(0));
    assert_eq!(market.total_volume, 990 + 1_980 + 495 + 693 + 297 + 396);
}

#[test]
fn round_counter_must_agree_with_the_rounds() {
    let sound = sound_market();
    let mut market = sound.clone();
    market.next_round_id = 5;
    assert!(!market.rounds_in_phase());
    assert!(!market.is_well_formed());

    let mut market = sound.clone();
    market.live_round = None;
    assert!(!market.is_well_formed());

    let mut market = sound.clone();
    market.next_round = None;
    assert!(!market.is_well_formed());

    let mut market = sound.clone();
    let mut bidding = market.next_round.unwrap();
    bidding.open_time = at(401);
    market.next_round = Some(bidding);
    assert!(!market.rounds_in_phase());

    let mut market = sound.clone();
    market.rounds.swap(0, 1);
    assert!(!market.rounds_in_phase());

    let mut market = sound.clone();
    let extra: FinishedRound = market.rounds[1];
    market.rounds.push(extra);
    assert!(!market.is_well_formed());

    let mut market = Market::new(config());
    market.next_round_id = 1;
    assert!(!market.is_well_formed());
}

#[test]
fn ledger_must_have_unique_keys_in_round_order() {
    let sound = sound_market();
    let records = sound.bets.records().clone();

    let mut twice = records.clone();
    twice.insert(1, bet("a", 0, 0, Direction::Bear));
    let ledger = BetLedger::from_bets(twice);
    assert!(!ledger.is_well_formed());

    let mut swapped = records.clone();
    swapped.swap(1, 2);
    let ledger = BetLedger::from_bets(swapped.clone());
    assert!(!ledger.is_well_formed());
    assert!(!with_bets(&sound, swapped).is_well_formed());

    // the order within a round does not matter
    let mut swapped = records.clone();
    swapped.swap(0, 1);
    assert!(BetLedger::from_bets(swapped.clone()).is_well_formed());
    assert!(with_bets(&sound, swapped).is_well_formed());
    assert!(BetLedger::from_bets(records).is_well_formed());
}

#[test]
fn bets_must_agree_with_the_pools() {
    let sound = sound_market();
    let records = sound.bets.records().clone();

    // a bet in a round that does not exist
    let mut ahead = records.clone();
    ahead.push(bet("z", 4, 0, Direction::Bull));
    assert!(!with_bets(&sound, ahead).bets_match_pools());

    // a bet too many in the bidding round
    let mut more = records.clone();
    more.push(bet("z", 3, 1, Direction::Bull));
    assert!(!with_bets(&sound, more).is_well_formed());

    // a bet missing from the live round
    let less: Vec<BetInfo> = records.iter().filter(|b| b.round_id != 2).cloned().collect();
    assert!(!with_bets(&sound, less).is_well_formed());

    // a bet missing from a finished round: it was collected
    let less: Vec<BetInfo> = records.iter().filter(|b| b.round_id != 0).cloned().collect();
    assert!(with_bets(&sound, less).is_well_formed());

    // more bets in a finished round than its pool
    let mut more = records.clone();
    more.insert(2, bet("z", 0, 1, Direction::Bull));
    assert!(!with_bets(&sound, more).is_well_formed());

    // bets beyond 128 bits
    let mut huge = records.clone();
    huge.insert(2, bet("y", 0, u128::MAX, Direction::Bull));
    let market = with_bets(&sound, huge);
    assert_eq!(market.bets.staked_on(0, Direction::Bull), None);
    assert!(!market.is_well_formed());
}

#[test]
fn volume_must_be_the_sum_of_the_pools() {
    let sound = sound_market();
    let mut market = sound.clone();
    market.total_volume += 1;
    assert!(!market.volume_matches_pools());
    assert!(!market.is_well_formed());

    let mut market = sound.clone();
    market.rounds[0].bull_amount = u128::MAX;
    assert!(!market.volume_matches_pools());

    let mut market = sound.clone();
    market.accumulated_fee += 1_000;
    market.is_haulted = true;
    assert!(market.is_well_formed());
}
