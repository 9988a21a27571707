use price_prediction::error::ContractError;
use price_prediction::ledger::{BetLedger, Order};
use price_prediction::msg::{Config, Direction};
use price_prediction::settlement::payout_for;
use price_prediction::state::{BetInfo, Market};
use price_prediction::timestamp::Timestamp;

/// A small linear congruential generator, so that the walk is the same on
/// every run.
struct Dice(u64);

impl Dice {
    fn roll(&mut self, sides: u64) -> u64 {
        self.0 = self.0.wrapping_mul(6364136223846793005).wrapping_add(1442695040888963407);
        (self.0 >> 33) % sides
    }
}

fn config() -> Config {
    Config {
        next_round_seconds: 50,
        fast_oracle_addr: "oracle".to_string(),
        minimum_bet: 5,
        burn_fee: 0,
        gaming_fee: 150,
        token_addr: "token".to_string(),
    }
}

fn expected_reward(market: &Market, player: &str) -> u128 {
    market
        .bets
        .records()
        .iter()
        .filter(|bet| bet.player == player && (bet.round_id as usize) < market.rounds.len())
        .map(|bet| payout_for(&market.rounds[bet.round_id as usize], bet))
        .sum()
}

fn expected_games(market: &Market, player: &str) -> Vec<BetInfo> {
    market.bets.records().iter().filter(|bet| bet.player == player).cloned().collect()
}

#[test]
fn random_walk_keeps_the_market_well_formed() {
    let players = ["ann", "bob", "cyd", "dee"];
    let mut dice = Dice(2024);
    let mut market = Market::new(config());
    let mut now: u64 = 0;
    let mut paid_in: u128 = 0;
    let mut paid_out: u128 = 0;
    for _ in 0..600 {
        now += dice.roll(30);
        let time = Timestamp::from_seconds(now).unwrap();
        let before = market.clone();
        match dice.roll(4) {
            0 => {
                let price = if dice.roll(5) == 0 { None } else { Some(100 + dice.roll(7) as u128) };
                match market.advance(time, price) {
                    Ok(_) => {}
                    Err(e) => {
                        assert_eq!(e, ContractError::PriceUnavailable);
                        assert!(before.needs_price(time) && price.is_none());
                        assert_eq!(market, before);
                    }
                }
            }
            1 | 2 => {
                let player = players[dice.roll(4) as usize].to_string();
                let round_id = market.next_round_id.saturating_sub(dice.roll(2) as u128 + 1);
                let gross = dice.roll(2_000) as u128;
                let direction = if dice.roll(2) == 0 { Direction::Bull } else { Direction::Bear };
                match market.place_bet(round_id, &player, gross, direction, time) {
                    Ok(bet) => {
                        assert_eq!(bet.amount, gross - gross * 150 / 10_000);
                        assert_eq!(market.bets.len(), before.bets.len() + 1);
                        paid_in += gross;
                    }
                    Err(_) => assert_eq!(market, before),
                }
            }
            _ => {
                let player = players[dice.roll(4) as usize];
                let expected = expected_reward(&market, player);
                assert_eq!(market.pending_reward(&player.to_string()), expected);
                match market.collect(&player.to_string()) {
                    Ok(amount) => {
                        assert!(amount > 0);
                        assert_eq!(amount, expected);
                        assert_eq!(market.pending_reward(&player.to_string()), 0);
                        assert_eq!(
                            market.collect(&player.to_string()),
                            Err(ContractError::NothingToClaim)
                        );
                        paid_out += amount;
                    }
                    Err(e) => {
                        assert_eq!(e, ContractError::NothingToClaim);
                        assert_eq!(expected, 0);
                        assert_eq!(market, before);
                    }
                }
            }
        }
        assert!(market.is_well_formed());
        assert_eq!(market.accumulated_fee + market.total_volume, paid_in);
        assert!(paid_out <= market.total_volume);
        assert_eq!(market.bets, BetLedger::from_bets(market.bets.records().clone()));
        for player in players {
            let name = player.to_string();
            let games = expected_games(&market, player);
            assert_eq!(market.bets.player_range(&name, None, None, Order::Ascending), games);
            let mut reversed = games.clone();
            reversed.reverse();
            assert_eq!(market.bets.player_range(&name, None, None, Order::Descending), reversed);
            for pair in games.windows(2) {
                assert!(pair[0].round_id < pair[1].round_id);
            }
        }
    }
    assert!(market.rounds.len() > 20);
    assert!(paid_out > 0);
}
