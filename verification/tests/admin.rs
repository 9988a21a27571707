use price_prediction::error::ContractError;
use price_prediction::execute::{
    assert_is_admin, assert_not_haulted, execute, get_bank_transfer_to_msg,
    get_cw20_burn_from_msg, get_cw20_transfer_from_msg, get_cw20_transfer_msg, instantiate,
    migrate, Env, MessageInfo, Response, TransferMsg,
};
use price_prediction::msg::{Config, ExecuteMsg, InstantiateMsg, MigrateMsg};
use price_prediction::state::Market;
use price_prediction::timestamp::Timestamp;

fn config(minimum_bet: u128) -> Config {
    Config {
        next_round_seconds: 300,
        fast_oracle_addr: "oracle".to_string(),
        minimum_bet,
        burn_fee: 0,
        gaming_fee: 100,
        token_addr: "token".to_string(),
    }
}

fn env(admin: Option<&str>) -> Env {
    Env {
        time: Timestamp::from_nanos(0),
        contract_address: "market".to_string(),
        admin: admin.map(|admin| admin.to_string()),
        price: None,
    }
}

fn from(sender: &str) -> MessageInfo {
    MessageInfo { sender: sender.to_string() }
}

fn refused(admin: Option<&str>, sender: &str) -> ContractError {
    ContractError::Unauthorized {
        admin: admin.map(|admin| admin.to_string()),
        sender: sender.to_string(),
    }
}

#[test]
fn new_market_is_empty_and_running() {
    let market = instantiate(InstantiateMsg { config: config(10) });
    assert!(!market.is_haulted);
    assert_eq!(market.config, config(10));
    assert_eq!(market.next_round_id, 0);
    assert_eq!(market.next_round, None);
    assert_eq!(market.live_round, None);
    assert_eq!(market.accumulated_fee, 0);
    assert_eq!(market.total_volume, 0);
    assert!(market.rounds.is_empty());
    assert_eq!(market.bets.len(), 0);
    assert!(market.is_well_formed());
    assert_eq!(market, Market::new(config(10)));
}

#[test]
fn only_the_admin_changes_the_configuration() {
    let mut market = Market::new(config(10));
    let before = market.clone();
    let msg = || ExecuteMsg::UpdateConfig { config: config(25) };
    assert_eq!(
        execute(&mut market, env(Some("admin")), from("mallory"), msg()),
        Err(refused(Some("admin"), "mallory"))
    );
    assert_eq!(
        execute(&mut market, env(None), from("mallory"), msg()),
        Err(refused(None, "mallory"))
    );
    assert_eq!(market, before);
    assert_eq!(
        execute(&mut market, env(Some("admin")), from("admin"), msg()),
        Ok(Response::ConfigUpdated)
    );
    assert_eq!(market.config, config(25));
    assert_eq!(market.next_round_id, before.next_round_id);
    assert!(market.is_well_formed());
}

#[test]
fn only_the_admin_pauses_and_resumes() {
    let mut market = Market::new(config(10));
    assert_eq!(assert_not_haulted(&market), Ok(true));
    assert_eq!(
        execute(&mut market, env(Some("admin")), from("mallory"), ExecuteMsg::Hault {}),
        Err(refused(Some("admin"), "mallory"))
    );
    assert!(!market.is_haulted);
    assert_eq!(
        execute(&mut market, env(Some("admin")), from("admin"), ExecuteMsg::Hault {}),
        Ok(Response::HaultUpdated { is_haulted: true })
    );
    assert!(market.is_haulted);
    assert_eq!(assert_not_haulted(&market), Err(ContractError::Haulted));
    assert_eq!(
        execute(&mut market, env(Some("admin")), from("mallory"), ExecuteMsg::Resume {}),
        Err(refused(Some("admin"), "mallory"))
    );
    assert!(market.is_haulted);
    assert_eq!(
        execute(&mut market, env(Some("admin")), from("admin"), ExecuteMsg::Resume {}),
        Ok(Response::HaultUpdated { is_haulted: false })
    );
    assert!(!market.is_haulted);
}

#[test]
fn paused_market_still_pays_and_answers() {
    let mut market = Market::new(config(10));
    market.advance(Timestamp::from_nanos(0), None).unwrap();
    let player = "a".to_string();
    market
        .place_bet(0, &player, 100, price_prediction::msg::Direction::Bull, Timestamp::from_nanos(1))
        .unwrap();
    market.advance(Timestamp::from_seconds(300).unwrap(), Some(1)).unwrap();
    market.advance(Timestamp::from_seconds(600).unwrap(), Some(2)).unwrap();
    market.is_haulted = true;
    let response = execute(&mut market, env(None), from("a"), ExecuteMsg::CollectWinnings {});
    assert_eq!(
        response,
        Ok(Response::Winnings {
            amount: 99,
            transfer: TransferMsg::Cw20Transfer {
                token_addr: "token".to_string(),
                recipient: "a".to_string(),
                amount: 99,
            },
        })
    );
}

#[test]
fn admin_is_the_sender_the_host_names() {
    assert_eq!(assert_is_admin(from("admin"), env(Some("admin"))), Ok(true));
    assert_eq!(
        assert_is_admin(from("Admin"), env(Some("admin"))),
        Err(refused(Some("admin"), "Admin"))
    );
    assert_eq!(assert_is_admin(from("admin"), env(None)), Err(refused(None, "admin")));
    // a market without an administrator has the empty address in its place
    assert_eq!(assert_is_admin(from(""), env(None)), Ok(true));
    assert_eq!(assert_is_admin(from(""), env(Some("admin"))), Err(refused(Some("admin"), "")));
}

#[test]
fn migration_is_for_the_same_contract_only() {
    assert_eq!(migrate(&"price_prediction".to_string(), MigrateMsg {}), Ok(()));
    assert_eq!(
        migrate(&"price-prediction".to_string(), MigrateMsg {}),
        Err(ContractError::WrongContract)
    );
    assert_eq!(migrate(&"".to_string(), MigrateMsg {}), Err(ContractError::WrongContract));
    assert_eq!(
        migrate(&"price_prediction2".to_string(), MigrateMsg {}),
        Err(ContractError::WrongContract)
    );
}

#[test]
fn transfer_orders_carry_their_parties_and_amount() {
    let token = "token".to_string();
    let alice = "alice".to_string();
    let bob = "bob".to_string();
    assert_eq!(
        get_cw20_transfer_msg(&token, &alice, 5),
        TransferMsg::Cw20Transfer { token_addr: token.clone(), recipient: alice.clone(), amount: 5 }
    );
    assert_eq!(
        get_cw20_transfer_from_msg(&token, &alice, &bob, 6),
        TransferMsg::Cw20TransferFrom {
            token_addr: token.clone(),
            owner: alice.clone(),
            recipient: bob.clone(),
            amount: 6,
        }
    );
    assert_eq!(
        get_cw20_burn_from_msg(&token, &alice, 7),
        TransferMsg::Cw20BurnFrom { token_addr: token.clone(), owner: alice.clone(), amount: 7 }
    );
    assert_eq!(
        get_bank_transfer_to_msg(&bob, "uusd", 8),
        TransferMsg::BankSend { recipient: bob.clone(), denom: "uusd".to_string(), amount: 8 }
    );
}
