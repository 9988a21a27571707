//! The operations that change the market, as the host delivers them.
//!
//! Every operation either completes or is refused; a refused operation
//! leaves the market as it was.

use crate::error::ContractError;
use crate::ledger::staked;
use crate::msg::{Config, Direction, ExecuteMsg, InstantiateMsg, MigrateMsg};
use crate::scheduler::AdvanceOutcome;
use crate::state::{bidding_side, lemma_stakes_within_pool, BetInfo, Market, MarketView};
use crate::timestamp::Timestamp;
use vstd::prelude::*;

verus! {

/// What the host and the market's collaborators say about a call.
#[derive(Debug, PartialEq, Eq)]
pub struct Env {
    /// The time of the block that carries the call.
    pub time: Timestamp,
    /// The address of the market itself.
    pub contract_address: String,
    /// The market's administrator, if it has one.
    pub admin: Option<String>,
    /// What the price feed answers; `None` where it gives no answer.
    pub price: Option<u128>,
}

/// Who makes a call.
#[derive(Debug, PartialEq, Eq)]
pub struct MessageInfo {
    pub sender: String,
}

impl Clone for Env {
    fn clone(&self) -> (copy: Self)
        ensures
            copy == *self,
    {
        Env {
            time: self.time,
            contract_address: self.contract_address.clone(),
            admin: match &self.admin {
                Some(admin) => Some(admin.clone()),
                None => None,
            },
            price: self.price,
        }
    }
}

impl Clone for MessageInfo {
    fn clone(&self) -> (copy: Self)
        ensures
            copy == *self,
    {
        MessageInfo { sender: self.sender.clone() }
    }
}

/// An order to move funds, for the token contract or the bank to carry
/// out.
#[derive(Debug, PartialEq, Eq)]
pub enum TransferMsg {
    /// Move `amount` of the token from the market to `recipient`.
    Cw20Transfer { token_addr: String, recipient: String, amount: u128 },
    /// Move `amount` of the token from `owner` to `recipient`.
    Cw20TransferFrom { token_addr: String, owner: String, recipient: String, amount: u128 },
    /// Destroy `amount` of the token held by `owner`.
    Cw20BurnFrom { token_addr: String, owner: String, amount: u128 },
    /// Send `amount` of the native coin `denom` to `recipient`.
    BankSend { recipient: String, denom: String, amount: u128 },
}

/// What an operation that completed did.
#[derive(Debug, PartialEq, Eq)]
pub enum Response {
    /// The configuration was replaced.
    ConfigUpdated,
    /// A bet was recorded. `round_total` is what is now staked on its
    /// side; `transfer` pulls the whole stake, fee included, from the
    /// player.
    Bet { bet: BetInfo, round_total: u128, transfer: TransferMsg },
    /// The scheduler ran.
    RoundsAdvanced { outcome: AdvanceOutcome },
    /// Winnings were collected; `transfer` pays them to the player.
    Winnings { amount: u128, transfer: TransferMsg },
    /// Betting and advancing were paused or resumed.
    HaultUpdated { is_haulted: bool },
}

/// The name under which the market is registered.
pub open spec fn contract_name() -> Seq<char> {
    "price_prediction"@
}

/// The administrator named by `env`: the empty address where there is
/// none.
pub open spec fn admin_of(env: Env) -> Seq<char> {
    match env.admin {
        Some(admin) => admin@,
        None => Seq::empty(),
    }
}

impl MarketView {
    /// What a bet does when it arrives as a message.
    pub open spec fn execute_bet_result(
        self,
        info: MessageInfo,
        env: Env,
        round_id: u128,
        direction: Direction,
        gross: u128,
    ) -> Result<(MarketView, Response), ContractError> {
        if self.is_haulted {
            Err(ContractError::Haulted)
        } else {
            match self.bet_result(round_id, info.sender, gross, direction, env.time) {
                Err(e) => Err(e),
                Ok((market, bet)) => Ok(
                    (
                        market,
                        Response::Bet {
                            bet,
                            round_total: bidding_side(market.next_round.unwrap(), direction),
                            transfer: TransferMsg::Cw20TransferFrom {
                                token_addr: self.config.token_addr,
                                owner: info.sender,
                                recipient: env.contract_address,
                                amount: gross,
                            },
                        },
                    ),
                ),
            }
        }
    }

    /// What a call of the scheduler does when it arrives as a message.
    pub open spec fn execute_close_round_result(self, env: Env) -> Result<
        (MarketView, Response),
        ContractError,
    > {
        if self.is_haulted {
            Err(ContractError::Haulted)
        } else {
            match self.advance_result(env.time, env.price) {
                Err(e) => Err(e),
                Ok((market, outcome)) => Ok((market, Response::RoundsAdvanced { outcome })),
            }
        }
    }

    /// What collecting does when it arrives as a message.
    pub open spec fn execute_collect_winnings_result(self, info: MessageInfo) -> Result<
        (MarketView, Response),
        ContractError,
    > {
        match self.collect_result(info.sender@) {
            Err(e) => Err(e),
            Ok((market, amount)) => Ok(
                (
                    market,
                    Response::Winnings {
                        amount,
                        transfer: TransferMsg::Cw20Transfer {
                            token_addr: self.config.token_addr,
                            recipient: info.sender,
                            amount,
                        },
                    },
                ),
            ),
        }
    }

    /// Why a privileged call is refused, if it is.
    pub open spec fn admin_rejection(info: MessageInfo, env: Env) -> Option<ContractError> {
        if info.sender@ == admin_of(env) {
            None
        } else {
            Some(
                ContractError::Unauthorized { admin: env.admin, sender: info.sender },
            )
        }
    }

    /// What a message does: the market after it and the response, or why
    /// it was refused.
    pub open spec fn execute_result(self, env: Env, info: MessageInfo, msg: ExecuteMsg) -> Result<
        (MarketView, Response),
        ContractError,
    > {
        match msg {
            ExecuteMsg::UpdateConfig { config } => match Self::admin_rejection(info, env) {
                Some(e) => Err(e),
                None => Ok((MarketView { config, ..self }, Response::ConfigUpdated)),
            },
            ExecuteMsg::BetBear { round_id, amount } => self.execute_bet_result(
                info,
                env,
                round_id,
                Direction::Bear,
                amount,
            ),
            ExecuteMsg::BetBull { round_id, amount } => self.execute_bet_result(
                info,
                env,
                round_id,
                Direction::Bull,
                amount,
            ),
            ExecuteMsg::CloseRound {  } => self.execute_close_round_result(env),
            ExecuteMsg::CollectWinnings {  } => self.execute_collect_winnings_result(info),
            ExecuteMsg::Hault {  } => match Self::admin_rejection(info, env) {
                Some(e) => Err(e),
                None => Ok(
                    (
                        MarketView { is_haulted: true, ..self },
                        Response::HaultUpdated { is_haulted: true },
                    ),
                ),
            },
            ExecuteMsg::Resume {  } => match Self::admin_rejection(info, env) {
                Some(e) => Err(e),
                None => Ok(
                    (
                        MarketView { is_haulted: false, ..self },
                        Response::HaultUpdated { is_haulted: false },
                    ),
                ),
            },
        }
    }
}

/// Creates the market: nothing is paused, no round exists, no fee has
/// been taken and nothing has been staked.
pub fn instantiate(msg: InstantiateMsg) -> (market: Market)
    ensures
        market@ == (MarketView {
            is_haulted: false,
            config: msg.config,
            next_round_id: 0,
            next_round: None,
            live_round: None,
            accumulated_fee: 0,
            rounds: Seq::empty(),
            total_volume: 0,
            bets: Seq::empty(),
        }),
        market.wf(),
{
    Market::new(msg.config)
}

/// Allows an upgrade only of a contract that is registered under this
/// market's name.
pub fn migrate(stored_contract: &String, msg: MigrateMsg) -> (r: Result<(), ContractError>)
    ensures
        r == if stored_contract@ == contract_name() {
            Ok::<(), ContractError>(())
        } else {
            Err::<(), ContractError>(ContractError::WrongContract)
        },
{
    let name = "price_prediction".to_owned();
    if *stored_contract != name {
        return Err(ContractError::WrongContract);
    }
    Ok(())
}

/// Carries out one message.
pub fn execute(market: &mut Market, env: Env, info: MessageInfo, msg: ExecuteMsg) -> (r: Result<
    Response,
    ContractError,
>)
    requires
        old(market).wf(),
    ensures
        final(market).wf(),
        match old(market)@.execute_result(env, info, msg) {
            Ok((after, response)) => final(market)@ == after && r == Ok::<Response, ContractError>(
                response,
            ),
            Err(e) => final(market)@ == old(market)@ && r == Err::<Response, ContractError>(e),
        },
{
    match msg {
        ExecuteMsg::UpdateConfig { config } => execute_update_config(market, info, env, config),
        ExecuteMsg::BetBear { round_id, amount } => execute_bet(
            market,
            info,
            env,
            round_id,
            Direction::Bear,
            amount,
        ),
        ExecuteMsg::BetBull { round_id, amount } => execute_bet(
            market,
            info,
            env,
            round_id,
            Direction::Bull,
            amount,
        ),
        ExecuteMsg::CloseRound {  } => execute_close_round(market, info, env),
        ExecuteMsg::CollectWinnings {  } => execute_collect_winnings(market, info),
        ExecuteMsg::Hault {  } => execute_update_hault(market, info, env, true),
        ExecuteMsg::Resume {  } => execute_update_hault(market, info, env, false),
    }
}

/// Pays the sender what their bets in finished rounds are worth.
pub fn execute_collect_winnings(market: &mut Market, info: MessageInfo) -> (r: Result<
    Response,
    ContractError,
>)
    requires
        old(market).wf(),
    ensures
        final(market).wf(),
        match old(market)@.execute_collect_winnings_result(info) {
            Ok((after, response)) => final(market)@ == after && r == Ok::<Response, ContractError>(
                response,
            ),
            Err(e) => final(market)@ == old(market)@ && r == Err::<Response, ContractError>(e),
        },
{
    let winnings = match market.collect(&info.sender) {
        Ok(winnings) => winnings,
        Err(e) => {
            return Err(e);
        },
    };
    let msg_send_winnings = get_cw20_transfer_msg(&market.config.token_addr, &info.sender, winnings);
    Ok(Response::Winnings { amount: winnings, transfer: msg_send_winnings })
}

/// Records a bet of the sender, unless betting is paused.
pub fn execute_bet(
    market: &mut Market,
    info: MessageInfo,
    env: Env,
    round_id: u128,
    dir: Direction,
    gross: u128,
) -> (r: Result<Response, ContractError>)
    requires
        old(market).wf(),
    ensures
        final(market).wf(),
        match old(market)@.execute_bet_result(info, env, round_id, dir, gross) {
            Ok((after, response)) => final(market)@ == after && r == Ok::<Response, ContractError>(
                response,
            ),
            Err(e) => final(market)@ == old(market)@ && r == Err::<Response, ContractError>(e),
        },
{
    match assert_not_haulted(market) {
        Ok(_) => {},
        Err(e) => {
            return Err(e);
        },
    }
    let bet = match market.place_bet(round_id, &info.sender, gross, dir, env.time) {
        Ok(bet) => bet,
        Err(e) => {
            return Err(e);
        },
    };
    let round_total = match market.next_round {
        Some(bet_round) => match dir {
            Direction::Bull => bet_round.bull_amount,
            Direction::Bear => bet_round.bear_amount,
        },
        None => 0,
    };
    let transfer_from_msg = get_cw20_transfer_from_msg(
        &market.config.token_addr,
        &info.sender,
        &env.contract_address,
        gross,
    );
    Ok(Response::Bet { bet, round_total, transfer: transfer_from_msg })
}

/// Runs the scheduler at the time of the call, unless advancing is
/// paused. Anyone may call it.
pub fn execute_close_round(market: &mut Market, _info: MessageInfo, env: Env) -> (r: Result<
    Response,
    ContractError,
>)
    requires
        old(market).wf(),
    ensures
        final(market).wf(),
        match old(market)@.execute_close_round_result(env) {
            Ok((after, response)) => final(market)@ == after && r == Ok::<Response, ContractError>(
                response,
            ),
            Err(e) => final(market)@ == old(market)@ && r == Err::<Response, ContractError>(e),
        },
{
    match assert_not_haulted(market) {
        Ok(_) => {},
        Err(e) => {
            return Err(e);
        },
    }
    match market.advance(env.time, env.price) {
        Ok(outcome) => Ok(Response::RoundsAdvanced { outcome }),
        Err(e) => Err(e),
    }
}

/// Replaces the configuration, for the administrator only.
pub fn execute_update_config(market: &mut Market, info: MessageInfo, env: Env, config: Config) -> (r:
    Result<Response, ContractError>)
    requires
        old(market).wf(),
    ensures
        final(market).wf(),
        match MarketView::admin_rejection(info, env) {
            Some(e) => final(market)@ == old(market)@ && r == Err::<Response, ContractError>(e),
            None => final(market)@ == (MarketView { config, ..old(market)@ }) && r == Ok::<
                Response,
                ContractError,
            >(Response::ConfigUpdated),
        },
{
    match assert_is_admin(info, env) {
        Ok(_) => {},
        Err(e) => {
            return Err(e);
        },
    }
    market.config = config;
    proof {
        lemma_setting_keeps_wf(old(market)@, market@);
    }
    Ok(Response::ConfigUpdated)
}

/// Succeeds unless betting and advancing are paused.
pub fn assert_not_haulted(market: &Market) -> (r: Result<bool, ContractError>)
    ensures
        r == if market.is_haulted {
            Err::<bool, ContractError>(ContractError::Haulted)
        } else {
            Ok::<bool, ContractError>(true)
        },
{
    if market.is_haulted {
        return Err(ContractError::Haulted);
    }
    Ok(true)
}

/// Pauses or resumes betting and advancing, for the administrator only.
pub fn execute_update_hault(market: &mut Market, info: MessageInfo, env: Env, is_haulted: bool) -> (r:
    Result<Response, ContractError>)
    requires
        old(market).wf(),
    ensures
        final(market).wf(),
        match MarketView::admin_rejection(info, env) {
            Some(e) => final(market)@ == old(market)@ && r == Err::<Response, ContractError>(e),
            None => final(market)@ == (MarketView { is_haulted, ..old(market)@ }) && r == Ok::<
                Response,
                ContractError,
            >(Response::HaultUpdated { is_haulted }),
        },
{
    match assert_is_admin(info, env) {
        Ok(_) => {},
        Err(e) => {
            return Err(e);
        },
    }
    market.is_haulted = is_haulted;
    proof {
        lemma_setting_keeps_wf(old(market)@, market@);
    }
    Ok(Response::HaultUpdated { is_haulted })
}

/// Succeeds where the sender is the administrator that `env` names. A
/// market without an administrator has the empty address in its place.
pub fn assert_is_admin(info: MessageInfo, env: Env) -> (r: Result<bool, ContractError>)
    ensures
        r == match MarketView::admin_rejection(info, env) {
            Some(e) => Err::<bool, ContractError>(e),
            None => Ok::<bool, ContractError>(true),
        },
{
    let is_admin = match &env.admin {
        Some(admin) => info.sender == *admin,
        None => info.sender == String::new(),
    };
    if !is_admin {
        return Err(ContractError::Unauthorized { admin: env.admin, sender: info.sender });
    }
    Ok(true)
}

/// The order to pay `amount` of the token to `recipient`.
pub fn get_cw20_transfer_msg(token_addr: &String, recipient: &String, amount: u128) -> (msg:
    TransferMsg)
    ensures
        msg == (TransferMsg::Cw20Transfer {
            token_addr: *token_addr,
            recipient: *recipient,
            amount,
        }),
{
    TransferMsg::Cw20Transfer {
        token_addr: token_addr.clone(),
        recipient: recipient.clone(),
        amount,
    }
}

/// The order to move `amount` of the token from `owner` to `recipient`.
pub fn get_cw20_transfer_from_msg(
    token_addr: &String,
    owner: &String,
    recipient: &String,
    amount: u128,
) -> (msg: TransferMsg)
    ensures
        msg == (TransferMsg::Cw20TransferFrom {
            token_addr: *token_addr,
            owner: *owner,
            recipient: *recipient,
            amount,
        }),
{
    TransferMsg::Cw20TransferFrom {
        token_addr: token_addr.clone(),
        owner: owner.clone(),
        recipient: recipient.clone(),
        amount,
    }
}

/// The order to destroy `amount` of the token held by `owner`.
pub fn get_cw20_burn_from_msg(token_addr: &String, owner: &String, amount: u128) -> (msg:
    TransferMsg)
    ensures
        msg == (TransferMsg::Cw20BurnFrom { token_addr: *token_addr, owner: *owner, amount }),
{
    TransferMsg::Cw20BurnFrom { token_addr: token_addr.clone(), owner: owner.clone(), amount }
}

/// The order to send `amount` of the native coin `denom` to `recipient`.
pub fn get_bank_transfer_to_msg(recipient: &String, denom: &str, amount: u128) -> (msg:
    TransferMsg)
    ensures
        msg matches TransferMsg::BankSend { recipient: to, denom: coin, amount: sent } && to
            == *recipient && coin@ == denom@ && sent == amount,
{
    TransferMsg::BankSend { recipient: recipient.clone(), denom: denom.to_owned(), amount }
}

/// A change of the configuration or of the pause leaves a well formed
/// market well formed.
pub proof fn lemma_setting_keeps_wf(before: MarketView, after: MarketView)
    requires
        before.wf(),
        after == (MarketView { config: after.config, is_haulted: after.is_haulted, ..before }),
    ensures
        after.wf(),
{
    assert forall|r: u128, d: Direction|
        #![trigger staked(after.bets, r, d)]
        #![trigger after.pool_of(r, d)]
        if after.settled(r) {
            staked(after.bets, r, d) <= after.pool_of(r, d)
        } else {
            staked(after.bets, r, d) == after.pool_of(r, d)
        } by {
        lemma_stakes_within_pool(before, r, d);
    }
}

} // verus!
