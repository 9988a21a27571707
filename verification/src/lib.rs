//! A recurring bull/bear prediction market.
//!
//! Players bet on whether a reference price will rise or fall over a fixed
//! window. A round takes bets while it is *bidding*, is *live* between its
//! opening and its closing price, and is *finished* once the closing price
//! is known. The stakes of the losing side go to the winning side in
//! proportion to each winner's stake; a fee is taken from every bet when it
//! is placed.
//!
//! The whole state of the market is one [`state::Market`]. Every operation
//! takes it as an argument, either completes or leaves it untouched, and
//! keeps it well formed (see [`state::MarketView::wf`]). What the market
//! needs from outside (the time, the caller, the administrator, the price)
//! comes with each call as plain values in [`execute::Env`] and
//! [`execute::MessageInfo`]; what it wants done outside (moving tokens)
//! goes back as plain values in [`execute::Response`].
//!
//! The modules follow the parts of the market: [`scheduler`] moves the
//! rounds on, [`betting`] takes bets, [`fee`] computes the fee,
//! [`ledger`] keeps the bets, [`settlement`] pays them out. [`execute`] and
//! [`query`] are the entry points. [`history`] states what holds of a
//! market over its whole life, and [`audit`] checks a market at run time.

pub mod audit;
pub mod betting;
pub mod error;
pub mod execute;
pub mod fee;
pub mod history;
pub mod ledger;
pub mod msg;
pub mod query;
pub mod ratio;
pub mod scheduler;
pub mod settlement;
pub mod state;
pub mod timestamp;
