//! The round scheduler: it moves the market from one round to the next.
//!
//! One call does three things in this order, each only where it is due:
//! it closes the live round, it makes the bidding round live, and it
//! creates a new bidding round. The order keeps two rounds from being live
//! at once and lets the betting windows follow each other without a gap. A
//! call that finds nothing due changes nothing and is no error.

use crate::error::ContractError;
use crate::ledger::{lemma_staked_absent, staked};
use crate::msg::{Direction, FinishedRound, LiveRound, NextRound};
use crate::state::{lemma_pools_total_push, lemma_stakes_within_pool, Market, MarketView};
use crate::timestamp::{Timestamp, NANOS_PER_SECOND};
use vstd::prelude::*;

verus! {

/// What one call of the scheduler did.
#[derive(Clone, Copy, Debug, PartialEq, Eq, Structural)]
pub struct AdvanceOutcome {
    /// The round that was closed, as it is now recorded.
    pub closed: Option<FinishedRound>,
    /// The round that went live.
    pub opened: Option<LiveRound>,
    /// The round that was created and now takes bets.
    pub created: Option<NextRound>,
}

/// The side that wins when the price moves from `open_price` to
/// `close_price`; neither where it stays.
pub open spec fn winner_of(open_price: u128, close_price: u128) -> Option<Direction> {
    if close_price > open_price {
        Some(Direction::Bull)
    } else if close_price < open_price {
        Some(Direction::Bear)
    } else {
        None
    }
}

/// The record of a live round that closes at `close_price`.
pub open spec fn closed_round(live: LiveRound, close_price: u128) -> FinishedRound {
    FinishedRound {
        id: live.id,
        bid_time: live.bid_time,
        open_time: live.open_time,
        close_time: live.close_time,
        open_price: live.open_price,
        close_price,
        winner: winner_of(live.open_price, close_price),
        bull_amount: live.bull_amount,
        bear_amount: live.bear_amount,
    }
}

/// The record of a bidding round that goes live at `now` with
/// `open_price`, to close at `close_time`.
pub open spec fn opened_round(
    bidding: NextRound,
    now: Timestamp,
    open_price: u128,
    close_time: Timestamp,
) -> LiveRound {
    LiveRound {
        id: bidding.id,
        bid_time: bidding.bid_time,
        open_time: now,
        close_time,
        open_price,
        bull_amount: bidding.bull_amount,
        bear_amount: bidding.bear_amount,
    }
}

/// The record of a round created at `now` that takes bets until
/// `open_time`.
pub open spec fn created_round(
    id: u128,
    now: Timestamp,
    open_time: Timestamp,
    close_time: Timestamp,
) -> NextRound {
    NextRound { id, bid_time: now, open_time, close_time, bull_amount: 0, bear_amount: 0 }
}

/// The time with the given number of nanoseconds, which must fit.
pub open spec fn at_nanos(nanos: int) -> Timestamp {
    Timestamp { nanos: nanos as u64 }
}

impl MarketView {
    /// The length of a round in nanoseconds.
    pub open spec fn round_nanos(self) -> int {
        self.config.spec_round_seconds() * NANOS_PER_SECOND
    }

    /// A call at `now` closes the live round.
    pub open spec fn closes(self, now: Timestamp) -> bool {
        self.live_round is Some && now.nanos >= self.live_round.unwrap().close_time.nanos
    }

    /// A call at `now` makes the bidding round live.
    pub open spec fn promotes(self, now: Timestamp) -> bool {
        &&& self.next_round is Some
        &&& self.live_round is None || self.closes(now)
        &&& now.nanos >= self.next_round.unwrap().open_time.nanos
    }

    /// A call at `now` creates a bidding round.
    pub open spec fn creates(self, now: Timestamp) -> bool {
        self.next_round is None || self.promotes(now)
    }

    /// A call at `now` reads the price feed.
    pub open spec fn needs_price(self, now: Timestamp) -> bool {
        self.closes(now) || self.promotes(now)
    }

    /// When the round that goes live at `now` will close, in nanoseconds.
    pub open spec fn live_close_after(self, now: Timestamp) -> int {
        now.nanos + self.round_nanos()
    }

    /// When the round that is created at `now` will stop taking bets, in
    /// nanoseconds: when the live round closes, or one round from now
    /// where there is no live round.
    pub open spec fn next_open_after(self, now: Timestamp) -> int {
        if self.promotes(now) {
            self.live_close_after(now)
        } else if self.live_round is Some && !self.closes(now) {
            self.live_round.unwrap().close_time.nanos as int
        } else {
            now.nanos + self.round_nanos()
        }
    }

    /// A call at `now` would take a time or the round counter out of its
    /// range.
    pub open spec fn advance_overflows(self, now: Timestamp) -> bool {
        ||| self.promotes(now) && self.live_close_after(now) > u64::MAX
        ||| self.creates(now) && (self.next_open_after(now) + self.round_nanos() > u64::MAX
            || self.next_round_id + 1 > u128::MAX)
    }

    /// What a call at `now` that reads `price` reports.
    pub open spec fn advance_outcome(self, now: Timestamp, price: u128) -> AdvanceOutcome {
        AdvanceOutcome {
            closed: if self.closes(now) {
                Some(closed_round(self.live_round.unwrap(), price))
            } else {
                None
            },
            opened: if self.promotes(now) {
                Some(
                    opened_round(
                        self.next_round.unwrap(),
                        now,
                        price,
                        at_nanos(self.live_close_after(now)),
                    ),
                )
            } else {
                None
            },
            created: if self.creates(now) {
                Some(
                    created_round(
                        self.next_round_id,
                        now,
                        at_nanos(self.next_open_after(now)),
                        at_nanos(self.next_open_after(now) + self.round_nanos()),
                    ),
                )
            } else {
                None
            },
        }
    }

    /// The market after a call at `now` that reads `price`.
    pub open spec fn advanced(self, now: Timestamp, price: u128) -> MarketView {
        let outcome = self.advance_outcome(now, price);
        MarketView {
            rounds: if outcome.closed is Some {
                self.rounds.push(outcome.closed.unwrap())
            } else {
                self.rounds
            },
            live_round: if outcome.opened is Some {
                outcome.opened
            } else if outcome.closed is Some {
                None
            } else {
                self.live_round
            },
            next_round: if outcome.created is Some {
                outcome.created
            } else {
                self.next_round
            },
            next_round_id: if outcome.created is Some {
                (self.next_round_id + 1) as u128
            } else {
                self.next_round_id
            },
            ..self
        }
    }

    /// What a call at `now` does, given what the price feed answered: the
    /// market after it and what it reports, or why it was refused.
    pub open spec fn advance_result(self, now: Timestamp, price: Option<u128>) -> Result<
        (MarketView, AdvanceOutcome),
        ContractError,
    > {
        if self.needs_price(now) && price is None {
            Err(ContractError::PriceUnavailable)
        } else if self.advance_overflows(now) {
            Err(ContractError::Overflow)
        } else {
            let feed = if self.needs_price(now) {
                price.unwrap()
            } else {
                0
            };
            Ok((self.advanced(now, feed), self.advance_outcome(now, feed)))
        }
    }

    /// The number of phases that hold a round with the given id.
    pub open spec fn phases_holding(self, id: u128) -> int {
        (if exists|i: int| 0 <= i < self.rounds.len() && (#[trigger] self.rounds[i]).id == id {
            1int
        } else {
            0int
        }) + (if self.live_round is Some && self.live_round.unwrap().id == id {
            1int
        } else {
            0int
        }) + (if self.next_round is Some && self.next_round.unwrap().id == id {
            1int
        } else {
            0int
        })
    }
}

/// Settles a live round at `close_price`: the bulls win where the price
/// has risen, the bears where it has fallen, nobody where it has not
/// moved.
pub fn compute_round_close(round: &LiveRound, close_price: u128) -> (finished: FinishedRound)
    ensures
        finished == closed_round(*round, close_price),
{
    let winner = if close_price > round.open_price {
        Some(Direction::Bull)
    } else if close_price < round.open_price {
        Some(Direction::Bear)
    } else {
        None
    };
    FinishedRound {
        id: round.id,
        bid_time: round.bid_time,
        open_time: round.open_time,
        close_time: round.close_time,
        open_price: round.open_price,
        close_price,
        winner,
        bull_amount: round.bull_amount,
        bear_amount: round.bear_amount,
    }
}

/// Makes a bidding round live at `now` with `open_price`, to close
/// `round_seconds` later; `None` where that time cannot be represented.
pub fn compute_round_open(
    round: &NextRound,
    now: Timestamp,
    open_price: u128,
    round_seconds: u64,
) -> (live: Option<LiveRound>)
    ensures
        now.spec_plus_seconds(round_seconds) <= u64::MAX ==> live == Some(
            opened_round(*round, now, open_price, at_nanos(now.spec_plus_seconds(round_seconds))),
        ),
        now.spec_plus_seconds(round_seconds) > u64::MAX ==> live is None,
{
    match now.plus_seconds(round_seconds) {
        Some(close_time) => Some(
            LiveRound {
                id: round.id,
                bid_time: round.bid_time,
                open_time: now,
                close_time,
                open_price,
                bull_amount: round.bull_amount,
                bear_amount: round.bear_amount,
            },
        ),
        None => None,
    }
}

/// Creates the bidding round with the given id at `now`. It takes bets
/// until the live round closes, or for `round_seconds` where no round is
/// live, and will itself be live for `round_seconds`. `None` where one of
/// these times cannot be represented.
pub fn new_bid_round(id: u128, now: Timestamp, live: Option<LiveRound>, round_seconds: u64) -> (bidding:
    Option<NextRound>)
    ensures
        ({
            let open = match live {
                Some(live) => live.close_time.nanos as int,
                None => now.spec_plus_seconds(round_seconds),
            };
            let close = open + round_seconds * NANOS_PER_SECOND;
            &&& close <= u64::MAX ==> bidding == Some(
                created_round(id, now, at_nanos(open), at_nanos(close)),
            )
            &&& close > u64::MAX ==> bidding is None
        }),
{
    let open_time = match live {
        Some(live) => live.close_time,
        None => match now.plus_seconds(round_seconds) {
            Some(time) => time,
            None => {
                return None;
            },
        },
    };
    match open_time.plus_seconds(round_seconds) {
        Some(close_time) => Some(
            NextRound { id, bid_time: now, open_time, close_time, bull_amount: 0, bear_amount: 0 },
        ),
        None => None,
    }
}

impl Market {
    /// Whether a call of [`Market::advance`] at `now` reads the price feed.
    pub fn needs_price(&self, now: Timestamp) -> (needed: bool)
        ensures
            needed == self@.needs_price(now),
    {
        let closes = match self.live_round {
            Some(live) => now.nanos >= live.close_time.nanos,
            None => false,
        };
        let promotes = match self.next_round {
            Some(bidding) => (self.live_round.is_none() || closes) && now.nanos
                >= bidding.open_time.nanos,
            None => false,
        };
        closes || promotes
    }

    /// Moves the market on to `now`. `price` is what the price feed
    /// answered, `None` where it gave no answer; it is read only where a
    /// round closes or goes live. A call that is refused changes nothing.
    pub fn advance(&mut self, now: Timestamp, price: Option<u128>) -> (r: Result<
        AdvanceOutcome,
        ContractError,
    >)
        requires
            old(self).wf(),
        ensures
            final(self).wf(),
            match old(self)@.advance_result(now, price) {
                Ok((market, outcome)) => final(self)@ == market && r == Ok::<
                    AdvanceOutcome,
                    ContractError,
                >(outcome),
                Err(e) => final(self)@ == old(self)@ && r == Err::<AdvanceOutcome, ContractError>(e),
            },
    {
        let round_seconds = self.config.round_seconds();
        let closes = match self.live_round {
            Some(live) => now.nanos >= live.close_time.nanos,
            None => false,
        };
        let promotes = match self.next_round {
            Some(bidding) => (self.live_round.is_none() || closes) && now.nanos
                >= bidding.open_time.nanos,
            None => false,
        };
        let creates = self.next_round.is_none() || promotes;
        let feed = if closes || promotes {
            match price {
                Some(feed) => feed,
                None => {
                    return Err(ContractError::PriceUnavailable);
                },
            }
        } else {
            0
        };
        let closed = match self.live_round {
            Some(live) => if closes {
                Some(compute_round_close(&live, feed))
            } else {
                None
            },
            None => None,
        };
        let opened = match self.next_round {
            Some(bidding) => if promotes {
                match compute_round_open(&bidding, now, feed, round_seconds) {
                    Some(live) => Some(live),
                    None => {
                        return Err(ContractError::Overflow);
                    },
                }
            } else {
                None
            },
            None => None,
        };
        let live_after = if promotes {
            opened
        } else if closes {
            None
        } else {
            self.live_round
        };
        let mut next_round_id = self.next_round_id;
        let created = if creates {
            let id = self.next_round_id;
            let bidding = match new_bid_round(id, now, live_after, round_seconds) {
                Some(bidding) => bidding,
                None => {
                    return Err(ContractError::Overflow);
                },
            };
            next_round_id = match id.checked_add(1) {
                Some(next) => next,
                None => {
                    return Err(ContractError::Overflow);
                },
            };
            Some(bidding)
        } else {
            None
        };
        proof {
            assert(!old(self)@.advance_overflows(now));
            assert(old(self)@.advance_outcome(now, feed) == (AdvanceOutcome {
                closed,
                opened,
                created,
            }));
            lemma_advance_keeps_wf(old(self)@, now, feed);
        }
        match closed {
            Some(finished) => {
                self.rounds.push(finished);
            },
            None => {},
        }
        self.live_round = live_after;
        match created {
            Some(bidding) => {
                self.next_round = Some(bidding);
                self.next_round_id = next_round_id;
            },
            None => {},
        }
        assert(self@ == old(self)@.advanced(now, feed));
        Ok(AdvanceOutcome { closed, opened, created })
    }
}

/// A call of the scheduler keeps the market well formed.
pub proof fn lemma_advance_keeps_wf(market: MarketView, now: Timestamp, price: u128)
    requires
        market.wf(),
        !market.advance_overflows(now),
    ensures
        market.advanced(now, price).wf(),
{
    let after = market.advanced(now, price);
    let outcome = market.advance_outcome(now, price);
    if market.closes(now) {
        lemma_pools_total_push(market.rounds, outcome.closed.unwrap());
        assert forall|i: int| 0 <= i < after.rounds.len() implies (#[trigger] after.rounds[i]).id
            == i by {
            if i < market.rounds.len() {
                assert(after.rounds[i] == market.rounds[i]);
            }
        }
    }
    assert(after.rounds_wf());
    assert(after.volume_wf());
    assert forall|i: int| 0 <= i < after.bets.len() implies (#[trigger] after.bets[i]).round_id
        < after.next_round_id by {
        assert(market.bets[i].round_id < market.next_round_id);
    }
    assert forall|round_id: u128, direction: Direction|
        #![trigger staked(after.bets, round_id, direction)]
        #![trigger after.pool_of(round_id, direction)]
        if after.settled(round_id) {
            staked(after.bets, round_id, direction) <= after.pool_of(round_id, direction)
        } else {
            staked(after.bets, round_id, direction) == after.pool_of(round_id, direction)
        } by {
        lemma_stakes_within_pool(market, round_id, direction);
        if round_id < market.rounds.len() {
            assert(after.rounds[round_id as int] == market.rounds[round_id as int]);
        }
        if round_id >= market.next_round_id {
            assert forall|i: int| 0 <= i < market.bets.len() implies (#[trigger] market.bets[i]).round_id
                != round_id by {}
            lemma_staked_absent(market.bets, round_id, direction);
        }
    }
}

/// A call of the scheduler changes no pool: what the records say was
/// staked in a round is the same before and after, whatever phase the
/// round is in.
pub proof fn lemma_advance_keeps_pools(
    market: MarketView,
    now: Timestamp,
    price: u128,
    round_id: u128,
    direction: Direction,
)
    requires
        market.wf(),
        !market.advance_overflows(now),
    ensures
        market.advanced(now, price).pool_of(round_id, direction) == market.pool_of(
            round_id,
            direction,
        ),
{
    let after = market.advanced(now, price);
    if round_id < market.rounds.len() {
        assert(after.rounds[round_id as int] == market.rounds[round_id as int]);
    }
}

/// In a well formed market every round that was created is in exactly one
/// phase, and no phase holds a round that was not created.
pub proof fn lemma_one_phase(market: MarketView, id: u128)
    requires
        market.rounds_wf(),
    ensures
        market.phases_holding(id) == if id < market.next_round_id {
            1int
        } else {
            0int
        },
{
    if id < market.rounds.len() {
        assert(market.rounds[id as int].id == id);
    }
}

/// The market after a sequence of calls of the scheduler, each at its time
/// and with what the price feed answered. A call that is refused changes
/// nothing.
pub open spec fn advanced_all(market: MarketView, calls: Seq<(Timestamp, Option<u128>)>) -> MarketView
    decreases calls.len(),
{
    if calls.len() == 0 {
        market
    } else {
        let before = advanced_all(market, calls.drop_last());
        match before.advance_result(calls.last().0, calls.last().1) {
            Ok((after, _)) => after,
            Err(_) => before,
        }
    }
}

/// Rounds never overlap. After any sequence of calls of the scheduler the
/// market is well formed: at most one round is live and at most one takes
/// bets, and each round that was created is in exactly one phase.
pub proof fn lemma_rounds_never_overlap(
    market: MarketView,
    calls: Seq<(Timestamp, Option<u128>)>,
    id: u128,
)
    requires
        market.wf(),
    ensures
        advanced_all(market, calls).wf(),
        advanced_all(market, calls).phases_holding(id) == if id < advanced_all(
            market,
            calls,
        ).next_round_id {
            1int
        } else {
            0int
        },
    decreases calls.len(),
{
    if calls.len() > 0 {
        let before = advanced_all(market, calls.drop_last());
        lemma_rounds_never_overlap(market, calls.drop_last(), id);
        let (now, price) = calls.last();
        if before.advance_result(now, price) is Ok {
            let feed = if before.needs_price(now) {
                price.unwrap()
            } else {
                0
            };
            lemma_advance_keeps_wf(before, now, feed);
        }
    }
    lemma_one_phase(advanced_all(market, calls), id);
}

/// Calling the scheduler again at the same time does nothing. Where the
/// length of a round in seconds, of which only the lowest 64 bits count,
/// is not zero, a second call at the time of a call that went through
/// reads no price, is never refused, and leaves the market as the first
/// call left it.
pub proof fn lemma_advance_twice(
    market: MarketView,
    now: Timestamp,
    price: Option<u128>,
    again: Option<u128>,
)
    requires
        market.wf(),
        market.config.spec_round_seconds() > 0,
        market.advance_result(now, price) is Ok,
    ensures
        !market.advance_result(now, price).unwrap().0.needs_price(now),
        market.advance_result(now, price).unwrap().0.advance_result(now, again) == Ok::<
            (MarketView, AdvanceOutcome),
            ContractError,
        >(
            (
                market.advance_result(now, price).unwrap().0,
                AdvanceOutcome { closed: None, opened: None, created: None },
            ),
        ),
{
    let after = market.advance_result(now, price).unwrap().0;
    assert(market.round_nanos() > 0) by (nonlinear_arith)
        requires
            market.config.spec_round_seconds() > 0,
            market.round_nanos() == market.config.spec_round_seconds() * 1_000_000_000,
    ;
    assert(after.round_nanos() == market.round_nanos());
    assert(!after.closes(now));
    assert(!after.promotes(now));
    assert(!after.creates(now));
    assert(after.advanced(now, 0) == after);
}

} // verus!
